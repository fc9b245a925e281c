[package]
name = "lanbeam"
version = "0.1.0"
edition = "2021"
publish = false

[dependencies]
axum = { version = "=0.7.9", default-features = false, features = ["http1", "tokio"] }
base64 = "=0.22.1"
dunce = "=1.0.5"
getrandom = "=0.3.4"
global-hotkey = "=0.7.0"
if-addrs = "=0.13.4"
img-parts = "=0.3.3"
keyring = { version = "=3.6.3", features = ["apple-native", "async-io", "crypto-rust", "linux-native-async-persistent", "windows-native"] }
log = "0.4"
serde = { version = "1", features = ["derive"] }
serde_json = "1"
snow = "=0.9.6"
socket2 = { version = "=0.5.10", features = ["all"] }
thiserror = "2"
tokio = { version = "=1.54.1", features = ["fs", "io-util", "macros", "net", "rt-multi-thread", "sync", "time"] }
tokio-util = { version = "=0.7.20", features = ["io"] }
uuid = { version = "=1.29.0", features = ["v4"] }
zeroize = "=1.9.1"
