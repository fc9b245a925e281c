use lanbeam::consts::{DEFAULT_HOTKEY, DEFAULT_TCP_PORT};
use lanbeam::error::LanBeamError;
use lanbeam::settings::{
    clamp_max_concurrent, corruption_diag, default_device_name, effective_listen_port,
    finish_rebind, load, parse_iface_filter, plan_rebind, rate_limit_bytes_per_sec,
    shortcut_allowed, store_file_for, valid_hotkey, valid_listen_port, valid_rate_limit,
    HotkeyChange, RebindStep, Settings, StoreFile, MAX_CONCURRENT_RANGE, MAX_RATE_LIMIT_MB,
};

fn defaults() -> Settings {
    Settings::defaults("PC".to_string())
}

#[test]
fn defaults_are_the_documented_ones() {
    let s = defaults();
    assert_eq!(s.device_name, "PC");
    assert!(s.discoverable);
    assert!(s.auto_open_folder);
    assert_eq!(s.log_level, "normal");
    assert_eq!(s.recv_policy, "trusted");
    assert_eq!(s.download_dir_override, None);
    assert_eq!(s.port, 0);
    assert!(s.tray_close);
    assert!(s.notif_system);
    assert!(!s.autostart);
    assert_eq!(s.iface_filter, None);
    assert!(!s.hotkey_enabled);
    assert_eq!(s.hotkey, DEFAULT_HOTKEY);
    assert!(s.verify_hash);
    assert_eq!(s.conflict, "ask");
    assert_eq!(s.organize, "none");
    assert_eq!(s.max_concurrent, 3);
    assert_eq!(s.rate_limit, "unlimited");
    assert!(!s.clip_share);
    assert!(s.strip_exif);
}

#[test]
fn corrupted_blob_falls_back_to_defaults() {
    let blob = StoreFile::Blob(Err("invalid type".to_string()));
    let (s, diag) = load("settings.json", blob, "PC".to_string());
    let d = defaults();
    assert_eq!(
        diag.as_deref(),
        Some("invalid type"),
        "corruption must surface a diagnostic"
    );
    assert_eq!(s.device_name, d.device_name);
    assert!(s.discoverable);
    assert!(s.auto_open_folder);
    assert_eq!(s.log_level, "normal");
    assert_eq!(s.recv_policy, "trusted");
}

#[test]
fn stored_settings_are_kept() {
    let mut stored = defaults();
    stored.device_name = "Round Trip".to_string();
    stored.port = 51999;
    let (s, diag) = load("settings.json", StoreFile::Blob(Ok(stored)), "PC".to_string());
    assert!(diag.is_none());
    assert_eq!(s.device_name, "Round Trip");
    assert_eq!(s.port, 51999);
}

#[test]
fn corruption_diag_distinguishes_first_run_from_corrupt_file() {
    let path = "settings.json";
    assert!(
        corruption_diag(path, &StoreFile::Missing).is_none(),
        "missing file = first run, no warning"
    );
    let diag = corruption_diag(path, &StoreFile::NotJson("line 1".to_string()))
        .expect("malformed file must be diagnosed");
    assert!(diag.contains("not valid JSON"), "got: {diag}");
    assert_eq!(diag, "store file is not valid JSON (settings.json): line 1");
    assert!(
        corruption_diag(path, &StoreFile::NotJson("EOF".to_string())).is_some(),
        "zero-length file is corruption too"
    );
    let diag =
        corruption_diag(path, &StoreFile::Keyless).expect("keyless store file must be diagnosed");
    assert!(diag.contains("no settings blob"), "got: {diag}");
    assert_eq!(
        corruption_diag(path, &StoreFile::Unreadable("denied".to_string())).as_deref(),
        Some("store file unreadable (settings.json): denied")
    );
}

#[test]
fn store_file_is_isolated_per_instance() {
    assert_eq!(store_file_for(None), "settings.json");
    assert_eq!(store_file_for(Some("b")), "settings-b.json");
    assert_eq!(store_file_for(Some("")), "settings.json");
}

#[test]
fn max_concurrent_clamps_into_range() {
    let (lo, hi) = MAX_CONCURRENT_RANGE;
    assert_eq!(clamp_max_concurrent(0), lo, "0 must snap up to the floor");
    assert_eq!(clamp_max_concurrent(1), 1);
    assert_eq!(clamp_max_concurrent(3), 3);
    assert_eq!(clamp_max_concurrent(hi), hi);
    assert_eq!(clamp_max_concurrent(999), hi, "over-range snaps to the ceiling");
}

#[test]
fn rate_limit_validation_and_byte_conversion() {
    assert!(valid_rate_limit("unlimited"));
    assert!(valid_rate_limit(" 50 "), "trimmed numeric MB/s is valid");
    assert!(valid_rate_limit("10"));
    assert!(!valid_rate_limit("0"), "a 0 MB/s cap would wedge transfers");
    assert!(!valid_rate_limit(""), "blank is not a valid stored value");
    assert!(!valid_rate_limit("fast"), "junk is rejected");
    assert!(
        !valid_rate_limit(&(MAX_RATE_LIMIT_MB + 1).to_string()),
        "a value above the ceiling is rejected"
    );

    assert_eq!(rate_limit_bytes_per_sec("unlimited"), None);
    assert_eq!(rate_limit_bytes_per_sec("50"), Some(50 * 1024 * 1024));
    assert_eq!(rate_limit_bytes_per_sec(" 10 "), Some(10 * 1024 * 1024));
    assert_eq!(rate_limit_bytes_per_sec("0"), None);
    assert_eq!(rate_limit_bytes_per_sec("garbage"), None);
    let two_pow_44 = (1u64 << 44).to_string();
    let clamped = rate_limit_bytes_per_sec(&two_pow_44);
    assert_eq!(clamped, Some(MAX_RATE_LIMIT_MB * 1024 * 1024));
    assert_ne!(
        clamped,
        Some(0),
        "an overflowing MB value must never cap at 0 B/s"
    );
}

#[test]
fn rate_limit_edges() {
    assert_eq!(rate_limit_bytes_per_sec("+5"), Some(5 * 1024 * 1024), "a sign is a number's");
    assert_eq!(rate_limit_bytes_per_sec("-5"), None);
    assert_eq!(rate_limit_bytes_per_sec("18446744073709551616"), None, "beyond 64 bits");
    assert_eq!(rate_limit_bytes_per_sec(""), None);
    assert!(valid_rate_limit(&MAX_RATE_LIMIT_MB.to_string()));
}

#[test]
fn hotkey_accelerator_validation() {
    assert!(valid_hotkey(DEFAULT_HOTKEY), "the default combo is valid");
    assert!(valid_hotkey("Alt+Space"));
    assert!(valid_hotkey("Ctrl+Shift+K"));
    assert!(valid_hotkey(" Ctrl+Alt+Delete "), "trimmed input is valid");
    assert!(valid_hotkey("Super+F5"));
    assert!(valid_hotkey("Ctrl+ArrowUp"), "code-style keys parse");

    assert!(!valid_hotkey(""), "blank is rejected");
    assert!(!valid_hotkey("   "), "whitespace is rejected");
    assert!(!valid_hotkey("K"), "a bare key has no modifier");
    assert!(!valid_hotkey("Space"), "a bare key has no modifier");
    assert!(
        !valid_hotkey("Ctrl"),
        "a lone modifier has no key and does not parse"
    );
    assert!(!valid_hotkey("Ctrl+"), "a trailing empty token is rejected");
    assert!(!valid_hotkey("Ctrl+NotAKey"), "an unknown key is rejected");
}

#[test]
fn a_shortcut_needs_a_modifier() {
    assert!(shortcut_allowed(Some(false)));
    assert!(!shortcut_allowed(Some(true)));
    assert!(!shortcut_allowed(None));
}

#[test]
fn parse_iface_filter_clears_canonicalizes_and_rejects() {
    assert_eq!(parse_iface_filter(""), Some(None), "empty clears the filter");
    assert_eq!(parse_iface_filter("   "), Some(None), "whitespace clears too");
    assert_eq!(
        parse_iface_filter(" 192.168.1.5 "),
        Some(Some("192.168.1.5".into())),
        "valid input is trimmed + stored canonically"
    );
    assert_eq!(parse_iface_filter("not-an-ip"), None, "junk is ignored");
    assert_eq!(
        parse_iface_filter("fe80::1"),
        None,
        "IPv6 is not a discovery interface"
    );
    assert_eq!(
        parse_iface_filter("300.1.1.1"),
        None,
        "out-of-range octet rejected"
    );
}

#[test]
fn listen_port_validation_and_resolution() {
    assert!(valid_listen_port(0), "0 = use the default");
    assert!(!valid_listen_port(1));
    assert!(!valid_listen_port(1023), "privileged ports are refused");
    assert!(valid_listen_port(1024));
    assert!(valid_listen_port(65535));

    assert_eq!(effective_listen_port(0), DEFAULT_TCP_PORT);
    assert_eq!(effective_listen_port(51999), 51999);
    assert_eq!(effective_listen_port(80), DEFAULT_TCP_PORT);
    assert_eq!(
        effective_listen_port(1023),
        DEFAULT_TCP_PORT,
        "a privileged port resolves to the default"
    );
    assert_eq!(
        effective_listen_port(1024),
        1024,
        "the lowest non-privileged port pins as-is"
    );
    assert_eq!(effective_listen_port(65535), 65535);
}

#[test]
fn the_device_name_comes_from_the_system() {
    assert_eq!(default_device_name(Some("PC".into()), Some("host".into())), "PC");
    assert_eq!(default_device_name(None, Some("host".into())), "host");
    assert_eq!(default_device_name(None, None), "LanBeam device");
}

#[test]
fn setters_ignore_what_is_not_valid() {
    let mut s = defaults();
    s.set_device_name("  Study  ", "PC".to_string());
    assert_eq!(s.device_name, "Study");
    s.set_device_name("   ", "PC".to_string());
    assert_eq!(s.device_name, "PC");
    s.set_device_name(&"x".repeat(80), "PC".to_string());
    assert_eq!(s.device_name.len(), 63);
    s.set_device_name(&"é".repeat(63), "PC".to_string());
    assert_eq!(s.device_name, "é".repeat(31), "the limit is in bytes, between characters");
    s.set_device_name(&format!("{}你", "x".repeat(61)), "PC".to_string());
    assert_eq!(s.device_name, "x".repeat(61));
    s.set_device_name(&format!("{}你", "x".repeat(60)), "PC".to_string());
    assert_eq!(s.device_name.len(), 63);

    assert!(s.set_log_level("verbose".into()));
    assert!(!s.set_log_level("loud".into()));
    assert_eq!(s.log_level, "verbose");
    assert!(s.set_recv_policy("all".into()));
    assert!(!s.set_recv_policy("never".into()));
    assert_eq!(s.recv_policy, "all");
    assert!(s.set_conflict_policy("overwrite".into()));
    assert!(!s.set_conflict_policy("merge".into()));
    assert_eq!(s.conflict, "overwrite");
    assert!(s.set_organize("device".into()));
    assert!(!s.set_organize("size".into()));
    assert_eq!(s.organize, "device");
    assert!(s.set_listen_port(2000));
    assert!(!s.set_listen_port(80));
    assert_eq!(s.port, 2000);
    assert!(s.set_iface_filter(" 10.0.0.1 "));
    assert!(!s.set_iface_filter("junk"));
    assert_eq!(s.iface_filter.as_deref(), Some("10.0.0.1"));
    assert!(s.set_iface_filter(""));
    assert_eq!(s.iface_filter, None);
    s.set_max_concurrent(100);
    assert_eq!(s.max_concurrent, 8);
    assert!(s.set_rate_limit(" 50 "));
    assert!(!s.set_rate_limit("0"));
    assert_eq!(s.rate_limit, "50");
}

#[test]
fn a_download_folder_has_to_exist() {
    let mut s = defaults();
    assert_eq!(s.set_download_dir("/tmp/x", Some("/tmp/real".to_string())).unwrap(), "/tmp/real");
    assert_eq!(s.download_dir_override.as_deref(), Some("/tmp/real"));
    match s.set_download_dir("/nope", None) {
        Err(LanBeamError::Io(m)) => assert_eq!(m, "not an existing directory: /nope"),
        other => panic!("{other:?}"),
    }
    assert_eq!(s.download_dir_override.as_deref(), Some("/tmp/real"));
}

#[test]
fn a_shortcut_is_bound_before_it_is_stored() {
    let mut s = defaults();
    match plan_rebind(&s, "K") {
        Err(LanBeamError::Protocol(m)) => assert_eq!(m, "not a valid shortcut: K"),
        other => panic!("{other:?}"),
    }
    assert!(matches!(plan_rebind(&s, DEFAULT_HOTKEY), Ok(RebindStep::Unchanged)));
    match plan_rebind(&s, " Ctrl+Alt+L ") {
        Ok(RebindStep::Store(c)) => assert_eq!(c, "Ctrl+Alt+L"),
        other => panic!("{other:?}"),
    }
    s.hotkey_enabled = true;
    match plan_rebind(&s, "Ctrl+Alt+L") {
        Ok(RebindStep::Bind(c)) => {
            match finish_rebind(&mut s, c.clone(), Err("taken".to_string())) {
                Err(LanBeamError::Io(m)) => {
                    assert_eq!(m, "hotkey Ctrl+Alt+L could not be registered: taken")
                }
                other => panic!("{other:?}"),
            }
            assert_eq!(s.hotkey, DEFAULT_HOTKEY);
            assert!(finish_rebind(&mut s, c, Ok(())).is_ok());
            assert_eq!(s.hotkey, "Ctrl+Alt+L");
        }
        other => panic!("{other:?}"),
    }
}

#[test]
fn switches_change_their_own_field() {
    let mut s = defaults();
    s.set_discoverable(false);
    s.set_auto_open(false);
    s.set_tray_close(false);
    s.set_notif_system(false);
    s.set_verify_hash(false);
    s.set_clip_share(true);
    s.set_strip_exif(false);
    assert!(!s.discoverable && !s.auto_open_folder && !s.tray_close && !s.notif_system);
    assert!(!s.verify_hash && s.clip_share && !s.strip_exif);
    assert_eq!(s.max_concurrent, 3);

    match s.set_autostart(true, Err("denied".to_string())) {
        Err(LanBeamError::Io(m)) => assert_eq!(m, "denied"),
        other => panic!("{other:?}"),
    }
    assert!(!s.autostart, "a toggle that the system refused is not stored");
    assert!(s.set_autostart(true, Ok(())).is_ok());
    assert!(s.autostart);

    match s.set_hotkey_enabled(true) {
        HotkeyChange::Register(c) => assert_eq!(c, DEFAULT_HOTKEY),
        other => panic!("{other:?}"),
    }
    assert!(s.hotkey_enabled);
    assert!(matches!(s.set_hotkey_enabled(false), HotkeyChange::Unregister(_)));
    assert!(!s.hotkey_enabled);
}
