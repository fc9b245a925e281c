//! Protocol constants and limits.

use vstd::prelude::*;

verus! {

/// The version of the discovery packet; a packet of any other version is
/// dropped.
pub const PROTO_VERSION: u8 = 1;

/// The baseline of the transfer layer.
pub const TRANSFER_V1: u8 = 1;

/// The transfer layer with in-band pairing and quick text.
pub const TRANSFER_V2: u8 = 2;

/// The multicast group `239.255.61.17`.
pub const DISCOVERY_GROUP_BITS: u32 = 0xEFFF_3D11;

pub const DISCOVERY_PORT: u16 = 51703;

/// Announcements stay on the local link.
pub const MULTICAST_TTL: u32 = 1;

pub const ANNOUNCE_INTERVAL_SECS: u64 = 2;

/// A peer that was not heard of for this long is dropped.
pub const PEER_EXPIRY_SECS: u64 = 8;

pub const DEFAULT_TCP_PORT: u16 = 51704;

/// The chord that summons the main window.
pub const DEFAULT_HOTKEY: &'static str = "Alt+Space";

pub const NOISE_PARAMS: &'static str = "Noise_XX_25519_ChaChaPoly_BLAKE2s";

pub const NOISE_PROLOGUE: &'static str = "LanBeam/noise/v1";

pub const NOISE_TAG: usize = 16;

/// The greatest plaintext of one message: 65535 bytes less the tag.
pub const MAX_PLAINTEXT: usize = 65519;

/// How long a pairing code can be redeemed.
pub const PAIRING_CODE_TTL_SECS: u64 = 600;

/// How many failed pairing requests one source may make within the window.
pub const MAX_PAIR_FAILURES: usize = 5;

pub const PAIR_FAILURE_WINDOW_SECS: u64 = 60;

pub const MAX_PAIR_TRACKED_IPS: usize = 1024;

/// The kind byte of a control frame: the rest is a JSON message.
pub const KIND_CONTROL: u8 = 1;

/// The kind byte of a file chunk: a big-endian index, then the data.
pub const KIND_FILE_CHUNK: u8 = 2;

/// The greatest chunk of a file: one message less its kind and index.
pub const MAX_FILE_DATA: usize = 65514;

/// The longest quick text, in bytes.
pub const MAX_TEXT_BYTES: usize = 61440;

/// How many quick texts one source may deliver within the window.
pub const MAX_TEXT_PER_WINDOW: usize = 10;

pub const TEXT_RATE_WINDOW_SECS: u64 = 60;

pub const MAX_TEXT_TRACKED_IPS: usize = 1024;

pub const MAX_MANIFEST_FILES: u32 = 10_000;

pub const MAX_MANIFEST_NAME_BYTES: usize = 4096;

pub const MAX_MANIFEST_NAME_TOTAL: usize = 4_194_304;

pub const CONNECT_TIMEOUT_SECS: u64 = 10;

pub const HANDSHAKE_FRAME_TIMEOUT_SECS: u64 = 10;

pub const MANIFEST_TIMEOUT_SECS: u64 = 30;

pub const CHUNK_IDLE_TIMEOUT_SECS: u64 = 60;

pub const MAX_PAUSE_PARK_SECS: u64 = 50;

pub const REPLY_TIMEOUT_SECS: u64 = 150;

pub const ACK_TIMEOUT_SECS: u64 = 120;

pub const ACK_TIMEOUT_MAX_SECS: u64 = 900;

/// The drain rate that an acknowledgement timeout allows for, in bytes per
/// second.
pub const ACK_DRAIN_RATE: u64 = 20_971_520;

/// How many received bytes may be on their way to the disk.
pub const RECEIVE_SYNC_INTERVAL: u64 = 134_217_728;

} // verus!
