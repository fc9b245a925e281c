//! User settings: their defaults, the values that setters accept, and what
//! stored values resolve to.

use std::str::FromStr;

use vstd::prelude::*;

use crate::consts::{DEFAULT_HOTKEY, DEFAULT_TCP_PORT};
use crate::error::{LanBeamError, Result};
use crate::net::{dotted, parse_ipv4, parsed_ipv4};
use crate::text::{
    concat, cut_to_bytes, parse_unsigned, parsed_unsigned, str_eq, string_of, take_bytes,
    trim_chars, trim_string, trimmed,
};

verus! {

/// The name of the settings file of an instance. An instance has a file of its
/// own, so that it never changes the primary's settings.
pub open spec fn store_name(instance: Option<Seq<char>>) -> Seq<char> {
    match instance {
        Some(id) => if id.len() == 0 {
            "settings.json"@
        } else {
            "settings-"@ + id + ".json"@
        },
        None => "settings.json"@,
    }
}

/// The text of an optional string.
pub open spec fn opt_text(o: Option<&str>) -> Option<Seq<char>> {
    match o {
        Some(s) => Some(s@),
        None => None,
    }
}

pub fn store_file_for(instance: Option<&str>) -> (r: String)
    ensures
        r@ == store_name(opt_text(instance)),
{
    match instance {
        Some(id) => {
            if id.is_empty() {
                "settings.json".to_owned()
            } else {
                let mut r = concat("settings-", id);
                r.append(".json");
                r
            }
        },
        None => "settings.json".to_owned(),
    }
}

/// Different instances have different settings files, and none has the
/// primary's.
pub proof fn law_store_files_are_isolated(a: Seq<char>, b: Seq<char>)
    requires
        a.len() > 0,
        b.len() > 0,
    ensures
        store_name(Some(a)) != store_name(None),
        store_name(Some(a)) == store_name(Some(b)) ==> a == b,
{
    reveal_strlit("settings.json");
    reveal_strlit("settings-");
    reveal_strlit(".json");
    let x = store_name(Some(a));
    let y = store_name(Some(b));
    assert(x[8] == '-');
    assert("settings.json"@[8] == '.');
    if x == y {
        assert(x.len() == y.len());
        assert(a =~= x.subrange(9, 9 + a.len() as int));
        assert(b =~= y.subrange(9, 9 + b.len() as int));
    }
}

/// The log levels that can be stored.
pub open spec fn log_level_name(s: Seq<char>) -> bool {
    s == "errors"@ || s == "normal"@ || s == "verbose"@
}

/// The receive policies that can be stored.
pub open spec fn recv_policy_name(s: Seq<char>) -> bool {
    s == "ask"@ || s == "trusted"@ || s == "all"@
}

/// The conflict policies that can be stored.
pub open spec fn conflict_policy_name(s: Seq<char>) -> bool {
    s == "rename"@ || s == "overwrite"@ || s == "ask"@
}

/// The organize modes that can be stored.
pub open spec fn organize_mode_name(s: Seq<char>) -> bool {
    s == "none"@ || s == "device"@ || s == "date"@
}

fn one_of_three(s: &str, a: &str, b: &str, c: &str) -> (r: bool)
    ensures
        r == (s@ == a@ || s@ == b@ || s@ == c@),
{
    str_eq(s, a) || str_eq(s, b) || str_eq(s, c)
}

/// How many transfers may run at once, at least and at most.
pub const MAX_CONCURRENT_RANGE: (u32, u32) = (1, 8);

/// The greatest rate limit that a setter accepts, in megabytes per second.
pub const MAX_RATE_LIMIT_MB: u64 = 1_000_000;

#[derive(Debug, Clone)]
pub struct Settings {
    pub device_name: String,
    pub discoverable: bool,
    pub auto_open_folder: bool,
    pub log_level: String,
    pub recv_policy: String,
    pub download_dir_override: Option<String>,
    /// Zero stands for the default port.
    pub port: u16,
    pub tray_close: bool,
    pub notif_system: bool,
    pub autostart: bool,
    pub iface_filter: Option<String>,
    pub hotkey_enabled: bool,
    pub hotkey: String,
    pub verify_hash: bool,
    pub conflict: String,
    pub organize: String,
    pub max_concurrent: u32,
    pub rate_limit: String,
    pub clip_share: bool,
    pub strip_exif: bool,
}

/// The name of a device whose system names it blankly or not at all.
pub const FALLBACK_DEVICE_NAME: &'static str = "LanBeam device";

/// The default name of a device. The second system name only counts when there
/// is no first one.
pub fn default_device_name(computer_name: Option<String>, host_name: Option<String>) -> (r: String)
    ensures
        r@ == ({
            let given = match computer_name {
                Some(n) => Some(n@),
                None => match host_name {
                    Some(h) => Some(h@),
                    None => None,
                },
            };
            match given {
                Some(n) => if trimmed(n).len() == 0 {
                    FALLBACK_DEVICE_NAME@
                } else {
                    n
                },
                None => FALLBACK_DEVICE_NAME@,
            }
        }),
{
    let given = match computer_name {
        Some(n) => Some(n),
        None => host_name,
    };
    match given {
        Some(n) => {
            let t = trim_chars(n.as_str());
            if t.len() == 0 {
                FALLBACK_DEVICE_NAME.to_owned()
            } else {
                n
            }
        },
        None => FALLBACK_DEVICE_NAME.to_owned(),
    }
}

pub fn default_discoverable() -> (r: bool)
    ensures
        r,
{
    true
}

pub fn default_auto_open_folder() -> (r: bool)
    ensures
        r,
{
    true
}

pub fn default_log_level() -> (r: String)
    ensures
        r@ == "normal"@,
{
    "normal".to_owned()
}

/// Peers that are trusted need no prompt, others do.
pub fn default_recv_policy() -> (r: String)
    ensures
        r@ == "trusted"@,
{
    "trusted".to_owned()
}

pub fn default_download_dir_override() -> (r: Option<String>)
    ensures
        r is None,
{
    None
}

pub fn default_port() -> (r: u16)
    ensures
        r == 0,
{
    0
}

pub fn default_tray_close() -> (r: bool)
    ensures
        r,
{
    true
}

pub fn default_notif_system() -> (r: bool)
    ensures
        r,
{
    true
}

pub fn default_autostart() -> (r: bool)
    ensures
        !r,
{
    false
}

pub fn default_iface_filter() -> (r: Option<String>)
    ensures
        r is None,
{
    None
}

pub fn default_hotkey_enabled() -> (r: bool)
    ensures
        !r,
{
    false
}

pub fn default_hotkey() -> (r: String)
    ensures
        r@ == DEFAULT_HOTKEY@,
{
    DEFAULT_HOTKEY.to_owned()
}

pub fn default_verify_hash() -> (r: bool)
    ensures
        r,
{
    true
}

pub fn default_conflict() -> (r: String)
    ensures
        r@ == "ask"@,
{
    "ask".to_owned()
}

pub fn default_organize() -> (r: String)
    ensures
        r@ == "none"@,
{
    "none".to_owned()
}

pub fn default_max_concurrent() -> (r: u32)
    ensures
        r == 3,
{
    3
}

pub fn default_rate_limit() -> (r: String)
    ensures
        r@ == "unlimited"@,
{
    "unlimited".to_owned()
}

pub fn default_clip_share() -> (r: bool)
    ensures
        !r,
{
    false
}

pub fn default_strip_exif() -> (r: bool)
    ensures
        r,
{
    true
}

/// Whether every setting but the name of the device has its default.
pub open spec fn all_default(s: Settings) -> bool {
    &&& s.discoverable
    &&& s.auto_open_folder
    &&& s.log_level@ == "normal"@
    &&& s.recv_policy@ == "trusted"@
    &&& s.download_dir_override is None
    &&& s.port == 0
    &&& s.tray_close
    &&& s.notif_system
    &&& !s.autostart
    &&& s.iface_filter is None
    &&& !s.hotkey_enabled
    &&& s.hotkey@ == DEFAULT_HOTKEY@
    &&& s.verify_hash
    &&& s.conflict@ == "ask"@
    &&& s.organize@ == "none"@
    &&& s.max_concurrent == 3
    &&& s.rate_limit@ == "unlimited"@
    &&& !s.clip_share
    &&& s.strip_exif
}

impl Settings {
    /// The defaults for a device of this name.
    pub fn defaults(device_name: String) -> (s: Settings)
        ensures
            s.device_name@ == device_name@,
            all_default(s),
    {
        Settings {
            device_name,
            discoverable: default_discoverable(),
            auto_open_folder: default_auto_open_folder(),
            log_level: default_log_level(),
            recv_policy: default_recv_policy(),
            download_dir_override: default_download_dir_override(),
            port: default_port(),
            tray_close: default_tray_close(),
            notif_system: default_notif_system(),
            autostart: default_autostart(),
            iface_filter: default_iface_filter(),
            hotkey_enabled: default_hotkey_enabled(),
            hotkey: default_hotkey(),
            verify_hash: default_verify_hash(),
            conflict: default_conflict(),
            organize: default_organize(),
            max_concurrent: default_max_concurrent(),
            rate_limit: default_rate_limit(),
            clip_share: default_clip_share(),
            strip_exif: default_strip_exif(),
        }
    }
}

// ── what values mean ──────────────────────────────────────────────────────

/// A number brought into the range of concurrent transfers.
pub open spec fn clamped_concurrent(n: u32) -> u32 {
    if n < 1 {
        1
    } else if n > 8 {
        8
    } else {
        n
    }
}

pub fn clamp_max_concurrent(n: u32) -> (r: u32)
    ensures
        r == clamped_concurrent(n),
{
    if n < MAX_CONCURRENT_RANGE.0 {
        MAX_CONCURRENT_RANGE.0
    } else if n > MAX_CONCURRENT_RANGE.1 {
        MAX_CONCURRENT_RANGE.1
    } else {
        n
    }
}

/// The rate limits that a setter accepts: none, or a positive number of
/// megabytes per second within the bound.
pub open spec fn rate_limit_accepted(s: Seq<char>) -> bool {
    trimmed(s) == "unlimited"@ || (parsed_unsigned(trimmed(s), u64::MAX as nat) matches Some(mb)
        && 0 < mb <= MAX_RATE_LIMIT_MB)
}

pub fn valid_rate_limit(rate_limit: &str) -> (r: bool)
    ensures
        r == rate_limit_accepted(rate_limit@),
{
    let t = trim_chars(rate_limit);
    let s = string_of(t.as_slice());
    if str_eq(s.as_str(), "unlimited") {
        return true;
    }
    match parse_unsigned(t.as_slice(), u64::MAX) {
        Some(mb) => mb > 0 && mb <= MAX_RATE_LIMIT_MB,
        None => false,
    }
}

/// The cap in bytes per second that a stored value stands for. Anything that
/// is no positive number means no cap, and a number beyond the bound counts as
/// the bound: a bad value never stops a transfer.
pub open spec fn bytes_per_sec(s: Seq<char>) -> Option<nat> {
    match parsed_unsigned(trimmed(s), u64::MAX as nat) {
        Some(mb) => if mb == 0 {
            None
        } else if mb > MAX_RATE_LIMIT_MB {
            Some((MAX_RATE_LIMIT_MB * 1_048_576) as nat)
        } else {
            Some(mb * 1_048_576)
        },
        None => None,
    }
}

pub fn rate_limit_bytes_per_sec(rate_limit: &str) -> (r: Option<u64>)
    ensures
        match r {
            Some(n) => bytes_per_sec(rate_limit@) == Some(n as nat),
            None => bytes_per_sec(rate_limit@) is None,
        },
{
    let t = trim_chars(rate_limit);
    match parse_unsigned(t.as_slice(), u64::MAX) {
        Some(mb) => {
            if mb == 0 {
                None
            } else if mb > MAX_RATE_LIMIT_MB {
                Some(MAX_RATE_LIMIT_MB * 1_048_576)
            } else {
                Some(mb * 1_048_576)
            }
        },
        None => None,
    }
}

/// A cap is never zero, and an accepted number of megabytes is exactly that
/// many.
pub proof fn law_rate_limit_never_stalls(s: Seq<char>)
    ensures
        bytes_per_sec(s) matches Some(n) ==> n > 0,
        rate_limit_accepted(s) ==> (bytes_per_sec(s) matches Some(n) ==> n == parsed_unsigned(
            trimmed(s),
            u64::MAX as nat,
        )->0 * 1_048_576),
        trimmed(s) == "unlimited"@ ==> bytes_per_sec(s) is None,
{
    reveal_strlit("unlimited");
    if trimmed(s) == "unlimited"@ {
        assert(!crate::text::ascii_digit("unlimited"@[0]));
    }
}

/// What an interface choice is stored as: nothing to ignore it, an empty
/// choice to clear it, or the canonical form of an address.
pub open spec fn iface_choice(input: Seq<char>) -> Option<Option<Seq<char>>> {
    let t = trimmed(input);
    if t.len() == 0 {
        Some(None)
    } else {
        match parsed_ipv4(t) {
            Some(ip) => Some(Some(dotted(ip))),
            None => None,
        }
    }
}

pub fn parse_iface_filter(input: &str) -> (r: Option<Option<String>>)
    ensures
        match r {
            Some(Some(s)) => iface_choice(input@) == Some(Some(s@)),
            Some(None) => iface_choice(input@) == Some(None::<Seq<char>>),
            None => iface_choice(input@) is None,
        },
{
    let t = trim_chars(input);
    if t.len() == 0 {
        return Some(None);
    }
    match parse_ipv4(t.as_slice()) {
        Some(ip) => Some(Some(ip.to_string())),
        None => None,
    }
}

/// The ports that a setter accepts: zero, or one that needs no privilege.
pub open spec fn port_accepted(port: u16) -> bool {
    port == 0 || port >= 1024
}

pub fn valid_listen_port(port: u16) -> (r: bool)
    ensures
        r == port_accepted(port),
{
    port == 0 || port >= 1024
}

/// The port that a stored value resolves to.
pub fn effective_listen_port(port: u16) -> (r: u16)
    ensures
        r == if port >= 1024 {
            port
        } else {
            DEFAULT_TCP_PORT
        },
        r >= 1024,
{
    if port != 0 && valid_listen_port(port) {
        port
    } else {
        DEFAULT_TCP_PORT
    }
}

/// The failure of the shortcut parser.
#[verifier::external_type_specification]
#[verifier::external_body]
pub struct ExHotKeyParseError(global_hotkey::hotkey::HotKeyParseError);

/// What `HotKey::from_str` makes of a text: whether the shortcut has no
/// modifier, or nothing when the text is no shortcut.
pub uninterp spec fn shortcut_bare(s: Seq<char>) -> Option<bool>;

/// `global_hotkey::hotkey::HotKey::from_str` parses a shortcut of modifiers
/// and one key, and `Modifiers::is_empty` says whether it has no modifier.
#[verifier::external_body]
fn parse_shortcut(s: &str) -> (r: std::result::Result<bool, global_hotkey::hotkey::HotKeyParseError>)
    ensures
        match r {
            Ok(bare) => shortcut_bare(s@) == Some(bare),
            Err(_) => shortcut_bare(s@) is None,
        },
{
    global_hotkey::hotkey::HotKey::from_str(s).map(|k| k.mods.is_empty())
}

/// Whether a parsed shortcut may be bound: it needs a modifier, or it would
/// swallow its key everywhere.
pub fn shortcut_allowed(parsed: Option<bool>) -> (r: bool)
    ensures
        r == (parsed == Some(false)),
{
    match parsed {
        Some(bare) => !bare,
        None => false,
    }
}

/// The shortcuts that a setter accepts.
pub open spec fn hotkey_accepted(combo: Seq<char>) -> bool {
    trimmed(combo).len() > 0 && shortcut_bare(trimmed(combo)) == Some(false)
}

pub fn valid_hotkey(combo: &str) -> (r: bool)
    ensures
        r == hotkey_accepted(combo@),
{
    let s = trim_string(combo);
    if s.as_str().is_empty() {
        return false;
    }
    match parse_shortcut(s.as_str()) {
        Ok(bare) => shortcut_allowed(Some(bare)),
        Err(_) => false,
    }
}

// ── loading ───────────────────────────────────────────────────────────────

/// What is found where the settings are stored.
#[derive(Debug)]
pub enum StoreFile {
    /// No file: the first run.
    Missing,
    /// The file could not be read, with the error.
    Unreadable(String),
    /// The file holds no JSON, with the error.
    NotJson(String),
    /// JSON without the settings.
    Keyless,
    /// The settings, or why they do not parse.
    Blob(std::result::Result<Settings, String>),
}

/// The warning that goes with a store file, none for a first run and for
/// readable settings.
pub open spec fn diagnosis(path: Seq<char>, file: StoreFile) -> Option<Seq<char>> {
    match file {
        StoreFile::Missing => None,
        StoreFile::Unreadable(e) => Some("store file unreadable ("@ + path + "): "@ + e@),
        StoreFile::NotJson(e) => Some("store file is not valid JSON ("@ + path + "): "@ + e@),
        StoreFile::Keyless => Some(
            "store file exists but no settings blob was loaded ("@ + path + ")"@,
        ),
        StoreFile::Blob(Ok(_)) => None,
        StoreFile::Blob(Err(e)) => Some(e@),
    }
}

/// Whether a loss of settings is reported, and how.
pub fn corruption_diag(path: &str, file: &StoreFile) -> (r: Option<String>)
    ensures
        match r {
            Some(d) => diagnosis(path@, *file) == Some(d@),
            None => diagnosis(path@, *file) is None,
        },
{
    match file {
        StoreFile::Missing => None,
        StoreFile::Unreadable(e) => {
            let mut d = concat("store file unreadable (", path);
            d.append("): ");
            d.append(e.as_str());
            Some(d)
        },
        StoreFile::NotJson(e) => {
            let mut d = concat("store file is not valid JSON (", path);
            d.append("): ");
            d.append(e.as_str());
            Some(d)
        },
        StoreFile::Keyless => {
            let mut d = concat("store file exists but no settings blob was loaded (", path);
            d.append(")");
            Some(d)
        },
        StoreFile::Blob(Ok(_)) => None,
        StoreFile::Blob(Err(e)) => Some(e.clone()),
    }
}

/// The settings to run with, and a warning when stored ones were lost.
pub fn load(path: &str, file: StoreFile, device_name: String) -> (r: (Settings, Option<String>))
    ensures
        match file {
            StoreFile::Blob(Ok(s)) => r.0 == s,
            _ => all_default(r.0) && r.0.device_name@ == device_name@,
        },
        match r.1 {
            Some(d) => diagnosis(path@, file) == Some(d@),
            None => diagnosis(path@, file) is None,
        },
{
    let diag = corruption_diag(path, &file);
    match file {
        StoreFile::Blob(Ok(s)) => (s, diag),
        _ => (Settings::defaults(device_name), diag),
    }
}

// ── setters ───────────────────────────────────────────────────────────────

/// The longest name of this device, in bytes.
pub const MAX_DEVICE_NAME_BYTES: usize = 63;

impl Settings {
    /// Names the device by as much of the given name as fits an announcement; a
    /// blank name brings the default back.
    pub fn set_device_name(&mut self, name: &str, default_name: String)
        ensures
            *final(self) == (Settings { device_name: final(self).device_name, ..*old(self) }),
            final(self).device_name@ == ({
                let t = take_bytes(trimmed(name@), MAX_DEVICE_NAME_BYTES as nat);
                if t.len() == 0 {
                    default_name@
                } else {
                    t
                }
            }),
    {
        let t = trim_chars(name);
        let clamped = cut_to_bytes(t.as_slice(), MAX_DEVICE_NAME_BYTES);
        if clamped.as_str().is_empty() {
            self.device_name = default_name;
        } else {
            self.device_name = clamped;
        }
    }

    /// Stores a log level; one that is unknown is ignored. Whether there is
    /// something to save.
    pub fn set_log_level(&mut self, level: String) -> (save: bool)
        ensures
            save == log_level_name(level@),
            *final(self) == if save {
                Settings { log_level: level, ..*old(self) }
            } else {
                *old(self)
            },
    {
        if one_of_three(level.as_str(), "errors", "normal", "verbose") {
            self.log_level = level;
            true
        } else {
            false
        }
    }

    pub fn set_recv_policy(&mut self, policy: String) -> (save: bool)
        ensures
            save == recv_policy_name(policy@),
            *final(self) == if save {
                Settings { recv_policy: policy, ..*old(self) }
            } else {
                *old(self)
            },
    {
        if one_of_three(policy.as_str(), "ask", "trusted", "all") {
            self.recv_policy = policy;
            true
        } else {
            false
        }
    }

    pub fn set_conflict_policy(&mut self, policy: String) -> (save: bool)
        ensures
            save == conflict_policy_name(policy@),
            *final(self) == if save {
                Settings { conflict: policy, ..*old(self) }
            } else {
                *old(self)
            },
    {
        if one_of_three(policy.as_str(), "rename", "overwrite", "ask") {
            self.conflict = policy;
            true
        } else {
            false
        }
    }

    pub fn set_organize(&mut self, mode: String) -> (save: bool)
        ensures
            save == organize_mode_name(mode@),
            *final(self) == if save {
                Settings { organize: mode, ..*old(self) }
            } else {
                *old(self)
            },
    {
        if one_of_three(mode.as_str(), "none", "device", "date") {
            self.organize = mode;
            true
        } else {
            false
        }
    }

    /// Stores the listen port for the next launch.
    pub fn set_listen_port(&mut self, port: u16) -> (save: bool)
        ensures
            save == port_accepted(port),
            *final(self) == if save {
                Settings { port, ..*old(self) }
            } else {
                *old(self)
            },
    {
        if valid_listen_port(port) {
            self.port = port;
            true
        } else {
            false
        }
    }

    /// Stores the discovery interface; an empty choice clears it.
    pub fn set_iface_filter(&mut self, ip: &str) -> (save: bool)
        ensures
            save == iface_choice(ip@) is Some,
            *final(self) == (Settings { iface_filter: final(self).iface_filter, ..*old(self) }),
            save ==> iface_choice(ip@) == Some(crate::partials::text_view(final(self).iface_filter)),
            !save ==> final(self).iface_filter == old(self).iface_filter,
    {
        match parse_iface_filter(ip) {
            Some(value) => {
                self.iface_filter = value;
                true
            },
            None => false,
        }
    }

    pub fn set_max_concurrent(&mut self, max: u32)
        ensures
            *final(self) == (Settings { max_concurrent: clamped_concurrent(max), ..*old(self) }),
    {
        self.max_concurrent = clamp_max_concurrent(max);
    }

    /// Stores a rate limit without white space at its ends.
    pub fn set_rate_limit(&mut self, limit: &str) -> (save: bool)
        ensures
            save == rate_limit_accepted(limit@),
            *final(self) == (Settings { rate_limit: final(self).rate_limit, ..*old(self) }),
            save ==> final(self).rate_limit@ == trimmed(limit@),
            !save ==> final(self).rate_limit == old(self).rate_limit,
    {
        if valid_rate_limit(limit) {
            self.rate_limit = trim_string(limit);
            true
        } else {
            false
        }
    }
}

impl Settings {
    /// Stores the folder that files are received into, in its canonical form.
    /// One that is no existing folder is refused.
    pub fn set_download_dir(&mut self, path: &str, canonical: Option<String>) -> (r: Result<String>)
        ensures
            match r {
                Ok(stored) => {
                    &&& canonical matches Some(c) && stored@ == c@
                    &&& *final(self) == (Settings {
                        download_dir_override: final(self).download_dir_override,
                        ..*old(self)
                    })
                    &&& final(self).download_dir_override matches Some(d) && d@ == stored@
                },
                Err(LanBeamError::Io(m)) => {
                    &&& canonical is None
                    &&& m@ == "not an existing directory: "@ + path@
                    &&& *final(self) == *old(self)
                },
                Err(_) => false,
            },
    {
        match canonical {
            Some(c) => {
                self.download_dir_override = Some(c.clone());
                Ok(c)
            },
            None => Err(LanBeamError::Io(concat("not an existing directory: ", path))),
        }
    }
}

// ── switches ──────────────────────────────────────────────────────────────

/// What a change of the shortcut's switch asks of the system.
#[derive(Debug)]
pub enum HotkeyChange {
    Register(String),
    Unregister(String),
}

impl Settings {
    /// Whether other devices see this one.
    pub fn set_discoverable(&mut self, discoverable: bool)
        ensures
            *final(self) == (Settings { discoverable: discoverable, ..*old(self) }),
    {
        self.discoverable = discoverable;
    }

    /// Whether the folder is opened after a transfer.
    pub fn set_auto_open(&mut self, enabled: bool)
        ensures
            *final(self) == (Settings { auto_open_folder: enabled, ..*old(self) }),
    {
        self.auto_open_folder = enabled;
    }

    /// Whether closing the window hides it.
    pub fn set_tray_close(&mut self, enabled: bool)
        ensures
            *final(self) == (Settings { tray_close: enabled, ..*old(self) }),
    {
        self.tray_close = enabled;
    }

    /// Whether the system shows notifications.
    pub fn set_notif_system(&mut self, enabled: bool)
        ensures
            *final(self) == (Settings { notif_system: enabled, ..*old(self) }),
    {
        self.notif_system = enabled;
    }

    /// Whether files are verified by their hash.
    pub fn set_verify_hash(&mut self, enabled: bool)
        ensures
            *final(self) == (Settings { verify_hash: enabled, ..*old(self) }),
    {
        self.verify_hash = enabled;
    }

    /// Whether a received text may reach the clipboard.
    pub fn set_clip_share(&mut self, enabled: bool)
        ensures
            *final(self) == (Settings { clip_share: enabled, ..*old(self) }),
    {
        self.clip_share = enabled;
    }

    /// Whether metadata is taken out of images.
    pub fn set_strip_exif(&mut self, enabled: bool)
        ensures
            *final(self) == (Settings { strip_exif: enabled, ..*old(self) }),
    {
        self.strip_exif = enabled;
    }

    /// Stores the switch for the start at login, after the system was changed; a
    /// refusal leaves the settings as they are.
    pub fn set_autostart(
        &mut self,
        enabled: bool,
        changed: std::result::Result<(), String>,
    ) -> (r: Result<()>)
        ensures
            match changed {
                Ok(()) => r is Ok && *final(self) == (Settings { autostart: enabled, ..*old(self) }),
                Err(why) => *final(self) == *old(self) && (r matches Err(LanBeamError::Io(m)) && m@
                    == why@),
            },
    {
        match changed {
            Ok(()) => {
                self.autostart = enabled;
                Ok(())
            },
            Err(why) => Err(LanBeamError::Io(why)),
        }
    }

    /// Stores the switch of the shortcut and says what is to be done with the
    /// configured one; the switch is stored even if that fails.
    pub fn set_hotkey_enabled(&mut self, enabled: bool) -> (r: HotkeyChange)
        ensures
            *final(self) == (Settings { hotkey_enabled: enabled, ..*old(self) }),
            match r {
                HotkeyChange::Register(combo) => enabled && combo@ == old(self).hotkey@,
                HotkeyChange::Unregister(combo) => !enabled && combo@ == old(self).hotkey@,
            },
    {
        self.hotkey_enabled = enabled;
        if enabled {
            HotkeyChange::Register(self.hotkey.clone())
        } else {
            HotkeyChange::Unregister(self.hotkey.clone())
        }
    }
}

// ── rebinding the shortcut ────────────────────────────────────────────────

/// The next step of a rebind.
#[derive(Debug)]
pub enum RebindStep {
    /// Nothing changes.
    Unchanged,
    /// Bind the new shortcut before the old one is released.
    Bind(String),
    /// Only store the new shortcut.
    Store(String),
}

/// Decides on a new shortcut: it has to be acceptable, and it is bound at once
/// while shortcuts are enabled.
pub fn plan_rebind(settings: &Settings, combo: &str) -> (r: Result<RebindStep>)
    ensures
        ({
            let c = trimmed(combo@);
            if !hotkey_accepted(c) {
                r matches Err(LanBeamError::Protocol(m)) && m@ == "not a valid shortcut: "@ + c
            } else if c == settings.hotkey@ {
                r matches Ok(RebindStep::Unchanged)
            } else if settings.hotkey_enabled {
                r matches Ok(RebindStep::Bind(x)) && x@ == c
            } else {
                r matches Ok(RebindStep::Store(x)) && x@ == c
            }
        }),
{
    let c = trim_string(combo);
    if !valid_hotkey(c.as_str()) {
        return Err(LanBeamError::Protocol(concat("not a valid shortcut: ", c.as_str())));
    }
    if c == settings.hotkey {
        return Ok(RebindStep::Unchanged);
    }
    if settings.hotkey_enabled {
        Ok(RebindStep::Bind(c))
    } else {
        Ok(RebindStep::Store(c))
    }
}

/// The end of a rebind: a shortcut that could not be bound leaves the settings
/// as they are, with the old one still bound.
pub fn finish_rebind(
    settings: &mut Settings,
    combo: String,
    bound: std::result::Result<(), String>,
) -> (r: Result<()>)
    ensures
        match bound {
            Ok(()) => r is Ok && *final(settings) == (Settings { hotkey: combo, ..*old(settings) }),
            Err(why) => *final(settings) == *old(settings) && (r matches Err(LanBeamError::Io(m))
                && m@ == "hotkey "@ + combo@ + " could not be registered: "@ + why@),
        },
{
    match bound {
        Ok(()) => {
            settings.hotkey = combo;
            Ok(())
        },
        Err(why) => {
            let mut m = concat("hotkey ", combo.as_str());
            m.append(" could not be registered: ");
            m.append(why.as_str());
            Err(LanBeamError::Io(m))
        },
    }
}

} // verus!
