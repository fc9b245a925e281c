//! The diagnostics bundle: a plain text with the state of the application and
//! the end of its log. No key is ever part of it.

use vstd::prelude::*;

use crate::settings::Settings;
use crate::text::{
    chars_of, concat, decimal, decimal_string, last_index, lossy_text, rindex_of, str_eq, string_of,
    utf8_lossy,
};

verus! {

/// How much of the log is part of the bundle, in bytes.
pub const DIAG_LOG_TAIL_MAX: u64 = 512_000;

/// An interface as the system lists it.
#[derive(Debug)]
pub struct ReportedIface {
    pub name: String,
    pub ip: String,
    pub loopback: bool,
}

/// The log of the bundle.
#[derive(Debug)]
pub enum ReportedLog {
    /// There is no log file.
    Missing,
    /// The end of the file at a path.
    Tail { path: String, text: String },
    /// The file could not be read, with the error.
    Failed { path: String, error: String },
}

/// What a bundle is made of. What could not be read is absent.
#[derive(Debug)]
pub struct Report {
    /// The time of the bundle.
    pub stamp: String,
    pub version: String,
    pub os: String,
    pub arch: String,
    pub tcp_port: u16,
    pub download_dir: Option<String>,
    pub settings: Option<Settings>,
    /// The interfaces, or why they could not be listed.
    pub interfaces: Result<Vec<ReportedIface>, String>,
    pub log: ReportedLog,
}

/// The debug form of a text: in quotes, with special characters escaped.
pub uninterp spec fn debug_text(s: Seq<char>) -> Seq<char>;

/// The `Debug` form of a string, which depends on the string alone.
#[verifier::external_body]
fn debug_string(s: &String) -> (r: String)
    ensures
        r@ == debug_text(s@),
{
    format!("{:?}", s)
}

/// An optional text in debug form.
pub open spec fn debug_option(o: Option<String>) -> Seq<char> {
    match o {
        Some(s) => "Some("@ + debug_text(s@) + ")"@,
        None => "None"@,
    }
}

fn option_text(o: &Option<String>) -> (r: String)
    ensures
        r@ == debug_option(*o),
{
    match o {
        Some(s) => {
            let d = debug_string(s);
            let mut r = concat("Some(", d.as_str());
            r.append(")");
            r
        },
        None => "None".to_owned(),
    }
}

pub open spec fn bool_text(b: bool) -> Seq<char> {
    if b {
        "true"@
    } else {
        "false"@
    }
}

fn flag(b: bool) -> (r: &'static str)
    ensures
        r@ == bool_text(b),
{
    if b {
        "true"
    } else {
        "false"
    }
}

/// A line of a name and a value.
pub open spec fn line(name: Seq<char>, value: Seq<char>) -> Seq<char> {
    name + ": "@ + value + "\n"@
}

fn push_line(out: &mut String, name: &str, value: &str)
    ensures
        final(out)@ == old(out)@ + line(name@, value@),
{
    let ghost before = out@;
    out.append(name);
    out.append(": ");
    out.append(value);
    out.append("\n");
    proof {
        assert(out@ =~= before + line(name@, value@));
    }
}

/// The names and values of the settings in the order of the bundle.
pub open spec fn settings_lines(s: Settings) -> Seq<char> {
    line("device_name"@, s.device_name@) + line("discoverable"@, bool_text(s.discoverable)) + line(
        "auto_open_folder"@,
        bool_text(s.auto_open_folder),
    ) + line("log_level"@, s.log_level@) + line("recv_policy"@, s.recv_policy@) + line(
        "download_dir_override"@,
        debug_option(s.download_dir_override),
    ) + line("port"@, decimal(s.port as nat)) + line("tray_close"@, bool_text(s.tray_close)) + line(
        "notif_system"@,
        bool_text(s.notif_system),
    ) + line("autostart"@, bool_text(s.autostart)) + line(
        "iface_filter"@,
        debug_option(s.iface_filter),
    ) + line("hotkey_enabled"@, bool_text(s.hotkey_enabled)) + line("hotkey"@, s.hotkey@) + line(
        "verify_hash"@,
        bool_text(s.verify_hash),
    ) + line("conflict"@, s.conflict@) + line("organize"@, s.organize@) + line(
        "max_concurrent"@,
        decimal(s.max_concurrent as nat),
    ) + line("rate_limit"@, s.rate_limit@) + line("clip_share"@, bool_text(s.clip_share)) + line(
        "strip_exif"@,
        bool_text(s.strip_exif),
    )
}

fn settings_text(s: &Settings) -> (r: String)
    ensures
        r@ == settings_lines(*s),
{
    let mut out = String::new();
    push_line(&mut out, "device_name", s.device_name.as_str());
    proof {
        assert(out@ =~= line("device_name"@, s.device_name@));
    }
    push_line(&mut out, "discoverable", flag(s.discoverable));
    push_line(&mut out, "auto_open_folder", flag(s.auto_open_folder));
    push_line(&mut out, "log_level", s.log_level.as_str());
    push_line(&mut out, "recv_policy", s.recv_policy.as_str());
    let dir = option_text(&s.download_dir_override);
    push_line(&mut out, "download_dir_override", dir.as_str());
    let port = decimal_string(s.port as u64);
    push_line(&mut out, "port", port.as_str());
    push_line(&mut out, "tray_close", flag(s.tray_close));
    push_line(&mut out, "notif_system", flag(s.notif_system));
    push_line(&mut out, "autostart", flag(s.autostart));
    let filter = option_text(&s.iface_filter);
    push_line(&mut out, "iface_filter", filter.as_str());
    push_line(&mut out, "hotkey_enabled", flag(s.hotkey_enabled));
    push_line(&mut out, "hotkey", s.hotkey.as_str());
    push_line(&mut out, "verify_hash", flag(s.verify_hash));
    push_line(&mut out, "conflict", s.conflict.as_str());
    push_line(&mut out, "organize", s.organize.as_str());
    let max = decimal_string(s.max_concurrent as u64);
    push_line(&mut out, "max_concurrent", max.as_str());
    push_line(&mut out, "rate_limit", s.rate_limit.as_str());
    push_line(&mut out, "clip_share", flag(s.clip_share));
    push_line(&mut out, "strip_exif", flag(s.strip_exif));
    out
}

pub open spec fn iface_line(i: ReportedIface) -> Seq<char> {
    i.name@ + ": "@ + i.ip@ + (if i.loopback {
        " (loopback)"@
    } else {
        ""@
    }) + "\n"@
}

pub open spec fn iface_lines(v: Seq<ReportedIface>) -> Seq<char>
    decreases v.len(),
{
    if v.len() == 0 {
        Seq::empty()
    } else {
        iface_lines(v.drop_last()) + iface_line(v.last())
    }
}

pub open spec fn interfaces_part(r: Result<Vec<ReportedIface>, String>) -> Seq<char> {
    match r {
        Ok(v) => if v@.len() == 0 {
            "<none>\n"@
        } else {
            iface_lines(v@)
        },
        Err(e) => "<enumeration failed: "@ + e@ + ">\n"@,
    }
}

fn interfaces_text(r: &Result<Vec<ReportedIface>, String>) -> (t: String)
    ensures
        t@ == interfaces_part(*r),
{
    match r {
        Ok(v) => {
            if v.len() == 0 {
                return "<none>\n".to_owned();
            }
            let mut out = String::new();
            for i in 0..v.len()
                invariant
                    out@ == iface_lines(v@.subrange(0, i as int)),
            {
                let ghost before = out@;
                proof {
                    assert(v@.subrange(0, i + 1).drop_last() =~= v@.subrange(0, i as int));
                    assert(v@.subrange(0, i + 1).last() == v@[i as int]);
                }
                let mut l = concat(v[i].name.as_str(), ": ");
                l.append(v[i].ip.as_str());
                l.append(if v[i].loopback { " (loopback)" } else { "" });
                l.append("\n");
                out.append(l.as_str());
            }
            proof {
                assert(v@.subrange(0, v@.len() as int) =~= v@);
            }
            out
        },
        Err(e) => {
            let mut t = concat("<enumeration failed: ", e.as_str());
            t.append(">\n");
            t
        },
    }
}

pub open spec fn log_part(l: ReportedLog) -> Seq<char> {
    match l {
        ReportedLog::Missing => "<no log file found>\n"@,
        ReportedLog::Tail { path, text } => line("file"@, path@) + text@,
        ReportedLog::Failed { path, error } => line("file"@, path@) + "<read failed: "@ + error@
            + ">\n"@,
    }
}

fn log_text(l: &ReportedLog) -> (t: String)
    ensures
        t@ == log_part(*l),
{
    match l {
        ReportedLog::Missing => "<no log file found>\n".to_owned(),
        ReportedLog::Tail { path, text } => {
            let mut t = String::new();
            push_line(&mut t, "file", path.as_str());
            proof {
                assert(t@ =~= line("file"@, path@));
            }
            t.append(text.as_str());
            t
        },
        ReportedLog::Failed { path, error } => {
            let mut t = String::new();
            push_line(&mut t, "file", path.as_str());
            proof {
                assert(t@ =~= line("file"@, path@));
            }
            t.append("<read failed: ");
            t.append(error.as_str());
            t.append(">\n");
            t
        },
    }
}

/// The beginning of the bundle.
pub open spec fn head_part(r: Report) -> Seq<char> {
    "LanBeam diagnostics — "@ + r.stamp@ + " UTC\n"@ + line("app version"@, r.version@)
        + "os: "@ + r.os@ + " ("@ + r.arch@ + ")\n"@ + line("tcp port"@, decimal(r.tcp_port as nat))
        + line(
        "download dir"@,
        match r.download_dir {
            Some(d) => d@,
            None => "<unavailable: lock poisoned>"@,
        },
    )
}

fn head_text(r: &Report) -> (t: String)
    ensures
        t@ == head_part(*r),
{
    let mut t = concat("LanBeam diagnostics — ", r.stamp.as_str());
    t.append(" UTC\n");
    push_line(&mut t, "app version", r.version.as_str());
    t.append("os: ");
    t.append(r.os.as_str());
    t.append(" (");
    t.append(r.arch.as_str());
    t.append(")\n");
    let port = decimal_string(r.tcp_port as u64);
    push_line(&mut t, "tcp port", port.as_str());
    match &r.download_dir {
        Some(d) => {
            push_line(&mut t, "download dir", d.as_str());
        },
        None => {
            push_line(&mut t, "download dir", "<unavailable: lock poisoned>");
        },
    }
    t
}

/// The settings of the bundle.
pub open spec fn settings_part(s: Option<Settings>) -> Seq<char> {
    match s {
        Some(x) => settings_lines(x),
        None => "<unavailable: settings lock poisoned>\n"@,
    }
}

/// The whole bundle.
pub open spec fn bundle(r: Report) -> Seq<char> {
    head_part(r) + "\n[settings]\n"@ + settings_part(r.settings) + "\n[network interfaces]\n"@
        + interfaces_part(r.interfaces) + "\n[log tail (up to "@ + decimal(
        DIAG_LOG_TAIL_MAX as nat,
    ) + " bytes)]\n"@ + log_part(r.log)
}

/// Writes the bundle. A part that could not be read is named as such; there is
/// always a bundle.
pub fn diagnostics_text(r: &Report) -> (t: String)
    ensures
        t@ == bundle(*r),
{
    let mut t = head_text(r);
    t.append("\n[settings]\n");
    match &r.settings {
        Some(s) => {
            let lines = settings_text(s);
            t.append(lines.as_str());
        },
        None => {
            t.append("<unavailable: settings lock poisoned>\n");
        },
    }
    t.append("\n[network interfaces]\n");
    let ifaces = interfaces_text(&r.interfaces);
    t.append(ifaces.as_str());
    t.append("\n[log tail (up to ");
    let max = decimal_string(DIAG_LOG_TAIL_MAX);
    t.append(max.as_str());
    t.append(" bytes)]\n");
    let log = log_text(&r.log);
    t.append(log.as_str());
    t
}

/// The name of the bundle's file.
pub fn bundle_file(stamp: &str) -> (r: String)
    ensures
        r@ == "lanbeam-diag-"@ + stamp@ + ".txt"@,
{
    let mut r = concat("lanbeam-diag-", stamp);
    r.append(".txt");
    r
}

// ── the log ───────────────────────────────────────────────────────────────

/// A file of the log folder; the time is absent when it could not be read.
#[derive(Debug)]
pub struct LogCandidate {
    pub name: String,
    pub modified: Option<u128>,
}

/// Whether a file name has the extension `log`.
pub open spec fn log_name(name: Seq<char>) -> bool {
    let p = last_index(name, '.');
    p > 0 && name.subrange(p + 1, name.len() as int) == "log"@
}

fn is_log_name(name: &str) -> (r: bool)
    ensures
        r == log_name(name@),
{
    let v = chars_of(name);
    let n: usize = v.len();
    match rindex_of(v.as_slice(), '.') {
        Some(p) => {
            if p == 0 {
                return false;
            }
            let ext = string_of(vstd::slice::slice_subrange(v.as_slice(), p + 1, n));
            str_eq(ext.as_str(), "log")
        },
        None => false,
    }
}

/// A log file whose time is known.
pub open spec fn eligible(c: LogCandidate) -> bool {
    log_name(c.name@) && c.modified is Some
}

/// Whether `r` is the first of the most recently modified log files.
pub open spec fn newest_among(r: Option<usize>, files: Seq<LogCandidate>) -> bool {
    match r {
        Some(b) => {
            &&& b < files.len()
            &&& eligible(files[b as int])
            &&& forall|i: int|
                0 <= i < files.len() && eligible(#[trigger] files[i]) ==> files[i].modified->0
                    <= files[b as int].modified->0 && (i < b ==> files[i].modified->0
                    < files[b as int].modified->0)
        },
        None => forall|i: int| 0 <= i < files.len() ==> !eligible(#[trigger] files[i]),
    }
}

/// The most recently modified log file, the first one of several.
pub fn newest_log_file(files: &Vec<LogCandidate>) -> (r: Option<usize>)
    ensures
        newest_among(r, files@),
{
    let mut best: Option<usize> = None;
    for i in 0..files.len()
        invariant
            match best {
                Some(b) => {
                    &&& b < i
                    &&& i <= files@.len()
                    &&& eligible(files@[b as int])
                    &&& forall|k: int|
                        0 <= k < i && eligible(#[trigger] files@[k]) ==> files@[k].modified->0
                            <= files@[b as int].modified->0 && (k < b ==> files@[k].modified->0
                            < files@[b as int].modified->0)
                },
                None => forall|k: int| 0 <= k < i ==> !eligible(#[trigger] files@[k]),
            },
    {
        if is_log_name(files[i].name.as_str()) {
            match files[i].modified {
                Some(t) => match best {
                    Some(b) => match files[b].modified {
                        Some(s) => {
                            if t > s {
                                best = Some(i);
                            }
                        },
                        None => {},
                    },
                    None => {
                        best = Some(i);
                    },
                },
                None => {},
            }
        }
    }
    best
}

/// Where the last `max` bytes of a file begin.
pub fn tail_offset(len: u64, max: u64) -> (r: u64)
    ensures
        r == if len > max {
            (len - max) as u64
        } else {
            0
        },
{
    if len > max {
        len - max
    } else {
        0
    }
}

/// The text of the end of a log, which may begin in the middle of a character.
pub fn tail_text(bytes: &[u8]) -> (r: String)
    ensures
        r@ == utf8_lossy(bytes@),
{
    lossy_text(bytes)
}

/// At most the last `max` bytes are read, and the whole file if it is no
/// longer.
pub proof fn law_tail_is_capped(len: u64, max: u64, offset: u64)
    requires
        offset == if len > max {
            (len - max) as u64
        } else {
            0
        },
    ensures
        len - offset <= max,
        len <= max ==> len - offset == len,
        len > max ==> len - offset == max,
{
}

} // verus!
