//! What the user is told: errors, the course of a transfer, and the report for
//! a fault.

use vstd::prelude::*;

use crate::commands::{check_openable, check_text};
use crate::diagnostics::{
    bundle_file, diagnostics_text, newest_log_file, tail_offset, tail_text, LogCandidate, Report,
    ReportedIface, ReportedLog,
};
use crate::discovery::receive_fallback;
use crate::error::LanBeamError;
use crate::laws::texts::{all_blank, digits_only, lemma_decimal_digits, worth};
use crate::sending::{FirstTurn, QueueTurn, SendJob, SendNotice};
use crate::settings::{clamp_max_concurrent, rate_limit_bytes_per_sec, Settings};
use crate::state::{ConcurrencyGate, NetDegraded};
use crate::text::{decimal, last_index};

verus! {

// ── errors ────────────────────────────────────────────────────────────────

/// An error that carries a message shows it whole, behind what kind of error it
/// is.
pub proof fn law_messages_are_shown_whole(e: &LanBeamError, m: String, r: String)
    requires
        call_ensures(LanBeamError::to_string, (e,), r),
    ensures
        *e == LanBeamError::Io(m) ==> r@ == "io: "@ + m@,
        *e == LanBeamError::Bind(m) ==> r@ == "bind failed: "@ + m@,
        *e == LanBeamError::Handshake(m) ==> r@ == "handshake failed: "@ + m@,
        *e == LanBeamError::UnsafePath(m) ==> r@ == "unsafe filename: "@ + m@,
        *e == LanBeamError::Keyring(m) ==> r@ == "keyring: "@ + m@,
        *e == LanBeamError::Crypto(m) ==> r@ == "crypto: "@ + m@,
        *e == LanBeamError::Protocol(m) ==> r@ == "protocol: "@ + m@,
        *e == LanBeamError::PeerTooOld(m) ==> r@ == "peer version too old: "@ + m@,
        *e == LanBeamError::Integrity(m) ==> r@ == "integrity: "@ + m@,
        *e == LanBeamError::NotFound(m) ==> r@ == "not found: "@ + m@,
        e is IdentityMismatch ==> r@ == "peer identity mismatch"@,
        e is PeerNotFound ==> r@ == "peer not found"@,
        e is TextRefused ==> r@ == "the peer's receive policy dropped the text"@,
        e is TextThrottled ==> r@ == "the peer is throttling quick text"@,
        e is SelfPeer ==> r@ == "that address is this device"@,
        e is Rejected ==> r@ == "rejected by peer"@,
        e is Cancelled ==> r@ == "cancelled"@,
        e is Timeout ==> r@ == "timeout"@,
{
}

/// Every error has one of eight codes, and what was received is kept after every
/// one of them but a failed check of the contents.
pub proof fn law_error_codes(e: &LanBeamError, r: &'static str, keeps: bool)
    requires
        call_ensures(LanBeamError::ui_code, (e,), r),
        call_ensures(LanBeamError::keeps_partial, (e,), keeps),
    ensures
        e is Rejected ==> r@ == "declined"@,
        e is Timeout ==> r@ == "timeout"@,
        e is Cancelled ==> r@ == "cancelled"@,
        e is PeerTooOld ==> r@ == "peer_too_old"@,
        e is Integrity ==> r@ == "integrity"@,
        e is TextRefused || e is TextThrottled ==> r@ == "text_dropped"@,
        e is Io || e is Bind || e is Keyring || e is NotFound ==> r@ == "io"@,
        e is Handshake || e is IdentityMismatch || e is PeerNotFound || e is SelfPeer
            || e is UnsafePath || e is Crypto || e is Protocol ==> r@ == "protocol"@,
        keeps <==> !(e is Integrity),
{
}

/// A text is sent if it is not blank and has at most 61440 bytes.
pub proof fn law_texts_that_can_be_sent(
    text: &str,
    r: Result<(), LanBeamError>,
    path: String,
    there: bool,
    o: Result<(), LanBeamError>,
)
    requires
        call_ensures(check_text, (text,), r),
        call_ensures(check_openable, (path, there), o),
    ensures
        r is Ok <==> !all_blank(text@) && vstd::utf8::encode_utf8(text@).len() <= 61440,
        r matches Err(e) ==> e is Protocol && e->Protocol_0@ == if all_blank(text@) {
            "no text to send"@
        } else {
            "text is too long"@
        },
        o is Ok <==> there,
        o matches Err(e) ==> e is NotFound && e->NotFound_0@ == path@,
{
    crate::laws::preferences::lemma_blank(text@);
}

// ── a transfer that is sent ───────────────────────────────────────────────

/// The sum of sizes, taken from the front.
pub open spec fn added(sizes: Seq<u64>) -> int
    decreases sizes.len(),
{
    if sizes.len() == 0 {
        0
    } else {
        sizes[0] + added(sizes.subrange(1, sizes.len() as int))
    }
}

proof fn lemma_added(sizes: Seq<u64>)
    ensures
        added(sizes) == crate::sending::sum_of(sizes),
        sizes.len() > 0 ==> added(sizes) == added(sizes.drop_last()) + sizes.last(),
    decreases sizes.len(),
{
    if sizes.len() > 0 {
        let rest = sizes.subrange(1, sizes.len() as int);
        lemma_added(rest);
        lemma_added(sizes.drop_last());
        if sizes.len() > 1 {
            assert(rest.drop_last() =~= sizes.drop_last().subrange(1, sizes.len() - 1));
            assert(rest.last() == sizes.last());
        } else {
            assert(rest.len() == 0);
            assert(sizes.drop_last().len() == 0);
        }
    }
}

/// A transfer needs a file. It knows how many there are and how much they add up
/// to, and takes its limits from the settings; without settings it runs alone
/// and unlimited.
pub proof fn law_transfer_begins(
    session: String,
    device: String,
    sizes: &Vec<u64>,
    settings: Option<&Settings>,
    r: Result<SendJob, LanBeamError>,
    limit: u32,
    text: &str,
    rate: Option<u64>,
)
    requires
        call_ensures(SendJob::begin, (session, device, sizes, settings), r),
        settings is Some ==> call_ensures(
            clamp_max_concurrent,
            (settings->0.max_concurrent,),
            limit,
        ) && text@ == settings->0.rate_limit@ && call_ensures(
            rate_limit_bytes_per_sec,
            (text,),
            rate,
        ),
    ensures
        r is Ok <==> sizes@.len() > 0,
        r matches Ok(j) ==> {
            &&& j.session_id@ == session@ && j.device_id@ == device@
            &&& j.total_size == added(sizes@) && j.file_count == sizes@.len()
            &&& j.step is Acquire
            &&& settings is Some ==> j.limit == limit && j.rate_limit == rate
            &&& settings is None ==> j.limit == 1 && j.rate_limit is None
        },
        r matches Err(e) ==> e is Protocol && e->Protocol_0@ == "no files to send"@,
{
    lemma_added(sizes@);
}

/// All that a transfer is but for its step.
pub open spec fn same_transfer(a: SendJob, b: SendJob) -> bool {
    &&& a.session_id == b.session_id
    &&& a.device_id == b.device_id
    &&& a.total_size == b.total_size
    &&& a.file_count == b.file_count
    &&& a.limit == b.limit
    &&& a.rate_limit == b.rate_limit
}

/// A slot is free while fewer than the limit are taken.
pub open spec fn free(taken: u32, limit: u32) -> bool {
    taken == 0 || taken < limit
}

/// A transfer dials at once where a slot is free, and queues else; in the queue
/// it ends when it is cancelled, dials when a slot comes free, and waits else.
pub proof fn law_transfer_waits_for_its_slot(
    j: &mut SendJob,
    g: &mut ConcurrencyGate,
    r: FirstTurn,
    k: &mut SendJob,
    h: &mut ConcurrencyGate,
    cancelled: bool,
    t: QueueTurn,
)
    requires
        call_ensures(SendJob::try_start, (j, g), r),
        call_ensures(SendJob::queue_turn, (k, h, cancelled), t),
    ensures
        same_transfer(*final(j), *old(j)) && same_transfer(*final(k), *old(k)),
        free(old(g).active, old(j).limit) ==> r is Go && final(j).step is Dial && final(g).active
            == old(g).active + 1,
        !free(old(g).active, old(j).limit) ==> final(j).step is Queue && final(g).active == old(
            g,
        ).active && (r matches FirstTurn::Queued(n) && n is Queued && n->Queued_session_id@ == old(
            j,
        ).session_id@),
        cancelled ==> final(k).step is Ended && final(h).active == old(h).active
            && t is Cancelled,
        !cancelled && free(old(h).active, old(k).limit) ==> t is Go && final(k).step is Dial
            && final(h).active == old(h).active + 1,
        !cancelled && !free(old(h).active, old(k).limit) ==> t is Wait && final(k).step is Queue
            && final(h).active == old(h).active,
{
}

/// A failure is told with the text and the code of its error.
pub open spec fn told(n: SendNotice, id: Seq<char>, text: Seq<char>, code: Seq<char>) -> bool {
    match n {
        SendNotice::Failed { session_id, error, code: c } => session_id@ == id && error@ == text
            && c@ == code,
        _ => false,
    }
}

/// A dialed transfer shows the code to compare and its size, and streams; one
/// that cannot dial, or that fails later, or that is cancelled in the queue,
/// ends with the text and the code of its error.
#[verifier::rlimit(40)]
pub proof fn law_transfer_ends_with_its_result(
    j: &mut SendJob,
    d: Result<String, &LanBeamError>,
    n: Vec<SendNotice>,
    k: &mut SendJob,
    f: Result<(), &LanBeamError>,
    m: SendNotice,
    q: &mut SendJob,
    g: &mut ConcurrencyGate,
    t: QueueTurn,
    e: &LanBeamError,
    text: String,
    code: &'static str,
)
    requires
        call_ensures(SendJob::dialed, (j, d), n),
        call_ensures(SendJob::finished, (k, f), m),
        call_ensures(SendJob::queue_turn, (q, g, true), t),
        call_ensures(LanBeamError::to_string, (e,), text),
        call_ensures(LanBeamError::ui_code, (e,), code),
    ensures
        same_transfer(*final(j), *old(j)) && same_transfer(*final(k), *old(k)),
        d matches Ok(sas) ==> {
            &&& final(j).step is Stream && n@.len() == 2
            &&& n@[0] matches SendNotice::SasCode { session_id, sas: shown, device_id }
                && session_id@ == old(j).session_id@ && shown@ == sas@ && device_id@
                == old(j).device_id@
            &&& n@[1] matches SendNotice::Started { session_id, total_size, file_count }
                && session_id@ == old(j).session_id@ && total_size == old(j).total_size
                && file_count == old(j).file_count
        },
        d is Err && *d->Err_0 == *e ==> final(j).step is Ended && n@.len() == 1 && told(
            n@[0],
            old(j).session_id@,
            text@,
            code@,
        ),
        final(k).step is Ended,
        f is Ok ==> (m matches SendNotice::Done { session_id } && session_id@ == old(k).session_id@),
        f is Err && *f->Err_0 == *e ==> told(m, old(k).session_id@, text@, code@),
        e is Cancelled ==> (t matches QueueTurn::Cancelled(c) && told(
            c,
            old(q).session_id@,
            text@,
            code@,
        )),
{
}

// ── the report ────────────────────────────────────────────────────────────

/// `name: value` and the end of the line.
pub open spec fn row(name: Seq<char>, value: Seq<char>) -> Seq<char> {
    name + ": "@ + value + "\n"@
}

pub open spec fn truth(b: bool) -> Seq<char> {
    if b {
        "true"@
    } else {
        "false"@
    }
}

/// The settings, one row for each, in a fixed order.
pub open spec fn settings_rows(s: Settings, port: Seq<char>, most: Seq<char>) -> Seq<char> {
    row("device_name"@, s.device_name@) + row("discoverable"@, truth(s.discoverable)) + row(
        "auto_open_folder"@,
        truth(s.auto_open_folder),
    ) + row("log_level"@, s.log_level@) + row("recv_policy"@, s.recv_policy@) + row(
        "download_dir_override"@,
        quoted(s.download_dir_override),
    ) + row("port"@, port) + row("tray_close"@, truth(s.tray_close)) + row(
        "notif_system"@,
        truth(s.notif_system),
    ) + row("autostart"@, truth(s.autostart)) + row("iface_filter"@, quoted(s.iface_filter)) + row(
        "hotkey_enabled"@,
        truth(s.hotkey_enabled),
    ) + row("hotkey"@, s.hotkey@) + row("verify_hash"@, truth(s.verify_hash)) + row(
        "conflict"@,
        s.conflict@,
    ) + row("organize"@, s.organize@) + row("max_concurrent"@, most) + row(
        "rate_limit"@,
        s.rate_limit@,
    ) + row("clip_share"@, truth(s.clip_share)) + row("strip_exif"@, truth(s.strip_exif))
}

/// A value that may be missing.
pub open spec fn quoted(o: Option<String>) -> Seq<char> {
    match o {
        Some(s) => "Some("@ + crate::diagnostics::debug_text(s@) + ")"@,
        None => "None"@,
    }
}

/// Digits that are worth `n`.
pub open spec fn digits_of(s: Seq<char>, n: int) -> bool {
    digits_only(s) && worth(s) == n && s.len() >= 1
}

/// The interfaces of a report: one row for each, which says of the loopback that
/// it is one.
pub open spec fn iface_rows(v: Seq<ReportedIface>, t: Seq<char>) -> bool
    decreases v.len(),
{
    if v.len() == 0 {
        t.len() == 0
    } else {
        let last = v[v.len() - 1];
        let end = row(
            last.name@,
            if last.loopback {
                last.ip@ + " (loopback)"@
            } else {
                last.ip@
            },
        );
        &&& end.len() <= t.len()
        &&& t.subrange(t.len() - end.len(), t.len() as int) == end
        &&& iface_rows(v.drop_last(), t.subrange(0, t.len() - end.len()))
    }
}

proof fn lemma_iface_rows(v: Seq<ReportedIface>)
    ensures
        iface_rows(v, crate::diagnostics::iface_lines(v)),
    decreases v.len(),
{
    if v.len() > 0 {
        lemma_iface_rows(v.drop_last());
        let head = crate::diagnostics::iface_lines(v.drop_last());
        let last = v[v.len() - 1];
        reveal_strlit("");
        let end = row(
            last.name@,
            if last.loopback {
                last.ip@ + " (loopback)"@
            } else {
                last.ip@
            },
        );
        let t = crate::diagnostics::iface_lines(v);
        assert(t =~= head + end);
        assert(t.subrange(t.len() - end.len(), t.len() as int) =~= end);
        assert(t.subrange(0, t.len() - end.len()) =~= head);
    }
}

/// The report: the head with the time, the program and the machine; the
/// settings; the interfaces; and the end of the log.
#[verifier::rlimit(40)]
pub proof fn law_report_holds_everything(r: &Report, t: String)
    requires
        call_ensures(diagnostics_text, (r,), t),
    ensures
        exists|head: Seq<char>, settings: Seq<char>, ifaces: Seq<char>, log: Seq<char>|
            {
                &&& t@ == #[trigger] (head + "\n[settings]\n"@ + settings) + #[trigger] (
                "\n[network interfaces]\n"@ + ifaces + "\n[log tail (up to 512000 bytes)]\n"@ + log)
                &&& exists|port: Seq<char>|
                    #[trigger] digits_of(port, r.tcp_port as int) && head
                        == "LanBeam diagnostics — "@ + r.stamp@ + " UTC\n"@ + row(
                        "app version"@,
                        r.version@,
                    ) + row("os"@, r.os@ + " ("@ + r.arch@ + ")"@) + row("tcp port"@, port) + row(
                        "download dir"@,
                        match r.download_dir {
                            Some(d) => d@,
                            None => "<unavailable: lock poisoned>"@,
                        },
                    )
                &&& r.settings is None ==> settings == "<unavailable: settings lock poisoned>\n"@
                &&& r.settings matches Some(s) ==> exists|port: Seq<char>, most: Seq<char>|
                    #[trigger] digits_of(port, s.port as int) && #[trigger] digits_of(
                        most,
                        s.max_concurrent as int,
                    ) && settings == settings_rows(s, port, most)
                &&& match r.interfaces {
                    Ok(v) => if v@.len() == 0 {
                        ifaces == "<none>\n"@
                    } else {
                        iface_rows(v@, ifaces)
                    },
                    Err(e) => ifaces == "<enumeration failed: "@ + e@ + ">\n"@,
                }
                &&& match r.log {
                    ReportedLog::Missing => log == "<no log file found>\n"@,
                    ReportedLog::Tail { path, text } => log == row("file"@, path@) + text@,
                    ReportedLog::Failed { path, error } => log == row("file"@, path@)
                        + "<read failed: "@ + error@ + ">\n"@,
                }
            },
{
    let head = crate::diagnostics::head_part(*r);
    let settings = crate::diagnostics::settings_part(r.settings);
    let ifaces = crate::diagnostics::interfaces_part(r.interfaces);
    let log = crate::diagnostics::log_part(r.log);
    let tcp = decimal(r.tcp_port as nat);
    lemma_decimal_digits(r.tcp_port as nat);
    assert(digits_of(tcp, r.tcp_port as int));
    let tail = row(
        "download dir"@,
        match r.download_dir {
            Some(d) => d@,
            None => "<unavailable: lock poisoned>"@,
        },
    );
    reveal_strlit("os: ");
    reveal_strlit("os");
    reveal_strlit(": ");
    reveal_strlit(")\n");
    reveal_strlit(")");
    reveal_strlit("\n");
    assert("os: "@ =~= "os"@ + ": "@);
    assert(")\n"@ =~= ")"@ + "\n"@);
    assert(head =~= "LanBeam diagnostics — "@ + r.stamp@ + " UTC\n"@ + row(
        "app version"@,
        r.version@,
    ) + row("os"@, r.os@ + " ("@ + r.arch@ + ")"@) + row("tcp port"@, tcp) + tail);
    match r.settings {
        Some(s) => {
            lemma_decimal_digits(s.port as nat);
            lemma_decimal_digits(s.max_concurrent as nat);
            let p = decimal(s.port as nat);
            let m = decimal(s.max_concurrent as nat);
            assert(digits_of(p, s.port as int) && digits_of(m, s.max_concurrent as int));
            assert(settings == settings_rows(s, p, m));
        },
        None => {},
    }
    match r.interfaces {
        Ok(v) => {
            lemma_iface_rows(v@);
        },
        Err(e) => {},
    }
    lemma_tail_size();
    assert(t@ =~= (head + "\n[settings]\n"@ + settings) + ("\n[network interfaces]\n"@ + ifaces
        + "\n[log tail (up to 512000 bytes)]\n"@ + log));
}

proof fn lemma_tail_size()
    ensures
        "\n[log tail (up to "@ + decimal(crate::diagnostics::DIAG_LOG_TAIL_MAX as nat)
            + " bytes)]\n"@ == "\n[log tail (up to 512000 bytes)]\n"@,
{
    reveal_strlit("\n[log tail (up to ");
    reveal_strlit(" bytes)]\n");
    reveal_strlit("\n[log tail (up to 512000 bytes)]\n");
    reveal_with_fuel(crate::text::decimal, 6);
    assert("\n[log tail (up to "@ + decimal(crate::diagnostics::DIAG_LOG_TAIL_MAX as nat)
        + " bytes)]\n"@ =~= "\n[log tail (up to 512000 bytes)]\n"@);
}

/// A log file: something and `.log`.
pub open spec fn log_file(name: Seq<char>) -> bool {
    name.len() > 4 && name.subrange(name.len() - 4, name.len() as int) == ".log"@
}

proof fn lemma_log_file(name: Seq<char>)
    ensures
        crate::diagnostics::log_name(name) == log_file(name),
{
    reveal_strlit("log");
    reveal_strlit(".log");
    crate::laws::texts::lemma_last_index(name, '.');
    let p = last_index(name, '.');
    let n = name.len() as int;
    if log_file(name) {
        let end = name.subrange(n - 4, n);
        assert(end[0] == name[n - 4] && end[1] == name[n - 3] && end[2] == name[n - 2] && end[3]
            == name[n - 1]);
        assert(p == n - 4);
        assert(name.subrange(p + 1, n) =~= "log"@);
    }
    if crate::diagnostics::log_name(name) {
        let end = name.subrange(p + 1, n);
        assert(end.len() == 3);
        assert(end[0] == name[p + 1] && end[1] == name[p + 2] && end[2] == name[p + 3]);
        assert(name.subrange(n - 4, n) =~= ".log"@);
    }
}

/// The log of the report is the one that changed last among the files named
/// `.log` whose time is known, and the first of several.
pub proof fn law_newest_log_is_reported(files: &Vec<LogCandidate>, r: Option<usize>)
    requires
        call_ensures(newest_log_file, (files,), r),
    ensures
        r is None <==> forall|i: int|
            0 <= i < files@.len() ==> !(log_file((#[trigger] files@[i]).name@)
                && files@[i].modified is Some),
        r matches Some(b) ==> {
            &&& b < files@.len() && log_file(files@[b as int].name@)
                && files@[b as int].modified is Some
            &&& forall|i: int|
                0 <= i < files@.len() && log_file((#[trigger] files@[i]).name@)
                    && files@[i].modified is Some ==> files@[i].modified->0
                    <= files@[b as int].modified->0 && (i < b ==> files@[i].modified->0
                    < files@[b as int].modified->0)
        },
{
    assert forall|i: int| 0 <= i < files@.len() implies crate::diagnostics::eligible(
        #[trigger] files@[i],
    ) == (log_file(files@[i].name@) && files@[i].modified is Some) by {
        lemma_log_file(files@[i].name@);
    }
}

/// The end of a file begins where at most `max` bytes are left, and is the whole
/// of a shorter one. Bytes that are a text are that text.
pub proof fn law_end_of_a_file(
    len: u64,
    max: u64,
    at: u64,
    bytes: &[u8],
    t: String,
    stamp: &str,
    name: String,
    d: NetDegraded,
)
    requires
        call_ensures(tail_offset, (len, max), at),
        call_ensures(tail_text, (bytes,), t),
        call_ensures(bundle_file, (stamp,), name),
        call_ensures(receive_fallback, (), d),
    ensures
        len <= max ==> at == 0,
        len > max ==> len - at == max,
        forall|s: Seq<char>| bytes@ == #[trigger] vstd::utf8::encode_utf8(s) ==> t@ == s,
        name@ == "lanbeam-diag-"@ + stamp@ + ".txt"@,
        d.kind@ == "udp_recv_fallback"@,
        exists|port: Seq<char>| #[trigger]
            digits_of(port, 51703) && d.detail@ == "UDP port "@ + port
                + " is held by another process — announcing only; other devices will not appear here until the port is free again"@,
{
    lemma_decimal_digits(51703);
    assert(digits_of(decimal(51703), 51703));
    assert forall|s: Seq<char>| bytes@ == #[trigger] vstd::utf8::encode_utf8(s) implies t@ == s by {
        vstd::utf8::encode_utf8_valid_utf8(s);
        vstd::utf8::encode_utf8_decode_utf8(s);
    }
}

} // verus!
