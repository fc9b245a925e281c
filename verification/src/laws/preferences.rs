//! Which settings are accepted, what they stand for, and how the program starts
//! with them.

use vstd::prelude::*;

use crate::commands::{begin_reset, conclude_reset, get_my_identity, MyIdentity, ResetStep};
use crate::error::LanBeamError;
use crate::identity::Identity;
use crate::laws::devices::carries;
use crate::laws::texts::{all_blank, digits_only, lemma_trimmed_of, lemma_worth, tight, worth};
use crate::net::{dotted, law_dotted_parses_back, parsed_ipv4, Ipv4Addr};
use crate::settings::{
    clamp_max_concurrent, corruption_diag, default_auto_open_folder, default_autostart,
    default_clip_share, default_conflict, default_device_name, default_discoverable,
    default_download_dir_override, default_hotkey, default_hotkey_enabled, default_iface_filter,
    default_log_level, default_max_concurrent, default_notif_system, default_organize, default_port,
    default_rate_limit, default_recv_policy, default_strip_exif, default_tray_close,
    default_verify_hash, effective_listen_port, finish_rebind, load, parse_iface_filter,
    plan_rebind, rate_limit_bytes_per_sec, shortcut_allowed, store_file_for, valid_hotkey,
    valid_listen_port, valid_rate_limit, HotkeyChange, RebindStep, Settings, StoreFile,
};
use crate::share::ShareDownloadEvent;
use crate::startup::{
    accept_link, autostart_needs_change, download_notice, instance_file, instance_folder,
    instance_id, launch_link, level_filter, plan_startup, reconcile_autostart, resolve_download_dir,
    second_launch_links, should_hide_on_close, DownloadRoot, LevelFilter, Notice, StartupPlan,
};
use crate::text::{parsed_unsigned, trimmed};

verus! {

// ── choices with names ────────────────────────────────────────────────────

/// A setting whose values have names takes exactly those names, and nothing but
/// that setting changes; any other text changes nothing and is not stored.
pub proof fn law_named_choices(
    a: &mut Settings,
    b: &mut Settings,
    c: &mut Settings,
    d: &mut Settings,
    word: String,
    ra: bool,
    rb: bool,
    rc: bool,
    rd: bool,
)
    requires
        call_ensures(Settings::set_log_level, (a, word), ra),
        call_ensures(Settings::set_recv_policy, (b, word), rb),
        call_ensures(Settings::set_conflict_policy, (c, word), rc),
        call_ensures(Settings::set_organize, (d, word), rd),
    ensures
        ra <==> word@ == "errors"@ || word@ == "normal"@ || word@ == "verbose"@,
        rb <==> word@ == "ask"@ || word@ == "trusted"@ || word@ == "all"@,
        rc <==> word@ == "ask"@ || word@ == "rename"@ || word@ == "overwrite"@,
        rd <==> word@ == "none"@ || word@ == "device"@ || word@ == "date"@,
        *final(a) == if ra {
            Settings { log_level: word, ..*old(a) }
        } else {
            *old(a)
        },
        *final(b) == if rb {
            Settings { recv_policy: word, ..*old(b) }
        } else {
            *old(b)
        },
        *final(c) == if rc {
            Settings { conflict: word, ..*old(c) }
        } else {
            *old(c)
        },
        *final(d) == if rd {
            Settings { organize: word, ..*old(d) }
        } else {
            *old(d)
        },
{
}

/// A switch sets its own field and no other.
pub proof fn law_switches_one(
    a: &mut Settings,
    b: &mut Settings,
    c: &mut Settings,
    d: &mut Settings,
    on: bool,
)
    requires
        call_ensures(Settings::set_discoverable, (a, on), ()),
        call_ensures(Settings::set_auto_open, (b, on), ()),
        call_ensures(Settings::set_tray_close, (c, on), ()),
        call_ensures(Settings::set_notif_system, (d, on), ()),
    ensures
        *final(a) == (Settings { discoverable: on, ..*old(a) }),
        *final(b) == (Settings { auto_open_folder: on, ..*old(b) }),
        *final(c) == (Settings { tray_close: on, ..*old(c) }),
        *final(d) == (Settings { notif_system: on, ..*old(d) }),
{
}

/// A switch sets its own field and no other; the shortcut is registered when it
/// is switched on and released when it is switched off.
pub proof fn law_switches_two(
    a: &mut Settings,
    b: &mut Settings,
    c: &mut Settings,
    d: &mut Settings,
    on: bool,
    r: HotkeyChange,
)
    requires
        call_ensures(Settings::set_verify_hash, (a, on), ()),
        call_ensures(Settings::set_clip_share, (b, on), ()),
        call_ensures(Settings::set_strip_exif, (c, on), ()),
        call_ensures(Settings::set_hotkey_enabled, (d, on), r),
    ensures
        *final(a) == (Settings { verify_hash: on, ..*old(a) }),
        *final(b) == (Settings { clip_share: on, ..*old(b) }),
        *final(c) == (Settings { strip_exif: on, ..*old(c) }),
        *final(d) == (Settings { hotkey_enabled: on, ..*old(d) }),
        on ==> r is Register && r->Register_0@ == old(d).hotkey@,
        !on ==> r is Unregister && r->Unregister_0@ == old(d).hotkey@,
{
}

/// The login item and the download folder are stored only once the system has
/// taken them.
pub proof fn law_what_the_system_refuses_is_not_stored(
    a: &mut Settings,
    on: bool,
    changed: Result<(), String>,
    ra: Result<(), LanBeamError>,
    b: &mut Settings,
    path: &str,
    canonical: Option<String>,
    rb: Result<String, LanBeamError>,
)
    requires
        call_ensures(Settings::set_autostart, (a, on, changed), ra),
        call_ensures(Settings::set_download_dir, (b, path, canonical), rb),
    ensures
        ra is Ok <==> changed is Ok,
        ra is Ok ==> *final(a) == (Settings { autostart: on, ..*old(a) }),
        ra is Err ==> *final(a) == *old(a) && ra->Err_0 is Io && ra->Err_0->Io_0@ == changed->Err_0@,
        rb is Ok <==> canonical is Some,
        rb matches Ok(stored) ==> {
            &&& stored@ == canonical->0@
            &&& final(b).download_dir_override is Some && final(b).download_dir_override->0@
                == stored@
            &&& *final(b) == (Settings {
                download_dir_override: final(b).download_dir_override,
                ..*old(b)
            })
        },
        rb is Err ==> *final(b) == *old(b),
{
}

// ── numbers ───────────────────────────────────────────────────────────────

/// Between one and eight transfers run at once: a number in between is kept, and
/// any other goes to the nearest end.
pub proof fn law_one_to_eight_at_once(n: u32, r: u32, s: &mut Settings)
    requires
        call_ensures(clamp_max_concurrent, (n,), r),
        call_ensures(Settings::set_max_concurrent, (s, n), ()),
    ensures
        1 <= n <= 8 ==> r == n,
        n < 1 ==> r == 1,
        n > 8 ==> r == 8,
        *final(s) == (Settings { max_concurrent: r, ..*old(s) }),
{
}

/// Whether `t` is a number, with an optional plus sign, that is worth `n`.
pub open spec fn number(t: Seq<char>, n: int) -> bool {
    let body = if t.len() > 0 && t[0] == '+' {
        t.subrange(1, t.len() as int)
    } else {
        t
    };
    body.len() > 0 && digits_only(body) && worth(body) == n
}

pub proof fn lemma_number(t: Seq<char>, max: nat)
    ensures
        match parsed_unsigned(t, max) {
            Some(n) => number(t, n as int) && n <= max,
            None => forall|n: int| 0 <= n <= max ==> !number(t, n),
        },
        forall|n: int| 0 <= n <= max && number(t, n) ==> parsed_unsigned(t, max) == Some(n as nat),
{
    let body = if t.len() > 0 && t[0] == '+' {
        t.drop_first()
    } else {
        t
    };
    assert(t.len() > 0 ==> t.drop_first() =~= t.subrange(1, t.len() as int));
    assert(crate::text::all_digits(body) == digits_only(body)) by {
        assert forall|i: int| 0 <= i < body.len() implies crate::text::ascii_digit(
            #[trigger] body[i],
        ) == (48 <= body[i] as u32 && body[i] as u32 <= 57) by {
            lemma_digit(body[i]);
        }
    }
    if digits_only(body) {
        lemma_worth(body);
    }
}

proof fn lemma_digit(c: char)
    ensures
        crate::text::ascii_digit(c) == (48 <= c as u32 && c as u32 <= 57),
{
}

/// A rate is `unlimited` or one to a million megabytes a second, blanks around
/// it aside; it is stored without them. A rate of `n` is `n` times 1048576 bytes
/// a second, and `unlimited` is no bound.
#[verifier::rlimit(40)]
pub proof fn law_rates_are_megabytes(
    s: &str,
    a: Seq<char>,
    t: Seq<char>,
    b: Seq<char>,
    valid: bool,
    bytes: Option<u64>,
    set: &mut Settings,
    save: bool,
    n: int,
)
    requires
        s@ == a + t + b && all_blank(a) && all_blank(b) && tight(t),
        call_ensures(valid_rate_limit, (s,), valid),
        call_ensures(rate_limit_bytes_per_sec, (s,), bytes),
        call_ensures(Settings::set_rate_limit, (set, s), save),
    ensures
        t == "unlimited"@ ==> valid && bytes is None,
        1 <= n <= 1_000_000 && number(t, n) ==> valid && bytes == Some((n * 1_048_576) as u64),
        n == 0 && number(t, n) ==> !valid && bytes is None,
        1_000_000 < n <= u64::MAX && number(t, n) ==> !valid && bytes == Some(1_048_576_000_000u64),
        valid ==> t == "unlimited"@ || exists|k: int| 1 <= k <= 1_000_000 && #[trigger] number(t, k),
        save == valid,
        save ==> final(set).rate_limit@ == t,
        *final(set) == (Settings { rate_limit: final(set).rate_limit, ..*old(set) }),
        !save ==> *final(set) == *old(set),
{
    lemma_trimmed_of(a, t, b);
    lemma_number(t, u64::MAX as nat);
    if t == "unlimited"@ {
        reveal_strlit("unlimited");
        assert(t[0] == 'u');
        assert forall|k: int| 0 <= k <= u64::MAX implies !number(t, k) by {
            if digits_only(t) {
                assert(t[0] as u32 <= 57);
            }
        }
    }
    match parsed_unsigned(t, u64::MAX as nat) {
        Some(k) => {
            assert(number(t, k as int));
        },
        None => {},
    }
}

/// The port is zero, which stands for 51704, or 1024 and above.
pub proof fn law_ports_below_1024_are_refused(
    port: u16,
    ok: bool,
    used: u16,
    s: &mut Settings,
    save: bool,
)
    requires
        call_ensures(valid_listen_port, (port,), ok),
        call_ensures(effective_listen_port, (port,), used),
        call_ensures(Settings::set_listen_port, (s, port), save),
    ensures
        ok <==> port == 0 || port >= 1024,
        save == ok,
        used == if port >= 1024 {
            port
        } else {
            51704
        },
        *final(s) == if ok {
            Settings { port, ..*old(s) }
        } else {
            *old(s)
        },
{
}

/// The interface is chosen by its address, blanks aside; a blank text is no
/// choice, and any other is refused.
pub proof fn law_interface_is_chosen_by_address(
    s: &str,
    a: Seq<char>,
    t: Seq<char>,
    b: Seq<char>,
    r: Option<Option<String>>,
    set: &mut Settings,
    save: bool,
    x: Ipv4Addr,
)
    requires
        s@ == a + t + b && all_blank(a) && all_blank(b) && tight(t),
        call_ensures(parse_iface_filter, (s,), r),
        call_ensures(Settings::set_iface_filter, (set, s), save),
    ensures
        t.len() == 0 <==> r is Some && r->0 is None,
        t == dotted(x) ==> r is Some && r->0 is Some && r->0->0@ == t,
        (r matches Some(Some(c)) ==> c@ == t && exists|y: Ipv4Addr| t == #[trigger] dotted(y)),
        save <==> r is Some,
        save ==> (final(set).iface_filter is Some <==> r->0 is Some),
        save && r->0 is Some ==> final(set).iface_filter->0@ == t,
        !save ==> *final(set) == *old(set),
        *final(set) == (Settings { iface_filter: final(set).iface_filter, ..*old(set) }),
{
    lemma_trimmed_of(a, t, b);
    if t == dotted(x) {
        law_dotted_parses_back(x);
        crate::laws::texts::lemma_decimal_digits(crate::net::octet(x, 0));
    }
    match parsed_ipv4(t) {
        Some(y) => {
            crate::laws::addresses::lemma_parsed_is_dotted(t, y);
        },
        None => {},
    }
}

// ── names and shortcuts ───────────────────────────────────────────────────

/// The name of the device is what was typed between blanks, as much of it as has
/// 63 bytes; where nothing was typed it is the usual name.
pub proof fn law_device_name_is_what_was_typed(
    set: &mut Settings,
    name: &str,
    usual: String,
    a: Seq<char>,
    t: Seq<char>,
    b: Seq<char>,
)
    requires
        name@ == a + t + b && all_blank(a) && all_blank(b) && tight(t),
        call_ensures(Settings::set_device_name, (set, name, usual), ()),
    ensures
        t.len() == 0 ==> final(set).device_name@ == usual@,
        t.len() > 0 ==> carries(final(set).device_name@, t),
        *final(set) == (Settings { device_name: final(set).device_name, ..*old(set) }),
{
    lemma_trimmed_of(a, t, b);
    crate::text::law_cut_text_is_the_longest(t, 63);
    if t.len() > 0 {
        lemma_first_fits(t);
    }
}

/// One character has at most four bytes, so the first one always fits.
proof fn lemma_first_fits(t: Seq<char>)
    requires
        t.len() > 0,
    ensures
        crate::text::take_bytes(t, 63).len() > 0,
{
    crate::text::law_cut_text_is_the_longest(t, 63);
    let one = t.subrange(0, 1);
    assert(one.len() == 1);
    assert(one.drop_first().len() == 0);
    reveal_with_fuel(vstd::utf8::encode_utf8, 2);
    if crate::text::take_bytes(t, 63).len() == 0 {
        assert(vstd::utf8::encode_utf8(one).len() > 63);
    }
}

/// The usual name of a device: its first system name if there is one, else the
/// second; blank or missing ones give `LanBeam device`.
pub proof fn law_usual_device_name(first: Option<String>, second: Option<String>, r: String)
    requires
        call_ensures(default_device_name, (first, second), r),
    ensures
        first matches Some(n) ==> r@ == if all_blank(n@) {
            "LanBeam device"@
        } else {
            n@
        },
        first is None && second is Some ==> r@ == if all_blank(second->0@) {
            "LanBeam device"@
        } else {
            second->0@
        },
        first is None && second is None ==> r@ == "LanBeam device"@,
{
    match first {
        Some(n) => {
            lemma_blank(n@);
        },
        None => match second {
            Some(n) => {
                lemma_blank(n@);
            },
            None => {},
        },
    }
}

/// Trimming leaves nothing of a text exactly when it is blank.
pub proof fn lemma_blank(s: Seq<char>)
    ensures
        trimmed(s).len() == 0 <==> all_blank(s),
{
    let (a, b) = crate::laws::texts::lemma_trimmed_parts(s);
    if trimmed(s).len() == 0 {
        assert(s =~= a + b);
        assert forall|i: int| 0 <= i < s.len() implies crate::laws::texts::blank(#[trigger] s[i]) by {
            if i < a.len() {
                assert(s[i] == a[i]);
            } else {
                assert(s[i] == b[i - a.len()]);
            }
        }
    } else {
        assert(s[a.len() as int] == trimmed(s)[0]);
    }
}

/// A shortcut is acceptable if it can be read and is no bare key; blanks around
/// it are no part of it.
pub proof fn law_bare_keys_are_no_shortcuts(
    parsed: Option<bool>,
    allowed: bool,
    combo: &str,
    valid: bool,
    settings: &Settings,
    step: Result<RebindStep, LanBeamError>,
    a: Seq<char>,
    t: Seq<char>,
    b: Seq<char>,
)
    requires
        combo@ == a + t + b && all_blank(a) && all_blank(b) && tight(t),
        call_ensures(shortcut_allowed, (parsed,), allowed),
        call_ensures(valid_hotkey, (combo,), valid),
        call_ensures(plan_rebind, (settings, combo), step),
    ensures
        allowed <==> parsed is Some && !parsed->0,
        valid <==> t.len() > 0 && crate::settings::shortcut_bare(t) is Some
            && !crate::settings::shortcut_bare(t)->0,
        step is Ok <==> valid,
        step matches Ok(s) ==> {
            &&& s is Unchanged <==> t == settings.hotkey@
            &&& s is Bind <==> t != settings.hotkey@ && settings.hotkey_enabled
            &&& s matches RebindStep::Bind(c) ==> c@ == t
            &&& s matches RebindStep::Store(c) ==> c@ == t
        },
        step matches Err(e) ==> e is Protocol && e->Protocol_0@ == "not a valid shortcut: "@ + t,
{
    lemma_trimmed_of(a, t, b);
    assert(Seq::<char>::empty() + t + Seq::<char>::empty() =~= t);
    lemma_trimmed_of(Seq::empty(), t, Seq::empty());
}

/// A shortcut that could not be bound leaves the old one in place.
pub proof fn law_unbound_shortcut_changes_nothing(
    settings: &mut Settings,
    combo: String,
    bound: Result<(), String>,
    r: Result<(), LanBeamError>,
)
    requires
        call_ensures(finish_rebind, (settings, combo, bound), r),
    ensures
        r is Ok <==> bound is Ok,
        r is Ok ==> *final(settings) == (Settings { hotkey: combo, ..*old(settings) }),
        r is Err ==> *final(settings) == *old(settings) && r->Err_0 is Io,
{
}

// ── the store ─────────────────────────────────────────────────────────────

/// The values of a first run.
pub open spec fn first_run(s: Settings) -> bool {
    &&& s.discoverable && s.auto_open_folder && s.tray_close && s.notif_system && s.verify_hash
        && s.strip_exif
    &&& !s.autostart && !s.hotkey_enabled && !s.clip_share
    &&& s.log_level@ == "normal"@ && s.recv_policy@ == "trusted"@ && s.conflict@ == "ask"@
        && s.organize@ == "none"@ && s.rate_limit@ == "unlimited"@ && s.hotkey@ == "Alt+Space"@
    &&& s.download_dir_override is None && s.iface_filter is None
    &&& s.port == 0 && s.max_concurrent == 3
}

/// Settings that can be read are taken as they are; in every other case those of
/// a first run are taken, and only a missing file is no reason for a warning.
pub proof fn law_unreadable_settings_are_replaced(
    path: &str,
    file: StoreFile,
    name: String,
    r: (Settings, Option<String>),
    again: Option<String>,
    fresh: Settings,
)
    requires
        call_ensures(load, (path, file, name), r),
        call_ensures(corruption_diag, (path, &file), again),
        call_ensures(Settings::defaults, (name,), fresh),
    ensures
        first_run(fresh) && fresh.device_name@ == name@,
        (file matches StoreFile::Blob(Ok(s)) ==> r.0 == s && r.1 is None),
        !(file is Blob && file->Blob_0 is Ok) ==> first_run(r.0) && r.0.device_name@ == name@,
        r.1 is None <==> file is Missing || file is Blob && file->Blob_0 is Ok,
        again is Some <==> r.1 is Some,
        again is Some ==> again->0@ == r.1->0@,
        (file matches StoreFile::Blob(Err(e)) ==> r.1->0@ == e@),
        (file matches StoreFile::Unreadable(e) ==> r.1->0@ == "store file unreadable ("@ + path@
            + "): "@ + e@),
        (file matches StoreFile::NotJson(e) ==> r.1->0@ == "store file is not valid JSON ("@ + path@
            + "): "@ + e@),
        file is Keyless ==> r.1->0@ == "store file exists but no settings blob was loaded ("@ + path@
            + ")"@,
{
}

/// Every instance keeps its files under its own name, the first one under the
/// plain one.
pub proof fn law_files_of_an_instance(
    id: &str,
    own: String,
    empty: &str,
    blank: String,
    plain: String,
    base: &str,
    with: Option<String>,
    file: String,
    folder: Option<String>,
)
    requires
        call_ensures(store_file_for, (Some(id),), own),
        call_ensures(store_file_for, (Some(empty),), blank),
        call_ensures(store_file_for, (None,), plain),
        empty@.len() == 0,
        call_ensures(instance_file, (base, &with), file),
        call_ensures(instance_folder, (&with,), folder),
    ensures
        plain@ == "settings.json"@ && blank@ == plain@,
        id@.len() > 0 ==> own@ == "settings-"@ + id@ + ".json"@,
        with is None ==> file@ == base@ + ".json"@ && folder is None,
        with matches Some(i) ==> file@ == base@ + "-"@ + i@ + ".json"@ && folder is Some
            && folder->0@ == "instance-"@ + i@,
{
}

// ── the start ─────────────────────────────────────────────────────────────

/// The level of the log: errors alone, everything, or the usual for any other
/// word.
pub proof fn law_log_levels(level: &str, r: LevelFilter)
    requires
        call_ensures(level_filter, (level,), r),
    ensures
        r == LevelFilter::Error <==> level@ == "errors"@,
        r == LevelFilter::Trace <==> level@ == "verbose"@,
        r == LevelFilter::Info <==> level@ != "errors"@ && level@ != "verbose"@,
{
    reveal_strlit("errors");
    reveal_strlit("verbose");
    assert("errors"@[0] != "verbose"@[0]);
}

/// Whether a text begins with `lanbeam://`.
pub open spec fn scheme(s: Seq<char>) -> bool {
    s.len() >= 10 && s.subrange(0, 10) == "lanbeam://"@
}

proof fn lemma_scheme(s: Seq<char>)
    ensures
        crate::startup::is_link(s) == scheme(s),
{
    reveal_strlit("lanbeam://");
}

/// A link is taken without the blanks around it, and only a link of this
/// program.
pub proof fn law_only_own_links_are_taken(
    url: &str,
    r: Option<String>,
    a: Seq<char>,
    t: Seq<char>,
    b: Seq<char>,
)
    requires
        url@ == a + t + b && all_blank(a) && all_blank(b) && tight(t),
        call_ensures(accept_link, (url,), r),
    ensures
        r is Some <==> scheme(t),
        r is Some ==> r->0@ == t,
{
    lemma_trimmed_of(a, t, b);
    lemma_scheme(t);
}

/// At launch the first link counts.
pub proof fn law_first_link_counts(urls: &Vec<String>, r: Option<String>)
    requires
        call_ensures(launch_link, (urls,), r),
    ensures
        r is None <==> forall|i: int| 0 <= i < urls@.len() ==> !scheme(trimmed((#[trigger] urls@[i])@)),
        r matches Some(l) ==> exists|k: int|
            {
                &&& 0 <= k < urls@.len() && scheme(l@) && l@ == trimmed((#[trigger] urls@[k])@)
                &&& forall|i: int| 0 <= i < k ==> !scheme(trimmed((#[trigger] urls@[i])@))
            },
{
    lemma_first_link(urls@);
    let k = crate::startup::first_link(urls@);
    if k < urls@.len() {
        assert(scheme(trimmed(urls@[k]@)));
    }
}

proof fn lemma_first_link(urls: Seq<String>)
    ensures
        ({
            let k = crate::startup::first_link(urls);
            &&& 0 <= k <= urls.len()
            &&& k < urls.len() ==> scheme(trimmed(urls[k]@))
            &&& forall|i: int| 0 <= i < k ==> !scheme(trimmed((#[trigger] urls[i])@))
        }),
    decreases urls.len(),
{
    if urls.len() > 0 {
        lemma_scheme(trimmed(urls[0]@));
        let rest = urls.drop_first();
        lemma_first_link(rest);
        let k = crate::startup::first_link(urls);
        if k > 0 {
            assert forall|i: int| 0 <= i < k implies !scheme(trimmed((#[trigger] urls[i])@)) by {
                if i > 0 {
                    assert(rest[i - 1] == urls[i]);
                }
            }
            if k < urls.len() {
                assert(rest[k - 1] == urls[k]);
            }
        }
    }
}

/// The arguments of a second launch that are links, one after the other, without
/// blanks behind them.
pub open spec fn links_among(args: Seq<String>, links: Seq<Seq<char>>) -> bool
    decreases args.len(),
{
    if args.len() == 0 {
        links.len() == 0
    } else if scheme(args[args.len() - 1]@) {
        links.len() > 0 && links[links.len() - 1] == trimmed(args[args.len() - 1]@) && links_among(
            args.drop_last(),
            links.drop_last(),
        )
    } else {
        links_among(args.drop_last(), links)
    }
}

/// A second launch hands over every link among its arguments, in order.
pub proof fn law_second_launch_hands_over_links(args: &Vec<String>, r: Vec<String>)
    requires
        call_ensures(second_launch_links, (args,), r),
    ensures
        links_among(args@, crate::sanitize::texts(r@)),
{
    lemma_links(args@);
}

proof fn lemma_links(args: Seq<String>)
    ensures
        links_among(args, crate::startup::links_of(args)),
    decreases args.len(),
{
    if args.len() > 0 {
        lemma_links(args.drop_last());
        lemma_scheme(args.last()@);
        let l = crate::startup::links_of(args);
        if scheme(args.last()@) {
            assert(l.drop_last() =~= crate::startup::links_of(args.drop_last()));
        }
    }
}

/// How the program starts: the first instance owns what exists once on a
/// machine; another keeps its own files and folder and tells itself apart by its
/// name. The level, the port and the files are those of the functions for them.
pub proof fn law_start_follows_the_settings(
    instance: &Option<String>,
    settings: &Settings,
    name: &str,
    p: StartupPlan,
    level: &str,
    filter: LevelFilter,
    port: u16,
    trusted: &str,
    trusted_file: String,
    partials: &str,
    partials_file: String,
    folder: Option<String>,
)
    requires
        call_ensures(plan_startup, (instance, settings, name), p),
        level@ == settings.log_level@,
        call_ensures(level_filter, (level,), filter),
        call_ensures(effective_listen_port, (settings.port,), port),
        trusted@ == "trusted"@,
        call_ensures(instance_file, (trusted, instance), trusted_file),
        partials@ == "partials"@,
        call_ensures(instance_file, (partials, instance), partials_file),
        call_ensures(instance_folder, (instance,), folder),
    ensures
        p.single_instance == instance is None,
        p.reconcile_autostart == instance is None,
        p.register_scheme == instance is None,
        p.level == filter && p.listen_port == port,
        p.trusted_file@ == trusted_file@ && p.partials_file@ == partials_file@,
        p.download_folder is Some <==> folder is Some,
        folder is Some ==> p.download_folder->0@ == folder->0@,
        p.device_name is Some <==> instance is Some,
        instance is Some ==> p.device_name->0@ == name@ + " ("@ + crate::text::uppercase_of(
            instance->0@,
        ) + ")"@,
        p.hotkey is Some <==> instance is None && settings.hotkey_enabled,
        p.hotkey is Some ==> p.hotkey->0@ == settings.hotkey@,
{
}

/// The login item is changed exactly when it is known to differ from the
/// setting; one that is unknown counts as the opposite of what is asked for.
pub proof fn law_login_item_follows_the_setting(
    actual: Option<bool>,
    wanted: bool,
    r: Option<bool>,
    change: bool,
    tray: bool,
    quitting: bool,
    hide: bool,
    var: Option<String>,
    id: Option<String>,
)
    requires
        call_ensures(reconcile_autostart, (actual, wanted), r),
        call_ensures(autostart_needs_change, (actual, wanted), change),
        call_ensures(should_hide_on_close, (tray, quitting), hide),
        call_ensures(instance_id, (var,), id),
    ensures
        r is Some <==> actual is Some && actual->0 != wanted,
        r is Some ==> r->0 == wanted,
        change <==> actual != Some(wanted),
        hide <==> tray && !quitting,
        id is Some <==> var is Some && var->0@.len() > 0,
        id is Some ==> id == var,
{
}

/// Files go to the chosen folder while it is there, else to the usual one, and a
/// lost choice is said.
pub proof fn law_download_folder(
    chosen: &Option<String>,
    canonical: Option<String>,
    usual: String,
    r: DownloadRoot,
    event: &ShareDownloadEvent,
    notify: bool,
    n: Option<Notice>,
)
    requires
        call_ensures(resolve_download_dir, (chosen, canonical, usual), r),
        call_ensures(download_notice, (event, notify), n),
    ensures
        chosen is Some && canonical is Some ==> r.path@ == canonical->0@,
        chosen is None || canonical is None ==> r.path@ == usual@,
        r.override_lost <==> chosen is Some && canonical is None,
        n is Some <==> notify,
        n is Some ==> n->0.title@ == event.name@ && n->0.body@ == "↓ "@ + event.peer_ip@,
{
}

// ── the reset ─────────────────────────────────────────────────────────────

/// A reset hides the device first; if its identity could not be deleted, it is
/// as visible as it was and nothing else has changed.
pub proof fn law_failed_reset_changes_nothing(
    a: &mut Settings,
    was: bool,
    b: &mut Settings,
    deleted: Result<(), LanBeamError>,
    r: Result<(), LanBeamError>,
)
    requires
        call_ensures(begin_reset, (a,), was),
        *old(b) == *final(a),
        call_ensures(conclude_reset, (b, was, deleted), r),
    ensures
        !final(a).discoverable,
        *final(a) == (Settings { discoverable: false, ..*old(a) }),
        deleted is Err ==> *final(b) == *old(a) && r is Err && r->Err_0 == deleted->Err_0,
        deleted is Ok ==> *final(b) == *final(a) && r is Ok,
{
}

/// A reset goes from the announcement to the identity, the trust list and the
/// restart; a failure to delete the identity ends it there, and no other does.
pub proof fn law_reset_steps(s: ResetStep, ok: bool, r: ResetStep)
    requires
        call_ensures(ResetStep::next, (s, ok), r),
    ensures
        s is Announce ==> r is DeleteIdentity,
        s is DeleteIdentity && ok ==> r is ClearTrust,
        s is DeleteIdentity && !ok ==> r is Refused,
        s is ClearTrust ==> r is Restart,
        s is Restart || s is Refused ==> r == s,
{
}

/// The identity shown is that of the key, its first eight characters, and the
/// name.
pub proof fn law_shown_identity(me: &Identity, name: String, r: MyIdentity, id: String)
    requires
        call_ensures(get_my_identity, (me, name), r),
        call_ensures(Identity::device_id, (me,), id),
    ensures
        r.device_id@ == id@,
        r.name@ == name@,
        r.short_id@ == id@.subrange(0, 8),
{
}

/// A setting that is missing in the store has the value of a first run.
pub proof fn law_missing_settings_have_first_run_values(
    name: String,
    s: Settings,
    a: (bool, bool, bool, bool, bool),
    b: (bool, bool, bool, bool),
    level: String,
    policy: String,
    conflict: String,
    organize: String,
    rate: String,
    hotkey: String,
    folder: Option<String>,
    iface: Option<String>,
    port: u16,
    most: u32,
)
    requires
        call_ensures(Settings::defaults, (name,), s),
        call_ensures(default_discoverable, (), a.0),
        call_ensures(default_auto_open_folder, (), a.1),
        call_ensures(default_tray_close, (), a.2),
        call_ensures(default_notif_system, (), a.3),
        call_ensures(default_verify_hash, (), a.4),
        call_ensures(default_strip_exif, (), b.0),
        call_ensures(default_autostart, (), b.1),
        call_ensures(default_hotkey_enabled, (), b.2),
        call_ensures(default_clip_share, (), b.3),
        call_ensures(default_log_level, (), level),
        call_ensures(default_recv_policy, (), policy),
        call_ensures(default_conflict, (), conflict),
        call_ensures(default_organize, (), organize),
        call_ensures(default_rate_limit, (), rate),
        call_ensures(default_hotkey, (), hotkey),
        call_ensures(default_download_dir_override, (), folder),
        call_ensures(default_iface_filter, (), iface),
        call_ensures(default_port, (), port),
        call_ensures(default_max_concurrent, (), most),
    ensures
        s.discoverable == a.0 && s.auto_open_folder == a.1 && s.tray_close == a.2
            && s.notif_system == a.3 && s.verify_hash == a.4,
        s.strip_exif == b.0 && s.autostart == b.1 && s.hotkey_enabled == b.2 && s.clip_share == b.3,
        s.log_level@ == level@ && s.recv_policy@ == policy@ && s.conflict@ == conflict@,
        s.organize@ == organize@ && s.rate_limit@ == rate@ && s.hotkey@ == hotkey@,
        s.download_dir_override is None && folder is None,
        s.iface_filter is None && iface is None,
        s.port == port && s.max_concurrent == most,
{
}

} // verus!
