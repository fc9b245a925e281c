//! What is decided when the application starts, is launched again, is handed a
//! link, or is asked to close.

use vstd::prelude::*;

use crate::settings::{effective_listen_port, Settings};
use crate::share::ShareDownloadEvent;
use crate::text::{
    chars_of, concat, has_prefix, starts_with, str_eq, string_of, to_uppercase, trim_chars,
    trimmed, uppercase_of,
};

verus! {

/// How much is logged.
#[derive(Debug, Clone, Copy, PartialEq, Eq, Structural)]
pub enum LevelFilter {
    Error,
    Info,
    Trace,
}

/// The level that a setting stands for; an unknown one counts as the normal
/// one.
pub open spec fn level_of(level: Seq<char>) -> LevelFilter {
    if level == "errors"@ {
        LevelFilter::Error
    } else if level == "verbose"@ {
        LevelFilter::Trace
    } else {
        LevelFilter::Info
    }
}

pub fn level_filter(level: &str) -> (r: LevelFilter)
    ensures
        r == level_of(level@),
{
    if str_eq(level, "errors") {
        LevelFilter::Error
    } else if str_eq(level, "verbose") {
        LevelFilter::Trace
    } else {
        LevelFilter::Info
    }
}

/// The id of a test instance; an empty one is none.
pub fn instance_id(var: Option<String>) -> (r: Option<String>)
    ensures
        r == match var {
            Some(s) => if s@.len() == 0 {
                None::<String>
            } else {
                Some(s)
            },
            None => None,
        },
{
    match var {
        Some(s) => {
            if s.as_str().is_empty() {
                None
            } else {
                Some(s)
            }
        },
        None => None,
    }
}

/// Whether a request to close the window hides it instead: the user wants so,
/// and no quit is under way.
pub fn should_hide_on_close(tray_close: bool, quitting: bool) -> (hide: bool)
    ensures
        hide == (tray_close && !quitting),
{
    tray_close && !quitting
}

// ── links ─────────────────────────────────────────────────────────────────

/// Whether a text is a link of the application's scheme.
pub open spec fn is_link(s: Seq<char>) -> bool {
    starts_with(s, "lanbeam://"@)
}

fn link_chars(v: &[char]) -> (r: bool)
    ensures
        r == is_link(v@),
{
    let scheme = chars_of("lanbeam://");
    has_prefix(v, scheme.as_slice())
}

/// The link to hand to the user interface, which never acts on it by itself;
/// nothing for any other address.
pub fn accept_link(url: &str) -> (r: Option<String>)
    ensures
        match r {
            Some(l) => l@ == trimmed(url@) && is_link(l@),
            None => !is_link(trimmed(url@)),
        },
{
    let t = trim_chars(url);
    if link_chars(t.as_slice()) {
        Some(string_of(t.as_slice()))
    } else {
        None
    }
}

/// The position of the first link, or how many texts there are.
pub open spec fn first_link(urls: Seq<String>) -> int
    decreases urls.len(),
{
    if urls.len() == 0 {
        0
    } else if is_link(trimmed(urls[0]@)) {
        0
    } else {
        1 + first_link(urls.drop_first())
    }
}

/// The link that the application was launched with: the first one given.
pub fn launch_link(urls: &Vec<String>) -> (r: Option<String>)
    ensures
        match r {
            Some(l) => first_link(urls@) < urls@.len() && l@ == trimmed(
                urls@[first_link(urls@)]@,
            ),
            None => first_link(urls@) == urls@.len(),
        },
{
    let n: usize = urls.len();
    proof {
        assert(urls@.subrange(0, n as int) =~= urls@);
    }
    for i in 0..n
        invariant
            n == urls@.len(),
            first_link(urls@) == i + first_link(urls@.subrange(i as int, n as int)),
    {
        proof {
            let rest = urls@.subrange(i as int, n as int);
            assert(rest[0] == urls@[i as int]);
            assert(rest.drop_first() =~= urls@.subrange(i + 1, n as int));
        }
        match accept_link(urls[i].as_str()) {
            Some(l) => {
                return Some(l);
            },
            None => {},
        }
    }
    None
}

/// The links among the arguments of a second launch.
pub open spec fn links_of(args: Seq<String>) -> Seq<Seq<char>>
    decreases args.len(),
{
    if args.len() == 0 {
        Seq::empty()
    } else if is_link(args.last()@) {
        links_of(args.drop_last()).push(trimmed(args.last()@))
    } else {
        links_of(args.drop_last())
    }
}

pub fn second_launch_links(args: &Vec<String>) -> (r: Vec<String>)
    ensures
        crate::sanitize::texts(r@) == links_of(args@),
{
    let mut r: Vec<String> = Vec::new();
    proof {
        assert(crate::sanitize::texts(r@) =~= links_of(args@.subrange(0, 0)));
    }
    for i in 0..args.len()
        invariant
            crate::sanitize::texts(r@) == links_of(args@.subrange(0, i as int)),
    {
        proof {
            assert(args@.subrange(0, i + 1).drop_last() =~= args@.subrange(0, i as int));
            assert(args@.subrange(0, i + 1).last() == args@[i as int]);
        }
        let v = chars_of(args[i].as_str());
        if link_chars(v.as_slice()) {
            let ghost before = crate::sanitize::texts(r@);
            let t = trim_chars(args[i].as_str());
            let l = string_of(t.as_slice());
            let ghost link = l@;
            r.push(l);
            proof {
                assert(crate::sanitize::texts(r@) =~= before.push(link));
            }
        }
    }
    proof {
        assert(args@.subrange(0, args@.len() as int) =~= args@);
    }
    r
}

// ── starting ──────────────────────────────────────────────────────────────

/// The file of a store for an instance.
pub open spec fn instance_file_name(base: Seq<char>, instance: Option<String>) -> Seq<char> {
    match instance {
        Some(id) => base + "-"@ + id@ + ".json"@,
        None => base + ".json"@,
    }
}

pub fn instance_file(base: &str, instance: &Option<String>) -> (r: String)
    ensures
        r@ == instance_file_name(base@, *instance),
{
    let mut r = base.to_owned();
    match instance {
        Some(id) => {
            r.append("-");
            r.append(id.as_str());
        },
        None => {},
    }
    r.append(".json");
    r
}

/// The folder of an instance below the download folder of the application.
pub fn instance_folder(instance: &Option<String>) -> (r: Option<String>)
    ensures
        match (r, *instance) {
            (Some(f), Some(id)) => f@ == "instance-"@ + id@,
            (None, None) => true,
            _ => false,
        },
{
    match instance {
        Some(id) => Some(concat("instance-", id.as_str())),
        None => None,
    }
}

/// What the start of the application does.
#[derive(Debug)]
pub struct StartupPlan {
    /// Whether a second launch is to end and surface the first one.
    pub single_instance: bool,
    pub level: LevelFilter,
    /// A name that tells an instance apart, in place of the stored one.
    pub device_name: Option<String>,
    pub listen_port: u16,
    pub trusted_file: String,
    pub partials_file: String,
    pub download_folder: Option<String>,
    /// Whether the login item is brought in line with the setting.
    pub reconcile_autostart: bool,
    /// The shortcut to register.
    pub hotkey: Option<String>,
    /// Whether the link scheme is registered to this program.
    pub register_scheme: bool,
}

/// Decides on the start. A test instance keeps to itself: its own files, a name
/// of its own, and none of what exists once on a machine.
pub fn plan_startup(
    instance: &Option<String>,
    settings: &Settings,
    default_name: &str,
) -> (p: StartupPlan)
    ensures
        p.single_instance == instance is None,
        p.level == level_of(settings.log_level@),
        match (p.device_name, *instance) {
            (Some(n), Some(id)) => n@ == default_name@ + " ("@ + uppercase_of(id@) + ")"@,
            (None, None) => true,
            _ => false,
        },
        p.listen_port == if settings.port >= 1024 {
            settings.port
        } else {
            crate::consts::DEFAULT_TCP_PORT
        },
        p.trusted_file@ == instance_file_name("trusted"@, *instance),
        p.partials_file@ == instance_file_name("partials"@, *instance),
        match (p.download_folder, *instance) {
            (Some(f), Some(id)) => f@ == "instance-"@ + id@,
            (None, None) => true,
            _ => false,
        },
        p.reconcile_autostart == instance is None,
        match p.hotkey {
            Some(h) => instance is None && settings.hotkey_enabled && h@ == settings.hotkey@,
            None => !(instance is None && settings.hotkey_enabled),
        },
        p.register_scheme == instance is None,
{
    let primary = instance.is_none();
    let device_name = match instance {
        Some(id) => {
            let mut n = concat(default_name, " (");
            let upper = to_uppercase(id.as_str());
            n.append(upper.as_str());
            n.append(")");
            Some(n)
        },
        None => None,
    };
    let hotkey = if primary && settings.hotkey_enabled {
        Some(settings.hotkey.clone())
    } else {
        None
    };
    StartupPlan {
        single_instance: primary,
        level: level_filter(settings.log_level.as_str()),
        device_name,
        listen_port: effective_listen_port(settings.port),
        trusted_file: instance_file("trusted", instance),
        partials_file: instance_file("partials", instance),
        download_folder: instance_folder(instance),
        reconcile_autostart: primary,
        hotkey,
        register_scheme: primary,
    }
}

/// The change to the login item: the setting is the truth. An unreadable state
/// is left alone.
pub fn reconcile_autostart(actual: Option<bool>, wanted: bool) -> (r: Option<bool>)
    ensures
        r == match actual {
            Some(a) => if a != wanted {
                Some(wanted)
            } else {
                None
            },
            None => None,
        },
{
    match actual {
        Some(a) => {
            if a != wanted {
                Some(wanted)
            } else {
                None
            }
        },
        None => None,
    }
}

/// Whether a change of the setting needs the system's login item to change: an
/// unreadable state counts as the opposite.
pub fn autostart_needs_change(actual: Option<bool>, wanted: bool) -> (r: bool)
    ensures
        r == (match actual {
            Some(a) => a,
            None => !wanted,
        } != wanted),
{
    let current = match actual {
        Some(a) => a,
        None => !wanted,
    };
    current != wanted
}

/// The folder that files are received into, and whether to warn.
#[derive(Debug)]
pub struct DownloadRoot {
    pub path: String,
    /// A chosen folder is gone.
    pub override_lost: bool,
}

/// The chosen folder, if it resolves to an existing one; else the system's.
pub fn resolve_download_dir(
    chosen: &Option<String>,
    canonical: Option<String>,
    os_default: String,
) -> (r: DownloadRoot)
    ensures
        match (*chosen, canonical) {
            (Some(_), Some(c)) => r.path@ == c@ && !r.override_lost,
            (Some(_), None) => r.path@ == os_default@ && r.override_lost,
            (None, _) => r.path@ == os_default@ && !r.override_lost,
        },
{
    match (chosen, canonical) {
        (Some(_), Some(c)) => DownloadRoot { path: c, override_lost: false },
        (Some(_), None) => DownloadRoot { path: os_default, override_lost: true },
        (None, _) => DownloadRoot { path: os_default, override_lost: false },
    }
}

/// The notification of a fetched file, if notifications are wanted.
#[derive(Debug)]
pub struct Notice {
    pub title: String,
    pub body: String,
}

pub fn download_notice(event: &ShareDownloadEvent, notify: bool) -> (r: Option<Notice>)
    ensures
        match r {
            Some(n) => notify && n.title@ == event.name@ && n.body@ == "↓ "@ + event.peer_ip@,
            None => !notify,
        },
{
    if notify {
        Some(
            Notice {
                title: event.name.clone(),
                body: concat("↓ ", event.peer_ip.as_str()),
            },
        )
    } else {
        None
    }
}

// ── laws ──────────────────────────────────────────────────────────────────

/// The stores of different instances are different files, and none is the
/// primary's.
pub proof fn law_instance_files_are_isolated(base: Seq<char>, a: String, b: String)
    ensures
        instance_file_name(base, Some(a)) != instance_file_name(base, None),
        instance_file_name(base, Some(a)) == instance_file_name(base, Some(b)) ==> a@ == b@,
{
    reveal_strlit("-");
    reveal_strlit(".json");
    let x = instance_file_name(base, Some(a));
    let y = instance_file_name(base, Some(b));
    let n = base.len() as int + 1;
    assert(x.len() == n + a@.len() + 5);
    assert(instance_file_name(base, None).len() == base.len() + 5);
    if x == y {
        assert(a@ =~= x.subrange(n, n + a@.len() as int));
        assert(b@ =~= y.subrange(n, n + b@.len() as int));
    }
}

} // verus!
