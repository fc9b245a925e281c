//! When a share serves, what it hands out, and what every request leaves of it,
//! in terms of its fields.

use vstd::prelude::*;

use crate::error::LanBeamError;
use crate::laws::devices::{lemma_no_later, no_later};
use crate::order::Ranked;
use crate::share::{
    begin_download, capture_files, clamp_max_downloads, clamp_ttl, create_share, denied,
    finish_download, has_active_share, internal_error, landing, list_shares, new_registry,
    redirect_to, refund, register_share, share_expiry_secs, stop_share, sweep, update_share, Denied,
    DownloadPlan, Opened, PathProbe, Reply, Share, ShareCandidate, ShareFile, ShareInfo,
    ShareRegistry,
};
use crate::time::{Clock, Duration, Instant};

verus! {

/// The share was not stopped, and less than its life has passed since it began.
pub open spec fn running(s: Share, now: Instant) -> bool {
    s.active && s.ttl.nanos > 0 && now.nanos < s.created.nanos + s.ttl.nanos
}

/// Fetches are left: without a cap always, else while fewer than the cap times
/// the number of files are counted (and the counter can still count).
pub open spec fn fetches_left(s: Share) -> bool {
    match s.max_downloads {
        None => true,
        Some(n) => s.downloads < 0xFFFF_FFFF && s.downloads < n * (if s.files@.len() == 0 {
            1
        } else {
            s.files@.len()
        }),
    }
}

/// A share answers exactly while it runs and fetches are left; otherwise it is
/// gone.
pub proof fn law_share_serves_while_it_runs(
    s: &Share,
    now: Instant,
    r: std::result::Result<(), Denied>,
)
    requires
        call_ensures(Share::check, (s, now), r),
    ensures
        r is Ok <==> running(*s, now) && fetches_left(*s),
        r is Err ==> r->Err_0 == Denied::Gone,
{
    assert(s.serveable(now) == (running(*s, now) && fetches_left(*s)));
}

pub proof fn lemma_serveable(s: Share, now: Instant)
    ensures
        s.live(now) == running(s, now),
        s.spent() == !fetches_left(s),
        s.serveable(now) == (running(s, now) && fetches_left(s)),
{
}

/// All that a share is but for its counter.
pub open spec fn same_but_count(a: Share, b: Share) -> bool {
    &&& a.token == b.token
    &&& a.files == b.files
    &&& a.created == b.created
    &&& a.ttl == b.ttl
    &&& a.max_downloads == b.max_downloads
    &&& a.active == b.active
    &&& a.expires_at_secs == b.expires_at_secs
}

/// Every share but the one under `token` is what it was.
pub open spec fn others_stay(
    before: Map<Seq<char>, Share>,
    after: Map<Seq<char>, Share>,
    token: Seq<char>,
) -> bool {
    &&& forall|t: Seq<char>| t != token ==> (#[trigger] after.contains_key(t) == before.contains_key(t))
    &&& forall|t: Seq<char>| t != token && before.contains_key(t) ==> #[trigger] after[t] == before[t]
}

/// A request for file `index` of a share that serves opens the file that the
/// share was given at that index, under its name and its size, and counts one
/// fetch; a request for the headers gets the same name and size and counts none.
/// A request under an unknown token, of a share that does not serve, or for an
/// index past the last file is refused and changes nothing.
#[verifier::rlimit(40)]
pub proof fn law_download_opens_the_file_at_its_index(
    registry: &mut ShareRegistry,
    token: &str,
    index: u32,
    is_head: bool,
    now: Instant,
    peer_ip: &str,
    plan: DownloadPlan,
)
    requires
        call_ensures(begin_download, (registry, token, index, is_head, now, peer_ip), plan),
    ensures
        ({
            let before = old(registry)@;
            let after = final(registry)@;
            let s = before[token@];
            &&& !before.contains_key(token@) ==> plan == DownloadPlan::Refuse(Denied::NotFound)
            &&& before.contains_key(token@) && !(running(s, now) && fetches_left(s)) ==> plan
                == DownloadPlan::Refuse(Denied::Gone)
            &&& before.contains_key(token@) && running(s, now) && fetches_left(s) && index
                >= s.files@.len() ==> plan == DownloadPlan::Refuse(Denied::NotFound)
            &&& before.contains_key(token@) && running(s, now) && fetches_left(s) && index
                < s.files@.len() ==> {
                let f = s.files@[index as int];
                match plan {
                    DownloadPlan::Refuse(_) => false,
                    DownloadPlan::Head { name, size } => is_head && name@ == f.name@ && size
                        == f.size,
                    DownloadPlan::Open { path, name, size, event } => {
                        &&& !is_head
                        &&& path@ == f.path@ && name@ == f.name@ && size == f.size
                        &&& event.name@ == f.name@ && event.size == f.size && event.index == index
                        &&& event.token@ == s.token@ && event.file_count == s.files@.len()
                        &&& event.max_downloads == s.max_downloads
                        &&& event.peer_ip@ == peer_ip@
                    },
                }
            }
            &&& plan is Open ==> {
                &&& after.contains_key(token@)
                &&& same_but_count(after[token@], s)
                &&& after[token@].downloads == (s.downloads + 1) as u32
                &&& others_stay(before, after, token@)
            }
            &&& !(plan is Open) ==> after == before
        }),
{
    lemma_serveable(old(registry)@[token@], now);
}

/// The number of whole sets in the announcement of a fetch: after it the counter
/// lies between that many sets and one set more.
pub proof fn law_announced_sets_are_whole(
    registry: &mut ShareRegistry,
    token: &str,
    index: u32,
    now: Instant,
    peer_ip: &str,
    plan: DownloadPlan,
)
    requires
        old(registry).wf(),
        call_ensures(begin_download, (registry, token, index, false, now, peer_ip), plan),
        old(registry)@[token@].downloads < 0xFFFF_FFFF,
        plan is Open,
    ensures
        ({
            let s = old(registry)@[token@];
            let sets = plan->event.downloads as int;
            &&& sets * s.files@.len() <= s.downloads + 1
            &&& s.downloads + 1 < (sets + 1) * s.files@.len()
        }),
{
    let s = old(registry)@[token@];
    let n = s.files@.len() as int;
    let d = s.downloads + 1;
    assert(s.wf());
    assert(plan->event.downloads == d / n);
    assert((d / n) * n <= d && d < (d / n + 1) * n) by (nonlinear_arith)
        requires
            n >= 1,
            d >= 0,
    ;
}

/// Giving back the fetch of a file that could not be opened leaves every share
/// as it was before the request; a file that is open keeps its fetch.
#[verifier::rlimit(40)]
pub proof fn law_failed_download_costs_nothing(
    first: &mut ShareRegistry,
    second: &mut ShareRegistry,
    token: &str,
    index: u32,
    now: Instant,
    peer_ip: &str,
    plan: DownloadPlan,
    size: u64,
    opened: Opened,
    r: std::result::Result<u64, Denied>,
)
    requires
        old(first)@[token@].downloads < 0xFFFF_FFFF,
        call_ensures(begin_download, (first, token, index, false, now, peer_ip), plan),
        plan is Open,
        old(second)@ == final(first)@,
        call_ensures(finish_download, (second, token, size, opened), r),
    ensures
        match opened {
            Opened::Failed => r == Err::<u64, Denied>(Denied::NotFound) && final(second)@ == old(first)@,
            Opened::Length(n) => r == Ok::<u64, Denied>(n) && final(second)@ == final(first)@,
            Opened::UnknownLength => r == Ok::<u64, Denied>(size) && final(second)@ == final(first)@,
        },
{
    let s = old(first)@[token@];
    lemma_serveable(s, now);
    if opened is Failed {
        assert(s.downloads < u32::MAX);
        assert(final(second)@ =~= old(first)@);
    }
}

/// A refund lowers the counter of the one share by one, and not below zero.
pub proof fn law_refund_is_one_fetch(registry: &mut ShareRegistry, token: &str)
    requires
        call_ensures(refund, (registry, token), ()),
    ensures
        ({
            let before = old(registry)@;
            let after = final(registry)@;
            &&& !before.contains_key(token@) ==> after == before
            &&& before.contains_key(token@) ==> {
                &&& after.contains_key(token@)
                &&& same_but_count(after[token@], before[token@])
                &&& before[token@].downloads == 0 ==> after[token@].downloads == 0
                &&& before[token@].downloads > 0 ==> after[token@].downloads + 1
                    == before[token@].downloads
                &&& others_stay(before, after, token@)
            }
        }),
{
}

/// A stopped share refuses every later request, for good; every other share is
/// untouched.
pub proof fn law_stopped_share_refuses(
    registry: &mut ShareRegistry,
    token: &str,
    found: bool,
    s: &Share,
    later: Instant,
    r: std::result::Result<(), Denied>,
)
    requires
        call_ensures(stop_share, (registry, token), found),
        final(registry)@.contains_key(token@) && *s == final(registry)@[token@],
        call_ensures(Share::check, (s, later), r),
    ensures
        found && old(registry)@.contains_key(token@),
        r == Err::<(), Denied>(Denied::Gone),
        others_stay(old(registry)@, final(registry)@, token@),
        s.files == old(registry)@[token@].files && s.downloads == old(registry)@[token@].downloads,
{
}

/// Stopping an unknown share changes nothing and says so.
pub proof fn law_stopping_unknown_share(registry: &mut ShareRegistry, token: &str, found: bool)
    requires
        call_ensures(stop_share, (registry, token), found),
    ensures
        found == old(registry)@.contains_key(token@),
        !found ==> final(registry)@ == old(registry)@,
        found ==> final(registry)@.contains_key(token@),
{
}

/// The sweep keeps the shares that run, as they are, and no others.
pub proof fn law_sweep_keeps_running_shares(registry: &mut ShareRegistry, now: Instant)
    requires
        call_ensures(sweep, (registry, now), ()),
    ensures
        forall|t: Seq<char>| #[trigger]
            final(registry)@.contains_key(t) <==> old(registry)@.contains_key(t) && running(
                old(registry)@[t],
                now,
            ),
        forall|t: Seq<char>| #[trigger]
            final(registry)@.contains_key(t) ==> final(registry)@[t] == old(registry)@[t],
{
    assert forall|t: Seq<char>| true implies (#[trigger] final(registry)@.contains_key(t)
        <==> old(registry)@.contains_key(t) && running(old(registry)@[t], now)) by {
        lemma_serveable(old(registry)@[t], now);
    }
}

/// The wall-clock second at which a life ends that begins at `unix`: whole
/// seconds later, or the last second there is.
pub open spec fn ends_at(unix: u64, ttl: Duration, end: u64) -> bool {
    let whole = ttl.nanos as int / 1_000_000_000;
    if unix + whole > 0xFFFF_FFFF_FFFF_FFFF {
        end == 0xFFFF_FFFF_FFFF_FFFF
    } else {
        end == unix + whole
    }
}

/// Registering puts one share under its token, with the files as given, a life
/// that begins now and nothing counted, and touches no other.
pub proof fn law_registered_share_is_as_given(
    registry: &mut ShareRegistry,
    token: String,
    files: Vec<ShareFile>,
    ttl: Duration,
    max_downloads: Option<u32>,
    clock: Clock,
)
    requires
        call_ensures(register_share, (registry, token, files, ttl, max_downloads, clock), ()),
    ensures
        final(registry)@.contains_key(token@),
        ({
            let s = final(registry)@[token@];
            &&& s.token@ == token@ && s.files@ == files@
            &&& s.created == clock.now && s.ttl == ttl && s.max_downloads == max_downloads
            &&& s.downloads == 0 && s.active
            &&& ends_at(clock.unix_secs, ttl, s.expires_at_secs)
        }),
        others_stay(old(registry)@, final(registry)@, token@),
{
}

/// A candidate can be shared if it is a regular file.
pub open spec fn regular(c: ShareCandidate) -> bool {
    c.probe is Regular
}

/// The refusal names the first candidate that cannot be shared, in the words for
/// what is wrong with it.
pub open spec fn refusal_of(c: ShareCandidate, e: LanBeamError) -> bool {
    match c.probe {
        PathProbe::Relative => e is UnsafePath && e->UnsafePath_0@ == "share path is not absolute: "@
            + c.path@,
        PathProbe::NotRegular => e is UnsafePath && e->UnsafePath_0@
            == "share path is not a regular file: "@ + c.path@,
        PathProbe::Unreadable(why) => e is Io && e->Io_0@ == "share file "@ + c.path@ + ": "@ + why@,
        PathProbe::Regular(_) => false,
    }
}

pub open spec fn first_bad(files: Seq<ShareCandidate>, k: int) -> bool {
    &&& 0 <= k < files.len()
    &&& !regular(files[k])
    &&& forall|i: int| 0 <= i < k ==> regular(#[trigger] files[i])
}

pub proof fn lemma_first_refused(files: Seq<ShareCandidate>)
    ensures
        0 <= crate::share::first_refused(files) <= files.len(),
        forall|i: int| 0 <= i < crate::share::first_refused(files) ==> regular(#[trigger] files[i]),
        crate::share::first_refused(files) < files.len() ==> first_bad(
            files,
            crate::share::first_refused(files),
        ),
    decreases files.len(),
{
    if files.len() > 0 {
        lemma_first_refused(files.drop_last());
        let n = crate::share::first_refused(files.drop_last());
        assert forall|i: int| 0 <= i < crate::share::first_refused(files) implies regular(
            #[trigger] files[i],
        ) by {
            if i < files.len() - 1 {
                assert(files.drop_last()[i] == files[i]);
            }
        }
        if n < files.len() - 1 {
            assert(files.drop_last()[n] == files[n]);
        }
    }
}

/// Capturing takes every candidate with its name, path and length, in order, if
/// there is one and all are regular files; else it names the first that is not.
pub proof fn law_capture_takes_all_or_names_the_first_bad(
    files: Vec<ShareCandidate>,
    r: Result<Vec<ShareFile>, LanBeamError>,
)
    requires
        call_ensures(capture_files, (files,), r),
    ensures
        r is Ok <==> files@.len() > 0 && forall|i: int|
            0 <= i < files@.len() ==> regular(#[trigger] files@[i]),
        r matches Ok(v) ==> v@.len() == files@.len() && forall|i: int|
            0 <= i < v@.len() ==> (#[trigger] v@[i]).name@ == files@[i].name@ && v@[i].path@
                == files@[i].path@ && files@[i].probe == PathProbe::Regular(v@[i].size),
        r matches Err(e) ==> if files@.len() == 0 {
            e is UnsafePath && e->UnsafePath_0@ == "a share must contain at least one file"@
        } else {
            exists|k: int| first_bad(files@, k) && #[trigger] refusal_of(files@[k], e)
        },
{
    lemma_first_refused(files@);
    let n = crate::share::first_refused(files@);
    match r {
        Ok(v) => {},
        Err(e) => {
            if files@.len() > 0 {
                assert(refusal_of(files@[n], e));
            }
        },
    }
}

/// A created share serves at once every file that it was created with, at the
/// index at which it was given, under its name and with its length; so it does
/// until its life ends or it is stopped, as long as fetches are left.
pub proof fn law_created_share_serves_its_files(
    registry: &mut ShareRegistry,
    files: Vec<ShareCandidate>,
    ttl: Duration,
    max_downloads: Option<u32>,
    clock: Clock,
    token: String,
    s: &Share,
    now: Instant,
    r: std::result::Result<(), Denied>,
)
    requires
        call_ensures(create_share, (registry, files, ttl, max_downloads, clock), Ok(token)),
        *s == final(registry)@[token@],
        call_ensures(Share::check, (s, now), r),
    ensures
        final(registry)@.contains_key(token@),
        token@.len() == 24,
        s.token@ == token@,
        s.files@.len() == files@.len() && files@.len() > 0,
        forall|i: int|
            0 <= i < files@.len() ==> (#[trigger] s.files@[i]).name@ == files@[i].name@
                && s.files@[i].path@ == files@[i].path@ && files@[i].probe == PathProbe::Regular(
                s.files@[i].size,
            ),
        s.downloads == 0 && s.max_downloads == max_downloads,
        ends_at(clock.unix_secs, ttl, s.expires_at_secs),
        others_stay(old(registry)@, final(registry)@, token@),
        (max_downloads matches Some(n) ==> n > 0) ==> (r is Ok <==> ttl.nanos > 0 && now.nanos
            < clock.now.nanos + ttl.nanos),
{
    lemma_first_refused(files@);
    lemma_serveable(*s, now);
    match max_downloads {
        Some(n) => {
            if n > 0 {
                assert(n * files@.len() > 0) by (nonlinear_arith)
                    requires
                        n > 0,
                        files@.len() > 0,
                ;
            }
        },
        None => {},
    }
}

/// A share that runs gets a new life that begins now and a new cap, and keeps
/// its files and its count; any other is left alone.
pub proof fn law_update_restarts_a_running_share(
    registry: &mut ShareRegistry,
    token: &str,
    ttl: Duration,
    max_downloads: Option<u32>,
    clock: Clock,
    r: Option<u64>,
)
    requires
        call_ensures(update_share, (registry, token, ttl, max_downloads, clock), r),
    ensures
        ({
            let before = old(registry)@;
            let after = final(registry)@;
            let s = before[token@];
            let n = after[token@];
            &&& r is Some <==> before.contains_key(token@) && running(s, clock.now)
            &&& r is None ==> after == before
            &&& r matches Some(end) ==> {
                &&& ends_at(clock.unix_secs, ttl, end) && n.expires_at_secs == end
                &&& after.contains_key(token@) && others_stay(before, after, token@)
                &&& n.created == clock.now && n.ttl == ttl && n.max_downloads == max_downloads
                &&& n.token == s.token && n.files == s.files && n.downloads == s.downloads
                    && n.active
            }
        }),
{
    lemma_serveable(old(registry)@[token@], clock.now);
}

/// The expiry shown is the one that stands in the share.
pub proof fn law_shown_expiry(registry: &ShareRegistry, token: &str, r: Option<u64>)
    requires
        call_ensures(share_expiry_secs, (registry, token), r),
    ensures
        r is Some <==> registry@.contains_key(token@),
        r matches Some(end) ==> end == registry@[token@].expires_at_secs,
{
}

/// Lives go from a minute to a day, and caps from one to a thousand: what lies
/// within is kept, what lies outside goes to the nearest end, and no cap stays
/// none.
pub proof fn law_limits_of_a_share(
    secs: u64,
    d: Duration,
    max: Option<u32>,
    r: Option<u32>,
)
    requires
        call_ensures(clamp_ttl, (secs,), d),
        call_ensures(clamp_max_downloads, (max,), r),
    ensures
        60 <= secs <= 86400 ==> d.nanos == secs * 1_000_000_000,
        secs < 60 ==> d.nanos == 60_000_000_000,
        secs > 86400 ==> d.nanos == 86_400_000_000_000,
        r is None <==> max is None,
        max matches Some(n) ==> {
            &&& 1 <= n <= 1000 ==> r == Some(n)
            &&& n == 0 ==> r == Some(1u32)
            &&& n > 1000 ==> r == Some(1000u32)
        },
{
}

/// The sum of the lengths of files, taken from the front.
pub open spec fn summed(files: Seq<ShareFile>) -> int
    decreases files.len(),
{
    if files.len() == 0 {
        0
    } else {
        files[0].size + summed(files.subrange(1, files.len() as int))
    }
}

proof fn lemma_summed_push(files: Seq<ShareFile>)
    requires
        files.len() > 0,
    ensures
        summed(files) == summed(files.drop_last()) + files.last().size,
    decreases files.len(),
{
    let rest = files.subrange(1, files.len() as int);
    if files.len() > 1 {
        lemma_summed_push(rest);
        assert(rest.drop_last() =~= files.drop_last().subrange(1, files.len() - 1));
    } else {
        assert(rest.len() == 0);
        assert(files.drop_last().len() == 0);
        reveal_with_fuel(summed, 2);
    }
}

pub proof fn lemma_summed(files: Seq<ShareFile>)
    ensures
        summed(files) == crate::share::total_size(files),
    decreases files.len(),
{
    if files.len() > 0 {
        lemma_summed_push(files);
        lemma_summed(files.drop_last());
    }
}

/// Every share that runs is listed once, spent or not, with its number of files,
/// their total length, its expiry, its cap and the number of whole sets fetched;
/// nothing else is listed. The latest expiry comes first, and of two that expire
/// together the smaller token.
#[verifier::rlimit(40)]
pub proof fn law_list_shows_the_running_shares(
    registry: &ShareRegistry,
    now: Instant,
    r: Vec<ShareInfo>,
)
    requires
        registry.wf(),
        call_ensures(list_shares, (registry, now), r),
    ensures
        forall|t: Seq<char>| #[trigger]
            registry@.contains_key(t) && running(registry@[t], now) ==> exists|i: int|
                0 <= i < r@.len() && (#[trigger] r@[i]).token@ == t,
        forall|i: int|
            0 <= i < r@.len() ==> {
                let s = registry@[(#[trigger] r@[i]).token@];
                &&& registry@.contains_key(r@[i].token@) && running(s, now)
                &&& r@[i].file_count == s.files@.len()
                &&& r@[i].total_size == summed(s.files@)
                &&& r@[i].expires_at_secs == s.expires_at_secs
                &&& r@[i].max_downloads == s.max_downloads
                &&& r@[i].downloads * s.files@.len() <= s.downloads
                &&& s.downloads < (r@[i].downloads + 1) * s.files@.len()
            },
        forall|i: int, j: int|
            0 <= i < j < r@.len() ==> (#[trigger] r@[i]).token@ != (#[trigger] r@[j]).token@
                && r@[i].expires_at_secs >= r@[j].expires_at_secs && (r@[i].expires_at_secs
                == r@[j].expires_at_secs ==> no_later(r@[i].token@, r@[j].token@)),
{
    assert forall|t: Seq<char>| #[trigger]
        registry@.contains_key(t) && running(registry@[t], now) implies exists|i: int|
        0 <= i < r@.len() && (#[trigger] r@[i]).token@ == t by {
        lemma_serveable(registry@[t], now);
    }
    assert forall|i: int| 0 <= i < r@.len() implies ({
        let s = registry@[(#[trigger] r@[i]).token@];
        &&& registry@.contains_key(r@[i].token@) && running(s, now)
        &&& r@[i].file_count == s.files@.len()
        &&& r@[i].total_size == summed(s.files@)
        &&& r@[i].expires_at_secs == s.expires_at_secs
        &&& r@[i].max_downloads == s.max_downloads
        &&& r@[i].downloads * s.files@.len() <= s.downloads
        &&& s.downloads < (r@[i].downloads + 1) * s.files@.len()
    }) by {
        let s = registry@[r@[i].token@];
        lemma_serveable(s, now);
        lemma_summed(s.files@);
        let n = s.files@.len() as int;
        let d = s.downloads as int;
        assert(s.wf());
        assert(r@[i].downloads == d / n);
        assert((d / n) * n <= d && d < (d / n + 1) * n) by (nonlinear_arith)
            requires
                n >= 1,
                d >= 0,
        ;
    }
    assert forall|i: int, j: int| 0 <= i < j < r@.len() implies (#[trigger] r@[i]).token@ != (
    #[trigger] r@[j]).token@ && r@[i].expires_at_secs >= r@[j].expires_at_secs && (
    r@[i].expires_at_secs == r@[j].expires_at_secs ==> no_later(r@[i].token@, r@[j].token@)) by {
        assert(ShareInfo::rank_le(r@[i], r@[j]));
        lemma_no_later(r@[i].token@, r@[j].token@);
    }
}

/// A share is announced exactly while one of the shares serves.
pub proof fn law_active_while_some_share_serves(registry: &ShareRegistry, now: Instant, r: bool)
    requires
        call_ensures(has_active_share, (registry, now), r),
    ensures
        r <==> exists|t: Seq<char>| #[trigger]
            registry@.contains_key(t) && running(registry@[t], now) && fetches_left(registry@[t]),
{
    if r {
        let t = choose|t: Seq<char>| #[trigger]
            registry@.contains_key(t) && registry@[t].serveable(now);
        lemma_serveable(registry@[t], now);
    }
    if exists|t: Seq<char>| #[trigger]
        registry@.contains_key(t) && running(registry@[t], now) && fetches_left(registry@[t]) {
        let t = choose|t: Seq<char>| #[trigger]
            registry@.contains_key(t) && running(registry@[t], now) && fetches_left(registry@[t]);
        lemma_serveable(registry@[t], now);
    }
}

/// A new registry has no share.
pub proof fn law_new_registry_is_empty(r: ShareRegistry, t: Seq<char>)
    requires
        call_ensures(new_registry, (), r),
    ensures
        !r@.contains_key(t),
{
}

/// The request for the share itself: an unknown token is not found, a share that
/// does not serve is gone, a share of one file leads to that file, and any other
/// gets a page.
pub proof fn law_landing_answers(registry: &ShareRegistry, token: &str, now: Instant, r: Reply)
    requires
        call_ensures(landing, (registry, token, now), r),
    ensures
        ({
            let s = registry@[token@];
            let known = registry@.contains_key(token@);
            let serves = known && running(s, now) && fetches_left(s);
            &&& r.status == 404 <==> !known
            &&& r.status == 410 <==> known && !serves
            &&& r.status == 302 <==> serves && s.files@.len() == 1
            &&& r.status == 200 <==> serves && s.files@.len() != 1
            &&& r.location is Some <==> r.status == 302
            &&& r.location matches Some(l) ==> l@ == seq!['/', 's', '/'] + token@ + seq!['/', '0']
                && r.body@.len() == 0
        }),
{
    lemma_serveable(registry@[token@], now);
    reveal_strlit("/s/");
    reveal_strlit("/0");
    assert("/s/"@ =~= seq!['/', 's', '/']);
    assert("/0"@ =~= seq!['/', '0']);
}

/// The status of each refusal and failure.
pub proof fn law_statuses(
    d: Denied,
    r: Reply,
    failed: Reply,
    location: &str,
    moved: Reply,
    s: u16,
)
    requires
        call_ensures(denied, (d,), r),
        call_ensures(internal_error, (), failed),
        call_ensures(redirect_to, (location,), moved),
        call_ensures(Reply::status, (&r,), s),
    ensures
        d == Denied::NotFound ==> r.status == 404,
        d == Denied::Gone ==> r.status == 410,
        s == r.status,
        r.location is None,
        failed.status == 500 && failed.location is None,
        moved.status == 302 && moved.body@.len() == 0,
        moved.location is Some && moved.location->0@ == location@,
{
}

/// A share is made of whatever can be captured, and of nothing else: what keeps
/// the files from being captured is told of in the same words, and nothing is
/// registered. Beyond that only the random source can fail.
pub proof fn law_share_is_made_of_what_is_captured(
    registry: &mut ShareRegistry,
    files: Vec<ShareCandidate>,
    ttl: Duration,
    max_downloads: Option<u32>,
    clock: Clock,
    r: Result<String, LanBeamError>,
    c: Result<Vec<ShareFile>, LanBeamError>,
)
    requires
        call_ensures(create_share, (registry, files, ttl, max_downloads, clock), r),
        call_ensures(capture_files, (files,), c),
    ensures
        r is Ok ==> c is Ok,
        r is Err ==> final(registry)@ == old(registry)@,
        c is Ok && r is Err ==> r->Err_0 is Crypto,
        files@.len() == 0 ==> r is Err && r->Err_0 is UnsafePath && r->Err_0->UnsafePath_0@
            == "a share must contain at least one file"@,
        c is Err && files@.len() > 0 ==> r is Err && exists|k: int|
            first_bad(files@, k) && #[trigger] refusal_of(files@[k], r->Err_0),
{
    lemma_first_refused(files@);
    let n = crate::share::first_refused(files@);
    if n < files@.len() {
        assert(refusal_of(files@[n], r->Err_0));
    }
}

} // verus!
