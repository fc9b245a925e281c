//! The state that the application shares between its tasks: transfer
//! controls, the concurrency gate, the throttles, manual peers and the log of
//! completed transfers.

use vstd::prelude::*;

use crate::consts::{
    MAX_PAIR_FAILURES, MAX_PAIR_TRACKED_IPS, MAX_TEXT_PER_WINDOW, MAX_TEXT_TRACKED_IPS,
    PAIR_FAILURE_WINDOW_SECS, TEXT_RATE_WINDOW_SECS,
};
use crate::keymap::{kept, lemma_entry, lemma_size, lemma_take_out, KeyMap};
use crate::net::{IpAddr, Ipv4Addr};
use crate::sanitize::texts;
use crate::text::str_eq;
use crate::time::{elapsed, Duration, Instant};

verus! {

// ── throttles ─────────────────────────────────────────────────────────────

/// The recorded times of each source.
pub open spec fn times(m: KeyMap<IpAddr, Vec<Instant>>) -> Map<IpAddr, Seq<Instant>> {
    m@.map_values(|v: Vec<Instant>| v@)
}

/// The times that are less than `window` ago.
pub open spec fn in_window(ts: Seq<Instant>, now: Instant, window: Duration) -> Seq<Instant> {
    ts.filter(|t: Instant| elapsed(t, now) < window.nanos)
}

/// The latest of the times, or a value before all of them.
pub open spec fn latest(ts: Seq<Instant>) -> int
    decreases ts.len(),
{
    if ts.len() == 0 {
        -1
    } else {
        let before = latest(ts.drop_last());
        if ts.last().nanos > before {
            ts.last().nanos as int
        } else {
            before
        }
    }
}

/// The times of a source, none if it is not tracked.
pub open spec fn times_of(m: Map<IpAddr, Seq<Instant>>, ip: IpAddr) -> Seq<Instant> {
    if m.contains_key(ip) {
        m[ip]
    } else {
        Seq::empty()
    }
}

/// The sources with some time in the window.
pub open spec fn alive(m: Map<IpAddr, Seq<Instant>>, now: Instant, window: Duration) -> Map<
    IpAddr,
    Seq<Instant>,
> {
    kept(m, |ts: Seq<Instant>| in_window(ts, now, window).len() > 0)
}

/// Whether every entry of `a` is one of `b`.
pub open spec fn within<K, V>(a: Map<K, V>, b: Map<K, V>) -> bool {
    forall|k: K| #[trigger] a.contains_key(k) ==> b.contains_key(k) && a[k] == b[k]
}

/// How a map that outgrew `cap` is brought back: sources without a time in the
/// window go, then as many of the least recently active ones as it takes.
pub open spec fn evicted(
    before: Map<IpAddr, Seq<Instant>>,
    after: Map<IpAddr, Seq<Instant>>,
    now: Instant,
    cap: nat,
    window: Duration,
) -> bool {
    let live = alive(before, now, window);
    &&& within(after, live)
    &&& after.dom().len() == if live.dom().len() > cap {
        cap
    } else {
        live.dom().len()
    }
    &&& forall|gone: IpAddr, stays: IpAddr|
        live.contains_key(gone) && !after.contains_key(gone) && after.contains_key(stays)
            ==> #[trigger] latest(live[gone]) <= #[trigger] latest(live[stays])
}

/// A map after its bound was applied.
pub open spec fn bounded(
    before: Map<IpAddr, Seq<Instant>>,
    after: Map<IpAddr, Seq<Instant>>,
    now: Instant,
    cap: nat,
    window: Duration,
) -> bool {
    if before.dom().len() > cap {
        evicted(before, after, now, cap, window)
    } else {
        after == before
    }
}

fn prune(v: &Vec<Instant>, now: Instant, window: Duration) -> (r: Vec<Instant>)
    ensures
        r@ == in_window(v@, now, window),
{
    let mut r: Vec<Instant> = Vec::new();
    let ghost p = |t: Instant| elapsed(t, now) < window.nanos;
    for i in 0..v.len()
        invariant
            p == (|t: Instant| elapsed(t, now) < window.nanos),
            r@ == v@.subrange(0, i as int).filter(p),
    {
        proof {
            reveal(Seq::filter);
            assert(v@.subrange(0, i + 1).drop_last() =~= v@.subrange(0, i as int));
            assert(v@.subrange(0, i + 1).last() == v@[i as int]);
        }
        if now.duration_since(v[i]).nanos < window.nanos {
            r.push(v[i]);
        }
    }
    proof {
        assert(v@.subrange(0, v@.len() as int) =~= v@);
    }
    r
}

/// The latest of the times, if there is one.
fn latest_of(v: &Vec<Instant>) -> (r: Option<u128>)
    ensures
        match r {
            Some(n) => latest(v@) == n,
            None => latest(v@) == -1,
        },
{
    let mut r: Option<u128> = None;
    for i in 0..v.len()
        invariant
            match r {
                Some(n) => latest(v@.subrange(0, i as int)) == n,
                None => latest(v@.subrange(0, i as int)) == -1,
            },
    {
        proof {
            assert(v@.subrange(0, i + 1).drop_last() =~= v@.subrange(0, i as int));
            assert(v@.subrange(0, i + 1).last() == v@[i as int]);
        }
        match r {
            Some(n) => {
                if v[i].nanos > n {
                    r = Some(v[i].nanos);
                }
            },
            None => {
                r = Some(v[i].nanos);
            },
        }
    }
    proof {
        assert(v@.subrange(0, v@.len() as int) =~= v@);
    }
    r
}

fn not_later(a: Option<u128>, b: Option<u128>) -> (r: bool)
    ensures
        r == match (a, b) {
            (None, _) => true,
            (Some(_), None) => false,
            (Some(x), Some(y)) => x <= y,
        },
{
    match (a, b) {
        (None, _) => true,
        (Some(_), None) => false,
        (Some(x), Some(y)) => x <= y,
    }
}

/// Keeps a map of sources bounded to `cap` entries.
pub fn evict_over_cap(
    map: &mut KeyMap<IpAddr, Vec<Instant>>,
    now: Instant,
    cap: usize,
    window: Duration,
)
    requires
        old(map).wf(),
    ensures
        final(map).wf(),
        evicted(times(*old(map)), times(*final(map)), now, cap as nat, window),
{
    let ghost before = times(*map);
    let keep = (|v: &Vec<Instant>| -> (r: bool)
        ensures
            r == (in_window(v@, now, window).len() > 0),
        { prune(v, now, window).len() > 0 });
    map.retain(keep, Ghost(|v: Vec<Instant>| in_window(v@, now, window).len() > 0));
    let ghost live = alive(before, now, window);
    proof {
        assert(times(*map) =~= live);
        lemma_size(map.entries@);
        assert(times(*map).dom() =~= map@.dom());
    }
    let ghost total = live.dom().len();
    while map.len() > cap
        invariant
            map.wf(),
            within(times(*map), live),
            map.entries@.len() <= total,
            times(*map).dom().len() == map.entries@.len(),
            total > cap ==> map.entries@.len() >= cap,
            total <= cap ==> map.entries@.len() == total,
            forall|gone: IpAddr, stays: IpAddr|
                live.contains_key(gone) && !times(*map).contains_key(gone) && times(
                    *map,
                ).contains_key(stays) ==> #[trigger] latest(live[gone]) <= #[trigger] latest(
                    live[stays],
                ),
        decreases map.entries@.len(),
    {
        let ghost cur = times(*map);
        let ghost entries = map.entries@;
        let mut best: usize = 0;
        let mut best_time = latest_of(&map.entries[0].1);
        let n: usize = map.entries.len();
        for i in 1..n
            invariant
                n == entries.len(),
                entries == map.entries@,
                best < n,
                i >= 1,
                match best_time {
                    Some(t) => latest(entries[best as int].1@) == t,
                    None => latest(entries[best as int].1@) == -1,
                },
                forall|k: int|
                    0 <= k < i ==> latest(entries[best as int].1@) <= latest(
                        (#[trigger] entries[k]).1@,
                    ),
        {
            let t = latest_of(&map.entries[i].1);
            proof {
                lemma_latest_at_least(entries[best as int].1@);
            }
            if !not_later(best_time, t) {
                best = i;
                best_time = t;
            }
        }
        let ghost victim = entries[best as int].0;
        proof {
            lemma_take_out(entries, best as int);
            lemma_entry(entries, best as int);
            assert(cur.contains_key(victim));
            assert forall|gone: IpAddr, stays: IpAddr|
                live.contains_key(gone) && !cur.remove(victim).contains_key(gone) && cur.remove(
                    victim,
                ).contains_key(stays) implies #[trigger] latest(live[gone]) <= #[trigger] latest(
                live[stays],
            ) by {
                let k = crate::keymap::key_index(entries, stays);
                lemma_entry(entries, k);
                assert(cur[stays] == entries[k].1@);
                assert(cur.contains_key(stays));
                assert(live[stays] == cur[stays]);
                if gone == victim {
                    assert(cur.contains_key(gone));
                    assert(live[gone] == cur[gone]);
                    assert(cur[gone] == entries[best as int].1@);
                    assert(latest(entries[best as int].1@) <= latest(entries[k].1@));
                } else {
                    assert(!cur.contains_key(gone));
                    assert(cur.contains_key(stays));
                }
            }
        }
        let _gone = map.entries.remove(best);
        proof {
            assert(times(*map) =~= cur.remove(victim));
            lemma_size(map.entries@);
            assert(times(*map).dom() =~= map@.dom());
        }
    }
}

proof fn lemma_latest_at_least(ts: Seq<Instant>)
    ensures
        latest(ts) >= -1,
    decreases ts.len(),
{
    if ts.len() > 0 {
        lemma_latest_at_least(ts.drop_last());
    }
}

/// Every tracked source has some recorded time.
pub open spec fn no_empty(m: Map<IpAddr, Seq<Instant>>) -> bool {
    forall|ip: IpAddr| #[trigger] m.contains_key(ip) ==> m[ip].len() > 0
}

/// A map of sources within its bound.
pub open spec fn throttle_wf(m: KeyMap<IpAddr, Vec<Instant>>, cap: nat) -> bool {
    &&& m.wf()
    &&& m.entries@.len() <= cap
    &&& no_empty(times(m))
}

/// The window of the pairing throttle.
pub open spec fn pair_window() -> Duration {
    Duration { nanos: 60_000_000_000 }
}

/// The window of the quick text throttle.
pub open spec fn text_window() -> Duration {
    Duration { nanos: 60_000_000_000 }
}

/// Replaces the times of a source.
fn put_times(map: &mut KeyMap<IpAddr, Vec<Instant>>, ip: IpAddr, v: Vec<Instant>)
    requires
        old(map).wf(),
    ensures
        final(map).wf(),
        times(*final(map)) == times(*old(map)).insert(ip, v@),
        final(map).entries@.len() <= old(map).entries@.len() + 1,
        times(*final(map)).dom().len() == final(map).entries@.len(),
{
    let ghost before = times(*map);
    let _old = map.insert(ip, v);
    proof {
        assert(times(*map) =~= before.insert(ip, v@));
        lemma_size(map.entries@);
        assert(times(*map).dom() =~= map@.dom());
    }
}

/// The times of a source that are still in the window.
fn recent_of(
    map: &KeyMap<IpAddr, Vec<Instant>>,
    ip: IpAddr,
    now: Instant,
    window: Duration,
) -> (v: Vec<Instant>)
    requires
        map.wf(),
    ensures
        v@ == in_window(times_of(times(*map), ip), now, window),
{
    match map.get(&ip) {
        Some(v) => prune(v, now, window),
        None => {
            let v: Vec<Instant> = Vec::new();
            proof {
                reveal(Seq::filter);
                assert(v@ =~= in_window(Seq::empty(), now, window));
            }
            v
        },
    }
}

fn forget(map: &mut KeyMap<IpAddr, Vec<Instant>>, ip: &IpAddr)
    requires
        old(map).wf(),
    ensures
        final(map).wf(),
        times(*final(map)) == times(*old(map)).remove(*ip),
        final(map).entries@.len() <= old(map).entries@.len(),
{
    let ghost before = times(*map);
    proof {
        lemma_size(map.entries@);
    }
    let _gone = map.remove(ip);
    proof {
        lemma_size(map.entries@);
        assert(times(*map) =~= before.remove(*ip));
    }
}

proof fn lemma_evicted_no_empty(
    before: Map<IpAddr, Seq<Instant>>,
    after: Map<IpAddr, Seq<Instant>>,
    now: Instant,
    cap: nat,
    window: Duration,
)
    requires
        evicted(before, after, now, cap, window),
        no_empty(before),
    ensures
        no_empty(after),
{
}

/// Applies the bound of a map.
fn apply_bound(
    map: &mut KeyMap<IpAddr, Vec<Instant>>,
    now: Instant,
    cap: usize,
    window: Duration,
)
    requires
        old(map).wf(),
        no_empty(times(*old(map))),
    ensures
        throttle_wf(*final(map), cap as nat),
        bounded(times(*old(map)), times(*final(map)), now, cap as nat, window),
{
    let ghost before = times(*map);
    proof {
        lemma_size(map.entries@);
        assert(before.dom() =~= map@.dom());
    }
    if map.len() > cap {
        evict_over_cap(map, now, cap, window);
        proof {
            lemma_evicted_no_empty(before, times(*map), now, cap as nat, window);
            lemma_size(map.entries@);
            assert(times(*map).dom() =~= map@.dom());
        }
    }
}

/// The per-source throttle of failed pairing requests.
#[derive(Debug)]
pub struct PairRateLimiter {
    pub failures: KeyMap<IpAddr, Vec<Instant>>,
}

impl View for PairRateLimiter {
    type V = Map<IpAddr, Seq<Instant>>;

    open spec fn view(&self) -> Map<IpAddr, Seq<Instant>> {
        times(self.failures)
    }
}

impl Default for PairRateLimiter {
    fn default() -> (r: Self)
        ensures
            r.wf(),
            r@ == Map::<IpAddr, Seq<Instant>>::empty(),
    {
        let r = PairRateLimiter { failures: KeyMap::new() };
        proof {
            assert(r@ =~= Map::<IpAddr, Seq<Instant>>::empty());
        }
        r
    }
}

/// The failures of a source within the window.
pub open spec fn failures_now(m: Map<IpAddr, Seq<Instant>>, ip: IpAddr, now: Instant) -> Seq<
    Instant,
> {
    in_window(times_of(m, ip), now, pair_window())
}

impl PairRateLimiter {
    /// Every tracked source has a failure, and there are not too many sources.
    pub open spec fn wf(&self) -> bool {
        throttle_wf(self.failures, MAX_PAIR_TRACKED_IPS as nat)
    }

    /// Whether a source may attempt: fewer than the cap of its failures are in
    /// the window. Failures that are no longer in it are dropped.
    pub fn allowed(&mut self, ip: IpAddr, now: Instant) -> (ok: bool)
        requires
            old(self).wf(),
        ensures
            final(self).wf(),
            ok == (failures_now(old(self)@, ip, now).len() < MAX_PAIR_FAILURES),
            final(self)@ == ({
                let recent = failures_now(old(self)@, ip, now);
                if recent.len() == 0 {
                    old(self)@.remove(ip)
                } else {
                    old(self)@.insert(ip, recent)
                }
            }),
    {
        let ghost before = self@;
        let recent = recent_of(
            &self.failures,
            ip,
            now,
            Duration::from_secs(PAIR_FAILURE_WINDOW_SECS),
        );
        let ok = recent.len() < MAX_PAIR_FAILURES;
        if recent.len() == 0 {
            forget(&mut self.failures, &ip);
        } else {
            proof {
                lemma_size(self.failures.entries@);
                if !self.failures@.contains_key(ip) {
                    reveal(Seq::filter);
                    assert(recent@.len() == 0);
                }
                assert(self.failures@.contains_key(ip));
                assert(before.insert(ip, recent@).dom() =~= before.dom());
                assert(before.dom() =~= self.failures@.dom());
            }
            put_times(&mut self.failures, ip, recent);
        }
        ok
    }

    /// Records a failed attempt.
    pub fn record_failure(&mut self, ip: IpAddr, now: Instant)
        requires
            old(self).wf(),
        ensures
            final(self).wf(),
            bounded(
                old(self)@.insert(ip, times_of(old(self)@, ip).push(now)),
                final(self)@,
                now,
                MAX_PAIR_TRACKED_IPS as nat,
                pair_window(),
            ),
    {
        let ghost before = self@;
        let mut v: Vec<Instant> = Vec::new();
        match self.failures.get(&ip) {
            Some(ts) => {
                v = copy_times(ts);
            },
            None => {},
        }
        v.push(now);
        proof {
            assert(v@ =~= times_of(before, ip).push(now));
        }
        put_times(&mut self.failures, ip, v);
        apply_bound(
            &mut self.failures,
            now,
            MAX_PAIR_TRACKED_IPS,
            Duration::from_secs(PAIR_FAILURE_WINDOW_SECS),
        );
    }

    /// Checks and reserves in one step: a source under the cap gets this
    /// attempt recorded and may go on; one at the cap may not, and nothing is
    /// recorded.
    pub fn reserve_attempt(&mut self, ip: IpAddr, now: Instant) -> (ok: bool)
        requires
            old(self).wf(),
        ensures
            final(self).wf(),
            ok == (failures_now(old(self)@, ip, now).len() < MAX_PAIR_FAILURES),
            !ok ==> final(self)@ == old(self)@.insert(ip, failures_now(old(self)@, ip, now)),
            ok ==> bounded(
                old(self)@.insert(ip, failures_now(old(self)@, ip, now).push(now)),
                final(self)@,
                now,
                MAX_PAIR_TRACKED_IPS as nat,
                pair_window(),
            ),
    {
        let ghost before = self@;
        let mut recent = recent_of(
            &self.failures,
            ip,
            now,
            Duration::from_secs(PAIR_FAILURE_WINDOW_SECS),
        );
        if recent.len() >= MAX_PAIR_FAILURES {
            proof {
                lemma_size(self.failures.entries@);
                if !self.failures@.contains_key(ip) {
                    reveal(Seq::filter);
                    assert(recent@.len() == 0);
                }
                assert(before.insert(ip, recent@).dom() =~= before.dom());
                assert(before.dom() =~= self.failures@.dom());
            }
            put_times(&mut self.failures, ip, recent);
            return false;
        }
        recent.push(now);
        put_times(&mut self.failures, ip, recent);
        apply_bound(
            &mut self.failures,
            now,
            MAX_PAIR_TRACKED_IPS,
            Duration::from_secs(PAIR_FAILURE_WINDOW_SECS),
        );
        true
    }

    /// Takes the last recorded attempt of a source back.
    pub fn unreserve(&mut self, ip: &IpAddr)
        requires
            old(self).wf(),
        ensures
            final(self).wf(),
            final(self)@ == unreserved(old(self)@, *ip),
    {
        let ghost before = self@;
        let mut v: Vec<Instant> = Vec::new();
        match self.failures.get(ip) {
            Some(ts) => {
                v = copy_times(ts);
            },
            None => {
                return;
            },
        }
        let _last = v.pop();
        if v.len() == 0 {
            forget(&mut self.failures, ip);
        } else {
            proof {
                lemma_size(self.failures.entries@);
                assert(before.insert(*ip, v@).dom() =~= before.dom());
                assert(before.dom() =~= self.failures@.dom());
                assert(v@ =~= before[*ip].drop_last());
            }
            put_times(&mut self.failures, *ip, v);
        }
    }

    /// Forgets a source.
    pub fn clear(&mut self, ip: &IpAddr)
        requires
            old(self).wf(),
        ensures
            final(self).wf(),
            final(self)@ == old(self)@.remove(*ip),
    {
        forget(&mut self.failures, ip);
    }

    /// How many sources are tracked.
    pub fn tracked_sources(&self) -> (n: usize)
        requires
            self.wf(),
        ensures
            n == self@.dom().len(),
            n <= MAX_PAIR_TRACKED_IPS,
    {
        proof {
            assert(self@.dom() =~= self.failures@.dom());
        }
        self.failures.len()
    }
}

/// The last recorded time of a source taken back; a source without any is
/// forgotten.
pub open spec fn unreserved(m: Map<IpAddr, Seq<Instant>>, ip: IpAddr) -> Map<
    IpAddr,
    Seq<Instant>,
> {
    if !m.contains_key(ip) {
        m
    } else if m[ip].len() <= 1 {
        m.remove(ip)
    } else {
        m.insert(ip, m[ip].drop_last())
    }
}

fn copy_times(v: &Vec<Instant>) -> (r: Vec<Instant>)
    ensures
        r@ == v@,
{
    let mut r: Vec<Instant> = Vec::new();
    for i in 0..v.len()
        invariant
            r@ == v@.subrange(0, i as int),
    {
        r.push(v[i]);
    }
    proof {
        assert(v@.subrange(0, v@.len() as int) =~= v@);
    }
    r
}

/// The per-source throttle of quick texts: every delivered text counts.
#[derive(Debug)]
pub struct TextRateLimiter {
    pub recent: KeyMap<IpAddr, Vec<Instant>>,
}

impl View for TextRateLimiter {
    type V = Map<IpAddr, Seq<Instant>>;

    open spec fn view(&self) -> Map<IpAddr, Seq<Instant>> {
        times(self.recent)
    }
}

impl Default for TextRateLimiter {
    fn default() -> (r: Self)
        ensures
            r.wf(),
            r@ == Map::<IpAddr, Seq<Instant>>::empty(),
    {
        let r = TextRateLimiter { recent: KeyMap::new() };
        proof {
            assert(r@ =~= Map::<IpAddr, Seq<Instant>>::empty());
        }
        r
    }
}

/// The deliveries of a source within the window.
pub open spec fn deliveries_now(m: Map<IpAddr, Seq<Instant>>, ip: IpAddr, now: Instant) -> Seq<
    Instant,
> {
    in_window(times_of(m, ip), now, text_window())
}

impl TextRateLimiter {
    pub open spec fn wf(&self) -> bool {
        throttle_wf(self.recent, MAX_TEXT_TRACKED_IPS as nat)
    }

    /// Whether a text may be delivered now; if so, the delivery is recorded. A
    /// source at the cap does not push its own window forward.
    pub fn admit_text(&mut self, ip: IpAddr, now: Instant) -> (ok: bool)
        requires
            old(self).wf(),
        ensures
            final(self).wf(),
            ok == (deliveries_now(old(self)@, ip, now).len() < MAX_TEXT_PER_WINDOW),
            bounded(
                old(self)@.insert(
                    ip,
                    if ok {
                        deliveries_now(old(self)@, ip, now).push(now)
                    } else {
                        deliveries_now(old(self)@, ip, now)
                    },
                ),
                final(self)@,
                now,
                MAX_TEXT_TRACKED_IPS as nat,
                text_window(),
            ),
    {
        let window = Duration::from_secs(TEXT_RATE_WINDOW_SECS);
        let mut recent = recent_of(&self.recent, ip, now, window);
        let ok = recent.len() < MAX_TEXT_PER_WINDOW;
        if ok {
            recent.push(now);
        }
        put_times(&mut self.recent, ip, recent);
        apply_bound(&mut self.recent, now, MAX_TEXT_TRACKED_IPS, window);
        ok
    }

    pub fn tracked_sources(&self) -> (n: usize)
        requires
            self.wf(),
        ensures
            n == self@.dom().len(),
            n <= MAX_TEXT_TRACKED_IPS,
    {
        proof {
            assert(self@.dom() =~= self.recent@.dom());
        }
        self.recent.len()
    }
}

// ── laws of the throttles ─────────────────────────────────────────────────

/// A granted attempt is recorded within the budget: right after it, the source
/// has at most the cap of failures in the window.
pub proof fn law_reservations_within_budget(
    m: Map<IpAddr, Seq<Instant>>,
    ip: IpAddr,
    now: Instant,
)
    requires
        failures_now(m, ip, now).len() < MAX_PAIR_FAILURES,
    ensures
        in_window(failures_now(m, ip, now).push(now), now, pair_window()).len()
            <= MAX_PAIR_FAILURES,
{
    let ts = failures_now(m, ip, now).push(now);
    ts.lemma_filter_len(|t: Instant| elapsed(t, now) < pair_window().nanos);
}

/// Taking a reservation back leaves the source with the failures it had in the
/// window, and every other source as it was: attempts at an idle host neither
/// grow the map nor use up the budget.
pub proof fn law_unreserve_undoes_reservation(
    m: Map<IpAddr, Seq<Instant>>,
    ip: IpAddr,
    now: Instant,
)
    ensures
        ({
            let recent = failures_now(m, ip, now);
            let after = unreserved(m.insert(ip, recent.push(now)), ip);
            after == if recent.len() == 0 {
                m.remove(ip)
            } else {
                m.insert(ip, recent)
            }
        }),
{
    let recent = failures_now(m, ip, now);
    let mid = m.insert(ip, recent.push(now));
    let after = unreserved(mid, ip);
    assert(recent.push(now).drop_last() =~= recent);
    if recent.len() == 0 {
        assert(after =~= m.remove(ip));
    } else {
        assert(after =~= m.insert(ip, recent));
    }
}

/// Once the whole window has passed since its last failure, a source is
/// allowed again.
pub proof fn law_window_rolls_off(m: Map<IpAddr, Seq<Instant>>, ip: IpAddr, now: Instant)
    requires
        forall|i: int|
            0 <= i < times_of(m, ip).len() ==> elapsed(#[trigger] times_of(m, ip)[i], now)
                >= pair_window().nanos,
    ensures
        failures_now(m, ip, now).len() == 0,
{
    let p = |t: Instant| elapsed(t, now) < pair_window().nanos;
    let ts = times_of(m, ip);
    let f = ts.filter(p);
    if f.len() > 0 {
        lemma_filter_from(ts, p, 0);
    }
}

/// A filtered element comes from the sequence.
proof fn lemma_filter_from(ts: Seq<Instant>, p: spec_fn(Instant) -> bool, i: int)
    requires
        0 <= i < ts.filter(p).len(),
    ensures
        exists|k: int| 0 <= k < ts.len() && #[trigger] ts[k] == ts.filter(p)[i] && p(ts[k]),
    decreases ts.len(),
{
    reveal(Seq::filter);
    if ts.len() > 0 {
        let before = ts.drop_last().filter(p);
        if i < before.len() {
            lemma_filter_from(ts.drop_last(), p, i);
            let k = choose|k: int|
                0 <= k < ts.drop_last().len() && #[trigger] ts.drop_last()[k] == before[i] && p(
                    ts.drop_last()[k],
                );
            assert(ts[k] == ts.filter(p)[i]);
        } else {
            assert(ts[ts.len() - 1] == ts.filter(p)[i]);
        }
    }
}

/// The throttles are per source: what is recorded of one source changes
/// nothing for another that stays tracked.
pub proof fn law_throttle_is_per_source(
    m: Map<IpAddr, Seq<Instant>>,
    ip: IpAddr,
    other: IpAddr,
    ts: Seq<Instant>,
    now: Instant,
)
    requires
        ip != other,
    ensures
        failures_now(m.insert(ip, ts), other, now) == failures_now(m, other, now),
{
}

// ── prompts and conflicts ─────────────────────────────────────────────────

/// One recorded network degradation.
#[derive(Debug, Clone)]
pub struct NetDegraded {
    pub kind: String,
    pub detail: String,
}

/// How a receiver resolves a name that is already taken on disk.
#[derive(Debug, Clone, Copy, PartialEq, Eq, Structural)]
pub enum ConflictAction {
    /// Keep both, the incoming file under another name.
    Rename,
    /// Replace the existing file.
    Overwrite,
}

impl ConflictAction {
    /// The action that a settings value names; `ask` and anything unknown
    /// names none.
    pub fn parse(s: &str) -> (r: Option<Self>)
        ensures
            r == if s@ == "rename"@ {
                Some(ConflictAction::Rename)
            } else if s@ == "overwrite"@ {
                Some(ConflictAction::Overwrite)
            } else {
                None
            },
    {
        if str_eq(s, "rename") {
            Some(ConflictAction::Rename)
        } else if str_eq(s, "overwrite") {
            Some(ConflictAction::Overwrite)
        } else {
            None
        }
    }
}

/// The answer to an inbound prompt.
#[derive(Debug, Clone, Copy, PartialEq, Eq, Structural)]
pub struct ReplyDecision {
    pub accept: bool,
    /// How the user wants collisions resolved, if that was asked.
    pub conflict: Option<ConflictAction>,
}

impl ReplyDecision {
    pub fn plain(accept: bool) -> (r: Self)
        ensures
            r == (ReplyDecision { accept, conflict: None }),
    {
        ReplyDecision { accept, conflict: None }
    }
}

// ── transfer controls ─────────────────────────────────────────────────────

/// The knobs of a running transfer.
#[derive(Debug, Clone, Copy, PartialEq, Eq, Structural)]
pub struct TransferControl {
    pub cancelled: bool,
    pub paused: bool,
}

impl TransferControl {
    pub fn neutral() -> (c: Self)
        ensures
            c == (TransferControl { cancelled: false, paused: false }),
    {
        TransferControl { cancelled: false, paused: false }
    }
}

impl Default for TransferControl {
    fn default() -> (c: Self)
        ensures
            c == (TransferControl { cancelled: false, paused: false }),
    {
        TransferControl::neutral()
    }
}

/// The controls of the sessions that are moving bytes, by session id.
pub type TransfersCtl = KeyMap<String, TransferControl>;

/// The registration of a session. Only the one that put the control into the
/// registry takes it out again.
#[derive(Debug)]
pub struct TransferCtlGuard {
    pub id: String,
    pub owns: bool,
}

/// A control that nobody touched.
pub open spec fn untouched() -> TransferControl {
    TransferControl { cancelled: false, paused: false }
}

/// The registry after a session was cancelled.
pub open spec fn cancelled_in(m: Map<Seq<char>, TransferControl>, id: Seq<char>) -> Map<
    Seq<char>,
    TransferControl,
> {
    if m.contains_key(id) {
        m.insert(id, (TransferControl { cancelled: true, ..m[id] }))
    } else {
        m
    }
}

/// The registry after a session was paused or resumed.
pub open spec fn paused_in(
    m: Map<Seq<char>, TransferControl>,
    id: Seq<char>,
    paused: bool,
) -> Map<Seq<char>, TransferControl> {
    if m.contains_key(id) {
        m.insert(id, (TransferControl { paused, ..m[id] }))
    } else {
        m
    }
}

impl TransferCtlGuard {
    /// The control that drives this session: the entry of the registry for the
    /// session that owns it, and a detached one for any other.
    pub open spec fn driven_by(self, m: Map<Seq<char>, TransferControl>) -> TransferControl {
        if self.owns && m.contains_key(self.id@) {
            m[self.id@]
        } else {
            untouched()
        }
    }

    /// Registers a fresh control. An id that is already there keeps its
    /// control; the newcomer is detached from it.
    pub fn register(map: &mut TransfersCtl, id: &str) -> (g: Self)
        requires
            old(map).wf(),
        ensures
            final(map).wf(),
            g.id@ == id@,
            g.owns == !old(map)@.contains_key(id@),
            final(map)@ == if g.owns {
                old(map)@.insert(id@, untouched())
            } else {
                old(map)@
            },
            g.driven_by(final(map)@) == untouched(),
    {
        let key = id.to_owned();
        let mut owns = false;
        if !map.contains_key(&key) {
            let _none = map.insert(id.to_owned(), TransferControl::neutral());
            owns = true;
        }
        TransferCtlGuard { id: key, owns }
    }

    /// The control of this session as it is now.
    pub fn control(&self, map: &TransfersCtl) -> (c: TransferControl)
        requires
            map.wf(),
        ensures
            c == self.driven_by(map@),
    {
        if self.owns {
            match map.get(&self.id) {
                Some(c) => *c,
                None => TransferControl::neutral(),
            }
        } else {
            TransferControl::neutral()
        }
    }

    /// The end of the session.
    pub fn release(self, map: &mut TransfersCtl)
        requires
            old(map).wf(),
        ensures
            final(map).wf(),
            final(map)@ == if self.owns {
                old(map)@.remove(self.id@)
            } else {
                old(map)@
            },
    {
        if self.owns {
            let _gone = map.remove(&self.id);
        }
    }
}

/// Cancels a session; whether there is one.
pub fn cancel_transfer_ctl(map: &mut TransfersCtl, id: &str) -> (found: bool)
    requires
        old(map).wf(),
    ensures
        final(map).wf(),
        found == old(map)@.contains_key(id@),
        final(map)@ == cancelled_in(old(map)@, id@),
{
    let key = id.to_owned();
    match map.get_mut(&key) {
        Some(ctl) => {
            ctl.cancelled = true;
            true
        },
        None => false,
    }
}

/// Pauses or resumes a session; whether there is one.
pub fn set_transfer_paused_ctl(map: &mut TransfersCtl, id: &str, paused: bool) -> (found: bool)
    requires
        old(map).wf(),
    ensures
        final(map).wf(),
        found == old(map)@.contains_key(id@),
        final(map)@ == paused_in(old(map)@, id@, paused),
{
    let key = id.to_owned();
    match map.get_mut(&key) {
        Some(ctl) => {
            ctl.paused = paused;
            true
        },
        None => false,
    }
}

/// A registration and its release leave every other session alone, and the
/// registry as it was: a session whose id was taken never removes the
/// incumbent.
pub proof fn law_release_undoes_register(
    m: Map<Seq<char>, TransferControl>,
    id: Seq<char>,
    ctl: TransferControl,
)
    ensures
        !m.contains_key(id) ==> m.insert(id, ctl).remove(id) == m,
{
    if !m.contains_key(id) {
        assert(m.insert(id, ctl).remove(id) =~= m);
    }
}

/// A cancel and a pause reach the session that owns the id, and never a
/// newcomer that found the id taken nor a session of another id.
pub proof fn law_controls_reach_the_owner_only(
    m: Map<Seq<char>, TransferControl>,
    owner: TransferCtlGuard,
    other: TransferCtlGuard,
    paused: bool,
)
    requires
        owner.owns,
        m.contains_key(owner.id@),
        !other.owns || other.id@ != owner.id@,
    ensures
        owner.driven_by(cancelled_in(m, owner.id@)) == (TransferControl {
            cancelled: true,
            ..owner.driven_by(m)
        }),
        owner.driven_by(paused_in(m, owner.id@, paused)) == (TransferControl {
            paused,
            ..owner.driven_by(m)
        }),
        other.driven_by(cancelled_in(m, owner.id@)) == other.driven_by(m),
        other.driven_by(paused_in(m, owner.id@, paused)) == other.driven_by(m),
        !other.owns ==> other.driven_by(m) == untouched(),
{
}

// ── the concurrency gate ──────────────────────────────────────────────────

/// Bounds how many transfers move bytes at once. The cap is handed in on every
/// attempt, so that a change of the setting takes effect at once.
#[derive(Debug)]
pub struct ConcurrencyGate {
    pub active: u32,
}

/// The hold on one slot.
#[derive(Debug)]
pub struct SlotGuard {
    /// The slot's number, counted from one.
    pub slot: u32,
}

/// The cap as it is applied: at least one.
pub open spec fn effective_cap(limit: u32) -> u32 {
    if limit < 1 {
        1
    } else {
        limit
    }
}

impl Default for ConcurrencyGate {
    fn default() -> (g: Self)
        ensures
            g.active == 0,
    {
        ConcurrencyGate::new()
    }
}

impl ConcurrencyGate {
    pub fn new() -> (g: Self)
        ensures
            g.active == 0,
    {
        ConcurrencyGate { active: 0 }
    }

    pub fn active(&self) -> (n: u32)
        ensures
            n == self.active,
    {
        self.active
    }

    /// Claims a slot, or nothing when the cap is reached.
    pub fn try_acquire(&mut self, limit: u32) -> (r: Option<SlotGuard>)
        ensures
            r is Some == (old(self).active < effective_cap(limit)),
            match r {
                Some(g) => final(self).active == old(self).active + 1 && g.slot
                    == final(self).active && final(self).active <= effective_cap(limit),
                None => final(self).active == old(self).active,
            },
    {
        let cap: u32 = if limit < 1 {
            1
        } else {
            limit
        };
        if self.active >= cap {
            return None;
        }
        self.active = self.active + 1;
        Some(SlotGuard { slot: self.active })
    }

    /// Frees a slot.
    pub fn release(&mut self, guard: SlotGuard)
        requires
            old(self).active > 0,
        ensures
            final(self).active == old(self).active - 1,
    {
        self.active = self.active - 1;
    }
}

// ── pairing ───────────────────────────────────────────────────────────────

/// The active pairing invitation.
#[derive(Debug)]
pub struct PairingSession {
    pub code: String,
    /// From here on the code is refused.
    pub expires: Instant,
}

/// The invitation, at most one, and the throttle of failed attempts.
#[derive(Debug)]
pub struct PairingState {
    pub session: Option<PairingSession>,
    pub rate: PairRateLimiter,
}

impl Default for PairingState {
    fn default() -> (r: Self)
        ensures
            r.session is None,
            r.rate.wf(),
            r.rate@ == Map::<IpAddr, Seq<Instant>>::empty(),
    {
        PairingState { session: None, rate: PairRateLimiter::default() }
    }
}

// ── manual peers ──────────────────────────────────────────────────────────

/// A peer that was dialed by address.
#[derive(Debug, Clone)]
pub struct ManualPeer {
    pub name: String,
    pub addr: Ipv4Addr,
    pub port: u16,
    /// When it was last dialed.
    pub last_used: Instant,
}

/// How many manual peers are kept.
pub const MAX_MANUAL_PEERS: usize = 256;

/// Whether `after` is `before` without its least recently used peers, down to
/// the bound.
pub open spec fn trimmed_peers(
    before: Map<Seq<char>, ManualPeer>,
    after: Map<Seq<char>, ManualPeer>,
) -> bool {
    &&& within(after, before)
    &&& after.dom().len() == if before.dom().len() > MAX_MANUAL_PEERS {
        MAX_MANUAL_PEERS as nat
    } else {
        before.dom().len()
    }
    &&& forall|gone: Seq<char>, stays: Seq<char>|
        before.contains_key(gone) && !after.contains_key(gone) && after.contains_key(stays)
            ==> (#[trigger] before[gone]).last_used.nanos <= (
        #[trigger] before[stays]).last_used.nanos
}

/// Adds or refreshes a peer; beyond the bound the least recently used go.
pub fn insert_manual_peer(
    map: &mut KeyMap<String, ManualPeer>,
    device_id: String,
    peer: ManualPeer,
)
    requires
        old(map).wf(),
    ensures
        final(map).wf(),
        trimmed_peers(old(map)@.insert(device_id@, peer), final(map)@),
{
    let ghost before = map@.insert(device_id@, peer);
    let _old = map.insert(device_id, peer);
    proof {
        lemma_size(map.entries@);
    }
    while map.len() > MAX_MANUAL_PEERS
        invariant
            map.wf(),
            within(map@, before),
            map@.dom().len() == map.entries@.len(),
            map.entries@.len() <= before.dom().len(),
            before.dom().len() > MAX_MANUAL_PEERS ==> map.entries@.len() >= MAX_MANUAL_PEERS,
            before.dom().len() <= MAX_MANUAL_PEERS ==> map.entries@.len() == before.dom().len(),
            forall|gone: Seq<char>, stays: Seq<char>|
                before.contains_key(gone) && !map@.contains_key(gone) && map@.contains_key(stays)
                    ==> (#[trigger] before[gone]).last_used.nanos <= (
                #[trigger] before[stays]).last_used.nanos,
        decreases map.entries@.len(),
    {
        let ghost cur = map@;
        let ghost entries = map.entries@;
        let mut best: usize = 0;
        let n: usize = map.entries.len();
        for i in 1..n
            invariant
                n == entries.len(),
                entries == map.entries@,
                best < n,
                i >= 1,
                forall|k: int|
                    0 <= k < i ==> entries[best as int].1.last_used.nanos <= (
                    #[trigger] entries[k]).1.last_used.nanos,
        {
            if map.entries[i].1.last_used.nanos < map.entries[best].1.last_used.nanos {
                best = i;
            }
        }
        let ghost victim = entries[best as int].0@;
        proof {
            lemma_take_out(entries, best as int);
            lemma_entry(entries, best as int);
            assert(cur.contains_key(victim));
            assert forall|gone: Seq<char>, stays: Seq<char>|
                before.contains_key(gone) && !cur.remove(victim).contains_key(gone) && cur.remove(
                    victim,
                ).contains_key(stays) implies (#[trigger] before[gone]).last_used.nanos <= (
            #[trigger] before[stays]).last_used.nanos by {
                let k = crate::keymap::key_index(entries, stays);
                lemma_entry(entries, k);
                assert(cur.contains_key(stays));
                if gone == victim {
                    assert(cur.contains_key(gone));
                    assert(entries[best as int].1.last_used.nanos
                        <= entries[k].1.last_used.nanos);
                } else {
                    assert(!cur.contains_key(gone));
                }
            }
        }
        let _gone = map.entries.remove(best);
        proof {
            assert(map@ =~= cur.remove(victim));
            lemma_size(map.entries@);
        }
    }
}

// ── completed transfers ───────────────────────────────────────────────────

/// How many completed sessions are kept.
pub const COMPLETED_CAP: usize = 200;

/// The saved paths of completed sessions, oldest session first.
#[derive(Debug)]
pub struct CompletedLog {
    pub sessions: KeyMap<String, Vec<String>>,
}

impl View for CompletedLog {
    /// Session ids with their paths, in the order of their first insertion.
    type V = Seq<(Seq<char>, Seq<Seq<char>>)>;

    open spec fn view(&self) -> Seq<(Seq<char>, Seq<Seq<char>>)> {
        self.sessions.entries@.map_values(|e: (String, Vec<String>)| (e.0@, texts(e.1@)))
    }
}

/// Whether a session is in the log.
pub open spec fn logged(log: Seq<(Seq<char>, Seq<Seq<char>>)>, id: Seq<char>) -> bool {
    exists|i: int| 0 <= i < log.len() && (#[trigger] log[i]).0 == id
}

/// The position of a session in the log.
pub open spec fn log_index(log: Seq<(Seq<char>, Seq<Seq<char>>)>, id: Seq<char>) -> int {
    choose|i: int| 0 <= i < log.len() && (#[trigger] log[i]).0 == id
}

/// The log with a session added. A session that is there keeps its age; a new
/// one is the youngest, and the oldest goes when there are too many.
pub open spec fn log_with(
    log: Seq<(Seq<char>, Seq<Seq<char>>)>,
    id: Seq<char>,
    paths: Seq<Seq<char>>,
) -> Seq<(Seq<char>, Seq<Seq<char>>)> {
    if logged(log, id) {
        log.update(log_index(log, id), (id, paths))
    } else if log.len() < COMPLETED_CAP {
        log.push((id, paths))
    } else {
        log.push((id, paths)).drop_first()
    }
}

impl CompletedLog {
    /// No session twice, and no more than the cap.
    pub open spec fn wf(&self) -> bool {
        self.sessions.wf() && self.sessions.entries@.len() <= COMPLETED_CAP
    }

    proof fn lemma_log_index(&self, i: int)
        requires
            self.wf(),
            0 <= i < self@.len(),
        ensures
            logged(self@, self@[i].0),
            log_index(self@, self@[i].0) == i,
    {
        let id = self@[i].0;
        let entries = self.sessions.entries@;
        assert(self@[i].0 == id);
        let j = log_index(self@, id);
        assert(0 <= j < self@.len() && self@[j].0 == id);
        assert(entries[i].0@ == id && entries[j].0@ == id);
        if i < j {
            assert(entries[i].0@ != entries[j].0@);
        } else if j < i {
            assert(entries[j].0@ != entries[i].0@);
        }
    }

    pub fn new() -> (r: Self)
        ensures
            r.wf(),
            r@.len() == 0,
    {
        CompletedLog { sessions: KeyMap::new() }
    }

    /// Records a completed session.
    pub fn insert(&mut self, session_id: String, paths: Vec<String>)
        requires
            old(self).wf(),
        ensures
            final(self).wf(),
            final(self)@ == log_with(old(self)@, session_id@, texts(paths@)),
    {
        let ghost before = self@;
        let ghost id = session_id@;
        let i: usize = self.sessions.find(&session_id);
        if i < self.sessions.entries.len() {
            let ghost entries = self.sessions.entries@;
            proof {
                assert(before[i as int].0 == id);
                self.lemma_log_index(i as int);
                crate::keymap::lemma_replace(entries, i as int, entries[i as int].0, paths);
            }
            self.sessions.entries[i].1 = paths;
            proof {
                assert(self.sessions.entries@ =~= entries.update(
                    i as int,
                    (entries[i as int].0, paths),
                ));
                assert(self@ =~= before.update(i as int, (id, texts(paths@))));
            }
        } else {
            proof {
                crate::keymap::lemma_append(self.sessions.entries@, session_id, paths);
                assert(!logged(before, id)) by {
                    if logged(before, id) {
                        let j = log_index(before, id);
                        assert(self.sessions.entries@[j].0@ == id);
                    }
                }
            }
            self.sessions.entries.push((session_id, paths));
            proof {
                assert(self@ =~= before.push((id, texts(paths@))));
            }
            if self.sessions.entries.len() > COMPLETED_CAP {
                let ghost entries = self.sessions.entries@;
                proof {
                    lemma_take_out(entries, 0);
                }
                let _oldest = self.sessions.entries.remove(0);
                proof {
                    assert(self@ =~= before.push((id, texts(paths@))).drop_first());
                }
            }
        }
    }

    pub fn get(&self, session_id: &str) -> (r: Option<&Vec<String>>)
        requires
            self.wf(),
        ensures
            match r {
                Some(v) => logged(self@, session_id@) && texts(v@) == self@[log_index(
                    self@,
                    session_id@,
                )].1,
                None => !logged(self@, session_id@),
            },
    {
        let key = session_id.to_owned();
        let i: usize = self.sessions.find(&key);
        if i < self.sessions.entries.len() {
            proof {
                assert(self@[i as int].0 == session_id@);
                self.lemma_log_index(i as int);
            }
            Some(&self.sessions.entries[i].1)
        } else {
            proof {
                if logged(self@, session_id@) {
                    let j = log_index(self@, session_id@);
                    assert(self.sessions.entries@[j].0@ == session_id@);
                    lemma_entry(self.sessions.entries@, j);
                }
            }
            None
        }
    }

    pub fn len(&self) -> (n: usize)
        ensures
            n == self@.len(),
    {
        self.sessions.entries.len()
    }

    pub fn is_empty(&self) -> (r: bool)
        ensures
            r == (self@.len() == 0),
    {
        self.sessions.entries.len() == 0
    }
}

/// The log never outgrows its cap, and the session just recorded is always
/// found in it.
pub proof fn law_log_is_bounded(
    log: Seq<(Seq<char>, Seq<Seq<char>>)>,
    id: Seq<char>,
    paths: Seq<Seq<char>>,
)
    requires
        log.len() <= COMPLETED_CAP,
    ensures
        log_with(log, id, paths).len() <= COMPLETED_CAP,
        logged(log_with(log, id, paths), id),
{
    let after = log_with(log, id, paths);
    if logged(log, id) {
        assert(after[log_index(log, id)].0 == id);
    } else {
        assert(after[after.len() - 1].0 == id);
    }
}

} // verus!
