//! How often, how many, and for how long: throttles, slots, and the lists that
//! are kept short.

use vstd::prelude::*;

use crate::commands::{reply_file_request, reveal_received};
use crate::exif::lemma_filter_same;
use crate::keymap::KeyMap;
use crate::net::IpAddr;
use crate::sanitize::texts;
use crate::state::{
    cancel_transfer_ctl, evict_over_cap, insert_manual_peer, latest, set_transfer_paused_ctl,
    CompletedLog, ConcurrencyGate, ConflictAction, ManualPeer, PairRateLimiter, ReplyDecision,
    SlotGuard, TextRateLimiter, TransferControl, TransferCtlGuard, TransfersCtl,
};
use crate::time::{Duration, Instant};

verus! {

// ── throttles ─────────────────────────────────────────────────────────────

/// The times that are less than a minute old.
pub open spec fn last_minute(ts: Seq<Instant>, now: Instant) -> Seq<Instant> {
    ts.filter(|t: Instant| now.nanos < t.nanos + 60_000_000_000)
}

proof fn lemma_last_minute(ts: Seq<Instant>, now: Instant)
    ensures
        crate::state::in_window(ts, now, Duration { nanos: 60_000_000_000 }) == last_minute(ts, now),
{
    let w = Duration { nanos: 60_000_000_000 };
    lemma_filter_same(
        ts,
        |t: Instant| crate::time::elapsed(t, now) < w.nanos,
        |t: Instant| now.nanos < t.nanos + 60_000_000_000,
    );
}

/// What was recorded of one source.
pub open spec fn recorded(m: Map<IpAddr, Seq<Instant>>, ip: IpAddr) -> Seq<Instant> {
    if m.contains_key(ip) {
        m[ip]
    } else {
        Seq::empty()
    }
}

/// Some time of `ts` is no earlier than `t`.
pub open spec fn reached(ts: Seq<Instant>, t: Instant) -> bool {
    exists|k: int| 0 <= k < ts.len() && t.nanos <= (#[trigger] ts[k]).nanos
}

proof fn lemma_latest(ts: Seq<Instant>)
    ensures
        latest(ts) >= -1,
        forall|i: int| 0 <= i < ts.len() ==> (#[trigger] ts[i]).nanos <= latest(ts),
        ts.len() > 0 ==> exists|i: int| 0 <= i < ts.len() && (#[trigger] ts[i]).nanos == latest(ts),
    decreases ts.len(),
{
    if ts.len() > 0 {
        let rest = ts.drop_last();
        lemma_latest(rest);
        assert forall|i: int| 0 <= i < ts.len() implies (#[trigger] ts[i]).nanos <= latest(ts) by {
            if i < rest.len() {
                assert(rest[i] == ts[i]);
            }
        }
        if ts.last().nanos > latest(rest) {
            assert(ts[ts.len() - 1].nanos == latest(ts));
        } else {
            let i = choose|i: int| 0 <= i < rest.len() && (#[trigger] rest[i]).nanos == latest(rest);
            assert(ts[i].nanos == latest(ts));
        }
    }
}

/// What a throttle remembers once it has been brought within 1024 sources: all
/// of it while there are no more; else only sources with something from the last
/// minute, unchanged, at most 1024 of them, and none is given up for one that was
/// quiet for longer.
pub open spec fn remembered(
    m: Map<IpAddr, Seq<Instant>>,
    after: Map<IpAddr, Seq<Instant>>,
    now: Instant,
) -> bool {
    if m.dom().len() <= 1024 {
        after == m
    } else {
        &&& forall|ip: IpAddr| #[trigger]
            after.contains_key(ip) ==> m.contains_key(ip) && after[ip] == m[ip] && last_minute(
                m[ip],
                now,
            ).len() > 0
        &&& after.dom().len() <= 1024
        &&& after.dom().len() < 1024 ==> forall|ip: IpAddr| #[trigger]
            m.contains_key(ip) && last_minute(m[ip], now).len() > 0 ==> after.contains_key(ip)
        &&& forall|gone: IpAddr, stays: IpAddr, j: int|
            m.contains_key(gone) && last_minute(m[gone], now).len() > 0 && !(
            #[trigger] after.contains_key(gone)) && (#[trigger] after.contains_key(stays)) && 0 <= j
                < m[gone].len() ==> reached(m[stays], #[trigger] m[gone][j])
    }
}

#[verifier::rlimit(40)]
proof fn lemma_remembered(
    m: Map<IpAddr, Seq<Instant>>,
    after: Map<IpAddr, Seq<Instant>>,
    now: Instant,
)
    requires
        m.dom().finite(),
        crate::state::bounded(m, after, now, 1024, Duration { nanos: 60_000_000_000 }),
    ensures
        remembered(m, after, now),
{
    let w = Duration { nanos: 60_000_000_000 };
    if m.dom().len() > 1024 {
        let live = crate::state::alive(m, now, w);
        assert forall|ip: IpAddr| #[trigger] after.contains_key(ip) implies m.contains_key(ip)
            && after[ip] == m[ip] && last_minute(m[ip], now).len() > 0 by {
            assert(live.contains_key(ip));
            lemma_last_minute(m[ip], now);
        }
        if after.dom().len() < 1024 {
            assert(live.dom().subset_of(m.dom()));
            vstd::set_lib::lemma_len_subset(live.dom(), m.dom());
            assert(after.dom().subset_of(live.dom())) by {
                assert forall|ip: IpAddr| after.dom().contains(ip) implies live.dom().contains(ip) by {
                    assert(after.contains_key(ip));
                }
            }
            vstd::set_lib::lemma_subset_equality(after.dom(), live.dom());
            assert forall|ip: IpAddr| #[trigger]
                m.contains_key(ip) && last_minute(m[ip], now).len() > 0 implies after.contains_key(
                ip,
            ) by {
                lemma_last_minute(m[ip], now);
                assert(live.dom().contains(ip));
            }
        }
        assert forall|gone: IpAddr, stays: IpAddr, j: int|
            m.contains_key(gone) && last_minute(m[gone], now).len() > 0 && !(
            #[trigger] after.contains_key(gone)) && (#[trigger] after.contains_key(stays)) && 0 <= j
                < m[gone].len() implies reached(m[stays], #[trigger] m[gone][j]) by {
            lemma_last_minute(m[gone], now);
            lemma_last_minute(m[stays], now);
            assert(live.contains_key(gone));
            assert(live.contains_key(stays));
            lemma_latest(m[gone]);
            lemma_latest(m[stays]);
            assert(latest(live[gone]) <= latest(live[stays]));
            if m[stays].len() == 0 {
                reveal(Seq::filter);
            }
            let k = choose|k: int|
                0 <= k < m[stays].len() && (#[trigger] m[stays][k]).nanos == latest(m[stays]);
            assert(m[gone][j].nanos <= m[stays][k].nanos);
        }
    }
}

proof fn lemma_times_finite(m: KeyMap<IpAddr, Vec<Instant>>)
    requires
        m.wf(),
    ensures
        crate::state::times(m).dom().finite(),
{
    crate::keymap::lemma_size(m.entries@);
    assert(crate::state::times(m).dom() =~= m@.dom());
}

/// Whether a source may pair is whether it failed less than five times in the
/// last minute; asking forgets older failures of that source and touches no
/// other.
pub proof fn law_five_failures_a_minute(l: &mut PairRateLimiter, ip: IpAddr, now: Instant, ok: bool)
    requires
        call_ensures(PairRateLimiter::allowed, (l, ip, now), ok),
    ensures
        ok <==> last_minute(recorded(old(l)@, ip), now).len() < 5,
        recorded(final(l)@, ip) == last_minute(recorded(old(l)@, ip), now),
        forall|other: IpAddr|
            other != ip ==> (#[trigger] final(l)@.contains_key(other) == old(l)@.contains_key(other)),
        forall|other: IpAddr|
            other != ip && old(l)@.contains_key(other) ==> #[trigger] final(l)@[other]
                == old(l)@[other],
{
    lemma_last_minute(recorded(old(l)@, ip), now);
    let r = last_minute(recorded(old(l)@, ip), now);
    if r.len() == 0 {
        assert(r =~= Seq::empty());
    }
}

/// An attempt is counted before it is made: it is admitted under the same
/// condition, and then the source has one more.
pub proof fn law_attempt_is_counted(
    l: &mut PairRateLimiter,
    ip: IpAddr,
    now: Instant,
    ok: bool,
)
    requires
        old(l).wf(),
        call_ensures(PairRateLimiter::reserve_attempt, (l, ip, now), ok),
    ensures
        ({
            let recent = last_minute(recorded(old(l)@, ip), now);
            &&& ok <==> recent.len() < 5
            &&& !ok ==> final(l)@ == old(l)@.insert(ip, recent)
            &&& ok ==> remembered(old(l)@.insert(ip, recent.push(now)), final(l)@, now)
        }),
{
    lemma_last_minute(recorded(old(l)@, ip), now);
    if ok {
        lemma_times_finite(old(l).failures);
        lemma_remembered(
            old(l)@.insert(ip, last_minute(recorded(old(l)@, ip), now).push(now)),
            final(l)@,
            now,
        );
    }
}

/// A recorded failure is one more time of its source.
pub proof fn law_failure_is_recorded(l: &mut PairRateLimiter, ip: IpAddr, now: Instant)
    requires
        old(l).wf(),
        call_ensures(PairRateLimiter::record_failure, (l, ip, now), ()),
    ensures
        remembered(old(l)@.insert(ip, recorded(old(l)@, ip).push(now)), final(l)@, now),
{
    lemma_times_finite(old(l).failures);
    lemma_remembered(old(l)@.insert(ip, recorded(old(l)@, ip).push(now)), final(l)@, now);
}

/// Taking an attempt back leaves the source with the attempts before it; a
/// success forgets the source. No other source is touched.
pub proof fn law_attempt_is_taken_back(l: &mut PairRateLimiter, ip: &IpAddr, c: &mut PairRateLimiter)
    requires
        call_ensures(PairRateLimiter::unreserve, (l, ip), ()),
        call_ensures(PairRateLimiter::clear, (c, ip), ()),
    ensures
        ({
            let was = recorded(old(l)@, *ip);
            recorded(final(l)@, *ip) == if was.len() == 0 {
                was
            } else {
                was.subrange(0, was.len() - 1)
            }
        }),
        !final(c)@.contains_key(*ip),
        forall|other: IpAddr|
            other != *ip ==> (#[trigger] final(l)@.contains_key(other) == old(l)@.contains_key(other)),
        forall|other: IpAddr|
            other != *ip && old(l)@.contains_key(other) ==> #[trigger] final(l)@[other]
                == old(l)@[other],
        forall|other: IpAddr|
            other != *ip ==> (#[trigger] final(c)@.contains_key(other) == old(c)@.contains_key(other)),
        forall|other: IpAddr|
            other != *ip && old(c)@.contains_key(other) ==> #[trigger] final(c)@[other]
                == old(c)@[other],
{
    let was = recorded(old(l)@, *ip);
    if was.len() > 0 {
        assert(was.drop_last() =~= was.subrange(0, was.len() - 1));
        if was.len() == 1 {
            assert(was.subrange(0, 0) =~= Seq::empty());
        }
    } else {
        assert(was =~= Seq::empty());
    }
}

/// Ten texts a minute are admitted from one source, and an admitted one is
/// counted.
pub proof fn law_ten_texts_a_minute(
    l: &mut TextRateLimiter,
    ip: IpAddr,
    now: Instant,
    ok: bool,
    t: &TextRateLimiter,
    n: usize,
    p: &PairRateLimiter,
    m: usize,
)
    requires
        old(l).wf(),
        call_ensures(TextRateLimiter::admit_text, (l, ip, now), ok),
        call_ensures(TextRateLimiter::tracked_sources, (t,), n),
        call_ensures(PairRateLimiter::tracked_sources, (p,), m),
    ensures
        ({
            let recent = last_minute(recorded(old(l)@, ip), now);
            &&& ok <==> recent.len() < 10
            &&& remembered(
                old(l)@.insert(
                    ip,
                    if ok {
                        recent.push(now)
                    } else {
                        recent
                    },
                ),
                final(l)@,
                now,
            )
        }),
        n == t@.dom().len() && n <= 1024,
        m == p@.dom().len() && m <= 1024,
{
    lemma_last_minute(recorded(old(l)@, ip), now);
    let recent = last_minute(recorded(old(l)@, ip), now);
    lemma_times_finite(old(l).recent);
    lemma_remembered(
        old(l)@.insert(
            ip,
            if ok {
                recent.push(now)
            } else {
                recent
            },
        ),
        final(l)@,
        now,
    );
}

// ── slots ─────────────────────────────────────────────────────────────────

/// A slot is given while fewer than the limit are taken (a limit of zero counts
/// as one), and giving it back leaves the number as it was.
pub proof fn law_slots(
    fresh: ConcurrencyGate,
    g: &mut ConcurrencyGate,
    limit: u32,
    r: Option<SlotGuard>,
    h: &mut ConcurrencyGate,
    shown: &ConcurrencyGate,
    n: u32,
)
    requires
        call_ensures(ConcurrencyGate::new, (), fresh),
        call_ensures(ConcurrencyGate::try_acquire, (g, limit), r),
        *old(h) == *final(g),
        r is Some ==> call_ensures(ConcurrencyGate::release, (h, r->0), ()),
        call_ensures(ConcurrencyGate::active, (shown,), n),
    ensures
        fresh.active == 0,
        n == shown.active,
        r is Some <==> old(g).active == 0 || old(g).active < limit,
        r is Some ==> final(g).active == old(g).active + 1 && final(h).active == old(g).active,
        r is Some && limit >= 1 ==> final(g).active <= limit,
        r is None ==> final(g).active == old(g).active,
{
}

// ── control of transfers ──────────────────────────────────────────────────

/// A transfer sees what is asked of it: whoever registered it first is told of a
/// cancellation and of a pause, the other wishes stay as they were, and no other
/// transfer is told anything.
pub proof fn law_transfer_sees_what_is_asked(
    a: &mut TransfersCtl,
    b: &mut TransfersCtl,
    id: &str,
    pause: bool,
    found: bool,
    also: bool,
    g: &TransferCtlGuard,
    before: TransferControl,
    m1: &TransfersCtl,
    m2: &TransfersCtl,
    m3: &TransfersCtl,
    after1: TransferControl,
    after2: TransferControl,
)
    requires
        call_ensures(cancel_transfer_ctl, (a, id), found),
        *old(b) == *old(a),
        call_ensures(set_transfer_paused_ctl, (b, id, pause), also),
        m1@ == old(a)@ && m2@ == final(a)@ && m3@ == final(b)@,
        call_ensures(TransferCtlGuard::control, (g, m1), before),
        call_ensures(TransferCtlGuard::control, (g, m2), after1),
        call_ensures(TransferCtlGuard::control, (g, m3), after2),
    ensures
        found == old(a)@.contains_key(id@) && also == found,
        g.owns && g.id@ == id@ && found ==> after1.cancelled && after1.paused == before.paused
            && after2.paused == pause && after2.cancelled == before.cancelled,
        g.id@ != id@ || !g.owns || !found ==> after1 == before && after2 == before,
        !g.owns ==> !before.cancelled && !before.paused,
{
}

/// Registering under a taken id takes nothing over; under a free one the
/// transfer runs until told otherwise. Releasing forgets what one registered and
/// nothing else.
pub proof fn law_registering_and_releasing(
    a: &mut TransfersCtl,
    id: &str,
    g: TransferCtlGuard,
    b: &mut TransfersCtl,
    fresh: TransferControl,
)
    requires
        call_ensures(TransferCtlGuard::register, (a, id), g),
        *old(b) == *final(a),
        call_ensures(TransferCtlGuard::release, (g, b), ()),
        call_ensures(TransferControl::neutral, (), fresh),
    ensures
        g.id@ == id@,
        g.owns <==> !old(a)@.contains_key(id@),
        g.owns ==> final(a)@ == old(a)@.insert(id@, fresh) && !fresh.cancelled && !fresh.paused,
        !g.owns ==> final(a)@ == old(a)@,
        final(b)@ == old(a)@,
{
    if g.owns {
        assert(final(b)@ =~= old(a)@);
    }
}

// ── replies ───────────────────────────────────────────────────────────────

/// A reply reaches the request that waits under its id, once, with the answer
/// and the way to resolve collisions if one was named.
pub proof fn law_reply_reaches_its_request_once(
    pending: &mut KeyMap<String, u64>,
    id: &str,
    accept: bool,
    conflict: Option<String>,
    r: Option<(u64, ReplyDecision)>,
    word: &str,
    parsed: Option<ConflictAction>,
    plain: ReplyDecision,
)
    requires
        call_ensures(reply_file_request, (pending, id, accept, conflict), r),
        call_ensures(ConflictAction::parse, (word,), parsed),
        call_ensures(ReplyDecision::plain, (accept,), plain),
        conflict is Some ==> word@ == conflict->0@,
    ensures
        plain.accept == accept && plain.conflict is None,
        parsed == Some(ConflictAction::Rename) <==> word@ == "rename"@,
        parsed == Some(ConflictAction::Overwrite) <==> word@ == "overwrite"@,
        r is Some <==> old(pending)@.contains_key(id@),
        r matches Some((waiting, d)) ==> {
            &&& waiting == old(pending)@[id@] && d.accept == accept
            &&& conflict is Some ==> d.conflict == parsed
            &&& conflict is None ==> d.conflict is None
        },
        !final(pending)@.contains_key(id@),
        forall|k: Seq<char>|
            k != id@ ==> (#[trigger] final(pending)@.contains_key(k) == old(pending)@.contains_key(k)),
        forall|k: Seq<char>|
            k != id@ && old(pending)@.contains_key(k) ==> #[trigger] final(pending)@[k]
                == old(pending)@[k],
{
    reveal_strlit("rename");
    reveal_strlit("overwrite");
    assert("rename"@[0] != "overwrite"@[0]);
}

// ── lists that are kept short ─────────────────────────────────────────────

/// A dialed device is remembered under its id, with the devices before it, up to
/// 256 of them; past that the ones that were dialed longest ago are given up.
pub proof fn law_256_dialed_devices(
    map: &mut KeyMap<String, ManualPeer>,
    id: String,
    peer: ManualPeer,
)
    requires
        call_ensures(insert_manual_peer, (map, id, peer), ()),
    ensures
        ({
            let all = old(map)@.insert(id@, peer);
            let kept = final(map)@;
            &&& forall|k: Seq<char>| #[trigger]
                kept.contains_key(k) ==> all.contains_key(k) && kept[k] == all[k]
            &&& all.dom().len() <= 256 ==> kept.dom().len() == all.dom().len()
            &&& all.dom().len() > 256 ==> kept.dom().len() == 256
            &&& forall|gone: Seq<char>, stays: Seq<char>|
                #![trigger kept.contains_key(gone), kept.contains_key(stays)]
                all.contains_key(gone) && !kept.contains_key(gone) && kept.contains_key(stays)
                    ==> all[gone].last_used.nanos <= all[stays].last_used.nanos
        }),
{
    let all = old(map)@.insert(id@, peer);
    let kept = final(map)@;
    assert forall|gone: Seq<char>, stays: Seq<char>|
        #![trigger kept.contains_key(gone), kept.contains_key(stays)]
        all.contains_key(gone) && !kept.contains_key(gone) && kept.contains_key(
            stays,
        ) implies all[gone].last_used.nanos <= all[stays].last_used.nanos by {
        assert(all[gone].last_used.nanos <= all[stays].last_used.nanos);
    }
}

/// The paths of a finished session are found under its id, and those of every
/// other session that was there, but for the oldest one where there were 200.
#[verifier::rlimit(40)]
pub proof fn law_200_finished_sessions(
    log: &mut CompletedLog,
    id: String,
    paths: Vec<String>,
    new: &CompletedLog,
    old_log: &CompletedLog,
    same: &str,
    got: Option<&Vec<String>>,
    other: &str,
    was: Option<&Vec<String>>,
    is: Option<&Vec<String>>,
    shown: Vec<String>,
    n: usize,
)
    requires
        old(log).wf(),
        call_ensures(CompletedLog::insert, (log, id, paths), ()),
        *old_log == *old(log) && *new == *final(log),
        same@ == id@,
        call_ensures(CompletedLog::get, (new, same), got),
        other@ != id@,
        call_ensures(CompletedLog::get, (old_log, other), was),
        call_ensures(CompletedLog::get, (new, other), is),
        call_ensures(reveal_received, (new, same), shown),
        call_ensures(CompletedLog::len, (new,), n),
    ensures
        got is Some && texts(got->0@) == texts(paths@),
        texts(shown@) == texts(paths@),
        n <= 200,
        is is Some ==> was is Some && texts(is->0@) == texts(was->0@),
        was is Some && is is None ==> old(log)@.len() == 200 && old(log)@[0].0 == other@ && !(exists|i: int|
            0 <= i < old(log)@.len() && (#[trigger] old(log)@[i]).0 == id@),
{
    let a = old(log)@;
    let b = final(log)@;
    let e = (id@, texts(paths@));
    assert(old(log).sessions.wf());
    assert forall|i: int, j: int| 0 <= i < j < a.len() implies (#[trigger] a[i]).0 != (
    #[trigger] a[j]).0 by {
        assert(old(log).sessions.entries@[i].0@ != old(log).sessions.entries@[j].0@);
    }
    if crate::state::logged(a, id@) {
        let k = crate::state::log_index(a, id@);
        assert(b[k] == e);
        assert forall|i: int| 0 <= i < b.len() && i != k implies b[i] == a[i] by {}
        assert forall|i: int| 0 <= i < b.len() && (#[trigger] b[i]).0 == id@ implies i == k by {
            if i < k {
                assert(a[i].0 != a[k].0);
            } else if i > k {
                assert(a[k].0 != a[i].0);
            }
        }
        assert(crate::state::logged(b, id@));
        lemma_other_session(a, b, other@, id@, k, 0);
    } else {
        assert forall|i: int| 0 <= i < a.len() implies (#[trigger] a[i]).0 != id@ by {}
        if a.len() < 200 {
            assert(b[b.len() - 1] == e);
            assert forall|i: int| 0 <= i < b.len() && (#[trigger] b[i]).0 == id@ implies i
                == b.len() - 1 by {
                if i < a.len() {
                    assert(b[i] == a[i]);
                }
            }
            assert(crate::state::logged(b, id@));
            lemma_other_session(a, b, other@, id@, b.len() - 1, 0);
        } else {
            assert(b[b.len() - 1] == e);
            assert forall|i: int| 0 <= i < b.len() && (#[trigger] b[i]).0 == id@ implies i
                == b.len() - 1 by {
                if i < a.len() - 1 {
                    assert(b[i] == a[i + 1]);
                }
            }
            assert(crate::state::logged(b, id@));
            lemma_other_session(a, b, other@, id@, b.len() - 1, 1);
        }
    }
}

/// Sessions other than the new one at `k` are where they were, `shift` places
/// earlier.
proof fn lemma_other_session(
    a: Seq<(Seq<char>, Seq<Seq<char>>)>,
    b: Seq<(Seq<char>, Seq<Seq<char>>)>,
    other: Seq<char>,
    id: Seq<char>,
    k: int,
    shift: int,
)
    requires
        other != id,
        0 <= shift <= 1,
        0 <= k < b.len(),
        b[k].0 == id,
        b.len() <= a.len() + 1 - shift,
        a.len() - shift <= b.len(),
        forall|i: int| 0 <= i < b.len() && i != k ==> i + shift < a.len() && b[i] == a[i + shift],
        k + shift < a.len() ==> a[k + shift].0 == id,
        forall|i: int, j: int|
            0 <= i < j < a.len() ==> (#[trigger] a[i]).0 != (#[trigger] a[j]).0,
    ensures
        crate::state::logged(b, other) ==> crate::state::logged(a, other)
            && b[crate::state::log_index(b, other)].1 == a[crate::state::log_index(a, other)].1,
        crate::state::logged(a, other) && !crate::state::logged(b, other) ==> shift == 1 && a[0].0
            == other,
{
    if crate::state::logged(b, other) {
        let i = crate::state::log_index(b, other);
        assert(i != k);
        assert(a[i + shift].0 == other);
        let j = crate::state::log_index(a, other);
        if j < i + shift {
            assert(a[j].0 != a[i + shift].0);
        } else if j > i + shift {
            assert(a[i + shift].0 != a[j].0);
        }
    }
    if crate::state::logged(a, other) && !crate::state::logged(b, other) {
        let j = crate::state::log_index(a, other);
        if j >= shift {
            let i = j - shift;
            if i < b.len() && i != k {
                assert(b[i] == a[j]);
            }
        }
    }
}

/// Bringing a table within a cap of sources forgets those that were quiet for the
/// whole window, and then the ones that were quiet for longest.
#[verifier::rlimit(40)]
pub proof fn law_eviction_keeps_the_latest(
    map: &mut KeyMap<IpAddr, Vec<Instant>>,
    now: Instant,
    cap: usize,
    window: Duration,
    ip: IpAddr,
    other: IpAddr,
    j: int,
)
    requires
        old(map).wf(),
        call_ensures(evict_over_cap, (map, now, cap, window), ()),
    ensures
        final(map)@.dom().len() <= cap,
        final(map)@.contains_key(ip) ==> old(map)@.contains_key(ip) && final(map)@[ip]@ == old(
            map,
        )@[ip]@ && exists|k: int|
            0 <= k < old(map)@[ip]@.len() && now.nanos < (#[trigger] old(map)@[ip]@[k]).nanos
                + window.nanos && window.nanos > 0,
        final(map)@.contains_key(other) && !final(map)@.contains_key(ip) && old(
            map,
        )@.contains_key(ip) && 0 <= j < old(map)@[ip]@.len() && now.nanos < old(map)@[ip]@[j].nanos
            + window.nanos && window.nanos > 0 ==> reached(
            old(map)@[other]@,
            old(map)@[ip]@[j],
        ),
{
    let before = crate::state::times(*old(map));
    let after = crate::state::times(*final(map));
    let live = crate::state::alive(before, now, window);
    let p = |t: Instant| crate::time::elapsed(t, now) < window.nanos;
    assert(after.dom() =~= final(map)@.dom());
    if final(map)@.contains_key(ip) {
        assert(after.contains_key(ip));
        assert(live.contains_key(ip));
        let ts = before[ip];
        assert(ts.filter(p).len() > 0);
        ts.lemma_filter_pred(p, 0);
        crate::exif::lemma_filter_within(ts, p, 0);
        let k = choose|k: int| 0 <= k < ts.len() && #[trigger] ts[k] == ts.filter(p)[0];
        assert(old(map)@[ip]@[k] == ts[k]);
    }
    if final(map)@.contains_key(other) && !final(map)@.contains_key(ip) && old(
        map,
    )@.contains_key(ip) && 0 <= j < old(map)@[ip]@.len() && now.nanos < old(map)@[ip]@[j].nanos
        + window.nanos && window.nanos > 0 {
        let ts = before[ip];
        assert(p(ts[j]));
        ts.lemma_filter_contains(p, j);
        assert(live.contains_key(ip));
        assert(after.contains_key(other));
        assert(live.contains_key(other));
        lemma_latest(before[ip]);
        lemma_latest(before[other]);
        assert(latest(live[ip]) <= latest(live[other]));
        let us = before[other];
        if us.len() == 0 {
            reveal(Seq::filter);
        }
        let k = choose|k: int| 0 <= k < us.len() && (#[trigger] us[k]).nanos == latest(us);
        assert(old(map)@[other]@[k] == us[k]);
    }
}

} // verus!
