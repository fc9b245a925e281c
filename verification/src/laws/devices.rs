//! What is learnt of other devices, and how they are shown and dialed.

use vstd::prelude::*;
use vstd::utf8::encode_utf8;

use crate::commands::{
    devices_payload, extra_devices, forget_manual, get_network_info, listed_device, may_trust,
    merge_devices, resolve_peer, shown_manual, NetworkInfo, ResolvedPeer,
};
use crate::discovery::interfaces::{enumerate, select, FoundIface, Iface};
use crate::discovery::packet::DiscoveryPacket;
use crate::discovery::{
    active_interfaces, apply_packet, by_name, clamp_name, devices, egress_plan, expire_peers,
    parse_filter, peers_of, receive_packet, share_http_advert, shown_peers, snapshot,
    solicited_reply, table_wf, tombstone, ActiveInterfaces, Announcer, DeviceView, DiscoveredDevice,
    Egress, Peer, PeerTable, PeerView, Presence, Received,
};
use crate::error::LanBeamError;
use crate::exif::lemma_filter_within;
use crate::keymap::{lemma_entry, KeyMap};
use crate::laws::pictures::{left_of, lemma_filter_is_left};
use crate::laws::shares::{fetches_left, lemma_serveable, running};
use crate::laws::texts::{all_blank, lemma_trimmed_of, tight};
use crate::net::{dotted, Ipv4Addr};
use crate::order::{lex_le, lex_leq, Ranked};
use crate::share::ShareRegistry;
use crate::state::ManualPeer;
use crate::time::Instant;

verus! {

// ── packets ───────────────────────────────────────────────────────────────

/// A packet of version 1 of another device.
pub open spec fn from_another(pkt: DiscoveryPacket, my_id: Seq<char>) -> bool {
    pkt.v == 1 && pkt.id@ != my_id
}

/// Every peer but `id` is what it was.
pub open spec fn other_peers_stay(
    before: Map<Seq<char>, PeerView>,
    after: Map<Seq<char>, PeerView>,
    id: Seq<char>,
) -> bool {
    &&& forall|k: Seq<char>| k != id ==> (#[trigger] after.contains_key(k) == before.contains_key(k))
    &&& forall|k: Seq<char>| k != id && before.contains_key(k) ==> #[trigger] after[k] == before[k]
}

/// A visible device is known from its packet on under its id, at the address
/// that the packet came from and with the port that it names, for eight seconds;
/// one that is no longer visible is forgotten. Packets of another version and of
/// this device itself change nothing.
pub open spec fn learnt(
    before: Map<Seq<char>, PeerView>,
    after: Map<Seq<char>, PeerView>,
    my_id: Seq<char>,
    src: Ipv4Addr,
    pkt: DiscoveryPacket,
    now: Instant,
) -> bool {
    if !from_another(pkt, my_id) {
        after == before
    } else {
        &&& other_peers_stay(before, after, pkt.id@)
        &&& after.contains_key(pkt.id@) <==> pkt.disc
        &&& pkt.disc ==> {
            let p = after[pkt.id@];
            &&& p.id == pkt.id@ && p.addr == src && p.port == pkt.port
            &&& p.expires.nanos == now.nanos + 8_000_000_000
            &&& p.name.len() <= 63
        }
    }
}

/// Whether the lists of devices before and after would look different.
pub open spec fn looks_changed(
    before: Map<Seq<char>, PeerView>,
    after: Map<Seq<char>, PeerView>,
    id: Seq<char>,
) -> bool {
    ||| before.contains_key(id) != after.contains_key(id)
    ||| before.contains_key(id) && (before[id].name != after[id].name || before[id].addr
        != after[id].addr || before[id].port != after[id].port)
}

/// A packet teaches of its sender alone, and whether the list of devices looks
/// different after it is said.
pub proof fn law_packet_teaches_of_its_sender(
    peers: &mut PeerTable,
    my_id: &str,
    src: Ipv4Addr,
    pkt: &DiscoveryPacket,
    now: Instant,
    changed: bool,
)
    requires
        call_ensures(apply_packet, (peers, my_id, src, pkt, now), changed),
        now.nanos + 8_000_000_000 <= u128::MAX,
    ensures
        learnt(peers_of(*old(peers)), peers_of(*final(peers)), my_id@, src, *pkt, now),
        changed == looks_changed(peers_of(*old(peers)), peers_of(*final(peers)), pkt.id@),
{
}

/// The name of a peer is what its packet says between blanks; up to 63
/// characters of it are kept as they are, and of a longer one the first 63.
pub proof fn law_peer_name_is_kept(
    name: &str,
    r: String,
    a: Seq<char>,
    t: Seq<char>,
    b: Seq<char>,
    peers: &mut PeerTable,
    my_id: &str,
    src: Ipv4Addr,
    pkt: &DiscoveryPacket,
    now: Instant,
    changed: bool,
)
    requires
        call_ensures(clamp_name, (name,), r),
        name@ == a + t + b && all_blank(a) && all_blank(b) && tight(t),
        pkt.name@ == name@,
        call_ensures(apply_packet, (peers, my_id, src, pkt, now), changed),
    ensures
        t.len() <= 63 ==> r@ == t,
        t.len() > 63 ==> r@ == t.subrange(0, 63),
        from_another(*pkt, my_id@) && pkt.disc ==> peers_of(*final(peers))[pkt.id@].name == r@,
{
    lemma_trimmed_of(a, t, b);
    assert(t.subrange(0, t.len() as int) =~= t);
}

/// The listener learns from a packet as above, and answers exactly the packets
/// of other devices that ask, while this one is visible.
pub proof fn law_listener_answers_when_asked(
    peers: &mut PeerTable,
    me: &Presence,
    src: Ipv4Addr,
    pkt: &DiscoveryPacket,
    now: Instant,
    r: Received,
    alone: Option<DiscoveryPacket>,
)
    requires
        call_ensures(receive_packet, (peers, me, src, pkt, now), r),
        call_ensures(solicited_reply, (pkt, me), alone),
        now.nanos + 8_000_000_000 <= u128::MAX,
    ensures
        learnt(peers_of(*old(peers)), peers_of(*final(peers)), me.device_id@, src, *pkt, now),
        r.changed == looks_changed(peers_of(*old(peers)), peers_of(*final(peers)), pkt.id@),
        r.reply is Some <==> pkt.req && from_another(*pkt, me.device_id@) && me.discoverable,
        alone is Some <==> r.reply is Some,
        r.reply matches Some(p) ==> tells_of_me(p, *me) && p.disc && !p.req && p.http == me.http,
        alone matches Some(p) ==> tells_of_me(p, *me) && p.disc && !p.req && p.http == me.http,
{
    lemma_name_in_packet(me.name@);
}

/// What every packet of this device carries: version 1, its id and its port, and
/// a beginning of its name of at most 63 bytes, the whole of a name that fits.
pub open spec fn tells_of_me(p: DiscoveryPacket, me: Presence) -> bool {
    &&& p.v == 1
    &&& p.id@ == me.device_id@
    &&& p.port == me.port
    &&& carries(p.name@, me.name@)
}

/// `short` is the longest beginning of `name` that has at most 63 bytes.
pub open spec fn carries(short: Seq<char>, name: Seq<char>) -> bool {
    &&& short.len() <= name.len() && short == name.subrange(0, short.len() as int)
    &&& encode_utf8(short).len() <= 63
    &&& short.len() < name.len() ==> encode_utf8(name.subrange(0, short.len() as int + 1)).len() > 63
}

proof fn lemma_name_in_packet(name: Seq<char>)
    ensures
        carries(crate::discovery::announced_name(name), name),
{
    crate::text::law_cut_text_is_the_longest(name, 63);
}

/// A visible device announces itself at every tick, with its share port, and
/// asks for replies the first time only; one that has just become invisible says
/// so once, and is quiet until it is visible again.
pub proof fn law_announcer_says_goodbye_once(
    a: &mut Announcer,
    b: &mut Announcer,
    me: &Presence,
    first: Option<DiscoveryPacket>,
    second: Option<DiscoveryPacket>,
)
    requires
        call_ensures(Announcer::tick, (a, me), first),
        *old(b) == *final(a),
        call_ensures(Announcer::tick, (b, me), second),
    ensures
        me.discoverable ==> {
            &&& first matches Some(p) && tells_of_me(p, *me) && p.disc && p.http == me.http && p.req
                == old(a).first
            &&& second matches Some(p) && tells_of_me(p, *me) && p.disc && p.http == me.http
                && !p.req
        },
        !me.discoverable ==> {
            &&& first is Some <==> old(a).was_visible
            &&& first matches Some(p) ==> tells_of_me(p, *me) && !p.disc && !p.req && p.http is None
            &&& second is None
            &&& final(a).first == old(a).first
        },
        final(a).was_visible == me.discoverable,
{
    lemma_name_in_packet(me.name@);
}

/// The packet of farewell makes its receivers forget this device.
pub proof fn law_farewell_is_forgotten(
    device_id: String,
    name: String,
    port: u16,
    pkt: DiscoveryPacket,
    start: Announcer,
)
    requires
        call_ensures(tombstone, (device_id, name, port), pkt),
        call_ensures(Announcer::new, (), start),
    ensures
        pkt.v == 1 && pkt.id@ == device_id@ && pkt.port == port && carries(pkt.name@, name@),
        !pkt.disc && !pkt.req && pkt.http is None,
        start.first && !start.was_visible,
{
    lemma_name_in_packet(name@);
}

/// A peer stays until the moment at which it expires, and no longer.
pub proof fn law_peers_expire_on_time(peers: &mut PeerTable, now: Instant, changed: bool)
    requires
        call_ensures(expire_peers, (peers, now), changed),
    ensures
        forall|id: Seq<char>| #[trigger]
            peers_of(*final(peers)).contains_key(id) <==> peers_of(*old(peers)).contains_key(id)
                && now.nanos < peers_of(*old(peers))[id].expires.nanos,
        forall|id: Seq<char>| #[trigger]
            peers_of(*final(peers)).contains_key(id) ==> peers_of(*final(peers))[id] == peers_of(
                *old(peers),
            )[id],
        !changed <==> forall|id: Seq<char>| #[trigger]
            peers_of(*old(peers)).contains_key(id) ==> peers_of(*final(peers)).contains_key(id),
{
    let before = peers_of(*old(peers));
    if changed {
        let id = choose|id: Seq<char>| #[trigger]
            before.contains_key(id) && before[id].expires.nanos <= now.nanos;
        assert(before.contains_key(id) && !peers_of(*final(peers)).contains_key(id));
    }
}

// ── the list of devices ───────────────────────────────────────────────────

/// Whether `d` shows a device with these fields.
pub open spec fn shows_device(
    d: DiscoveredDevice,
    id: Seq<char>,
    name: Seq<char>,
    addr: Ipv4Addr,
    port: u16,
    manual: bool,
) -> bool {
    &&& d.device_id@ == id
    &&& d.name@ == name
    &&& d.address@ == dotted(addr)
    &&& d.port == port
    &&& d.manual == manual
}

proof fn lemma_by_name_members(s: Seq<DeviceView>, x: DeviceView)
    ensures
        by_name(s).contains(x) == s.contains(x),
        by_name(s).len() == s.len(),
        by_name(s).to_multiset() == s.to_multiset(),
{
    broadcast use vstd::seq_lib::group_to_multiset_ensures;

    crate::discovery::law_sorting_by_name_is_stable(s, x.name);
    assert(by_name(s).to_multiset().count(x) == s.to_multiset().count(x));
    assert(by_name(s).to_multiset().len() == s.to_multiset().len());
}

/// Every peer of the table is listed, and nothing else: under its id and its
/// name, at its address in dotted form, with its port, and as one that was
/// discovered and not dialed. There are as many devices as peers.
#[verifier::rlimit(40)]
pub proof fn law_every_peer_is_listed_as_it_is(peers: &PeerTable, r: Vec<DiscoveredDevice>)
    requires
        table_wf(*peers),
        call_ensures(snapshot, (peers,), r),
    ensures
        forall|id: Seq<char>| #[trigger]
            peers@.contains_key(id) ==> exists|i: int|
                0 <= i < r@.len() && shows_device(
                    #[trigger] r@[i],
                    id,
                    peers@[id].name@,
                    peers@[id].addr,
                    peers@[id].port,
                    false,
                ),
        forall|i: int|
            0 <= i < r@.len() ==> {
                let p = peers@[(#[trigger] r@[i]).device_id@];
                peers@.contains_key(r@[i].device_id@) && shows_device(
                    r@[i],
                    p.id@,
                    p.name@,
                    p.addr,
                    p.port,
                    false,
                )
            },
        r@.len() == peers@.dom().len(),
{
    let entries = peers.entries@;
    let list = shown_peers(entries);
    let sorted = devices(r@);
    crate::keymap::lemma_size(entries);
    assert(list.len() == entries.len());
    assert(sorted.len() == list.len()) by {
        lemma_by_name_members(
            list,
            DeviceView {
                device_id: Seq::empty(),
                name: Seq::empty(),
                address: Seq::empty(),
                port: 0,
                manual: false,
            },
        );
    }
    assert(r@.len() == sorted.len());
    assert forall|id: Seq<char>| #[trigger] peers@.contains_key(id) implies exists|i: int|
        0 <= i < r@.len() && shows_device(
            #[trigger] r@[i],
            id,
            peers@[id].name@,
            peers@[id].addr,
            peers@[id].port,
            false,
        ) by {
        let e = crate::keymap::key_index(entries, id);
        lemma_entry(entries, e);
        let x = list[e];
        assert(list.contains(x));
        lemma_by_name_members(list, x);
        let i = choose|i: int| 0 <= i < sorted.len() && sorted[i] == x;
        assert(r@[i]@ == x);
        assert(shows_device(
            r@[i],
            id,
            peers@[id].name@,
            peers@[id].addr,
            peers@[id].port,
            false,
        ));
    }
    assert forall|i: int| 0 <= i < r@.len() implies ({
        let p = peers@[(#[trigger] r@[i]).device_id@];
        peers@.contains_key(r@[i].device_id@) && shows_device(
            r@[i],
            p.id@,
            p.name@,
            p.addr,
            p.port,
            false,
        )
    }) by {
        let x = sorted[i];
        assert(x == r@[i]@);
        assert(sorted.contains(x));
        lemma_by_name_members(list, x);
        let e = choose|e: int| 0 <= e < list.len() && list[e] == x;
        lemma_entry(entries, e);
        assert(peers@.contains_key(entries[e].0@));
    }
}

/// The devices are listed by name, in lower case: none comes before one whose
/// name is smaller.
pub proof fn law_devices_are_listed_by_name(peers: &PeerTable, r: Vec<DiscoveredDevice>, i: int, j: int)
    requires
        call_ensures(snapshot, (peers,), r),
        0 <= i < j < r@.len(),
    ensures
        no_later(
            crate::text::lowercase_of(r@[i].name@),
            crate::text::lowercase_of(r@[j].name@),
        ),
{
    assert(DiscoveredDevice::rank_le(r@[i], r@[j]));
    lemma_no_later(
        crate::text::lowercase_of(r@[i].name@),
        crate::text::lowercase_of(r@[j].name@),
    );
}

/// The order of texts: `a` is a beginning of `b`, or has the smaller character
/// where they first differ.
pub open spec fn no_later(a: Seq<char>, b: Seq<char>) -> bool {
    ||| a.len() <= b.len() && a == b.subrange(0, a.len() as int)
    ||| exists|k: int|
        {
            &&& 0 <= k < a.len() && k < b.len()
            &&& a.subrange(0, k) == b.subrange(0, k)
            &&& (#[trigger] a[k]) < b[k]
        }
}

pub proof fn lemma_no_later(a: Seq<char>, b: Seq<char>)
    ensures
        lex_le(a, b) == no_later(a, b),
    decreases a.len(),
{
    if a.len() == 0 {
        assert(a =~= b.subrange(0, 0));
    } else if b.len() > 0 {
        if a[0] < b[0] {
            assert(a.subrange(0, 0) =~= b.subrange(0, 0));
            assert(no_later(a, b));
        } else if a[0] == b[0] {
            let x = a.drop_first();
            let y = b.drop_first();
            lemma_no_later(x, y);
            if no_later(x, y) {
                if x.len() <= y.len() && x == y.subrange(0, x.len() as int) {
                    assert forall|i: int| 0 <= i < a.len() implies a[i] == b[i] by {
                        if i > 0 {
                            assert(x[i - 1] == y.subrange(0, x.len() as int)[i - 1]);
                        }
                    }
                    assert(a =~= b.subrange(0, a.len() as int));
                } else {
                    let k = choose|k: int|
                        {
                            &&& 0 <= k < x.len() && k < y.len()
                            &&& x.subrange(0, k) == y.subrange(0, k)
                            &&& (#[trigger] x[k]) < y[k]
                        };
                    assert forall|i: int| 0 <= i < k + 1 implies a[i] == b[i] by {
                        if i > 0 {
                            assert(x.subrange(0, k)[i - 1] == y.subrange(0, k)[i - 1]);
                        }
                    }
                    assert(a.subrange(0, k + 1) =~= b.subrange(0, k + 1));
                    assert(a[k + 1] < b[k + 1]);
                }
            }
            if no_later(a, b) {
                if a.len() <= b.len() && a == b.subrange(0, a.len() as int) {
                    assert forall|i: int| 0 <= i < x.len() implies x[i] == y[i] by {
                        assert(a[i + 1] == b.subrange(0, a.len() as int)[i + 1]);
                    }
                    assert(x =~= y.subrange(0, x.len() as int));
                } else {
                    let k = choose|k: int|
                        {
                            &&& 0 <= k < a.len() && k < b.len()
                            &&& a.subrange(0, k) == b.subrange(0, k)
                            &&& (#[trigger] a[k]) < b[k]
                        };
                    assert(k > 0);
                    assert forall|i: int| 0 <= i < k - 1 implies x[i] == y[i] by {
                        assert(a.subrange(0, k)[i + 1] == b.subrange(0, k)[i + 1]);
                    }
                    assert(x.subrange(0, k - 1) =~= y.subrange(0, k - 1));
                    assert(x[k - 1] < y[k - 1]);
                }
            }
        } else {
            if no_later(a, b) {
                if a.len() <= b.len() && a == b.subrange(0, a.len() as int) {
                    assert(a[0] == b.subrange(0, a.len() as int)[0]);
                } else {
                    let k = choose|k: int|
                        {
                            &&& 0 <= k < a.len() && k < b.len()
                            &&& a.subrange(0, k) == b.subrange(0, k)
                            &&& (#[trigger] a[k]) < b[k]
                        };
                    assert(k > 0);
                    assert(a.subrange(0, k)[0] == b.subrange(0, k)[0]);
                }
            }
        }
    }
}

/// Comparing two texts goes by the first place at which they differ.
pub proof fn law_texts_are_ordered_by_first_difference(a: &[char], b: &[char], r: bool)
    requires
        call_ensures(lex_leq, (a, b), r),
    ensures
        r == no_later(a@, b@),
{
    lemma_no_later(a@, b@);
}

/// The peers that were dialed and are not among the devices already.
pub open spec fn only_dialed(
    manual: Seq<(String, ManualPeer)>,
    e: int,
    seen: Seq<DiscoveredDevice>,
    my_id: Seq<char>,
) -> bool {
    &&& 0 <= e < manual.len()
    &&& manual[e].0@ != my_id
    &&& forall|i: int| 0 <= i < seen.len() ==> (#[trigger] seen[i]).device_id@ != manual[e].0@
}

/// Whether `d` is one of the discovered devices, or shows one that was only
/// dialed.
pub open spec fn discovered_or_dialed(
    d: DiscoveredDevice,
    discovered: Seq<DiscoveredDevice>,
    manual: Seq<(String, ManualPeer)>,
    my_id: Seq<char>,
) -> bool {
    ||| exists|i: int| 0 <= i < discovered.len() && (#[trigger] discovered[i])@ == d@
    ||| exists|e: int|
        #[trigger] only_dialed(manual, e, discovered, my_id) && shows_device(
            d,
            manual[e].0@,
            manual[e].1.name@,
            manual[e].1.addr,
            manual[e].1.port,
            true,
        )
}

proof fn lemma_extra(entries: Seq<(String, ManualPeer)>, seen: Seq<DeviceView>, my_id: Seq<char>)
    ensures
        ({
            let x = extra_devices(entries, seen, my_id);
            &&& forall|i: int|
                0 <= i < x.len() ==> exists|e: int|
                    0 <= e < entries.len() && (#[trigger] entries[e]).0@ != my_id && !listed_device(
                        seen,
                        entries[e].0@,
                    ) && (#[trigger] x[i]) == shown_manual(entries[e].0@, entries[e].1)
            &&& forall|e: int|
                0 <= e < entries.len() && (#[trigger] entries[e]).0@ != my_id && !listed_device(
                    seen,
                    entries[e].0@,
                ) ==> x.contains(shown_manual(entries[e].0@, entries[e].1))
        }),
    decreases entries.len(),
{
    let x = extra_devices(entries, seen, my_id);
    if entries.len() > 0 {
        let rest = entries.drop_last();
        let y = extra_devices(rest, seen, my_id);
        lemma_extra(rest, seen, my_id);
        let last = entries.len() - 1;
        assert forall|i: int| 0 <= i < x.len() implies exists|e: int|
            0 <= e < entries.len() && (#[trigger] entries[e]).0@ != my_id && !listed_device(
                seen,
                entries[e].0@,
            ) && (#[trigger] x[i]) == shown_manual(entries[e].0@, entries[e].1) by {
            if i < y.len() {
                assert(x[i] == y[i]);
                let e = choose|e: int|
                    0 <= e < rest.len() && (#[trigger] rest[e]).0@ != my_id && !listed_device(
                        seen,
                        rest[e].0@,
                    ) && y[i] == shown_manual(rest[e].0@, rest[e].1);
                assert(entries[e] == rest[e]);
            } else {
                assert(entries[last] == entries.last());
            }
        }
        assert forall|e: int|
            0 <= e < entries.len() && (#[trigger] entries[e]).0@ != my_id && !listed_device(
                seen,
                entries[e].0@,
            ) implies x.contains(shown_manual(entries[e].0@, entries[e].1)) by {
            let d = shown_manual(entries[e].0@, entries[e].1);
            if e < last {
                assert(rest[e] == entries[e]);
                assert(y.contains(d));
                let k = choose|k: int| 0 <= k < y.len() && y[k] == d;
                assert(x[k] == d);
            } else {
                assert(x[x.len() - 1] == d);
            }
        }
    }
}

/// The list of devices holds every other device that was discovered, as it was,
/// and every other device that is known by being dialed alone, at the address
/// and the port that were dialed and marked so; and nothing else. This device is
/// not among them.
#[verifier::rlimit(40)]
pub proof fn law_merged_list_holds_discovered_and_dialed(
    discovered: Vec<DiscoveredDevice>,
    manual: &KeyMap<String, ManualPeer>,
    my_id: &str,
    r: Vec<DiscoveredDevice>,
)
    requires
        call_ensures(merge_devices, (discovered, manual, my_id), r),
    ensures
        forall|i: int|
            0 <= i < discovered@.len() && (#[trigger] discovered@[i]).device_id@ != my_id@
                ==> exists|k: int| 0 <= k < r@.len() && (#[trigger] r@[k])@ == discovered@[i]@,
        forall|e: int|
            #[trigger] only_dialed(manual.entries@, e, discovered@, my_id@) ==> exists|k: int|
                0 <= k < r@.len() && shows_device(
                    #[trigger] r@[k],
                    manual.entries@[e].0@,
                    manual.entries@[e].1.name@,
                    manual.entries@[e].1.addr,
                    manual.entries@[e].1.port,
                    true,
                ),
        forall|k: int| 0 <= k < r@.len() ==> (#[trigger] r@[k]).device_id@ != my_id@,
        forall|k: int|
            0 <= k < r@.len() ==> discovered_or_dialed(
                #[trigger] r@[k],
                discovered@,
                manual.entries@,
                my_id@,
            ),
{
    let found = devices(discovered@);
    let keep = |d: DeviceView| d.device_id != my_id@;
    let seen = found.filter(keep);
    let list = devices(r@);
    let entries = manual.entries@;
    let extra = extra_devices(entries, seen, my_id@);
    assert(seen == crate::commands::others(found, my_id@));
    lemma_extra(entries, seen, my_id@);
    let whole = if entries.len() == 0 {
        seen
    } else {
        seen + extra
    };
    assert(entries.len() == 0 ==> extra =~= Seq::empty());
    assert(whole =~= seen + extra);
    assert forall|x: DeviceView| #[trigger] list.contains(x) == whole.contains(x) by {
        lemma_by_name_members(seen + extra, x);
    }
    assert forall|id: Seq<char>| id != my_id@ implies #[trigger] listed_device(seen, id) == exists|i: int|
        0 <= i < discovered@.len() && (#[trigger] discovered@[i]).device_id@ == id by {
        if listed_device(seen, id) {
            let k = choose|k: int| 0 <= k < seen.len() && (#[trigger] seen[k]).device_id == id;
            lemma_filter_within(found, keep, k);
            let i = choose|i: int| 0 <= i < found.len() && #[trigger] found[i] == seen[k];
            assert(discovered@[i].device_id@ == id);
        }
        if exists|i: int|
            0 <= i < discovered@.len() && (#[trigger] discovered@[i]).device_id@ == id {
            let i = choose|i: int|
                0 <= i < discovered@.len() && (#[trigger] discovered@[i]).device_id@ == id;
            assert(keep(found[i]));
            found.lemma_filter_contains(keep, i);
            let k = choose|k: int| 0 <= k < seen.len() && seen[k] == found[i];
            assert(seen[k].device_id == id);
        }
    }
    assert forall|i: int|
        0 <= i < discovered@.len() && (#[trigger] discovered@[i]).device_id@
            != my_id@ implies exists|k: int|
        0 <= k < r@.len() && (#[trigger] r@[k])@ == discovered@[i]@ by {
        assert(keep(found[i]));
        found.lemma_filter_contains(keep, i);
        let a = choose|a: int| 0 <= a < seen.len() && seen[a] == found[i];
        assert(whole[a] == found[i]);
        assert(list.contains(found[i]));
        let k = choose|k: int| 0 <= k < list.len() && list[k] == found[i];
        assert(r@[k]@ == discovered@[i]@);
    }
    assert forall|e: int|
        #[trigger] only_dialed(entries, e, discovered@, my_id@) implies exists|k: int|
        0 <= k < r@.len() && shows_device(
            #[trigger] r@[k],
            entries[e].0@,
            entries[e].1.name@,
            entries[e].1.addr,
            entries[e].1.port,
            true,
        ) by {
        assert(!listed_device(seen, entries[e].0@));
        let d = shown_manual(entries[e].0@, entries[e].1);
        assert(extra.contains(d));
        let a = choose|a: int| 0 <= a < extra.len() && extra[a] == d;
        assert(whole[seen.len() + a] == d);
        assert(list.contains(d));
        let k = choose|k: int| 0 <= k < list.len() && list[k] == d;
        assert(r@[k]@ == d);
    }
    assert forall|k: int| 0 <= k < r@.len() implies (#[trigger] r@[k]).device_id@ != my_id@ && discovered_or_dialed(
        r@[k],
        discovered@,
        entries,
        my_id@,
    ) by {
        let x = list[k];
        assert(x == r@[k]@);
        assert(list.contains(x));
        let a = choose|a: int| 0 <= a < whole.len() && whole[a] == x;
        if a < seen.len() {
            assert(seen[a] == x);
            found.lemma_filter_pred(keep, a);
            lemma_filter_within(found, keep, a);
            let i = choose|i: int| 0 <= i < found.len() && #[trigger] found[i] == seen[a];
            assert(discovered@[i]@ == r@[k]@);
        } else {
            assert(extra[a - seen.len()] == x);
            let e = choose|e: int|
                0 <= e < entries.len() && (#[trigger] entries[e]).0@ != my_id@ && !listed_device(
                    seen,
                    entries[e].0@,
                ) && x == shown_manual(entries[e].0@, entries[e].1);
            assert(only_dialed(entries, e, discovered@, my_id@));
        }
    }
}

/// Whichever device is listed is dialed where the list says: its id resolves to
/// the address and the port that are shown.
#[verifier::rlimit(40)]
pub proof fn law_listed_device_is_dialed_where_shown(
    peers: &PeerTable,
    manual: &KeyMap<String, ManualPeer>,
    my_id: &str,
    r: Vec<DiscoveredDevice>,
    k: int,
    device_id: &str,
    t: Result<ResolvedPeer, LanBeamError>,
)
    requires
        table_wf(*peers),
        manual.wf(),
        call_ensures(devices_payload, (peers, manual, my_id), r),
        0 <= k < r@.len(),
        device_id@ == r@[k].device_id@,
        call_ensures(resolve_peer, (peers, manual, device_id), t),
    ensures
        t matches Ok(to) ==> dotted(to.addr) == r@[k].address@ && to.port == r@[k].port,
        t matches Err(e) ==> e is Protocol && !crate::identity::names_device(device_id@),
        r@[k].manual <==> !peers@.contains_key(device_id@),
        r@[k].manual ==> manual@.contains_key(device_id@),
{
    let entries = peers.entries@;
    let found = by_name(shown_peers(entries));
    let keep = |d: DeviceView| d.device_id != my_id@;
    let seen = found.filter(keep);
    let list = devices(r@);
    let extra = extra_devices(manual.entries@, seen, my_id@);
    lemma_extra(manual.entries@, seen, my_id@);
    let x = list[k];
    assert(x == r@[k]@);
    assert(list.contains(x));
    lemma_by_name_members(seen + extra, x);
    assert(manual.entries@.len() == 0 ==> extra =~= Seq::empty());
    assert((seen + extra).contains(x)) by {
        if manual.entries@.len() == 0 {
            assert(seen + extra =~= seen);
        }
    }
    let a = choose|a: int| 0 <= a < (seen + extra).len() && (seen + extra)[a] == x;
    if a < seen.len() {
        assert(seen[a] == x);
        lemma_filter_within(found, keep, a);
        assert(found.contains(x));
        lemma_by_name_members(shown_peers(entries), x);
        let e = choose|e: int| 0 <= e < shown_peers(entries).len() && shown_peers(entries)[e] == x;
        lemma_entry(entries, e);
        assert(peers@.contains_key(entries[e].0@));
    } else {
        assert(extra[a - seen.len()] == x);
        let me = manual.entries@;
        let e = choose|e: int|
            0 <= e < me.len() && (#[trigger] me[e]).0@ != my_id@ && !listed_device(seen, me[e].0@)
                && x == shown_manual(me[e].0@, me[e].1);
        lemma_entry(me, e);
        assert(manual@.contains_key(me[e].0@));
        let id = me[e].0@;
        if peers@.contains_key(id) {
            let p = crate::keymap::key_index(entries, id);
            lemma_entry(entries, p);
            let y = shown_peers(entries)[p];
            assert(shown_peers(entries).contains(y));
            lemma_by_name_members(shown_peers(entries), y);
            let f = choose|f: int| 0 <= f < found.len() && found[f] == y;
            assert(keep(found[f]));
            found.lemma_filter_contains(keep, f);
            let g = choose|g: int| 0 <= g < seen.len() && seen[g] == y;
            assert(listed_device(seen, id));
        }
    }
}

/// No two devices have the same id.
pub open spec fn ids_differ(s: Seq<DeviceView>) -> bool {
    forall|i: int, j: int|
        0 <= i < j < s.len() ==> (#[trigger] s[i]).device_id != (#[trigger] s[j]).device_id
}

proof fn lemma_filter_ids(s: Seq<DeviceView>, p: spec_fn(DeviceView) -> bool)
    requires
        ids_differ(s),
    ensures
        ids_differ(s.filter(p)),
    decreases s.len(),
{
    reveal(Seq::filter);
    if s.len() > 0 {
        let rest = s.drop_last();
        let f = rest.filter(p);
        assert(ids_differ(rest)) by {
            assert forall|i: int, j: int| 0 <= i < j < rest.len() implies (
            #[trigger] rest[i]).device_id != (#[trigger] rest[j]).device_id by {
                assert(s[i].device_id != s[j].device_id);
            }
        }
        lemma_filter_ids(rest, p);
        let g = s.filter(p);
        assert forall|i: int, j: int| 0 <= i < j < g.len() implies (#[trigger] g[i]).device_id != (
        #[trigger] g[j]).device_id by {
            assert(g[i] == f[i]);
            if j < f.len() {
                assert(g[j] == f[j]);
            } else {
                lemma_filter_within(rest, p, i);
                let k = choose|k: int| 0 <= k < rest.len() && #[trigger] rest[k] == f[i];
                assert(s[k].device_id != s[s.len() - 1].device_id);
            }
        }
    }
}

proof fn lemma_extra_ids(entries: Seq<(String, ManualPeer)>, seen: Seq<DeviceView>, my_id: Seq<char>)
    requires
        crate::keymap::distinct_keys(entries),
    ensures
        ids_differ(extra_devices(entries, seen, my_id)),
    decreases entries.len(),
{
    if entries.len() > 0 {
        let rest = entries.drop_last();
        let y = extra_devices(rest, seen, my_id);
        let x = extra_devices(entries, seen, my_id);
        assert(crate::keymap::distinct_keys(rest)) by {
            assert forall|i: int, j: int| 0 <= i < j < rest.len() implies #[trigger] rest[i].0@
                != #[trigger] rest[j].0@ by {
                assert(entries[i].0@ != entries[j].0@);
            }
        }
        lemma_extra_ids(rest, seen, my_id);
        lemma_extra(rest, seen, my_id);
        assert forall|i: int, j: int| 0 <= i < j < x.len() implies (#[trigger] x[i]).device_id != (
        #[trigger] x[j]).device_id by {
            assert(x[i] == y[i]);
            if j < y.len() {
                assert(x[j] == y[j]);
            } else {
                let e = choose|e: int|
                    0 <= e < rest.len() && (#[trigger] rest[e]).0@ != my_id && !listed_device(
                        seen,
                        rest[e].0@,
                    ) && y[i] == shown_manual(rest[e].0@, rest[e].1);
                assert(entries[e].0@ != entries[entries.len() - 1].0@);
            }
        }
    }
}

proof fn lemma_sorted_ids(s: Seq<DeviceView>)
    requires
        ids_differ(s),
    ensures
        ids_differ(by_name(s)),
{
    let r = by_name(s);
    assert(s.no_duplicates());
    if s.len() > 0 {
        lemma_by_name_members(s, s[0]);
    } else {
        assert(r.len() == 0);
    }
    s.lemma_multiset_has_no_duplicates();
    assert(r.to_multiset() == s.to_multiset());
    r.lemma_multiset_has_no_duplicates_conv();
    assert forall|i: int, j: int| 0 <= i < j < r.len() implies (#[trigger] r[i]).device_id != (
    #[trigger] r[j]).device_id by {
        assert(r[i] != r[j]);
        assert(r.contains(r[i]) && r.contains(r[j]));
        lemma_by_name_members(s, r[i]);
        lemma_by_name_members(s, r[j]);
        let a = choose|a: int| 0 <= a < s.len() && s[a] == r[i];
        let b = choose|b: int| 0 <= b < s.len() && s[b] == r[j];
        assert(a != b);
    }
}

/// No device is listed twice.
#[verifier::rlimit(40)]
pub proof fn law_no_device_is_listed_twice(
    discovered: Vec<DiscoveredDevice>,
    manual: &KeyMap<String, ManualPeer>,
    my_id: &str,
    r: Vec<DiscoveredDevice>,
    i: int,
    j: int,
)
    requires
        call_ensures(merge_devices, (discovered, manual, my_id), r),
        manual.wf(),
        forall|a: int, b: int|
            0 <= a < b < discovered@.len() ==> (#[trigger] discovered@[a]).device_id@ != (
            #[trigger] discovered@[b]).device_id@,
        0 <= i < j < r@.len(),
    ensures
        r@[i].device_id@ != r@[j].device_id@,
{
    let found = devices(discovered@);
    assert(ids_differ(found)) by {
        assert forall|a: int, b: int| 0 <= a < b < found.len() implies (
        #[trigger] found[a]).device_id != (#[trigger] found[b]).device_id by {
            assert(discovered@[a].device_id@ != discovered@[b].device_id@);
        }
    }
    let keep = |d: DeviceView| d.device_id != my_id@;
    let seen = found.filter(keep);
    assert(seen == crate::commands::others(found, my_id@));
    lemma_filter_ids(found, keep);
    let extra = extra_devices(manual.entries@, seen, my_id@);
    lemma_extra_ids(manual.entries@, seen, my_id@);
    lemma_extra(manual.entries@, seen, my_id@);
    let whole = seen + extra;
    assert(ids_differ(whole)) by {
        assert forall|a: int, b: int| 0 <= a < b < whole.len() implies (
        #[trigger] whole[a]).device_id != (#[trigger] whole[b]).device_id by {
            if b < seen.len() {
                assert(seen[a].device_id != seen[b].device_id);
            } else if a >= seen.len() {
                assert(extra[a - seen.len()].device_id != extra[b - seen.len()].device_id);
            } else {
                let me = manual.entries@;
                assert(whole[b] == extra[b - seen.len()]);
                let e = choose|e: int|
                    0 <= e < me.len() && (#[trigger] me[e]).0@ != my_id@ && !listed_device(
                        seen,
                        me[e].0@,
                    ) && extra[b - seen.len()] == shown_manual(me[e].0@, me[e].1);
                assert(seen[a].device_id != me[e].0@);
            }
        }
    }
    lemma_sorted_ids(whole);
    let list = devices(r@);
    assert(list[i] == r@[i]@ && list[j] == r@[j]@);
    assert(ids_differ(list));
    assert(list[i].device_id != list[j].device_id);
}

// ── interfaces and egress ─────────────────────────────────────────────────

/// The interfaces found are the IPv4 ones other than the loopback, in order.
pub proof fn law_usable_interfaces(found: Option<Vec<FoundIface>>, r: Vec<Iface>)
    requires
        call_ensures(enumerate, (found,), r),
    ensures
        found is None ==> r@.len() == 0,
        found matches Some(v) ==> v4_among(v@, r@),
{
    match found {
        Some(v) => {
            lemma_v4_among(v@);
        },
        None => {},
    }
}

/// `r` is the IPv4 interfaces of `found`, each in its order.
pub open spec fn v4_among(found: Seq<FoundIface>, r: Seq<Iface>) -> bool
    decreases found.len(),
{
    if found.len() == 0 {
        r.len() == 0
    } else {
        match found[0] {
            FoundIface::V4(i) => r.len() > 0 && r[0] == i && v4_among(found.skip(1), r.skip(1)),
            FoundIface::Loopback => v4_among(found.skip(1), r),
            FoundIface::V6 => v4_among(found.skip(1), r),
        }
    }
}

proof fn lemma_v4_among(found: Seq<FoundIface>)
    ensures
        v4_among(found, crate::discovery::interfaces::usable(found)),
    decreases found.len(),
{
    if found.len() > 0 {
        lemma_v4_among(found.skip(1));
        lemma_usable_front(found);
        let u = crate::discovery::interfaces::usable(found);
        let v = crate::discovery::interfaces::usable(found.skip(1));
        if found[0] is V4 {
            assert(u.skip(1) =~= v);
        }
    }
}

proof fn lemma_usable_front(found: Seq<FoundIface>)
    requires
        found.len() > 0,
    ensures
        crate::discovery::interfaces::usable(found) == (match found[0] {
            FoundIface::V4(i) => seq![i],
            _ => Seq::empty(),
        }) + crate::discovery::interfaces::usable(found.skip(1)),
    decreases found.len(),
{
    let head = match found[0] {
        FoundIface::V4(i) => seq![i],
        _ => Seq::empty(),
    };
    if found.len() == 1 {
        assert(found.drop_last().len() == 0 && found.skip(1).len() == 0);
        assert(crate::discovery::interfaces::usable(found.drop_last()) =~= Seq::empty());
        assert(crate::discovery::interfaces::usable(found.skip(1)) =~= Seq::empty());
        assert(crate::discovery::interfaces::usable(found) =~= head);
        assert(head + crate::discovery::interfaces::usable(found.skip(1)) =~= head);
    } else {
        lemma_usable_front(found.drop_last());
        assert(found.drop_last().skip(1) =~= found.skip(1).drop_last());
        assert(found.skip(1).last() == found.last());
        assert(crate::discovery::interfaces::usable(found) =~= head
            + crate::discovery::interfaces::usable(found.skip(1)));
    }
}

/// What a choice of interface keeps: every interface without a choice; those at
/// the chosen address; and every interface again where there is none, which is
/// said.
pub proof fn law_chosen_interface_is_kept_alone(
    all: Vec<Iface>,
    filter: Option<Ipv4Addr>,
    r: (Vec<Iface>, bool),
)
    requires
        call_ensures(select, (all, filter), r),
    ensures
        filter is None ==> r.0@ == all@ && !r.1,
        filter matches Some(ip) ==> {
            &&& r.1 <==> forall|i: int| 0 <= i < all@.len() ==> (#[trigger] all@[i]).ip != ip
            &&& r.1 ==> r.0@ == all@
            &&& !r.1 ==> r.0@.len() > 0 && left_of(all@, |i: Iface| i.ip != ip, r.0@)
        },
{
    match filter {
        None => {},
        Some(ip) => {
            let p = |i: Iface| i.ip == ip;
            let m = all@.filter(p);
            lemma_filter_is_left(all@, p, |i: Iface| i.ip != ip);
            assert(m == crate::discovery::interfaces::matching(all@, ip));
            if forall|i: int| 0 <= i < all@.len() ==> (#[trigger] all@[i]).ip != ip {
                if m.len() > 0 {
                    all@.lemma_filter_pred(p, 0);
                    lemma_filter_within(all@, p, 0);
                }
            } else {
                let i = choose|i: int| 0 <= i < all@.len() && (#[trigger] all@[i]).ip == ip;
                all@.lemma_filter_contains(p, i);
            }
        },
    }
}

/// The interface setting confines discovery exactly while it names an address
/// that some interface has; a setting that matches none keeps all of them, and
/// is warned of once until it matches again.
pub proof fn law_setting_confines_discovery(
    iface_filter: &Option<String>,
    all: Vec<Iface>,
    warned: &mut bool,
    r: ActiveInterfaces,
    parsed: Option<Ipv4Addr>,
)
    requires
        call_ensures(parse_filter, (iface_filter,), parsed),
        call_ensures(active_interfaces, (iface_filter, all, warned), r),
    ensures
        r.confined <==> parsed is Some && exists|i: int|
            0 <= i < all@.len() && (#[trigger] all@[i]).ip == parsed->0,
        r.confined ==> forall|i: int| 0 <= i < r.kept@.len() ==> (#[trigger] r.kept@[i]).ip == parsed->0,
        !r.confined ==> r.kept@ == all@,
        *final(warned) <==> parsed is Some && !r.confined,
        r.warn <==> *final(warned) && !*old(warned),
        iface_filter is None ==> parsed is None,
        iface_filter matches Some(s) ==> (parsed matches Some(a) ==> s@ == dotted(a)),
{
    match parsed {
        None => {},
        Some(ip) => {
            let p = |i: Iface| i.ip == ip;
            let m = all@.filter(p);
            assert(m == crate::discovery::interfaces::matching(all@, ip));
            if exists|i: int| 0 <= i < all@.len() && (#[trigger] all@[i]).ip == ip {
                let i = choose|i: int| 0 <= i < all@.len() && (#[trigger] all@[i]).ip == ip;
                all@.lemma_filter_contains(p, i);
            } else if m.len() > 0 {
                all@.lemma_filter_pred(p, 0);
                lemma_filter_within(all@, p, 0);
            }
            assert forall|i: int| 0 <= i < m.len() implies (#[trigger] m[i]).ip == ip by {
                all@.lemma_filter_pred(p, i);
            }
            match iface_filter {
                Some(s) => {
                    crate::laws::addresses::lemma_parsed_is_dotted(s@, ip);
                },
                None => {},
            }
        },
    }
}

/// Whether a step occurs in a plan.
pub open spec fn occurs(plan: Seq<Egress>, step: Egress) -> bool {
    exists|i: int| 0 <= i < plan.len() && #[trigger] plan[i] == step
}

proof fn lemma_directed(ifaces: Seq<Iface>)
    ensures
        forall|b: Ipv4Addr| #[trigger]
            occurs(crate::discovery::directed(ifaces), Egress::Directed(b)) == exists|i: int|
                0 <= i < ifaces.len() && (#[trigger] ifaces[i]).broadcast == Some(b),
        forall|i: int|
            0 <= i < crate::discovery::directed(ifaces).len() ==> (
            #[trigger] crate::discovery::directed(ifaces)[i]) is Directed,
    decreases ifaces.len(),
{
    let d = crate::discovery::directed(ifaces);
    if ifaces.len() > 0 {
        let rest = ifaces.drop_last();
        let e = crate::discovery::directed(rest);
        lemma_directed(rest);
        assert forall|b: Ipv4Addr| #[trigger] occurs(d, Egress::Directed(b)) == exists|i: int|
            0 <= i < ifaces.len() && (#[trigger] ifaces[i]).broadcast == Some(b) by {
            if occurs(d, Egress::Directed(b)) {
                let i = choose|i: int| 0 <= i < d.len() && #[trigger] d[i] == Egress::Directed(b);
                if i < e.len() {
                    assert(e[i] == d[i]);
                    assert(occurs(e, Egress::Directed(b)));
                    let k = choose|k: int|
                        0 <= k < rest.len() && (#[trigger] rest[k]).broadcast == Some(b);
                    assert(ifaces[k].broadcast == Some(b));
                } else {
                    assert(ifaces[ifaces.len() - 1].broadcast == Some(b));
                }
            }
            if exists|i: int|
                0 <= i < ifaces.len() && (#[trigger] ifaces[i]).broadcast == Some(b) {
                let k = choose|k: int|
                    0 <= k < ifaces.len() && (#[trigger] ifaces[k]).broadcast == Some(b);
                if k < rest.len() {
                    assert(rest[k].broadcast == Some(b));
                    assert(occurs(e, Egress::Directed(b)));
                    let i = choose|i: int|
                        0 <= i < e.len() && #[trigger] e[i] == Egress::Directed(b);
                    assert(d[i] == Egress::Directed(b));
                } else {
                    assert(d[d.len() - 1] == Egress::Directed(b));
                }
            }
        }
    }
}

/// Unconfined, a packet goes to the group by the system's choice, then to the
/// broadcast address of every interface that has one, and last to the limited
/// broadcast address.
#[verifier::rlimit(40)]
pub proof fn law_unconfined_egress_reaches_every_network(ifaces: &[Iface], r: Vec<Egress>)
    requires
        call_ensures(egress_plan, (ifaces, false), r),
    ensures
        r@.len() >= 3,
        r@[0] == Egress::ResetMulticast && r@[1] == Egress::Group && r@[r@.len() - 1]
            == Egress::Limited,
        forall|i: int| 2 <= i < r@.len() - 1 ==> (#[trigger] r@[i]) is Directed,
        forall|i: int|
            0 <= i < ifaces@.len() && (#[trigger] ifaces@[i]).broadcast is Some ==> occurs(
                r@,
                Egress::Directed(ifaces@[i].broadcast->0),
            ),
        forall|i: int|
            2 <= i < r@.len() - 1 ==> exists|k: int|
                0 <= k < ifaces@.len() && (#[trigger] ifaces@[k]).broadcast == Some(
                    (#[trigger] r@[i])->Directed_0,
                ),
{
    lemma_directed(ifaces@);
    let d = crate::discovery::directed(ifaces@);
    assert forall|i: int| 2 <= i < r@.len() - 1 implies (#[trigger] r@[i]) is Directed && exists|k: int|
        0 <= k < ifaces@.len() && (#[trigger] ifaces@[k]).broadcast == Some(r@[i]->Directed_0) by {
        assert(r@[i] == d[i - 2]);
        assert(d[i - 2] is Directed);
        assert(d[i - 2] == Egress::Directed(d[i - 2]->Directed_0));
        assert(occurs(d, Egress::Directed(d[i - 2]->Directed_0)));
    }
    assert forall|i: int|
        0 <= i < ifaces@.len() && (#[trigger] ifaces@[i]).broadcast is Some implies occurs(
        r@,
        Egress::Directed(ifaces@[i].broadcast->0),
    ) by {
        let b = ifaces@[i].broadcast->0;
        assert(ifaces@[i].broadcast == Some(b));
        assert(occurs(d, Egress::Directed(b)));
        let k = choose|k: int| 0 <= k < d.len() && #[trigger] d[k] == Egress::Directed(b);
        assert(r@[k + 2] == Egress::Directed(b));
    }
}

/// Confined, a packet goes for every kept interface to the group by that
/// interface, right before its broadcast address where it has one; nothing goes
/// to the limited broadcast address or by the system's choice.
pub proof fn law_confined_egress_uses_every_kept_interface(ifaces: &[Iface], r: Vec<Egress>, k: int)
    requires
        call_ensures(egress_plan, (ifaces, true), r),
        0 <= k < ifaces@.len(),
    ensures
        exists|i: int|
            0 <= i < r@.len() && #[trigger] r@[i] == Egress::GroupVia(ifaces@[k].ip) && (
            ifaces@[k].broadcast matches Some(b) ==> i + 1 < r@.len() && r@[i + 1]
                == Egress::Directed(b)),
        !occurs(r@, Egress::Limited) && !occurs(r@, Egress::Group) && !occurs(
            r@,
            Egress::ResetMulticast,
        ),
{
    lemma_confined(ifaces@, k);
    lemma_confined_kinds(ifaces@);
}

proof fn lemma_confined_kinds(ifaces: Seq<Iface>)
    ensures
        forall|i: int|
            0 <= i < crate::discovery::confined_steps(ifaces).len() ==> {
                let s = #[trigger] crate::discovery::confined_steps(ifaces)[i];
                s is GroupVia || s is Directed
            },
    decreases ifaces.len(),
{
    if ifaces.len() > 0 {
        lemma_confined_kinds(ifaces.drop_last());
    }
}

proof fn lemma_confined(ifaces: Seq<Iface>, k: int)
    requires
        0 <= k < ifaces.len(),
    ensures
        exists|i: int|
            0 <= i < crate::discovery::confined_steps(ifaces).len() && (
            #[trigger] crate::discovery::confined_steps(ifaces)[i]) == Egress::GroupVia(
                ifaces[k].ip,
            ) && (ifaces[k].broadcast matches Some(b) ==> i + 1
                < crate::discovery::confined_steps(ifaces).len()
                && crate::discovery::confined_steps(ifaces)[i + 1] == Egress::Directed(b)),
    decreases ifaces.len(),
{
    let all = crate::discovery::confined_steps(ifaces);
    let rest = ifaces.drop_last();
    let before = crate::discovery::confined_steps(rest);
    if k < rest.len() {
        lemma_confined(rest, k);
        let i = choose|i: int|
            0 <= i < before.len() && (#[trigger] before[i]) == Egress::GroupVia(rest[k].ip) && (
            rest[k].broadcast matches Some(b) ==> i + 1 < before.len() && before[i + 1]
                == Egress::Directed(b));
        assert(all[i] == before[i]);
        if i + 1 < before.len() {
            assert(all[i + 1] == before[i + 1]);
        }
    } else {
        assert(all[before.len() as int] == Egress::GroupVia(ifaces[k].ip));
    }
}

/// The share port is announced exactly while it is bound and some share serves.
pub proof fn law_share_port_is_announced_while_a_share_serves(
    share_port: u16,
    shares: &ShareRegistry,
    now: Instant,
    r: Option<u16>,
)
    requires
        call_ensures(share_http_advert, (share_port, shares, now), r),
    ensures
        r matches Some(p) ==> p == share_port && p != 0,
        r is Some <==> share_port != 0 && exists|t: Seq<char>| #[trigger]
            shares@.contains_key(t) && running(shares@[t], now) && fetches_left(shares@[t]),
{
    if crate::share::any_serveable(shares@, now) {
        let t = choose|t: Seq<char>| #[trigger] shares@.contains_key(t) && shares@[t].serveable(now);
        lemma_serveable(shares@[t], now);
    }
    if exists|t: Seq<char>| #[trigger]
        shares@.contains_key(t) && running(shares@[t], now) && fetches_left(shares@[t]) {
        let t = choose|t: Seq<char>| #[trigger]
            shares@.contains_key(t) && running(shares@[t], now) && fetches_left(shares@[t]);
        lemma_serveable(shares@[t], now);
    }
}

/// A device resolves to where it was discovered, else to where it was dialed;
/// the key is the one that its id names.
pub proof fn law_discovered_address_comes_first(
    peers: &PeerTable,
    manual: &KeyMap<String, ManualPeer>,
    device_id: &str,
    r: Result<ResolvedPeer, LanBeamError>,
)
    requires
        call_ensures(resolve_peer, (peers, manual, device_id), r),
    ensures
        r is Ok <==> crate::identity::names_device(device_id@) && (peers@.contains_key(device_id@)
            || manual@.contains_key(device_id@)),
        r matches Ok(t) ==> {
            &&& t.key@.len() == 32 && crate::encoding::base64url(t.key@) == device_id@
            &&& peers@.contains_key(device_id@) ==> t.addr == peers@[device_id@].addr && t.port
                == peers@[device_id@].port
            &&& !peers@.contains_key(device_id@) ==> t.addr == manual@[device_id@].addr && t.port
                == manual@[device_id@].port
        },
        r matches Err(e) ==> if crate::identity::names_device(device_id@) {
            e is PeerNotFound
        } else {
            e is Protocol && e->Protocol_0@ == "invalid device id"@
        },
{
    match r {
        Ok(t) => {
            assert(crate::identity::is_device_id(device_id@, t.key@));
        },
        Err(e) => {},
    }
}

/// A device may be trusted if its id is one, and not this device's own.
pub proof fn law_trust_is_for_others(device_id: &str, my_id: &str, r: bool)
    requires
        call_ensures(may_trust, (device_id, my_id), r),
    ensures
        r <==> device_id@ != my_id@ && exists|key: Seq<u8>|
            key.len() == 32 && #[trigger] crate::encoding::base64url(key) == device_id@,
{
    if crate::identity::names_device(device_id@) {
        let k = choose|k: Seq<u8>| #[trigger] crate::identity::is_device_id(device_id@, k);
        assert(crate::encoding::base64url(k) == device_id@);
    }
    if exists|key: Seq<u8>|
        key.len() == 32 && #[trigger] crate::encoding::base64url(key) == device_id@ {
        let k = choose|key: Seq<u8>|
            key.len() == 32 && #[trigger] crate::encoding::base64url(key) == device_id@;
        assert(crate::identity::is_device_id(device_id@, k));
    }
}

/// Forgetting the address of one device touches no other.
pub proof fn law_forgetting_touches_one_device(
    manual: &mut KeyMap<String, ManualPeer>,
    device_id: &str,
    dropped: bool,
    id: Seq<char>,
)
    requires
        call_ensures(forget_manual, (manual, device_id), dropped),
    ensures
        dropped == old(manual)@.contains_key(device_id@),
        !final(manual)@.contains_key(device_id@),
        id != device_id@ ==> final(manual)@.contains_key(id) == old(manual)@.contains_key(id),
        id != device_id@ && old(manual)@.contains_key(id) ==> final(manual)@[id] == old(manual)@[id],
{
}

/// The interfaces are shown in the order of their addresses, each with its own
/// address and its broadcast address in dotted form.
pub proof fn law_interfaces_are_shown_in_order(ifaces: Vec<Iface>, r: Vec<NetworkInfo>)
    requires
        call_ensures(get_network_info, (ifaces,), r),
    ensures
        exists|sorted: Seq<Iface>|
            {
                &&& sorted.to_multiset() == ifaces@.to_multiset()
                &&& #[trigger] sorted.len() == r@.len()
                &&& forall|i: int, j: int|
                    0 <= i <= j < sorted.len() ==> (#[trigger] sorted[i]).ip.bits <= (
                    #[trigger] sorted[j]).ip.bits
                &&& forall|i: int|
                    0 <= i < r@.len() ==> {
                        &&& (#[trigger] r@[i]).ip@ == dotted(sorted[i].ip)
                        &&& r@[i].broadcast is Some <==> sorted[i].broadcast is Some
                        &&& sorted[i].broadcast matches Some(b) ==> r@[i].broadcast->0@ == dotted(b)
                    }
            },
{
    let sorted = crate::order::ranked(ifaces@);
    crate::order::law_ranked_sorts(ifaces@);
    assert forall|i: int, j: int| 0 <= i <= j < sorted.len() implies (#[trigger] sorted[i]).ip.bits
        <= (#[trigger] sorted[j]).ip.bits by {
        assert(Iface::rank_le(sorted[i], sorted[j]));
    }
    assert forall|i: int| 0 <= i < r@.len() implies ({
        &&& (#[trigger] r@[i]).ip@ == dotted(sorted[i].ip)
        &&& r@[i].broadcast is Some <==> sorted[i].broadcast is Some
        &&& sorted[i].broadcast matches Some(b) ==> r@[i].broadcast->0@ == dotted(b)
    }) by {
        assert(crate::commands::shows_iface(r@[i], sorted[i]));
    }
    assert(sorted.len() == r@.len());
}

/// The mathematical forms of a peer and of a device have all their fields.
pub proof fn law_views_show_every_field(p: Peer, d: DiscoveredDevice, t: PeerTable, id: Seq<char>)
    ensures
        p@.id == p.id@ && p@.name == p.name@ && p@.addr == p.addr && p@.port == p.port
            && p@.expires == p.expires,
        d@.device_id == d.device_id@ && d@.name == d.name@ && d@.address == d.address@ && d@.port
            == d.port && d@.manual == d.manual,
        peers_of(t).contains_key(id) == t@.contains_key(id),
        t@.contains_key(id) ==> peers_of(t)[id] == t@[id]@,
{
}

/// With dialed devices the merged list goes by name, in lower case; without any
/// it is what was discovered, in order and without this device.
pub proof fn law_merged_list_is_in_order(
    discovered: Vec<DiscoveredDevice>,
    manual: &KeyMap<String, ManualPeer>,
    my_id: &str,
    r: Vec<DiscoveredDevice>,
    i: int,
    j: int,
)
    requires
        call_ensures(merge_devices, (discovered, manual, my_id), r),
    ensures
        manual.entries@.len() > 0 && 0 <= i < j < r@.len() ==> no_later(
            crate::text::lowercase_of(r@[i].name@),
            crate::text::lowercase_of(r@[j].name@),
        ),
        manual.entries@.len() == 0 ==> left_of(
            devices(discovered@),
            |d: DeviceView| d.device_id == my_id@,
            devices(r@),
        ),
{
    if manual.entries@.len() > 0 && 0 <= i < j < r@.len() {
        assert(DiscoveredDevice::rank_le(r@[i], r@[j]));
        lemma_no_later(
            crate::text::lowercase_of(r@[i].name@),
            crate::text::lowercase_of(r@[j].name@),
        );
    }
    lemma_filter_is_left(
        devices(discovered@),
        |d: DeviceView| d.device_id != my_id@,
        |d: DeviceView| d.device_id == my_id@,
    );
}

/// What is shown is the snapshot of the peers, merged with the dialed devices.
pub proof fn law_payload_is_the_merged_snapshot(
    peers: &PeerTable,
    manual: &KeyMap<String, ManualPeer>,
    my_id: &str,
    v: Vec<DiscoveredDevice>,
    m: Vec<DiscoveredDevice>,
    r: Vec<DiscoveredDevice>,
)
    requires
        call_ensures(snapshot, (peers,), v),
        call_ensures(merge_devices, (v, manual, my_id), m),
        call_ensures(devices_payload, (peers, manual, my_id), r),
    ensures
        devices(r@) == devices(m@),
{
}

} // verus!
