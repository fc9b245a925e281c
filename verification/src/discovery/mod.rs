//! Discovery of peers on the local network: the table of peers, what is
//! announced and where, and the merged list of devices.

pub mod interfaces;
pub mod packet;

use vstd::prelude::*;

use crate::consts::{DISCOVERY_PORT, PEER_EXPIRY_SECS, PROTO_VERSION};
use crate::keymap::{kept, lemma_size, KeyMap};
use crate::net::{dotted, parse_ipv4, parsed_ipv4, Ipv4Addr};
use crate::order::{
    ascending, law_ranked_sorts, lemma_lex_total, lemma_lex_trans, lex_le, lex_leq, placed, ranked,
    sort, Ranked,
};
use crate::settings::MAX_DEVICE_NAME_BYTES;
use crate::share::{any_serveable, has_active_share, ShareRegistry};
use crate::state::NetDegraded;
use crate::text::{
    chars_of, concat, cut_to_bytes, decimal, decimal_string, law_cut_text_is_the_longest,
    lowercase_of, string_of, take_bytes, take_chars, to_lowercase, trim_chars, trimmed,
};
use crate::time::{Duration, Instant};
use interfaces::{select, selected, Iface};
use packet::DiscoveryPacket;

verus! {

/// The longest name that is kept of a peer, in characters.
pub const MAX_NAME_CHARS: usize = 63;

/// A peer's name without white space at its ends, cut to the longest length.
pub open spec fn clamped_name(name: Seq<char>) -> Seq<char> {
    take_chars(trimmed(name), MAX_NAME_CHARS as nat)
}

pub fn clamp_name(name: &str) -> (r: String)
    ensures
        r@ == clamped_name(name@),
{
    let t = trim_chars(name);
    if t.len() <= MAX_NAME_CHARS {
        string_of(t.as_slice())
    } else {
        string_of(vstd::slice::slice_subrange(t.as_slice(), 0, MAX_NAME_CHARS))
    }
}

/// A peer that announced itself. Its address is where the packet came from.
#[derive(Debug)]
pub struct Peer {
    pub id: String,
    pub name: String,
    pub addr: Ipv4Addr,
    pub port: u16,
    pub expires: Instant,
}

pub type PeerTable = KeyMap<String, Peer>;

/// A peer as a mathematical value.
pub struct PeerView {
    pub id: Seq<char>,
    pub name: Seq<char>,
    pub addr: Ipv4Addr,
    pub port: u16,
    pub expires: Instant,
}

impl View for Peer {
    type V = PeerView;

    open spec fn view(&self) -> PeerView {
        PeerView {
            id: self.id@,
            name: self.name@,
            addr: self.addr,
            port: self.port,
            expires: self.expires,
        }
    }
}

/// The peers of a table.
pub open spec fn peers_of(t: PeerTable) -> Map<Seq<char>, PeerView> {
    t@.map_values(|p: Peer| p@)
}

/// Every peer stands under its own id.
pub open spec fn table_wf(t: PeerTable) -> bool {
    &&& t.wf()
    &&& forall|id: Seq<char>| #[trigger] t@.contains_key(id) ==> t@[id].id@ == id
}

/// What a packet says of its sender.
pub open spec fn announced(pkt: DiscoveryPacket, src_ip: Ipv4Addr, now: Instant) -> PeerView {
    PeerView {
        id: pkt.id@,
        name: clamped_name(pkt.name@),
        addr: src_ip,
        port: pkt.port,
        expires: Instant {
            nanos: (now.nanos + Duration::of_secs(PEER_EXPIRY_SECS as nat)) as u128,
        },
    }
}

/// Whether a packet is for this device to consider: of its version, and not
/// its own.
pub open spec fn foreign(pkt: DiscoveryPacket, my_id: Seq<char>) -> bool {
    pkt.v == PROTO_VERSION && pkt.id@ != my_id
}

/// The table after a packet.
pub open spec fn after_packet(
    t: Map<Seq<char>, PeerView>,
    my_id: Seq<char>,
    src_ip: Ipv4Addr,
    pkt: DiscoveryPacket,
    now: Instant,
) -> Map<Seq<char>, PeerView> {
    if !foreign(pkt, my_id) {
        t
    } else if !pkt.disc {
        t.remove(pkt.id@)
    } else {
        t.insert(pkt.id@, announced(pkt, src_ip, now))
    }
}

/// Whether two peers look the same in the list of devices.
pub open spec fn looks_same(a: PeerView, b: PeerView) -> bool {
    a.name == b.name && a.addr == b.addr && a.port == b.port
}

/// Whether a packet changes what is visible of the peers.
pub open spec fn packet_changes(
    t: Map<Seq<char>, PeerView>,
    my_id: Seq<char>,
    src_ip: Ipv4Addr,
    pkt: DiscoveryPacket,
    now: Instant,
) -> bool {
    if !foreign(pkt, my_id) {
        false
    } else if !pkt.disc {
        t.contains_key(pkt.id@)
    } else {
        !t.contains_key(pkt.id@) || !looks_same(t[pkt.id@], announced(pkt, src_ip, now))
    }
}

/// Applies a received packet; whether the visible peers changed.
pub fn apply_packet(
    peers: &mut PeerTable,
    my_id: &str,
    src_ip: Ipv4Addr,
    pkt: &DiscoveryPacket,
    now: Instant,
) -> (changed: bool)
    requires
        table_wf(*old(peers)),
        now.nanos + Duration::of_secs(PEER_EXPIRY_SECS as nat) <= u128::MAX,
    ensures
        table_wf(*final(peers)),
        peers_of(*final(peers)) == after_packet(peers_of(*old(peers)), my_id@, src_ip, *pkt, now),
        changed == packet_changes(peers_of(*old(peers)), my_id@, src_ip, *pkt, now),
{
    let ghost before = peers_of(*peers);
    let mine = my_id.to_owned();
    if pkt.v != PROTO_VERSION || pkt.id == mine {
        return false;
    }
    if !pkt.disc {
        let gone = peers.remove(&pkt.id);
        proof {
            assert(peers_of(*peers) =~= before.remove(pkt.id@));
        }
        return gone.is_some();
    }
    let expires = now.after(Duration::from_secs(PEER_EXPIRY_SECS));
    let name = clamp_name(pkt.name.as_str());
    let changed = match peers.get(&pkt.id) {
        Some(p) => p.name != name || p.addr != src_ip || p.port != pkt.port,
        None => true,
    };
    let peer = Peer { id: pkt.id.clone(), name, addr: src_ip, port: pkt.port, expires };
    let ghost shown = peer@;
    let _old = peers.insert(pkt.id.clone(), peer);
    proof {
        assert(shown == announced(*pkt, src_ip, now));
        assert(peers_of(*peers) =~= before.insert(pkt.id@, shown));
    }
    changed
}

pub open spec fn any_expired(t: Map<Seq<char>, PeerView>, now: Instant) -> bool {
    exists|id: Seq<char>| #[trigger] t.contains_key(id) && t[id].expires.nanos <= now.nanos
}

/// Drops the peers that were not heard of in time; whether there were any.
pub fn expire_peers(peers: &mut PeerTable, now: Instant) -> (changed: bool)
    requires
        table_wf(*old(peers)),
    ensures
        table_wf(*final(peers)),
        peers_of(*final(peers)) == kept(
            peers_of(*old(peers)),
            |p: PeerView| p.expires.nanos > now.nanos,
        ),
        changed == any_expired(peers_of(*old(peers)), now),
{
    let ghost before = peers_of(*peers);
    let ghost raw = peers@;
    proof {
        lemma_size(peers.entries@);
    }
    let count: usize = peers.len();
    let alive = (|p: &Peer| -> (r: bool)
        ensures
            r == (p.expires.nanos > now.nanos),
        { p.expires.nanos > now.nanos });
    peers.retain(alive, Ghost(|p: Peer| p.expires.nanos > now.nanos));
    proof {
        lemma_size(peers.entries@);
        assert(peers_of(*peers) =~= kept(before, |p: PeerView| p.expires.nanos > now.nanos));
        assert(peers@.dom().subset_of(raw.dom()));
        if exists|id: Seq<char>| #[trigger]
            before.contains_key(id) && before[id].expires.nanos <= now.nanos {
            let id = choose|id: Seq<char>| #[trigger]
                before.contains_key(id) && before[id].expires.nanos <= now.nanos;
            assert(raw.dom().contains(id) && !peers@.dom().contains(id));
            vstd::set_lib::lemma_len_subset(peers@.dom(), raw.dom().remove(id));
        } else {
            assert(peers@.dom() =~= raw.dom()) by {
                assert forall|id: Seq<char>| raw.dom().contains(id) implies peers@.dom().contains(
                    id,
                ) by {
                    assert(before.contains_key(id));
                }
            }
        }
    }
    peers.len() != count
}

// ── the list of devices ───────────────────────────────────────────────────

/// A device as the user sees it.
#[derive(Debug, Clone)]
pub struct DiscoveredDevice {
    pub device_id: String,
    pub name: String,
    pub address: String,
    pub port: u16,
    /// Whether it is only known because its address was dialed.
    pub manual: bool,
}

/// A device as a mathematical value.
pub struct DeviceView {
    pub device_id: Seq<char>,
    pub name: Seq<char>,
    pub address: Seq<char>,
    pub port: u16,
    pub manual: bool,
}

impl View for DiscoveredDevice {
    type V = DeviceView;

    open spec fn view(&self) -> DeviceView {
        DeviceView {
            device_id: self.device_id@,
            name: self.name@,
            address: self.address@,
            port: self.port,
            manual: self.manual,
        }
    }
}

/// By name, whatever its letter case.
impl Ranked for DiscoveredDevice {
    open spec fn rank_le(a: Self, b: Self) -> bool {
        lex_le(lowercase_of(a.name@), lowercase_of(b.name@))
    }

    fn leq(a: &Self, b: &Self) -> (r: bool) {
        let x = to_lowercase(a.name.as_str());
        let y = to_lowercase(b.name.as_str());
        let x_chars = chars_of(x.as_str());
        let y_chars = chars_of(y.as_str());
        lex_leq(x_chars.as_slice(), y_chars.as_slice())
    }

    proof fn rank_total(a: Self, b: Self) {
        lemma_lex_total(lowercase_of(a.name@), lowercase_of(b.name@));
    }

    proof fn rank_trans(a: Self, b: Self, c: Self) {
        lemma_lex_trans(lowercase_of(a.name@), lowercase_of(b.name@), lowercase_of(c.name@));
    }
}

pub open spec fn devices(v: Seq<DiscoveredDevice>) -> Seq<DeviceView> {
    v.map_values(|d: DiscoveredDevice| d@)
}

/// Whether a device comes no later than another by name, whatever the letter
/// case.
pub open spec fn name_le(a: DeviceView, b: DeviceView) -> bool {
    lex_le(lowercase_of(a.name), lowercase_of(b.name))
}

/// `x` placed behind the last device that comes no later.
pub open spec fn placed_by_name(s: Seq<DeviceView>, x: DeviceView) -> Seq<DeviceView>
    decreases s.len(),
{
    if s.len() == 0 || name_le(s.last(), x) {
        s.push(x)
    } else {
        placed_by_name(s.drop_last(), x).push(s.last())
    }
}

/// The devices sorted by name; those with the same name keep their order.
pub open spec fn by_name(s: Seq<DeviceView>) -> Seq<DeviceView>
    decreases s.len(),
{
    if s.len() == 0 {
        s
    } else {
        placed_by_name(by_name(s.drop_last()), s.last())
    }
}

proof fn lemma_placed_devices(s: Seq<DiscoveredDevice>, x: DiscoveredDevice)
    ensures
        devices(placed(s, x)) == placed_by_name(devices(s), x@),
    decreases s.len(),
{
    if s.len() == 0 || DiscoveredDevice::rank_le(s.last(), x) {
        assert(devices(s.push(x)) =~= devices(s).push(x@));
    } else {
        lemma_placed_devices(s.drop_last(), x);
        let q = placed(s.drop_last(), x);
        assert(devices(q.push(s.last())) =~= devices(q).push(s.last()@));
        assert(devices(s).drop_last() =~= devices(s.drop_last()));
    }
}

/// Sorting the list sorts what it shows.
pub proof fn lemma_ranked_devices(s: Seq<DiscoveredDevice>)
    ensures
        devices(ranked(s)) == by_name(devices(s)),
    decreases s.len(),
{
    if s.len() == 0 {
        assert(devices(s) =~= Seq::<DeviceView>::empty());
    } else {
        lemma_ranked_devices(s.drop_last());
        lemma_placed_devices(ranked(s.drop_last()), s.last());
        assert(devices(s).drop_last() =~= devices(s.drop_last()));
    }
}

/// Whether a device has this name, whatever the letter case.
pub open spec fn named(d: DeviceView, lower: Seq<char>) -> bool {
    lowercase_of(d.name) == lower
}

proof fn lemma_placed_keeps_order(s: Seq<DeviceView>, x: DeviceView, lower: Seq<char>)
    ensures
        placed_by_name(s, x).filter(|d: DeviceView| named(d, lower)) == s.push(x).filter(
            |d: DeviceView| named(d, lower),
        ),
        placed_by_name(s, x).to_multiset() == s.to_multiset().insert(x),
    decreases s.len(),
{
    broadcast use vstd::seq_lib::group_to_multiset_ensures;

    reveal(Seq::filter);
    let p = |d: DeviceView| named(d, lower);
    if s.len() > 0 && !name_le(s.last(), x) {
        let rest = s.drop_last();
        let q = placed_by_name(rest, x);
        lemma_placed_keeps_order(rest, x, lower);
        lemma_lex_total(lowercase_of(s.last().name), lowercase_of(x.name));
        assert(!(p(s.last()) && p(x)));
        assert(rest.push(x).drop_last() =~= rest);
        assert(s.push(x).drop_last() =~= s);
        assert(q.push(s.last()).drop_last() =~= q);
        assert(s =~= rest.push(s.last()));
        assert(rest.push(x).filter(p) == if p(x) {
            rest.filter(p).push(x)
        } else {
            rest.filter(p)
        });
        assert(s.filter(p) == if p(s.last()) {
            rest.filter(p).push(s.last())
        } else {
            rest.filter(p)
        });
        assert(q.push(s.last()).filter(p) == if p(s.last()) {
            q.filter(p).push(s.last())
        } else {
            q.filter(p)
        });
        assert(s.push(x).filter(p) == if p(x) {
            s.filter(p).push(x)
        } else {
            s.filter(p)
        });
        assert(q.push(s.last()).to_multiset() =~= s.to_multiset().insert(x));
    }
}

/// Sorting by name keeps every device, and among those of the same name the
/// order in which they came.
pub proof fn law_sorting_by_name_is_stable(s: Seq<DeviceView>, lower: Seq<char>)
    ensures
        by_name(s).filter(|d: DeviceView| named(d, lower)) == s.filter(
            |d: DeviceView| named(d, lower),
        ),
        by_name(s).to_multiset() == s.to_multiset(),
    decreases s.len(),
{
    broadcast use vstd::seq_lib::group_to_multiset_ensures;

    reveal(Seq::filter);
    if s.len() > 0 {
        let rest = s.drop_last();
        law_sorting_by_name_is_stable(rest, lower);
        lemma_placed_keeps_order(by_name(rest), s.last(), lower);
        assert(by_name(rest).push(s.last()).drop_last() =~= by_name(rest));
        assert(s =~= rest.push(s.last()));
    }
}

/// How a peer is shown.
pub open spec fn shown_peer(p: Peer) -> DeviceView {
    DeviceView {
        device_id: p.id@,
        name: p.name@,
        address: dotted(p.addr),
        port: p.port,
        manual: false,
    }
}

pub open spec fn shown_peers(entries: Seq<(String, Peer)>) -> Seq<DeviceView> {
    entries.map_values(|e: (String, Peer)| shown_peer(e.1))
}

/// The peers as a list of devices, sorted by name.
pub fn snapshot(peers: &PeerTable) -> (r: Vec<DiscoveredDevice>)
    ensures
        ascending(r@),
        devices(r@) == by_name(shown_peers(peers.entries@)),
{
    let mut v: Vec<DiscoveredDevice> = Vec::new();
    let entries = &peers.entries;
    for i in 0..entries.len()
        invariant
            entries@ == peers.entries@,
            devices(v@) == shown_peers(entries@.subrange(0, i as int)),
    {
        let ghost before = devices(v@);
        let p = &entries[i].1;
        let d = DiscoveredDevice {
            device_id: p.id.clone(),
            name: p.name.clone(),
            address: p.addr.to_string(),
            port: p.port,
            manual: false,
        };
        let ghost shown = d@;
        v.push(d);
        proof {
            assert(devices(v@) =~= before.push(shown));
            assert(shown_peers(entries@.subrange(0, i + 1)) =~= shown_peers(
                entries@.subrange(0, i as int),
            ).push(shown_peer(entries@[i as int].1)));
        }
    }
    proof {
        assert(entries@.subrange(0, entries@.len() as int) =~= entries@);
        law_ranked_sorts(v@);
        lemma_ranked_devices(v@);
    }
    sort(v)
}

// ── which interfaces ──────────────────────────────────────────────────────

/// The address that the interface setting names, if it is one.
pub open spec fn filter_ip(iface_filter: Option<String>) -> Option<Ipv4Addr> {
    match iface_filter {
        Some(s) => parsed_ipv4(s@),
        None => None,
    }
}

pub fn parse_filter(iface_filter: &Option<String>) -> (r: Option<Ipv4Addr>)
    ensures
        r == filter_ip(*iface_filter),
{
    match iface_filter {
        Some(s) => {
            let v = chars_of(s.as_str());
            parse_ipv4(v.as_slice())
        },
        None => None,
    }
}

/// The interfaces in use, and how the choice came about.
#[derive(Debug)]
pub struct ActiveInterfaces {
    pub kept: Vec<Iface>,
    /// Whether a filter is set and matched, so that nothing may leave by
    /// another interface.
    pub confined: bool,
    /// Whether to warn now that the filter matched nothing.
    pub warn: bool,
}

/// Narrows the interfaces by the setting. The warning comes once for every
/// time the filter goes stale: `warned` remembers it until the filter matches
/// again.
pub fn active_interfaces(
    iface_filter: &Option<String>,
    all: Vec<Iface>,
    warned: &mut bool,
) -> (r: ActiveInterfaces)
    ensures
        ({
            let (kept, fell_back) = selected(all@, filter_ip(*iface_filter));
            &&& r.kept@ == kept
            &&& r.confined == (filter_ip(*iface_filter) is Some && !fell_back)
            &&& r.warn == (fell_back && !*old(warned))
            &&& *final(warned) == fell_back
        }),
{
    let filter = parse_filter(iface_filter);
    let (kept, fell_back) = select(all, filter);
    let warn = fell_back && !*warned;
    *warned = fell_back;
    ActiveInterfaces { kept, confined: filter.is_some() && !fell_back, warn }
}

// ── where packets go ──────────────────────────────────────────────────────

/// One step of sending a packet out.
#[derive(Debug, Clone, Copy, PartialEq, Eq, Structural)]
pub enum Egress {
    /// Let the system choose the multicast interface again.
    ResetMulticast,
    /// Send to the group by the system's choice of interface.
    Group,
    /// Steer multicast to this interface and, if that works, send to the
    /// group.
    GroupVia(Ipv4Addr),
    /// Send to the broadcast address of a network.
    Directed(Ipv4Addr),
    /// Send to the limited broadcast address.
    Limited,
}

/// The directed broadcasts of the interfaces.
pub open spec fn directed(ifaces: Seq<Iface>) -> Seq<Egress>
    decreases ifaces.len(),
{
    if ifaces.len() == 0 {
        Seq::empty()
    } else {
        match ifaces.last().broadcast {
            Some(b) => directed(ifaces.drop_last()).push(Egress::Directed(b)),
            None => directed(ifaces.drop_last()),
        }
    }
}

/// For each interface the group by that interface, then its broadcast.
pub open spec fn confined_steps(ifaces: Seq<Iface>) -> Seq<Egress>
    decreases ifaces.len(),
{
    if ifaces.len() == 0 {
        Seq::empty()
    } else {
        let before = confined_steps(ifaces.drop_last()).push(Egress::GroupVia(ifaces.last().ip));
        match ifaces.last().broadcast {
            Some(b) => before.push(Egress::Directed(b)),
            None => before,
        }
    }
}

/// The steps of sending a packet.
pub open spec fn egress_steps(ifaces: Seq<Iface>, confined: bool) -> Seq<Egress> {
    if confined {
        confined_steps(ifaces)
    } else {
        (seq![Egress::ResetMulticast, Egress::Group] + directed(ifaces)).push(Egress::Limited)
    }
}

/// Where a packet is sent. While a filter confines discovery, only the kept
/// interfaces are used and the limited broadcast, which no interface can be
/// chosen for, is left out.
pub fn egress_plan(ifaces: &[Iface], confined: bool) -> (r: Vec<Egress>)
    ensures
        r@ == egress_steps(ifaces@, confined),
{
    let mut r: Vec<Egress> = Vec::new();
    if confined {
        for i in 0..ifaces.len()
            invariant
                r@ == confined_steps(ifaces@.subrange(0, i as int)),
        {
            proof {
                assert(ifaces@.subrange(0, i + 1).drop_last() =~= ifaces@.subrange(0, i as int));
                assert(ifaces@.subrange(0, i + 1).last() == ifaces@[i as int]);
            }
            r.push(Egress::GroupVia(ifaces[i].ip));
            match ifaces[i].broadcast {
                Some(b) => {
                    r.push(Egress::Directed(b));
                },
                None => {},
            }
        }
        proof {
            assert(ifaces@.subrange(0, ifaces@.len() as int) =~= ifaces@);
        }
        return r;
    }
    r.push(Egress::ResetMulticast);
    r.push(Egress::Group);
    let ghost head = r@;
    proof {
        assert(head =~= seq![Egress::ResetMulticast, Egress::Group]);
        assert(r@ =~= head + directed(ifaces@.subrange(0, 0)));
    }
    for i in 0..ifaces.len()
        invariant
            r@ == head + directed(ifaces@.subrange(0, i as int)),
    {
        proof {
            assert(ifaces@.subrange(0, i + 1).drop_last() =~= ifaces@.subrange(0, i as int));
            assert(ifaces@.subrange(0, i + 1).last() == ifaces@[i as int]);
        }
        match ifaces[i].broadcast {
            Some(b) => {
                let ghost so_far = directed(ifaces@.subrange(0, i as int));
                r.push(Egress::Directed(b));
                proof {
                    assert(r@ =~= head + so_far.push(Egress::Directed(b)));
                }
            },
            None => {},
        }
    }
    proof {
        assert(ifaces@.subrange(0, ifaces@.len() as int) =~= ifaces@);
    }
    r.push(Egress::Limited);
    r
}

/// While confined, every step goes by a kept interface or to the broadcast
/// address of one: nothing leaves by an excluded interface.
pub proof fn law_confined_egress_stays_inside(ifaces: Seq<Iface>, i: int)
    requires
        0 <= i < egress_steps(ifaces, true).len(),
    ensures
        exists|k: int|
            0 <= k < ifaces.len() && (egress_steps(ifaces, true)[i] == Egress::GroupVia(
                (#[trigger] ifaces[k]).ip,
            ) || (ifaces[k].broadcast matches Some(b) && egress_steps(ifaces, true)[i]
                == Egress::Directed(b))),
    decreases ifaces.len(),
{
    let steps = egress_steps(ifaces, true);
    if ifaces.len() > 0 {
        let rest = ifaces.drop_last();
        let before = confined_steps(rest);
        if i < before.len() {
            assert(steps[i] == before[i]);
            law_confined_egress_stays_inside(rest, i);
            let k = choose|k: int|
                0 <= k < rest.len() && (before[i] == Egress::GroupVia((#[trigger] rest[k]).ip) || (
                rest[k].broadcast matches Some(b) && before[i] == Egress::Directed(b)));
            assert(ifaces[k] == rest[k]);
        } else {
            assert(ifaces[ifaces.len() - 1] == ifaces.last());
        }
    }
}

// ── announcements ─────────────────────────────────────────────────────────

/// What the announcements of this device carry at one moment.
#[derive(Debug)]
pub struct Presence {
    pub device_id: String,
    pub name: String,
    pub discoverable: bool,
    /// The port of the transfer listener.
    pub port: u16,
    /// The port of the share server, if a share is live.
    pub http: Option<u16>,
}

/// The memory of the announcer.
#[derive(Debug, Clone, Copy, PartialEq, Eq, Structural)]
pub struct Announcer {
    pub was_visible: bool,
    /// Whether no announcement went out yet.
    pub first: bool,
}

/// As much of a device's name as a packet carries.
pub open spec fn announced_name(name: Seq<char>) -> Seq<char> {
    take_bytes(name, MAX_DEVICE_NAME_BYTES as nat)
}

fn cut_name(name: &str) -> (r: String)
    ensures
        r@ == announced_name(name@),
{
    let v = chars_of(name);
    cut_to_bytes(v.as_slice(), MAX_DEVICE_NAME_BYTES)
}

/// Whether `pkt` announces `me`.
pub open spec fn packet_says(
    pkt: DiscoveryPacket,
    me: Presence,
    disc: bool,
    req: bool,
    http: Option<u16>,
) -> bool {
    &&& pkt.v == PROTO_VERSION
    &&& pkt.id@ == me.device_id@
    &&& pkt.port == me.port
    &&& pkt.name@ == announced_name(me.name@)
    &&& pkt.disc == disc
    &&& pkt.req == req
    &&& pkt.http == http
}

fn make_packet(me: &Presence, disc: bool, req: bool, http: Option<u16>) -> (pkt: DiscoveryPacket)
    ensures
        packet_says(pkt, *me, disc, req, http),
{
    DiscoveryPacket {
        v: PROTO_VERSION,
        id: me.device_id.clone(),
        port: me.port,
        name: cut_name(me.name.as_str()),
        disc,
        req,
        http,
    }
}

impl Announcer {
    pub fn new() -> (a: Self)
        ensures
            a == (Announcer { was_visible: false, first: true }),
    {
        Announcer { was_visible: false, first: true }
    }

    /// One tick: a visible device announces itself, the first time with a
    /// request for replies; one that just became invisible says so once; and
    /// then it is quiet.
    pub fn tick(&mut self, me: &Presence) -> (r: Option<DiscoveryPacket>)
        ensures
            if me.discoverable {
                &&& r matches Some(pkt) && packet_says(
                    pkt,
                    *me,
                    true,
                    old(self).first,
                    me.http,
                )
                &&& *final(self) == (Announcer { was_visible: true, first: false })
            } else if old(self).was_visible {
                &&& r matches Some(pkt) && packet_says(pkt, *me, false, false, None)
                &&& *final(self) == (Announcer { was_visible: false, first: old(self).first })
            } else {
                r is None && *final(self) == *old(self)
            },
    {
        if me.discoverable {
            let pkt = make_packet(me, true, self.first, me.http);
            self.was_visible = true;
            self.first = false;
            Some(pkt)
        } else if self.was_visible {
            let pkt = make_packet(me, false, false, None);
            self.was_visible = false;
            Some(pkt)
        } else {
            None
        }
    }
}

/// The name in a packet has at most 63 bytes, and a name that was set arrives
/// whole.
pub proof fn law_announced_name_fits(name: Seq<char>)
    ensures
        vstd::utf8::encode_utf8(announced_name(name)).len() <= 63,
        vstd::utf8::encode_utf8(name).len() <= 63 ==> announced_name(name) == name,
{
    law_cut_text_is_the_longest(name, MAX_DEVICE_NAME_BYTES as nat);
}

/// The packet that tells peers to forget this device.
pub fn tombstone(device_id: String, name: String, port: u16) -> (pkt: DiscoveryPacket)
    ensures
        pkt.v == PROTO_VERSION,
        pkt.id@ == device_id@,
        pkt.name@ == announced_name(name@),
        pkt.port == port,
        !pkt.disc,
        !pkt.req,
        pkt.http is None,
{
    DiscoveryPacket {
        v: PROTO_VERSION,
        id: device_id,
        port,
        name: cut_name(name.as_str()),
        disc: false,
        req: false,
        http: None,
    }
}

/// The reply to a packet: a full announcement, if it asks for one, comes from
/// another device, and this one is visible.
pub fn solicited_reply(pkt: &DiscoveryPacket, me: &Presence) -> (r: Option<DiscoveryPacket>)
    ensures
        match r {
            Some(reply) => pkt.req && foreign(*pkt, me.device_id@) && me.discoverable
                && packet_says(reply, *me, true, false, me.http),
            None => !(pkt.req && foreign(*pkt, me.device_id@) && me.discoverable),
        },
{
    if pkt.req && pkt.v == PROTO_VERSION && pkt.id != me.device_id && me.discoverable {
        Some(make_packet(me, true, false, me.http))
    } else {
        None
    }
}

/// What comes of a received packet.
#[derive(Debug)]
pub struct Received {
    /// Whether the visible peers changed.
    pub changed: bool,
    /// What to send back to the source.
    pub reply: Option<DiscoveryPacket>,
}

/// One round of the listener: the packet is applied, and answered if it asks
/// for an answer.
pub fn receive_packet(
    peers: &mut PeerTable,
    me: &Presence,
    src_ip: Ipv4Addr,
    pkt: &DiscoveryPacket,
    now: Instant,
) -> (r: Received)
    requires
        table_wf(*old(peers)),
        now.nanos + Duration::of_secs(PEER_EXPIRY_SECS as nat) <= u128::MAX,
    ensures
        table_wf(*final(peers)),
        peers_of(*final(peers)) == after_packet(
            peers_of(*old(peers)),
            me.device_id@,
            src_ip,
            *pkt,
            now,
        ),
        r.changed == packet_changes(peers_of(*old(peers)), me.device_id@, src_ip, *pkt, now),
        match r.reply {
            Some(reply) => pkt.req && foreign(*pkt, me.device_id@) && me.discoverable
                && packet_says(reply, *me, true, false, me.http),
            None => !(pkt.req && foreign(*pkt, me.device_id@) && me.discoverable),
        },
{
    let reply = solicited_reply(pkt, me);
    let changed = apply_packet(peers, me.device_id.as_str(), src_ip, pkt, now);
    Received { changed, reply }
}

/// The share port to announce: the bound one, while some share would serve.
pub fn share_http_advert(share_port: u16, shares: &ShareRegistry, now: Instant) -> (r: Option<u16>)
    requires
        shares.wf(),
    ensures
        r == if share_port != 0 && any_serveable(shares@, now) {
            Some(share_port)
        } else {
            None
        },
{
    if share_port != 0 && has_active_share(shares, now) {
        Some(share_port)
    } else {
        None
    }
}

/// The degradation to record when the discovery port is taken.
pub fn receive_fallback() -> (d: NetDegraded)
    ensures
        d.kind@ == "udp_recv_fallback"@,
        d.detail@ == "UDP port "@ + decimal(DISCOVERY_PORT as nat)
            + " is held by another process — announcing only; other devices will not appear here until the port is free again"@,
{
    let port = decimal_string(DISCOVERY_PORT as u64);
    let mut detail = concat("UDP port ", port.as_str());
    detail.append(
        " is held by another process — announcing only; other devices will not appear here until the port is free again",
    );
    NetDegraded { kind: "udp_recv_fallback".to_owned(), detail }
}

// ── laws ──────────────────────────────────────────────────────────────────

/// This device never becomes one of its own peers.
pub proof fn law_own_packets_are_ignored(
    t: Map<Seq<char>, PeerView>,
    my_id: Seq<char>,
    src_ip: Ipv4Addr,
    pkt: DiscoveryPacket,
    now: Instant,
)
    requires
        !t.contains_key(my_id),
    ensures
        !after_packet(t, my_id, src_ip, pkt, now).contains_key(my_id),
{
}

/// A packet that changes nothing visible leaves the same peers with the same
/// look in the table: at most their expiry is new.
pub proof fn law_unchanged_means_same_look(
    t: Map<Seq<char>, PeerView>,
    my_id: Seq<char>,
    src_ip: Ipv4Addr,
    pkt: DiscoveryPacket,
    now: Instant,
    id: Seq<char>,
)
    requires
        !packet_changes(t, my_id, src_ip, pkt, now),
    ensures
        after_packet(t, my_id, src_ip, pkt, now).contains_key(id) == t.contains_key(id),
        t.contains_key(id) ==> looks_same(t[id], after_packet(t, my_id, src_ip, pkt, now)[id]),
{
}

/// A packet only concerns its sender.
pub proof fn law_packet_concerns_its_sender_only(
    t: Map<Seq<char>, PeerView>,
    my_id: Seq<char>,
    src_ip: Ipv4Addr,
    pkt: DiscoveryPacket,
    now: Instant,
    id: Seq<char>,
)
    requires
        id != pkt.id@,
    ensures
        after_packet(t, my_id, src_ip, pkt, now).contains_key(id) == t.contains_key(id),
        t.contains_key(id) ==> after_packet(t, my_id, src_ip, pkt, now)[id] == t[id],
{
}

/// The name that is kept of a peer is never longer than the limit.
pub proof fn law_peer_name_is_bounded(pkt: DiscoveryPacket, src_ip: Ipv4Addr, now: Instant)
    ensures
        announced(pkt, src_ip, now).name.len() <= MAX_NAME_CHARS,
{
}

} // verus!
