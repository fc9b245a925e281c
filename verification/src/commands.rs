//! What the commands of the user interface decide and answer.

use vstd::prelude::*;
use vstd::utf8::encode_utf8;

use crate::consts::{MAX_TEXT_BYTES, PAIRING_CODE_TTL_SECS, TRANSFER_V2};
use crate::discovery::interfaces::Iface;
use crate::discovery::{
    by_name, devices, lemma_ranked_devices, shown_peers, snapshot, table_wf, DeviceView,
    DiscoveredDevice, PeerTable,
};
use crate::encoding::{base64url, encode_base64url};
use crate::error::{LanBeamError, Result};
use crate::identity::{decode_device_id, is_device_id, names_device, Identity};
use crate::keymap::KeyMap;
use crate::net::{dotted, Ipv4Addr};
use crate::order::{ascending, law_ranked_sorts, ranked, sort, Ranked};
use crate::pairing::{
    build_pair_uri, code_shaped, fresh_pairing_code, link_query, parse_dial_target, parsed_target,
    pick_code, DialTarget, TargetView,
};
use crate::partials::{list_of, records, PartialRecord, PartialsStore, RecordView};
use crate::sanitize::texts;
use crate::settings::Settings;
use crate::state::{
    insert_manual_peer, log_index, logged, trimmed_peers, CompletedLog, ConflictAction, ManualPeer,
    PairingSession, ReplyDecision,
};
use crate::text::{
    chars_of, concat, last_index, rindex_of, string_of, take_chars, trim_chars, trim_string, trimmed,
};
use crate::time::{Duration, Instant};

verus! {

// ── devices ───────────────────────────────────────────────────────────────

/// How a manual peer is shown.
pub open spec fn shown_manual(id: Seq<char>, p: ManualPeer) -> DeviceView {
    DeviceView {
        device_id: id,
        name: p.name@,
        address: dotted(p.addr),
        port: p.port,
        manual: true,
    }
}

/// Whether one of the devices has this id.
pub open spec fn listed_device(list: Seq<DeviceView>, id: Seq<char>) -> bool {
    exists|i: int| 0 <= i < list.len() && (#[trigger] list[i]).device_id == id
}

/// The manual peers that are neither this device nor already listed.
pub open spec fn extra_devices(
    entries: Seq<(String, ManualPeer)>,
    seen: Seq<DeviceView>,
    my_id: Seq<char>,
) -> Seq<DeviceView>
    decreases entries.len(),
{
    if entries.len() == 0 {
        Seq::empty()
    } else {
        let before = extra_devices(entries.drop_last(), seen, my_id);
        let (id, p) = entries.last();
        if id@ != my_id && !listed_device(seen, id@) {
            before.push(shown_manual(id@, p))
        } else {
            before
        }
    }
}

/// The devices other than this one.
pub open spec fn others(list: Seq<DeviceView>, my_id: Seq<char>) -> Seq<DeviceView> {
    list.filter(|d: DeviceView| d.device_id != my_id)
}

fn device_listed(list: &Vec<DiscoveredDevice>, n: usize, id: &String) -> (r: bool)
    requires
        n <= list@.len(),
    ensures
        r == listed_device(devices(list@.subrange(0, n as int)), id@),
{
    let ghost shown = devices(list@.subrange(0, n as int));
    for i in 0..n
        invariant
            n <= list@.len(),
            shown == devices(list@.subrange(0, n as int)),
            forall|k: int| 0 <= k < i ==> (#[trigger] shown[k]).device_id != id@,
    {
        proof {
            assert(shown[i as int] == list@[i as int]@);
        }
        if list[i].device_id == *id {
            return true;
        }
    }
    false
}

/// The devices that are not this one, moved into a new list.
fn drop_self(discovered: Vec<DiscoveredDevice>, my_id: &String) -> (r: Vec<DiscoveredDevice>)
    ensures
        devices(r@) == others(devices(discovered@), my_id@),
{
    let ghost whole = devices(discovered@);
    let ghost p = |d: DeviceView| d.device_id != my_id@;
    let n: usize = discovered.len();
    let mut rest = discovered;
    let mut i: usize = 0;
    let mut done: usize = 0;
    proof {
        reveal(Seq::filter);
        assert(devices(rest@.subrange(0, 0)) =~= whole.subrange(0, 0).filter(p));
        assert(devices(rest@.subrange(0, rest@.len() as int)) =~= whole.subrange(
            0,
            whole.len() as int,
        ));
    }
    while i < rest.len()
        invariant
            p == (|d: DeviceView| d.device_id != my_id@),
            n == whole.len(),
            i <= rest@.len(),
            i <= done <= n,
            rest@.len() - i == n - done,
            devices(rest@.subrange(0, i as int)) == whole.subrange(0, done as int).filter(p),
            devices(rest@.subrange(i as int, rest@.len() as int)) == whole.subrange(
                done as int,
                n as int,
            ),
        decreases rest@.len() - i,
    {
        let ghost before = rest@;
        let ghost tail = before.subrange(i as int, before.len() as int);
        proof {
            reveal(Seq::filter);
            assert(devices(tail)[0] == before[i as int]@);
            assert(whole.subrange(done as int, n as int)[0] == whole[done as int]);
            assert(before[i as int]@ == whole[done as int]);
            assert(whole.subrange(0, done + 1).drop_last() =~= whole.subrange(0, done as int));
            assert(whole.subrange(0, done + 1).last() == whole[done as int]);
            assert(devices(before.subrange(i + 1, before.len() as int)) =~= devices(
                tail,
            ).drop_first());
            assert(whole.subrange(done + 1, n as int) =~= whole.subrange(
                done as int,
                n as int,
            ).drop_first());
        }
        if rest[i].device_id != *my_id {
            i = i + 1;
            proof {
                assert(devices(rest@.subrange(0, i as int)) =~= devices(
                    before.subrange(0, i - 1),
                ).push(before[i - 1]@));
            }
        } else {
            let _me = rest.remove(i);
            proof {
                assert(rest@.subrange(0, i as int) =~= before.subrange(0, i as int));
                assert(rest@.subrange(i as int, rest@.len() as int) =~= before.subrange(
                    i + 1,
                    before.len() as int,
                ));
            }
        }
        done = done + 1;
    }
    proof {
        assert(rest@.subrange(0, i as int) =~= rest@);
        assert(whole.subrange(0, n as int) =~= whole);
    }
    rest
}

/// The list of devices of a discovered list and the manual peers. Without
/// manual peers the discovered devices stay as they are; else all are sorted by
/// name, and of those with the same name the discovered ones come first.
pub open spec fn merged(
    discovered: Seq<DeviceView>,
    manual: Seq<(String, ManualPeer)>,
    my_id: Seq<char>,
) -> Seq<DeviceView> {
    let seen = others(discovered, my_id);
    if manual.len() == 0 {
        seen
    } else {
        by_name(seen + extra_devices(manual, seen, my_id))
    }
}

/// The list of devices: those discovered, and behind them the manual peers
/// that discovery has not seen, sorted by name. This device is never in it.
pub fn merge_devices(
    discovered: Vec<DiscoveredDevice>,
    manual: &KeyMap<String, ManualPeer>,
    my_id: &str,
) -> (r: Vec<DiscoveredDevice>)
    ensures
        devices(r@) == merged(devices(discovered@), manual.entries@, my_id@),
        manual.entries@.len() > 0 ==> ascending(r@),
{
    let mine = my_id.to_owned();
    let mut list = drop_self(discovered, &mine);
    let ghost seen = devices(list@);
    if manual.entries.len() == 0 {
        return list;
    }
    let n: usize = list.len();
    let entries = &manual.entries;
    proof {
        assert(list@.subrange(0, n as int) =~= list@);
        assert(devices(list@) =~= seen + extra_devices(entries@.subrange(0, 0), seen, my_id@));
    }
    for i in 0..entries.len()
        invariant
            entries@ == manual.entries@,
            mine@ == my_id@,
            n <= list@.len(),
            devices(list@.subrange(0, n as int)) == seen,
            devices(list@) == seen + extra_devices(entries@.subrange(0, i as int), seen, my_id@),
    {
        proof {
            assert(entries@.subrange(0, i + 1).drop_last() =~= entries@.subrange(0, i as int));
            assert(entries@.subrange(0, i + 1).last() == entries@[i as int]);
        }
        let ghost before = list@;
        if entries[i].0 != mine && !device_listed(&list, n, &entries[i].0) {
            let p = &entries[i].1;
            let d = DiscoveredDevice {
                device_id: entries[i].0.clone(),
                name: p.name.clone(),
                address: p.addr.to_string(),
                port: p.port,
                manual: true,
            };
            let ghost shown = d@;
            list.push(d);
            proof {
                assert(devices(list@) =~= devices(before).push(shown));
                assert(list@.subrange(0, n as int) =~= before.subrange(0, n as int));
                assert(devices(before).push(shown) =~= seen + extra_devices(
                    entries@.subrange(0, i as int),
                    seen,
                    my_id@,
                ).push(shown));
            }
        }
    }
    proof {
        assert(entries@.subrange(0, entries@.len() as int) =~= entries@);
        law_ranked_sorts(list@);
        lemma_ranked_devices(list@);
    }
    sort(list)
}

/// This device is never among the others, and none of the peers that are added
/// is.
pub proof fn law_self_is_never_listed(
    seen: Seq<DeviceView>,
    entries: Seq<(String, ManualPeer)>,
    my_id: Seq<char>,
)
    ensures
        !listed_device(others(seen, my_id), my_id),
        !listed_device(extra_devices(entries, others(seen, my_id), my_id), my_id),
    decreases entries.len(),
{
    let p = |d: DeviceView| d.device_id != my_id;
    assert forall|i: int| 0 <= i < others(seen, my_id).len() implies (
    #[trigger] others(seen, my_id)[i]).device_id != my_id by {
        seen.lemma_filter_pred(p, i);
    }
    if entries.len() > 0 {
        law_self_is_never_listed(seen, entries.drop_last(), my_id);
        let before = extra_devices(entries.drop_last(), others(seen, my_id), my_id);
        let after = extra_devices(entries, others(seen, my_id), my_id);
        assert forall|i: int| 0 <= i < after.len() implies (#[trigger] after[i]).device_id
            != my_id by {
            if i < before.len() {
                assert(after[i] == before[i]);
            }
        }
    }
}

/// A discovered device wins over a manual peer of the same id.
pub proof fn law_discovery_wins(
    seen: Seq<DeviceView>,
    entries: Seq<(String, ManualPeer)>,
    my_id: Seq<char>,
    id: Seq<char>,
)
    requires
        listed_device(seen, id),
    ensures
        !listed_device(extra_devices(entries, seen, my_id), id),
    decreases entries.len(),
{
    if entries.len() > 0 {
        law_discovery_wins(seen, entries.drop_last(), my_id, id);
        let before = extra_devices(entries.drop_last(), seen, my_id);
        let after = extra_devices(entries, seen, my_id);
        assert forall|i: int| 0 <= i < after.len() implies (#[trigger] after[i]).device_id
            != id by {
            if i < before.len() {
                assert(after[i] == before[i]);
            }
        }
    }
}

/// The list of devices as the user interface gets it, whenever a peer comes,
/// goes or changes.
pub fn devices_payload(
    peers: &PeerTable,
    manual: &KeyMap<String, ManualPeer>,
    my_id: &str,
) -> (r: Vec<DiscoveredDevice>)
    ensures
        devices(r@) == merged(by_name(shown_peers(peers.entries@)), manual.entries@, my_id@),
        manual.entries@.len() > 0 ==> ascending(r@),
{
    let discovered = snapshot(peers);
    merge_devices(discovered, manual, my_id)
}

/// Where to dial a device, and the key it has to prove.
#[derive(Debug)]
pub struct ResolvedPeer {
    pub addr: Ipv4Addr,
    pub port: u16,
    pub key: [u8; 32],
}

/// Resolves a device id: the discovered address first, then a manual one.
pub fn resolve_peer(
    peers: &PeerTable,
    manual: &KeyMap<String, ManualPeer>,
    device_id: &str,
) -> (r: Result<ResolvedPeer>)
    requires
        table_wf(*peers),
        manual.wf(),
    ensures
        match r {
            Ok(t) => {
                &&& is_device_id(device_id@, t.key@)
                &&& if peers@.contains_key(device_id@) {
                    t.addr == peers@[device_id@].addr && t.port == peers@[device_id@].port
                } else {
                    manual@.contains_key(device_id@) && t.addr == manual@[device_id@].addr && t.port
                        == manual@[device_id@].port
                }
            },
            Err(LanBeamError::Protocol(m)) => m@ == "invalid device id"@ && !names_device(
                device_id@,
            ),
            Err(LanBeamError::PeerNotFound) => names_device(device_id@) && !peers@.contains_key(device_id@)
                && !manual@.contains_key(device_id@),
            Err(_) => false,
        },
{
    let key = match decode_device_id(device_id) {
        Some(k) => k,
        None => {
            return Err(LanBeamError::Protocol("invalid device id".to_owned()));
        },
    };
    let id = device_id.to_owned();
    match peers.get(&id) {
        Some(p) => {
            return Ok(ResolvedPeer { addr: p.addr, port: p.port, key });
        },
        None => {},
    }
    match manual.get(&id) {
        Some(p) => {
            return Ok(ResolvedPeer { addr: p.addr, port: p.port, key });
        },
        None => {},
    }
    proof {
        assert(is_device_id(device_id@, key@));
    }
    Err(LanBeamError::PeerNotFound)
}

/// A local address as the user sees it.
#[derive(Debug)]
pub struct NetworkInfo {
    pub ip: String,
    pub broadcast: Option<String>,
}

/// By address.
impl Ranked for Iface {
    open spec fn rank_le(a: Self, b: Self) -> bool {
        a.ip.bits <= b.ip.bits
    }

    fn leq(a: &Self, b: &Self) -> (r: bool) {
        a.ip.bits <= b.ip.bits
    }

    proof fn rank_total(a: Self, b: Self) {
    }

    proof fn rank_trans(a: Self, b: Self, c: Self) {
    }
}

/// Whether `info` shows the interface `i`.
pub open spec fn shows_iface(info: NetworkInfo, i: Iface) -> bool {
    &&& info.ip@ == dotted(i.ip)
    &&& match (info.broadcast, i.broadcast) {
        (Some(s), Some(b)) => s@ == dotted(b),
        (None, None) => true,
        _ => false,
    }
}

/// The local addresses, sorted numerically so that the list keeps still.
pub fn get_network_info(ifaces: Vec<Iface>) -> (r: Vec<NetworkInfo>)
    ensures
        r@.len() == ranked(ifaces@).len(),
        forall|i: int| 0 <= i < r@.len() ==> shows_iface(#[trigger] r@[i], ranked(ifaces@)[i]),
{
    let sorted = sort(ifaces);
    let mut r: Vec<NetworkInfo> = Vec::new();
    for i in 0..sorted.len()
        invariant
            r@.len() == i,
            forall|k: int| 0 <= k < i ==> shows_iface(#[trigger] r@[k], sorted@[k]),
    {
        let broadcast = match sorted[i].broadcast {
            Some(b) => Some(b.to_string()),
            None => None,
        };
        r.push(NetworkInfo { ip: sorted[i].ip.to_string(), broadcast });
    }
    r
}

// ── pairing ───────────────────────────────────────────────────────────────

/// An invitation: the code to enter, and the link to scan.
#[derive(Debug)]
pub struct PairingInvite {
    pub code: String,
    pub qr: String,
}

/// Makes `code` the active invitation, in place of any earlier one.
pub fn invite_with_code(
    session: &mut Option<PairingSession>,
    code: String,
    now: Instant,
    device_id: &str,
    name: &str,
    ip: Option<Ipv4Addr>,
    port: u16,
) -> (r: PairingInvite)
    requires
        now.nanos + Duration::of_secs(PAIRING_CODE_TTL_SECS as nat) <= u128::MAX,
    ensures
        *final(session) matches Some(s) && s.code@ == code@ && s.expires.nanos == now.nanos
            + Duration::of_secs(PAIRING_CODE_TTL_SECS as nat),
        r.code@ == code@,
        r.qr@ == "lanbeam://pair?"@ + link_query(device_id@, name@, ip, port, code@),
{
    let expires = now.after(Duration::from_secs(PAIRING_CODE_TTL_SECS));
    *session = Some(PairingSession { code: code.clone(), expires });
    let qr = build_pair_uri(device_id, name, ip, port, code.as_str());
    PairingInvite { code, qr }
}

/// Starts pairing with a fresh code.
pub fn start_pairing(
    session: &mut Option<PairingSession>,
    now: Instant,
    device_id: &str,
    name: &str,
    ip: Option<Ipv4Addr>,
    port: u16,
) -> (r: PairingInvite)
    requires
        now.nanos + Duration::of_secs(PAIRING_CODE_TTL_SECS as nat) <= u128::MAX,
    ensures
        code_shaped(r.code@),
        *final(session) matches Some(s) && s.code@ == r.code@ && s.expires.nanos == now.nanos
            + Duration::of_secs(PAIRING_CODE_TTL_SECS as nat),
        r.qr@ == "lanbeam://pair?"@ + link_query(device_id@, name@, ip, port, r.code@),
{
    let code = fresh_pairing_code();
    invite_with_code(session, code, now, device_id, name, ip, port)
}

/// Ends the invitation, if there is one.
pub fn cancel_pairing(session: &mut Option<PairingSession>)
    ensures
        *final(session) is None,
{
    *session = None;
}

/// The link that the application was launched with, once.
pub fn take_pending_deep_link(slot: &mut Option<String>) -> (r: Option<String>)
    ensures
        r == *old(slot),
        *final(slot) is None,
{
    slot.take()
}

/// The peer that a handshake reached.
#[derive(Debug)]
pub struct ConnectResult {
    pub device_id: String,
    pub name: String,
    pub sas: String,
}

/// Where to dial for pairing, and the code to present.
#[derive(Debug)]
pub struct JoinPlan {
    pub target: DialTarget,
    pub code: String,
}

/// The code that is presented: the entered one, or that of the link.
pub open spec fn presented_code(entered: Seq<char>, target: TargetView) -> Seq<char> {
    if trimmed(entered).len() > 0 {
        trimmed(entered)
    } else {
        match target.code {
            Some(c) => c,
            None => Seq::empty(),
        }
    }
}

/// Checks what is needed before anything is dialed.
pub fn plan_join(addr: &str, code: String) -> (r: Result<JoinPlan>)
    ensures
        match r {
            Ok(p) => parsed_target(addr@) matches Some(t) && p.target.ip == t.ip && p.target.port
                == t.port && p.code@ == presented_code(code@, t) && p.code@.len() > 0,
            Err(LanBeamError::Protocol(m)) => match parsed_target(addr@) {
                None => m@ == "not a valid address: "@ + addr@,
                Some(t) => presented_code(code@, t).len() == 0 && m@ == "no pairing code provided"@,
            },
            Err(_) => false,
        },
{
    let target = match parse_dial_target(addr) {
        Some(t) => t,
        None => {
            return Err(LanBeamError::Protocol(concat("not a valid address: ", addr)));
        },
    };
    let ip = target.ip;
    let port: u16 = target.port;
    let chosen = pick_code(code, target.code);
    if chosen.as_str().is_empty() {
        return Err(LanBeamError::Protocol("no pairing code provided".to_owned()));
    }
    Ok(JoinPlan { target: DialTarget { ip, port, code: None }, code: chosen })
}

/// Where to dial for a plain connection.
pub fn plan_connect(addr: &str) -> (r: Result<DialTarget>)
    ensures
        match r {
            Ok(t) => parsed_target(addr@) == Some(t@),
            Err(LanBeamError::Protocol(m)) => parsed_target(addr@) is None && m@
                == "not a valid address: "@ + addr@,
            Err(_) => false,
        },
{
    match parse_dial_target(addr) {
        Some(t) => Ok(t),
        None => Err(LanBeamError::Protocol(concat("not a valid address: ", addr))),
    }
}

/// The id of the device that answered; this device itself is refused.
pub fn identify_remote(remote_static: &[u8; 32], my_id: &str) -> (r: Result<String>)
    ensures
        match r {
            Ok(id) => id@ == base64url(remote_static@) && id@ != my_id@,
            Err(LanBeamError::SelfPeer) => base64url(remote_static@) == my_id@,
            Err(_) => false,
        },
{
    let id = encode_base64url(remote_static.as_slice());
    let mine = my_id.to_owned();
    if id == mine {
        return Err(LanBeamError::SelfPeer);
    }
    Ok(id)
}

/// Whether a peer's version supports pairing.
pub fn check_pairing_version(version: u8) -> (r: Result<()>)
    ensures
        match r {
            Ok(()) => version >= TRANSFER_V2,
            Err(LanBeamError::PeerTooOld(m)) => version < TRANSFER_V2 && m@
                == "peer too old for pairing"@,
            Err(_) => false,
        },
{
    if version < TRANSFER_V2 {
        return Err(LanBeamError::PeerTooOld("peer too old for pairing".to_owned()));
    }
    Ok(())
}

/// The first eight characters of a device id.
pub fn short_id(device_id: &str) -> (r: String)
    ensures
        r@ == take_chars(device_id@, 8),
{
    let v = chars_of(device_id);
    if v.len() <= 8 {
        string_of(v.as_slice())
    } else {
        string_of(vstd::slice::slice_subrange(v.as_slice(), 0, 8))
    }
}

/// Whether `r` tells of the peer `id`.
pub open spec fn tells_of(r: ConnectResult, id: Seq<char>, name: Seq<char>, sas: Seq<char>) -> bool {
    r.device_id@ == id && r.name@ == name && r.sas@ == sas
}

/// Whether the manual peers got one under `id`, and the least recently used
/// went if there were too many.
pub open spec fn peer_added(
    before: Map<Seq<char>, ManualPeer>,
    after: Map<Seq<char>, ManualPeer>,
    id: Seq<char>,
    name: Seq<char>,
    addr: Ipv4Addr,
    port: u16,
    now: Instant,
) -> bool {
    exists|p: ManualPeer| #[trigger]
        trimmed_peers(before.insert(id, p), after) && p.name@ == name && p.addr == addr && p.port
            == port && p.last_used == now
}

fn add_peer(
    manual: &mut KeyMap<String, ManualPeer>,
    id: &String,
    name: &String,
    addr: Ipv4Addr,
    port: u16,
    now: Instant,
)
    requires
        old(manual).wf(),
    ensures
        final(manual).wf(),
        peer_added(old(manual)@, final(manual)@, id@, name@, addr, port, now),
{
    let ghost before = manual@;
    let peer = ManualPeer { name: name.clone(), addr, port, last_used: now };
    let ghost p = peer;
    insert_manual_peer(manual, id.clone(), peer);
    proof {
        assert(trimmed_peers(before.insert(id@, p), manual@));
    }
}

/// The peer's answer to a pairing request.
#[derive(Debug)]
pub struct PairAnswer {
    pub accept: bool,
    pub name: String,
    pub reason: Option<String>,
}

/// The name that a peer gives itself, or the beginning of its id.
pub open spec fn peer_label(name: Seq<char>, id: Seq<char>) -> Seq<char> {
    if trimmed(name).len() == 0 {
        take_chars(id, 8)
    } else {
        name
    }
}

/// The end of a pairing. An accepted one is remembered among the manual peers,
/// so that the device can be reached later; nothing is trusted by it. A refused
/// one changes nothing.
pub fn finish_join(
    manual: &mut KeyMap<String, ManualPeer>,
    target: &DialTarget,
    device_id: String,
    sas: String,
    answer: PairAnswer,
    now: Instant,
) -> (r: Result<ConnectResult>)
    requires
        old(manual).wf(),
    ensures
        final(manual).wf(),
        match r {
            Ok(c) => {
                &&& answer.accept
                &&& tells_of(c, device_id@, peer_label(answer.name@, device_id@), sas@)
                &&& peer_added(
                    old(manual)@,
                    final(manual)@,
                    device_id@,
                    peer_label(answer.name@, device_id@),
                    target.ip,
                    target.port,
                    now,
                )
            },
            Err(LanBeamError::Protocol(m)) => {
                &&& !answer.accept
                &&& m@ == match answer.reason {
                    Some(why) => why@,
                    None => "pairing rejected"@,
                }
                &&& final(manual)@ == old(manual)@
            },
            Err(_) => false,
        },
{
    if !answer.accept {
        let why = match answer.reason {
            Some(why) => why,
            None => "pairing rejected".to_owned(),
        };
        return Err(LanBeamError::Protocol(why));
    }
    let t = trim_chars(answer.name.as_str());
    let name = if t.len() == 0 {
        short_id(device_id.as_str())
    } else {
        answer.name
    };
    add_peer(manual, &device_id, &name, target.ip, target.port, now);
    Ok(ConnectResult { device_id, name, sas })
}

/// The name that a peer introduced itself with, without white space at its
/// ends, or the beginning of its id.
pub open spec fn introduced_name(name: Option<String>, id: Seq<char>) -> Seq<char> {
    match name {
        Some(n) => if trimmed(n@).len() == 0 {
            take_chars(id, 8)
        } else {
            trimmed(n@)
        },
        None => take_chars(id, 8),
    }
}

/// The end of a plain connection: the device is remembered among the manual
/// peers. Nothing is sent and nothing is trusted.
pub fn finish_connect(
    manual: &mut KeyMap<String, ManualPeer>,
    target: &DialTarget,
    device_id: String,
    sas: String,
    peer_name: Option<String>,
    now: Instant,
) -> (c: ConnectResult)
    requires
        old(manual).wf(),
    ensures
        final(manual).wf(),
        tells_of(c, device_id@, introduced_name(peer_name, device_id@), sas@),
        peer_added(
            old(manual)@,
            final(manual)@,
            device_id@,
            introduced_name(peer_name, device_id@),
            target.ip,
            target.port,
            now,
        ),
{
    let name = match peer_name {
        Some(n) => {
            let t = trim_string(n.as_str());
            if t.as_str().is_empty() {
                short_id(device_id.as_str())
            } else {
                t
            }
        },
        None => short_id(device_id.as_str()),
    };
    add_peer(manual, &device_id, &name, target.ip, target.port, now);
    ConnectResult { device_id, name, sas }
}

// ── quick text ────────────────────────────────────────────────────────────

/// Whether a text can be sent: it is not blank and not too long.
pub fn check_text(text: &str) -> (r: Result<()>)
    ensures
        match r {
            Ok(()) => trimmed(text@).len() > 0 && encode_utf8(text@).len() <= MAX_TEXT_BYTES,
            Err(LanBeamError::Protocol(m)) => if trimmed(text@).len() == 0 {
                m@ == "no text to send"@
            } else {
                encode_utf8(text@).len() > MAX_TEXT_BYTES && m@ == "text is too long"@
            },
            Err(_) => false,
        },
{
    let t = trim_chars(text);
    if t.len() == 0 {
        return Err(LanBeamError::Protocol("no text to send".to_owned()));
    }
    if text.as_bytes().len() > MAX_TEXT_BYTES {
        return Err(LanBeamError::Protocol("text is too long".to_owned()));
    }
    Ok(())
}

/// Whether a peer's version supports quick text.
pub fn check_text_version(version: u8) -> (r: Result<()>)
    ensures
        match r {
            Ok(()) => version >= TRANSFER_V2,
            Err(LanBeamError::PeerTooOld(m)) => version < TRANSFER_V2 && m@
                == "peer too old for quick text"@,
            Err(_) => false,
        },
{
    if version < TRANSFER_V2 {
        return Err(LanBeamError::PeerTooOld("peer too old for quick text".to_owned()));
    }
    Ok(())
}

// ── incoming requests ─────────────────────────────────────────────────────

/// The conflict choice that came with an answer.
pub open spec fn conflict_choice(conflict: Option<String>) -> Option<ConflictAction> {
    match conflict {
        Some(s) => if s@ == "rename"@ {
            Some(ConflictAction::Rename)
        } else if s@ == "overwrite"@ {
            Some(ConflictAction::Overwrite)
        } else {
            None
        },
        None => None,
    }
}

/// The answer to the prompt that waits under this session, which no longer
/// waits then; nothing when none waits. The number tells the prompts of a
/// session apart.
pub fn reply_file_request(
    pending: &mut KeyMap<String, u64>,
    session_id: &str,
    accept: bool,
    conflict: Option<String>,
) -> (r: Option<(u64, ReplyDecision)>)
    requires
        old(pending).wf(),
    ensures
        final(pending).wf(),
        final(pending)@ == old(pending)@.remove(session_id@),
        r == if old(pending)@.contains_key(session_id@) {
            Some(
                (
                    old(pending)@[session_id@],
                    ReplyDecision { accept, conflict: conflict_choice(conflict) },
                ),
            )
        } else {
            None
        },
{
    let choice = match conflict {
        Some(s) => ConflictAction::parse(s.as_str()),
        None => None,
    };
    let key = session_id.to_owned();
    match pending.remove(&key) {
        Some(generation) => Some((generation, ReplyDecision { accept, conflict: choice })),
        None => None,
    }
}

// ── partial files ─────────────────────────────────────────────────────────

/// An interrupted file as the user sees it.
#[derive(Debug)]
pub struct PartialDto {
    pub device_id: String,
    pub name: String,
    pub written: u64,
    pub size: u64,
}

/// What follows the last slash.
pub open spec fn leaf(path: Seq<char>) -> Seq<char> {
    path.subrange(last_index(path, '/') + 1, path.len() as int)
}

fn leaf_of(path: &str) -> (r: String)
    ensures
        r@ == leaf(path@),
{
    let v = chars_of(path);
    let n: usize = v.len();
    match rindex_of(v.as_slice(), '/') {
        Some(i) => string_of(vstd::slice::slice_subrange(v.as_slice(), i + 1, n)),
        None => {
            proof {
                assert(v@.subrange(0, n as int) =~= v@);
            }
            string_of(v.as_slice())
        },
    }
}

/// Whether `d` shows a record of a device.
pub open spec fn shows_partial(d: PartialDto, device: Seq<char>, r: PartialRecord) -> bool {
    &&& d.device_id@ == device
    &&& d.name@ == leaf(r.disk_rel@)
    &&& d.written == r.bytes_written
    &&& d.size == r.size
}

/// The records of all devices, each with the device it belongs to.
pub open spec fn all_records(entries: Seq<(String, Vec<PartialRecord>)>) -> Seq<
    (Seq<char>, PartialRecord),
>
    decreases entries.len(),
{
    if entries.len() == 0 {
        Seq::empty()
    } else {
        all_records(entries.drop_last()) + entries.last().1@.map_values(
            |r: PartialRecord| (entries.last().0@, r),
        )
    }
}

/// Whether the list shows exactly these records in order.
pub open spec fn shows_all(list: Seq<PartialDto>, all: Seq<(Seq<char>, PartialRecord)>) -> bool {
    &&& list.len() == all.len()
    &&& forall|i: int|
        0 <= i < list.len() ==> shows_partial(#[trigger] list[i], all[i].0, all[i].1)
}

/// Every interrupted file that still has bytes on disk.
pub fn list_partials(store: &PartialsStore) -> (r: Vec<PartialDto>)
    ensures
        shows_all(r@, all_records(store.map.entries@)),
{
    let entries = &store.map.entries;
    let mut r: Vec<PartialDto> = Vec::new();
    for i in 0..entries.len()
        invariant
            entries@ == store.map.entries@,
            shows_all(r@, all_records(entries@.subrange(0, i as int))),
    {
        let ghost before = all_records(entries@.subrange(0, i as int));
        let ghost device = entries@[i as int].0@;
        let ghost list = entries@[i as int].1@;
        let ghost tagged = list.map_values(|x: PartialRecord| (device, x));
        proof {
            assert(entries@.subrange(0, i + 1).drop_last() =~= entries@.subrange(0, i as int));
            assert(entries@.subrange(0, i + 1).last() == entries@[i as int]);
            assert(before + tagged.subrange(0, 0) =~= before);
        }
        let records = &entries[i].1;
        for j in 0..records.len()
            invariant
                records@ == list,
                entries@[i as int].0@ == device,
                i < entries@.len(),
                tagged == list.map_values(|x: PartialRecord| (device, x)),
                shows_all(r@, before + tagged.subrange(0, j as int)),
        {
            let rec = &records[j];
            let ghost so_far = before + tagged.subrange(0, j as int);
            let dto = PartialDto {
                device_id: entries[i].0.clone(),
                name: leaf_of(rec.disk_rel.as_str()),
                written: rec.bytes_written,
                size: rec.size,
            };
            let ghost old_r = r@;
            r.push(dto);
            proof {
                let after = before + tagged.subrange(0, j + 1);
                assert(after =~= so_far.push((device, list[j as int])));
                assert forall|k: int| 0 <= k < r@.len() implies shows_partial(
                    #[trigger] r@[k],
                    after[k].0,
                    after[k].1,
                ) by {
                    if k < old_r.len() {
                        assert(r@[k] == old_r[k]);
                        assert(after[k] == so_far[k]);
                    }
                }
            }
        }
        proof {
            assert(tagged.subrange(0, list.len() as int) =~= tagged);
            assert(all_records(entries@.subrange(0, i + 1)) =~= before + tagged);
        }
    }
    proof {
        assert(entries@.subrange(0, entries@.len() as int) =~= entries@);
    }
    r
}

/// Where the bytes of a list of records are.
pub open spec fn disk_paths(list: Seq<RecordView>) -> Seq<Seq<char>> {
    list.map_values(|r: RecordView| r.disk_rel)
}

/// Forgets the interrupted files of a device. Returns where their bytes are,
/// relative to the download root, to be deleted; nothing, and nothing to write,
/// for a device that has none.
pub fn discard_partials(store: &mut PartialsStore, device_id: &str) -> (r: Option<Vec<String>>)
    requires
        old(store).wf(),
        old(store).seq < u64::MAX,
    ensures
        final(store).wf(),
        final(store).path == old(store).path,
        final(store)@ == old(store)@.remove(device_id@),
        final(store).seq == old(store).seq + if old(store)@.contains_key(device_id@) {
            1int
        } else {
            0
        },
        match r {
            Some(paths) => paths@.len() > 0 && texts(paths@) == disk_paths(
                list_of(old(store)@, device_id@),
            ),
            None => list_of(old(store)@, device_id@).len() == 0,
        },
{
    let removed = store.clear_device(device_id);
    if removed.len() == 0 {
        return None;
    }
    let mut paths: Vec<String> = Vec::new();
    for i in 0..removed.len()
        invariant
            texts(paths@) == disk_paths(records(removed@)).subrange(0, i as int),
    {
        let ghost before = texts(paths@);
        paths.push(removed[i].disk_rel.clone());
        proof {
            assert(texts(paths@) =~= before.push(removed@[i as int].disk_rel@));
            assert(disk_paths(records(removed@)).subrange(0, i + 1) =~= before.push(
                disk_paths(records(removed@))[i as int],
            ));
        }
    }
    proof {
        let all = disk_paths(records(removed@));
        assert(all.subrange(0, all.len() as int) =~= all);
        assert(texts(paths@).len() == paths@.len());
    }
    Some(paths)
}

// ── received files ────────────────────────────────────────────────────────

/// Whether a path can be opened: one that is gone is reported as such.
pub fn check_openable(path: String, exists: bool) -> (r: Result<()>)
    ensures
        match r {
            Ok(()) => exists,
            Err(LanBeamError::NotFound(p)) => !exists && p@ == path@,
            Err(_) => false,
        },
{
    if exists {
        Ok(())
    } else {
        Err(LanBeamError::NotFound(path))
    }
}

/// The paths that a completed transfer saved, none for an unknown one.
pub fn reveal_received(log: &CompletedLog, session_id: &str) -> (r: Vec<String>)
    requires
        log.wf(),
    ensures
        texts(r@) == if logged(log@, session_id@) {
            log@[log_index(log@, session_id@)].1
        } else {
            Seq::empty()
        },
{
    let mut r: Vec<String> = Vec::new();
    match log.get(session_id) {
        Some(paths) => {
            for i in 0..paths.len()
                invariant
                    texts(r@) == texts(paths@.subrange(0, i as int)),
            {
                let ghost before = texts(r@);
                r.push(paths[i].clone());
                proof {
                    assert(texts(r@) =~= before.push(paths@[i as int]@));
                    assert(texts(paths@.subrange(0, i + 1)) =~= texts(
                        paths@.subrange(0, i as int),
                    ).push(paths@[i as int]@));
                }
            }
            proof {
                assert(paths@.subrange(0, paths@.len() as int) =~= paths@);
            }
        },
        None => {
            proof {
                assert(texts(r@) =~= Seq::<Seq<char>>::empty());
            }
        },
    }
    r
}

// ── identity ──────────────────────────────────────────────────────────────

/// What is shown of this device's identity; the private key is no part of it.
#[derive(Debug)]
pub struct MyIdentity {
    pub device_id: String,
    pub short_id: String,
    pub name: String,
}

pub fn get_my_identity(identity: &Identity, name: String) -> (r: MyIdentity)
    ensures
        r.device_id@ == base64url(identity.public_key()),
        r.short_id@ == take_chars(base64url(identity.public_key()), 8),
        r.name@ == name@,
{
    let device_id = identity.device_id();
    let short = short_id(device_id.as_str());
    MyIdentity { device_id, short_id: short, name }
}

/// Whether a device can be put on the trust list: its id is one, and it is not
/// this device.
pub fn may_trust(device_id: &str, my_id: &str) -> (r: bool)
    ensures
        r == (names_device(device_id@) && device_id@ != my_id@),
{
    match decode_device_id(device_id) {
        Some(k) => {
            proof {
                assert(is_device_id(device_id@, k@));
            }
            !crate::text::str_eq(device_id, my_id)
        },
        None => false,
    }
}

/// Forgets the address of a device that was dialed; whether there was one.
pub fn forget_manual(manual: &mut KeyMap<String, ManualPeer>, device_id: &str) -> (dropped: bool)
    requires
        old(manual).wf(),
    ensures
        final(manual).wf(),
        dropped == old(manual)@.contains_key(device_id@),
        final(manual)@ == old(manual)@.remove(device_id@),
{
    let key = device_id.to_owned();
    match manual.remove(&key) {
        Some(_) => true,
        None => false,
    }
}

/// The beginning of an identity reset: the device becomes invisible. Returns
/// whether it was visible before.
pub fn begin_reset(settings: &mut Settings) -> (was_visible: bool)
    ensures
        was_visible == old(settings).discoverable,
        *final(settings) == (Settings { discoverable: false, ..*old(settings) }),
{
    let was: bool = settings.discoverable;
    settings.discoverable = false;
    was
}

/// The end of an identity reset: once the stored identity is gone there is no
/// way back; if it could not be deleted, the device is as visible as before.
pub fn conclude_reset(
    settings: &mut Settings,
    was_visible: bool,
    deleted: Result<()>,
) -> (r: Result<()>)
    ensures
        match deleted {
            Ok(()) => r is Ok && *final(settings) == *old(settings),
            Err(e) => r == Err::<(), LanBeamError>(e) && *final(settings) == (Settings {
                discoverable: was_visible,
                ..*old(settings)
            }),
        },
{
    match deleted {
        Ok(()) => Ok(()),
        Err(e) => {
            settings.discoverable = was_visible;
            Err(e)
        },
    }
}

/// One step of an identity reset. It starts once the device is invisible.
#[derive(Debug, Clone, Copy, PartialEq, Eq, Structural)]
pub enum ResetStep {
    /// Tell the peers to forget this device.
    Announce,
    /// Delete the stored identity.
    DeleteIdentity,
    /// Empty the trust list.
    ClearTrust,
    /// The end: the application restarts with a fresh identity.
    Restart,
    /// The end: the identity could not be deleted and nothing else was touched.
    Refused,
}

impl ResetStep {
    /// What follows a step, given whether it succeeded. Only the deletion can
    /// stop a reset.
    pub open spec fn after(self, ok: bool) -> ResetStep {
        match self {
            ResetStep::Announce => ResetStep::DeleteIdentity,
            ResetStep::DeleteIdentity => if ok {
                ResetStep::ClearTrust
            } else {
                ResetStep::Refused
            },
            ResetStep::ClearTrust => ResetStep::Restart,
            end => end,
        }
    }

    pub fn next(self, ok: bool) -> (r: ResetStep)
        ensures
            r == self.after(ok),
    {
        match self {
            ResetStep::Announce => ResetStep::DeleteIdentity,
            ResetStep::DeleteIdentity => {
                if ok {
                    ResetStep::ClearTrust
                } else {
                    ResetStep::Refused
                }
            },
            ResetStep::ClearTrust => ResetStep::Restart,
            end => end,
        }
    }
}

/// The trust list is emptied, and the application restarted, only once the
/// stored identity is gone.
pub proof fn law_trust_is_cleared_after_the_deletion(step: ResetStep, ok: bool)
    ensures
        step.after(ok) is ClearTrust && !(step is ClearTrust) ==> step is DeleteIdentity && ok,
        step.after(ok) is Restart && !(step is Restart) ==> step is ClearTrust,
        step.after(ok) is Refused && !(step is Refused) ==> step is DeleteIdentity && !ok,
{
}

/// A reset that could not delete the identity leaves the settings as they were.
pub proof fn law_failed_reset_restores_visibility(s: Settings)
    ensures
        (Settings { discoverable: s.discoverable, ..(Settings { discoverable: false, ..s }) }) == s,
{
}

} // verus!
