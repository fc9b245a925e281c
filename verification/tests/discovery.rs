use lanbeam::consts::{PEER_EXPIRY_SECS, PROTO_VERSION};
use lanbeam::discovery::interfaces::{enumerate, select, FoundIface, Iface};
use lanbeam::discovery::packet::DiscoveryPacket;
use lanbeam::discovery::{
    active_interfaces, apply_packet, egress_plan, expire_peers, receive_packet, share_http_advert,
    snapshot, solicited_reply, tombstone, Announcer, Egress, PeerTable, Presence,
};
use lanbeam::net::Ipv4Addr;
use lanbeam::share::{create_share, new_registry, stop_share, PathProbe, ShareCandidate};
use lanbeam::time::{Clock, Duration, Instant};

fn at(secs: u64) -> Instant {
    Instant { nanos: 1_000_000_000_000 + secs as u128 * 1_000_000_000 }
}

fn iface(a: u8, b: u8, c: u8, d: u8) -> Iface {
    Iface {
        ip: Ipv4Addr::new(a, b, c, d),
        broadcast: Some(Ipv4Addr::new(a, b, c, 255)),
    }
}

fn pkt(id: &str, name: &str, disc: bool) -> DiscoveryPacket {
    DiscoveryPacket {
        v: PROTO_VERSION,
        id: id.into(),
        port: 51704,
        name: name.into(),
        disc,
        req: false,
        http: None,
    }
}

fn get<'a>(peers: &'a PeerTable, id: &str) -> &'a lanbeam::discovery::Peer {
    peers.get(&id.to_string()).unwrap()
}

#[test]
fn select_without_filter_keeps_everything() {
    let all = vec![iface(192, 168, 1, 5), iface(10, 0, 0, 7)];
    let (kept, fell_back) = select(all, None);
    assert_eq!(kept.len(), 2);
    assert!(!fell_back);
}

#[test]
fn select_with_matching_filter_keeps_only_that_interface() {
    let all = vec![iface(192, 168, 1, 5), iface(10, 0, 0, 7)];
    let (kept, fell_back) = select(all, Some(Ipv4Addr::new(10, 0, 0, 7)));
    assert_eq!(kept.len(), 1);
    assert_eq!(kept[0].ip, Ipv4Addr::new(10, 0, 0, 7));
    assert!(!fell_back);
}

#[test]
fn select_with_stale_filter_falls_back_to_all() {
    let all = vec![iface(192, 168, 1, 5), iface(10, 0, 0, 7)];
    let (kept, fell_back) = select(all, Some(Ipv4Addr::new(172, 16, 0, 1)));
    assert_eq!(kept.len(), 2, "fallback must keep the full enumeration");
    assert!(fell_back, "the caller needs to know, to log the drift");
}

#[test]
fn select_on_empty_enumeration_reports_fallback_once_worthy() {
    let (kept, fell_back) = select(Vec::new(), Some(Ipv4Addr::new(10, 0, 0, 7)));
    assert!(kept.is_empty());
    assert!(
        fell_back,
        "an empty enumeration cannot match — fallback is reported"
    );
}

#[test]
fn loopback_and_v6_interfaces_are_left_out() {
    let found = vec![
        FoundIface::Loopback,
        FoundIface::V4(iface(10, 0, 0, 7)),
        FoundIface::V6,
        FoundIface::V4(iface(192, 168, 1, 5)),
    ];
    assert_eq!(
        enumerate(Some(found)),
        vec![iface(10, 0, 0, 7), iface(192, 168, 1, 5)]
    );
    assert!(enumerate(None).is_empty());
}

#[test]
fn apply_packet_upsert_dedup_tombstone_self() {
    let mut peers = PeerTable::new();
    let ip = Ipv4Addr::new(192, 168, 1, 5);
    assert!(apply_packet(&mut peers, "me", ip, &pkt("peerA", "A", true), at(0)));
    assert_eq!(peers.len(), 1);
    assert!(!apply_packet(&mut peers, "me", ip, &pkt("peerA", "A", true), at(0)));
    assert!(apply_packet(&mut peers, "me", ip, &pkt("peerA", "A2", true), at(0)));
    assert!(!apply_packet(&mut peers, "peerA", ip, &pkt("peerA", "A2", true), at(0)));
    assert!(apply_packet(&mut peers, "me", ip, &pkt("peerA", "A2", false), at(0)));
    assert_eq!(peers.len(), 0);
}

#[test]
fn apply_packet_ignores_wrong_proto_version() {
    let mut peers = PeerTable::new();
    let ip = Ipv4Addr::new(192, 168, 1, 5);
    let mut stranger = pkt("peerA", "A", true);
    stranger.v = PROTO_VERSION + 1;
    assert!(!apply_packet(&mut peers, "me", ip, &stranger, at(0)));
    assert_eq!(peers.len(), 0, "an alien-version packet is never stored");
}

#[test]
fn apply_packet_tombstone_for_unknown_peer_is_no_change() {
    let mut peers = PeerTable::new();
    let ip = Ipv4Addr::new(192, 168, 1, 5);
    assert!(!apply_packet(&mut peers, "me", ip, &pkt("ghost", "Ghost", false), at(0)));
    assert_eq!(peers.len(), 0);
}

#[test]
fn apply_packet_port_change_is_change() {
    let mut peers = PeerTable::new();
    let ip = Ipv4Addr::new(192, 168, 1, 5);
    assert!(apply_packet(&mut peers, "me", ip, &pkt("peerA", "A", true), at(0)));
    let mut moved = pkt("peerA", "A", true);
    moved.port = 51705;
    assert!(apply_packet(&mut peers, "me", ip, &moved, at(0)));
    assert_eq!(get(&peers, "peerA").port, 51705);
}

#[test]
fn apply_packet_addr_change_is_change() {
    let mut peers = PeerTable::new();
    let ip1 = Ipv4Addr::new(192, 168, 1, 5);
    let ip2 = Ipv4Addr::new(192, 168, 1, 6);
    assert!(apply_packet(&mut peers, "me", ip1, &pkt("peerA", "A", true), at(0)));
    assert!(apply_packet(&mut peers, "me", ip2, &pkt("peerA", "A", true), at(0)));
    assert_eq!(get(&peers, "peerA").addr, ip2);
}

#[test]
fn apply_packet_trims_and_clamps_stored_name() {
    let mut peers = PeerTable::new();
    let ip = Ipv4Addr::new(192, 168, 1, 5);
    let long: String = "x".repeat(200);
    let padded = format!("  {long}  ");
    apply_packet(&mut peers, "me", ip, &pkt("peerA", &padded, true), at(0));
    let stored = &get(&peers, "peerA").name;
    assert!(!stored.starts_with(' ') && !stored.ends_with(' '), "trimmed");
    assert!(
        stored.chars().count() <= 63,
        "clamped to the name cap, was {}",
        stored.chars().count()
    );
}

#[test]
fn a_silent_peer_expires() {
    let mut peers = PeerTable::new();
    let ip = Ipv4Addr::new(192, 168, 1, 5);
    apply_packet(&mut peers, "me", ip, &pkt("peerA", "A", true), at(0));
    apply_packet(&mut peers, "me", ip, &pkt("peerB", "B", true), at(1));
    assert!(!expire_peers(&mut peers, at(PEER_EXPIRY_SECS - 1)));
    assert!(expire_peers(&mut peers, at(PEER_EXPIRY_SECS)));
    assert_eq!(peers.len(), 1);
    assert!(peers.contains_key(&"peerB".to_string()));
}

#[test]
fn the_snapshot_is_ordered_by_name() {
    let mut peers = PeerTable::new();
    let ip = Ipv4Addr::new(192, 168, 1, 5);
    for (id, name) in [("1", "zeta"), ("2", "Alpha"), ("3", "beta")] {
        apply_packet(&mut peers, "me", ip, &pkt(id, name, true), at(0));
    }
    let names: Vec<String> = snapshot(&peers).into_iter().map(|d| d.name).collect();
    assert_eq!(names, vec!["Alpha", "beta", "zeta"]);
}

fn two() -> Vec<Iface> {
    vec![iface(192, 168, 1, 5), iface(10, 0, 0, 7)]
}

#[test]
fn active_interfaces_default_is_not_confined() {
    let mut warned = false;
    let a = active_interfaces(&None, two(), &mut warned);
    assert!(!a.confined, "no filter set means egress is never confined");
    assert_eq!(a.kept, two());
}

#[test]
fn active_interfaces_unparseable_filter_is_not_confined() {
    let mut warned = false;
    let a = active_interfaces(&Some("not-an-ip".into()), two(), &mut warned);
    assert!(
        !a.confined,
        "an unparseable filter is ignored, never confining"
    );
}

#[test]
fn active_interfaces_stale_filter_falls_back_not_confined() {
    let mut warned = false;
    let a = active_interfaces(&Some("203.0.113.99".into()), two(), &mut warned);
    assert!(!a.confined, "a stale filter must not confine egress");
    assert_eq!(a.kept.len(), two().len(), "the fallback keeps the full enumeration");
    assert!(a.warn, "the drift is reported");
    let again = active_interfaces(&Some("203.0.113.99".into()), two(), &mut warned);
    assert!(!again.warn, "and only once");
}

#[test]
fn active_interfaces_matching_filter_confines() {
    let mut warned = false;
    let first = two()[0];
    let a = active_interfaces(&Some(first.ip.to_string()), two(), &mut warned);
    assert!(a.confined, "a live-matching filter confines egress");
    assert!(
        a.kept.iter().all(|i| i.ip == first.ip),
        "only the selected interface is kept"
    );
}

#[test]
fn confined_announces_stay_on_the_interface() {
    let one = vec![
        iface(10, 0, 0, 7),
        Iface { ip: Ipv4Addr::new(10, 8, 0, 1), broadcast: None },
    ];
    assert_eq!(
        egress_plan(&one, true),
        vec![
            Egress::GroupVia(Ipv4Addr::new(10, 0, 0, 7)),
            Egress::Directed(Ipv4Addr::new(10, 0, 0, 255)),
            Egress::GroupVia(Ipv4Addr::new(10, 8, 0, 1)),
        ]
    );
    assert_eq!(
        egress_plan(&one, false),
        vec![
            Egress::ResetMulticast,
            Egress::Group,
            Egress::Directed(Ipv4Addr::new(10, 0, 0, 255)),
            Egress::Limited,
        ]
    );
}

fn me(discoverable: bool) -> Presence {
    Presence {
        device_id: "me".to_string(),
        name: "Me".to_string(),
        discoverable,
        port: 51704,
        http: Some(52200),
    }
}

#[test]
fn going_dark_announces_one_tombstone() {
    let mut a = Announcer::new();
    let first = a.tick(&me(true)).unwrap();
    assert!(first.disc && first.req, "the first announce asks others to answer");
    assert_eq!(first.http, Some(52200));
    let second = a.tick(&me(true)).unwrap();
    assert!(second.disc && !second.req);
    let last = a.tick(&me(false)).unwrap();
    assert!(!last.disc);
    assert_eq!(last.http, None);
    assert!(a.tick(&me(false)).is_none());
    assert!(a.tick(&me(true)).unwrap().disc);
    assert!(!tombstone("me".to_string(), "Me".to_string(), 1).disc);
}

#[test]
fn a_packet_carries_at_most_63_bytes_of_a_name() {
    let mut long = me(true);
    long.name = "😀".repeat(20);
    let packet = Announcer::new().tick(&long).unwrap();
    assert_eq!(packet.name, "😀".repeat(15));
    assert_eq!(tombstone("me".to_string(), long.name, 1).name.len(), 60);
}

#[test]
fn a_request_is_answered_while_visible() {
    let mut ask = pkt("peerA", "A", true);
    assert!(solicited_reply(&ask, &me(true)).is_none());
    ask.req = true;
    let reply = solicited_reply(&ask, &me(true)).unwrap();
    assert!(reply.disc && !reply.req);
    assert_eq!(reply.id, "me");
    assert!(solicited_reply(&ask, &me(false)).is_none());
    let mut own = pkt("me", "Me", true);
    own.req = true;
    let mut peers = PeerTable::new();
    let r = receive_packet(&mut peers, &me(true), Ipv4Addr::new(10, 0, 0, 1), &own, at(0));
    assert!(!r.changed && r.reply.is_none(), "this device does not answer itself");
}

#[test]
fn a_share_is_advertised_while_it_serves() {
    let mut reg = new_registry();
    assert_eq!(share_http_advert(52200, &reg, at(0)), None);
    let file = ShareCandidate {
        name: "a".to_string(),
        path: "/a".to_string(),
        probe: PathProbe::Regular(1),
    };
    let clock = Clock { now: at(0), unix_secs: 0 };
    let token = create_share(&mut reg, vec![file], Duration::from_secs(60), None, clock).unwrap();
    assert_eq!(share_http_advert(52200, &reg, at(0)), Some(52200));
    assert_eq!(share_http_advert(0, &reg, at(0)), None);
    stop_share(&mut reg, &token);
    assert_eq!(share_http_advert(52200, &reg, at(0)), None);
}
