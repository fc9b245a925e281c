use lanbeam::commands::{
    begin_reset, cancel_pairing, check_openable, check_pairing_version, check_text,
    check_text_version, conclude_reset, devices_payload, discard_partials, finish_connect, finish_join,
    forget_manual, get_my_identity, get_network_info, identify_remote, invite_with_code,
    list_partials, may_trust, merge_devices, plan_connect, plan_join, reply_file_request,
    resolve_peer, reveal_received, short_id, start_pairing, take_pending_deep_link, PairAnswer, ResetStep,
};
use lanbeam::consts::{MAX_TEXT_BYTES, PAIRING_CODE_TTL_SECS, TRANSFER_V1, TRANSFER_V2};
use lanbeam::discovery::interfaces::Iface;
use lanbeam::discovery::{DiscoveredDevice, Peer, PeerTable};
use lanbeam::error::LanBeamError;
use lanbeam::identity::{generate_identity, identity_from_keys};
use lanbeam::keymap::KeyMap;
use lanbeam::net::Ipv4Addr;
use lanbeam::partials::{PartialRecord, PartialsStore, StoredTable};
use lanbeam::settings::Settings;
use lanbeam::state::{CompletedLog, ConflictAction, ManualPeer, ReplyDecision};
use lanbeam::time::Instant;

fn now() -> Instant {
    Instant { nanos: 1_000_000_000_000 }
}

fn in_a_minute() -> Instant {
    Instant { nanos: 1_060_000_000_000 }
}

fn manual_peer(name: &str, addr: Ipv4Addr, port: u16) -> ManualPeer {
    ManualPeer { name: name.to_string(), addr, port, last_used: now() }
}

fn device(id: &str, name: &str, address: &str) -> DiscoveredDevice {
    DiscoveredDevice {
        device_id: id.into(),
        name: name.into(),
        address: address.into(),
        port: 52637,
        manual: false,
    }
}

fn peer(id: &str, name: &str, addr: Ipv4Addr, port: u16) -> Peer {
    Peer { id: id.to_string(), name: name.to_string(), addr, port, expires: in_a_minute() }
}

fn fresh_id() -> String {
    generate_identity().unwrap().device_id()
}

#[test]
fn merge_devices_appends_manual_and_dedupes() {
    let discovered = vec![device("shared", "Discovered Name", "192.168.1.5")];
    let mut manual = KeyMap::new();
    manual.insert(
        "shared".to_string(),
        manual_peer("Manual Name", Ipv4Addr::new(10, 0, 0, 1), 9),
    );
    manual.insert(
        "alpha".to_string(),
        manual_peer("Alpha", Ipv4Addr::new(10, 0, 0, 2), 51704),
    );

    let merged = merge_devices(discovered, &manual, "me");
    assert_eq!(merged.len(), 2, "one shared (deduped) + one new");
    let shared = merged.iter().find(|d| d.device_id == "shared").unwrap();
    assert_eq!(
        shared.name, "Discovered Name",
        "the live discovery entry wins the collision"
    );
    assert_eq!(shared.address, "192.168.1.5");
    let alpha = merged.iter().find(|d| d.device_id == "alpha").unwrap();
    assert_eq!(alpha.address, "10.0.0.2");
    assert_eq!(merged[0].device_id, "alpha");
}

#[test]
fn devices_are_ordered_without_regard_to_case() {
    let mut manual = KeyMap::new();
    for (id, name) in [("1", "beta"), ("2", "ÄRGER"), ("3", "Alpha"), ("4", "alpha")] {
        manual.insert(id.to_string(), manual_peer(name, Ipv4Addr::new(10, 0, 0, 1), 1));
    }
    let merged = merge_devices(vec![device("9", "Zeta", "10.0.0.9")], &manual, "me");
    let names: Vec<String> = merged.into_iter().map(|d| d.name).collect();
    assert_eq!(names, vec!["Alpha", "alpha", "beta", "Zeta", "ÄRGER"]);
}

#[test]
fn devices_of_the_same_name_keep_their_order() {
    let discovered = vec![
        device("b", "Same", "10.0.0.1"),
        device("a", "SAME", "10.0.0.2"),
        device("c", "Later", "10.0.0.3"),
    ];
    let mut manual = KeyMap::new();
    manual.insert("0".to_string(), manual_peer("same", Ipv4Addr::new(10, 0, 0, 4), 1));
    let ids: Vec<String> =
        merge_devices(discovered, &manual, "me").into_iter().map(|d| d.device_id).collect();
    assert_eq!(ids, vec!["c", "b", "a", "0"], "discovered ones before the manual one");
}

#[test]
fn manual_recorded_paired_peer_is_reachable_and_listed() {
    let peer_id = fresh_id();
    let addr = Ipv4Addr::new(10, 1, 2, 3);
    let port = 51999;
    let peers: PeerTable = KeyMap::new();
    let mut manual = KeyMap::new();
    manual.insert(peer_id.clone(), manual_peer("Paired", addr, port));

    let r = resolve_peer(&peers, &manual, &peer_id)
        .expect("the paired peer resolves for a later send");
    assert_eq!(r.addr, addr, "resolve returns the dialed address");
    assert_eq!(r.port, port, "resolve returns the dialed port");

    let list = devices_payload(&peers, &manual, "me");
    assert!(
        list.iter().any(|d| d.device_id == peer_id && d.address == "10.1.2.3"),
        "the paired peer appears in the devices snapshot"
    );
}

#[test]
fn resolve_peer_rejects_bad_and_unknown_ids() {
    let peers: PeerTable = KeyMap::new();
    let manual = KeyMap::new();
    let err = resolve_peer(&peers, &manual, "!!!").unwrap_err();
    assert!(
        matches!(err, LanBeamError::Protocol(_)),
        "a malformed device id is a protocol error"
    );
    let unknown = fresh_id();
    let err = resolve_peer(&peers, &manual, &unknown).unwrap_err();
    assert!(
        matches!(err, LanBeamError::PeerNotFound),
        "a valid but unknown id is PeerNotFound"
    );
}

#[test]
fn resolve_peer_prefers_discovery_over_manual() {
    let id = fresh_id();
    let disc_addr = Ipv4Addr::new(192, 168, 1, 50);
    let manual_addr = Ipv4Addr::new(10, 9, 9, 9);
    let mut peers: PeerTable = KeyMap::new();
    peers.insert(id.clone(), peer(&id, "Disc", disc_addr, 51000));
    let mut manual = KeyMap::new();
    manual.insert(id.clone(), manual_peer("Manual", manual_addr, 52000));
    let r = resolve_peer(&peers, &manual, &id).expect("a discovered peer resolves");
    assert_eq!(r.addr, disc_addr, "the discovery table wins the address");
    assert_eq!(r.port, 51000, "the discovery table wins the port");
}

#[test]
fn a_resolved_key_is_the_one_that_the_id_names() {
    let me = generate_identity().unwrap();
    let mut peers: PeerTable = KeyMap::new();
    peers.insert(me.device_id(), peer(&me.device_id(), "P", Ipv4Addr::new(10, 0, 0, 1), 1));
    let r = resolve_peer(&peers, &KeyMap::new(), &me.device_id()).unwrap();
    assert_eq!(r.key, me.public);
}

#[test]
fn list_devices_snapshot_merges_discovery_and_manual() {
    let disc_id = fresh_id();
    let mut peers: PeerTable = KeyMap::new();
    peers.insert(disc_id.clone(), peer(&disc_id, "Zeta", Ipv4Addr::new(192, 168, 1, 7), 51000));
    let mut manual = KeyMap::new();
    manual.insert(
        "manual-id".to_string(),
        manual_peer("Alpha", Ipv4Addr::new(10, 0, 0, 4), 52000),
    );
    let list = devices_payload(&peers, &manual, "me");
    assert_eq!(list.len(), 2, "discovery + manual both appear");
    assert_eq!(list[0].device_id, "manual-id");
    assert!(
        list.iter().any(|d| d.device_id == disc_id && d.address == "192.168.1.7"),
        "the discovered peer is present with its source address"
    );
}

#[test]
fn merge_devices_never_lists_this_device() {
    let discovered = vec![device("me", "Me (somehow announced)", "192.168.1.5")];
    let mut manual = KeyMap::new();
    manual.insert(
        "me".to_string(),
        manual_peer("Me (dialled my own address)", Ipv4Addr::new(127, 0, 0, 1), 51704),
    );
    manual.insert(
        "someone-else".to_string(),
        manual_peer("Real Peer", Ipv4Addr::new(10, 0, 0, 2), 51704),
    );
    let merged = merge_devices(discovered, &manual, "me");
    assert!(
        merged.iter().all(|d| d.device_id != "me"),
        "this device must never be listed as a peer of itself"
    );
    assert_eq!(merged.len(), 1, "the real peer still comes through");
    assert_eq!(merged[0].device_id, "someone-else");
}

#[test]
fn merge_devices_flags_manual_peers() {
    let discovered = vec![device("announced", "Announced", "192.168.1.5")];
    let mut manual = KeyMap::new();
    manual.insert(
        "typed-in".to_string(),
        manual_peer("Typed In", Ipv4Addr::new(10, 0, 0, 2), 51704),
    );
    let merged = merge_devices(discovered, &manual, "me");
    let by = |id: &str| merged.iter().find(|d| d.device_id == id).unwrap().manual;
    assert!(!by("announced"), "it announced itself");
    assert!(by("typed-in"), "someone typed its address");
}

#[test]
fn merge_devices_with_no_manual_returns_discovery_unchanged() {
    let discovered = vec![device("only", "Only", "192.168.1.1")];
    let merged = merge_devices(discovered.clone(), &KeyMap::new(), "me");
    assert_eq!(merged.len(), 1);
    assert_eq!(merged[0].device_id, "only");
    assert_eq!(merged[0].address, "192.168.1.1");
}

#[test]
fn devices_payload_includes_manual_peer() {
    let mut peers: PeerTable = KeyMap::new();
    peers.insert(
        "disc1".to_string(),
        peer("disc1", "Discovered", Ipv4Addr::new(192, 168, 1, 2), 51704),
    );
    let mut manual = KeyMap::new();
    manual.insert(
        "man1".to_string(),
        manual_peer("Manual", Ipv4Addr::new(10, 0, 0, 9), 51704),
    );
    let payload = devices_payload(&peers, &manual, "me");
    assert!(
        payload.iter().any(|d| d.device_id == "disc1"),
        "the discovered peer is present"
    );
    let man = payload
        .iter()
        .find(|d| d.device_id == "man1")
        .expect("the manual peer is merged into the devices_updated payload");
    assert_eq!(
        man.address, "10.0.0.9",
        "the manual peer keeps its dialed address"
    );
}

#[test]
fn network_info_lists_addresses_in_order() {
    let info = get_network_info(vec![
        Iface {
            ip: Ipv4Addr::new(192, 168, 1, 5),
            broadcast: Some(Ipv4Addr::new(192, 168, 1, 255)),
        },
        Iface { ip: Ipv4Addr::new(10, 0, 0, 1), broadcast: None },
    ]);
    assert_eq!(info.len(), 2);
    assert_eq!(info[0].ip, "10.0.0.1", "in numerical order");
    assert_eq!(info[0].broadcast, None);
    assert_eq!(info[1].ip, "192.168.1.5");
    assert_eq!(info[1].broadcast.as_deref(), Some("192.168.1.255"));
}

#[test]
fn an_invitation_replaces_the_one_before() {
    let mut session = None;
    let ip = Some(Ipv4Addr::new(192, 168, 1, 20));
    let first = start_pairing(&mut session, now(), "dev", "My PC", ip, 51704);
    assert_eq!(session.as_ref().unwrap().code, first.code);
    let second =
        invite_with_code(&mut session, "012345".to_string(), now(), "dev", "My PC", ip, 51704);
    assert_eq!(second.qr, "lanbeam://pair?d=dev&n=My%20PC&a=192.168.1.20&p=51704&c=012345");
    let s = session.as_ref().unwrap();
    assert_eq!(s.code, "012345");
    assert_eq!(s.expires.nanos - now().nanos, PAIRING_CODE_TTL_SECS as u128 * 1_000_000_000);
    cancel_pairing(&mut session);
    assert!(session.is_none());
}

#[test]
fn a_deep_link_is_handed_out_once() {
    let mut slot = Some("lanbeam://pair?a=1.2.3.4".to_string());
    assert_eq!(take_pending_deep_link(&mut slot).as_deref(), Some("lanbeam://pair?a=1.2.3.4"));
    assert_eq!(take_pending_deep_link(&mut slot), None);
}

fn protocol_text(e: LanBeamError) -> String {
    match e {
        LanBeamError::Protocol(m) => m,
        other => panic!("{other:?}"),
    }
}

#[test]
fn joining_needs_an_address_and_a_code() {
    let plan = plan_join("10.0.0.7:5000", " 123456 ".to_string()).unwrap();
    assert_eq!(plan.target.ip, Ipv4Addr::new(10, 0, 0, 7));
    assert_eq!(plan.target.port, 5000);
    assert_eq!(plan.code, "123456");
    let plan = plan_join("lanbeam://pair?a=10.0.0.7&c=999999", String::new()).unwrap();
    assert_eq!(plan.code, "999999");
    assert_eq!(
        protocol_text(plan_join("nowhere", "1".to_string()).unwrap_err()),
        "not a valid address: nowhere"
    );
    assert_eq!(
        protocol_text(plan_join("10.0.0.7", "  ".to_string()).unwrap_err()),
        "no pairing code provided"
    );
    assert_eq!(plan_connect("10.0.0.7").unwrap().ip, Ipv4Addr::new(10, 0, 0, 7));
    assert_eq!(
        protocol_text(plan_connect("x").unwrap_err()),
        "not a valid address: x"
    );
}

#[test]
fn this_device_is_refused_as_a_peer() {
    let me = generate_identity().unwrap();
    match identify_remote(&me.public, &me.device_id()) {
        Err(LanBeamError::SelfPeer) => {}
        other => panic!("{other:?}"),
    }
    assert_eq!(identify_remote(&me.public, "other").unwrap(), me.device_id());
    assert!(!may_trust(&me.device_id(), &me.device_id()));
    assert!(may_trust(&me.device_id(), "other"));
    assert!(!may_trust("!!!", "other"));
}

#[test]
fn old_peers_are_told_apart() {
    assert!(check_pairing_version(TRANSFER_V2).is_ok());
    match check_pairing_version(TRANSFER_V1) {
        Err(LanBeamError::PeerTooOld(m)) => assert_eq!(m, "peer too old for pairing"),
        other => panic!("{other:?}"),
    }
    assert!(check_text_version(TRANSFER_V2).is_ok());
    match check_text_version(TRANSFER_V1) {
        Err(LanBeamError::PeerTooOld(m)) => assert_eq!(m, "peer too old for quick text"),
        other => panic!("{other:?}"),
    }
}

#[test]
fn an_accepted_pairing_is_remembered_and_a_refused_one_is_not() {
    let target = plan_connect("10.0.0.7:5000").unwrap();
    let mut manual = KeyMap::new();
    let no = PairAnswer { accept: false, name: "B".into(), reason: Some("code expired".into()) };
    let e = finish_join(&mut manual, &target, "id-1".into(), "sas".into(), no, now());
    assert_eq!(protocol_text(e.unwrap_err()), "code expired");
    let no = PairAnswer { accept: false, name: "B".into(), reason: None };
    let e = finish_join(&mut manual, &target, "id-1".into(), "sas".into(), no, now());
    assert_eq!(protocol_text(e.unwrap_err()), "pairing rejected");
    assert_eq!(manual.len(), 0);

    let yes = PairAnswer { accept: true, name: "Bob".into(), reason: None };
    let c = finish_join(&mut manual, &target, "id-1".into(), "sas".into(), yes, now()).unwrap();
    assert_eq!((c.device_id.as_str(), c.name.as_str(), c.sas.as_str()), ("id-1", "Bob", "sas"));
    let m = manual.get(&"id-1".to_string()).unwrap();
    assert_eq!((m.name.as_str(), m.addr, m.port), ("Bob", Ipv4Addr::new(10, 0, 0, 7), 5000));
}

#[test]
fn a_connection_is_remembered_under_the_introduced_name() {
    let target = plan_connect("10.0.0.7:5000").unwrap();
    let mut manual = KeyMap::new();
    let c = finish_connect(
        &mut manual,
        &target,
        "abcdefghij".into(),
        "s".into(),
        Some("  Ann ".into()),
        now(),
    );
    assert_eq!(c.name, "Ann");
    let c = finish_connect(&mut manual, &target, "abcdefghij".into(), "s".into(), None, now());
    assert_eq!(c.name, "abcdefgh");
    assert_eq!(manual.len(), 1);
    assert!(forget_manual(&mut manual, "abcdefghij"));
    assert!(!forget_manual(&mut manual, "abcdefghij"));
    assert_eq!(short_id("abc"), "abc");
}

#[test]
fn texts_are_neither_blank_nor_too_long() {
    assert!(check_text("hi").is_ok());
    assert_eq!(protocol_text(check_text(" \n\t ").unwrap_err()), "no text to send");
    assert!(check_text(&"x".repeat(MAX_TEXT_BYTES)).is_ok());
    assert_eq!(
        protocol_text(check_text(&"x".repeat(MAX_TEXT_BYTES + 1)).unwrap_err()),
        "text is too long"
    );
    let wide = "é".repeat(MAX_TEXT_BYTES / 2 + 1);
    assert!(check_text(&wide).is_err(), "the length is that of the bytes");
}

#[test]
fn a_prompt_is_answered_once() {
    let mut pending = KeyMap::new();
    pending.insert("s".to_string(), 7u64);
    assert_eq!(reply_file_request(&mut pending, "t", true, None), None);
    assert_eq!(
        reply_file_request(&mut pending, "s", true, Some("overwrite".to_string())),
        Some((7, ReplyDecision { accept: true, conflict: Some(ConflictAction::Overwrite) }))
    );
    assert_eq!(reply_file_request(&mut pending, "s", true, None), None);
}

#[test]
fn partial_files_are_listed_by_device() {
    let rec = |rel: &str, n: u64| PartialRecord {
        rel: rel.to_string(),
        size: 1000,
        sha256: None,
        disk_rel: rel.to_string(),
        bytes_written: n,
    };
    let store = PartialsStore::load(
        "p".to_string(),
        StoredTable::Parsed(vec![("dev".to_string(), vec![rec("a/b.bin", 10), rec("c", 20)])]),
    );
    let list = list_partials(&store);
    assert_eq!(list.len(), 2);
    assert_eq!(list[0].device_id, "dev");
    assert_eq!((list[0].written, list[0].size), (10, 1000));
    assert_eq!((list[1].name.as_str(), list[1].written), ("c", 20));
}

#[test]
fn received_files_are_revealed_by_session() {
    let mut log = CompletedLog::new();
    log.insert("s".to_string(), vec!["/d/a".to_string(), "/d/b".to_string()]);
    assert_eq!(reveal_received(&log, "s"), vec!["/d/a", "/d/b"]);
    assert!(reveal_received(&log, "t").is_empty());
    assert!(check_openable("/d/a".to_string(), true).is_ok());
    match check_openable("/d/a".to_string(), false) {
        Err(LanBeamError::NotFound(p)) => assert_eq!(p, "/d/a"),
        other => panic!("{other:?}"),
    }
}

#[test]
fn the_identity_that_is_shown_holds_no_private_key() {
    let id = identity_from_keys(&[0u8; 32], &[9u8; 32]).unwrap();
    let shown = get_my_identity(&id, "Me".to_string());
    assert_eq!(shown.device_id, "A".repeat(43));
    assert_eq!(shown.short_id, "AAAAAAAA");
    assert_eq!(shown.name, "Me");
}

#[test]
fn a_failed_reset_restores_visibility() {
    for visible in [true, false] {
        let mut s = Settings::defaults("d".to_string());
        s.discoverable = visible;
        let was = begin_reset(&mut s);
        assert!(!s.discoverable);
        let r = conclude_reset(&mut s, was, Err(LanBeamError::Crypto("keychain".into())));
        assert!(matches!(r, Err(LanBeamError::Crypto(_))));
        assert_eq!(s.discoverable, visible);
        let was = begin_reset(&mut s);
        assert!(conclude_reset(&mut s, was, Ok(())).is_ok());
        assert!(!s.discoverable);
    }
}

#[test]
fn a_reset_clears_the_trust_list_after_the_deletion() {
    let step = ResetStep::Announce.next(false);
    assert_eq!(step, ResetStep::DeleteIdentity, "a lost announcement stops nothing");
    assert_eq!(step.next(false), ResetStep::Refused);
    let step = step.next(true);
    assert_eq!(step, ResetStep::ClearTrust);
    assert_eq!(step.next(false), ResetStep::Restart);
}

#[test]
fn discarding_names_the_files_to_delete() {
    let rec = |rel: &str, disk: &str| PartialRecord {
        rel: rel.to_string(),
        size: 1,
        sha256: None,
        disk_rel: disk.to_string(),
        bytes_written: 0,
    };
    let mut store = PartialsStore::load(
        "p".to_string(),
        StoredTable::Parsed(vec![
            ("dev".to_string(), vec![rec("a", "2024/a"), rec("b", "b (1)")]),
            ("other".to_string(), vec![rec("c", "c")]),
        ]),
    );
    let seq = store.seq;
    assert_eq!(discard_partials(&mut store, "dev"), Some(vec!["2024/a".into(), "b (1)".into()]));
    assert_eq!(store.seq, seq + 1);
    assert_eq!(store.len(), 1, "the other device keeps its files");
    assert_eq!(discard_partials(&mut store, "dev"), None);
    assert_eq!(store.seq, seq + 1, "nothing to write the second time");
}
