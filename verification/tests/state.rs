use lanbeam::consts::{
    MAX_PAIR_FAILURES, MAX_PAIR_TRACKED_IPS, MAX_TEXT_PER_WINDOW, MAX_TEXT_TRACKED_IPS,
    PAIR_FAILURE_WINDOW_SECS, TEXT_RATE_WINDOW_SECS,
};
use lanbeam::keymap::KeyMap;
use lanbeam::net::{IpAddr, Ipv4Addr};
use lanbeam::state::{
    cancel_transfer_ctl, insert_manual_peer, set_transfer_paused_ctl, CompletedLog,
    ConcurrencyGate, ConflictAction, ManualPeer, PairRateLimiter, PairingSession, PairingState,
    ReplyDecision, TextRateLimiter, TransferControl, TransferCtlGuard, TransfersCtl, COMPLETED_CAP,
    MAX_MANUAL_PEERS,
};
use lanbeam::time::Instant;

const START: u128 = 5_000_000_000_000;

fn at_millis(ms: u64) -> Instant {
    Instant { nanos: START + ms as u128 * 1_000_000 }
}

fn at(secs: u64) -> Instant {
    at_millis(secs * 1000)
}

fn v4(a: u8, b: u8, c: u8, d: u8) -> IpAddr {
    IpAddr::V4(Ipv4Addr::new(a, b, c, d))
}

fn p(i: usize) -> Vec<String> {
    vec![format!("file-{i}")]
}

#[test]
fn completed_log_evicts_oldest_beyond_cap() {
    let mut log = CompletedLog::new();
    for i in 0..COMPLETED_CAP + 10 {
        log.insert(format!("s{i}"), p(i));
    }
    assert_eq!(log.len(), COMPLETED_CAP);
    for i in 0..10 {
        assert!(log.get(&format!("s{i}")).is_none(), "s{i} should be evicted");
    }
    assert!(log.get("s10").is_some());
    assert!(log.get(&format!("s{}", COMPLETED_CAP + 9)).is_some());
}

#[test]
fn completed_log_reinsert_replaces_without_duplicating() {
    let mut log = CompletedLog::new();
    assert!(log.is_empty());
    log.insert("a".into(), p(1));
    log.insert("a".into(), p(2));
    assert_eq!(log.len(), 1);
    assert_eq!(log.get("a"), Some(&p(2)));
    for i in 0..COMPLETED_CAP {
        log.insert(format!("s{i}"), p(i));
    }
    assert!(log.get("a").is_none());
    assert_eq!(log.len(), COMPLETED_CAP);
    assert!(log.get("s0").is_some(), "only 'a' should have been evicted");
}

#[test]
fn cancel_and_pause_noop_on_unknown_but_reach_registered() {
    let mut map: TransfersCtl = KeyMap::new();
    assert!(!cancel_transfer_ctl(&mut map, "ghost"));
    assert!(!set_transfer_paused_ctl(&mut map, "ghost", true));
    assert!(!set_transfer_paused_ctl(&mut map, "ghost", false));

    let ctl = TransferCtlGuard::register(&mut map, "live");
    assert!(!ctl.control(&map).cancelled);

    assert!(set_transfer_paused_ctl(&mut map, "live", true));
    assert!(ctl.control(&map).paused, "pause flag flipped");
    assert!(set_transfer_paused_ctl(&mut map, "live", false));
    assert!(!ctl.control(&map).paused, "resume cleared the flag");

    assert!(cancel_transfer_ctl(&mut map, "live"));
    assert!(ctl.control(&map).cancelled, "cancel reached the token");
}

#[test]
fn ctl_guard_registers_and_removes_on_drop() {
    let mut map: TransfersCtl = KeyMap::new();
    let key = "sess".to_string();
    let guard = TransferCtlGuard::register(&mut map, "sess");
    assert!(map.contains_key(&key), "registered while held");
    assert!(!guard.control(&map).cancelled);
    assert!(cancel_transfer_ctl(&mut map, "sess"));
    assert!(guard.control(&map).cancelled);
    guard.release(&mut map);
    assert!(!map.contains_key(&key), "removed on drop");
    assert!(!cancel_transfer_ctl(&mut map, "sess"), "unknown after drop → no-op");
}

#[test]
fn ctl_guard_second_register_of_same_id_is_non_owning() {
    let mut map: TransfersCtl = KeyMap::new();
    let key = "dup".to_string();
    let guard1 = TransferCtlGuard::register(&mut map, "dup");
    let guard2 = TransferCtlGuard::register(&mut map, "dup");

    assert!(cancel_transfer_ctl(&mut map, "dup"));
    assert!(guard1.control(&map).cancelled, "map entry is the incumbent's");
    assert!(
        !guard2.control(&map).cancelled,
        "newcomer got a detached, uncancellable control"
    );
    assert!(set_transfer_paused_ctl(&mut map, "dup", true));
    assert!(guard1.control(&map).paused);
    assert!(!guard2.control(&map).paused);

    guard2.release(&mut map);
    assert!(map.contains_key(&key), "non-owning drop leaves the incumbent in place");
    guard1.release(&mut map);
    assert!(!map.contains_key(&key), "owning drop removes the entry");
}

#[test]
fn transfer_control_default_is_neutral() {
    let ctl = TransferControl::default();
    assert!(!ctl.cancelled);
    assert!(!ctl.paused);
}

#[test]
fn concurrency_gate_caps_at_three_and_the_fourth_waits() {
    let mut gate = ConcurrencyGate::new();
    let g1 = gate.try_acquire(3).expect("1st slot");
    let _g2 = gate.try_acquire(3).expect("2nd slot");
    let g3 = gate.try_acquire(3).expect("3rd slot");
    assert_eq!(gate.active(), 3);
    assert!(gate.try_acquire(3).is_none(), "4th must not get an immediate slot");

    gate.release(g1);
    let _g4 = gate.try_acquire(3).expect("the freed slot must admit the waiter");
    assert_eq!(gate.active(), 3, "still exactly at the cap after the hand-off");
    gate.release(g3);
    assert_eq!(gate.active(), 2);
}

#[test]
fn concurrency_gate_reads_the_live_cap_and_floors_zero() {
    let mut gate = ConcurrencyGate::new();
    let _g1 = gate.try_acquire(1).expect("1st slot under cap 1");
    assert!(gate.try_acquire(1).is_none(), "cap 1 is full");
    let _g2 = gate.try_acquire(2).expect("raised cap admits another");
    assert_eq!(gate.active(), 2);

    let mut fresh = ConcurrencyGate::default();
    assert!(fresh.try_acquire(0).is_some(), "a 0 cap is floored to 1");
}

#[test]
fn pair_rate_limiter_caps_failures_and_rolls_off() {
    let mut r = PairRateLimiter::default();
    let ip = v4(192, 168, 1, 9);
    assert!(r.allowed(ip, at(0)));
    for _ in 0..MAX_PAIR_FAILURES {
        r.record_failure(ip, at(0));
    }
    assert!(!r.allowed(ip, at(0)), "at the cap, further attempts are refused");

    let later = at(PAIR_FAILURE_WINDOW_SECS + 1);
    assert!(r.allowed(ip, later), "the window rolling off re-admits the source");

    for _ in 0..MAX_PAIR_FAILURES {
        r.record_failure(ip, later);
    }
    assert!(!r.allowed(ip, later));
    r.clear(&ip);
    assert!(r.allowed(ip, later), "clear resets the source immediately");

    let other = v4(10, 0, 0, 1);
    for _ in 0..MAX_PAIR_FAILURES {
        r.record_failure(ip, later);
    }
    assert!(r.allowed(other, later), "throttling is per-source");
}

#[test]
fn the_failure_window_ends_exactly_at_its_length() {
    let mut r = PairRateLimiter::default();
    let ip = v4(10, 0, 0, 3);
    for _ in 0..MAX_PAIR_FAILURES {
        r.record_failure(ip, at(0));
    }
    assert!(!r.allowed(ip, at_millis(PAIR_FAILURE_WINDOW_SECS * 1000 - 1)));
    assert!(r.allowed(ip, at(PAIR_FAILURE_WINDOW_SECS)));
    assert_eq!(r.tracked_sources(), 0, "an aged-out source leaves no residue");
}

#[test]
fn pair_rate_limiter_map_stays_bounded() {
    let mut r = PairRateLimiter::default();
    for i in 0..(MAX_PAIR_TRACKED_IPS as u32 + 500) {
        let ip = IpAddr::V4(Ipv4Addr { bits: i.wrapping_add(1) });
        r.record_failure(ip, at(0));
    }
    assert!(
        r.tracked_sources() <= MAX_PAIR_TRACKED_IPS,
        "map bounded to the cap, got {}",
        r.tracked_sources()
    );
}

#[test]
fn the_least_recently_active_source_is_evicted() {
    let mut r = PairRateLimiter::default();
    for i in 0..MAX_PAIR_TRACKED_IPS as u32 {
        r.record_failure(IpAddr::V4(Ipv4Addr { bits: i }), at_millis(i as u64));
    }
    let oldest = IpAddr::V4(Ipv4Addr { bits: 0 });
    r.record_failure(oldest, at_millis(5000));
    r.record_failure(v4(9, 9, 9, 9), at_millis(5001));
    assert_eq!(r.tracked_sources(), MAX_PAIR_TRACKED_IPS);
    assert!(r.failures.contains_key(&oldest), "a refreshed source stays");
    assert!(
        !r.failures.contains_key(&IpAddr::V4(Ipv4Addr { bits: 1 })),
        "the next oldest went"
    );
}

#[test]
fn pair_rate_limiter_concurrent_reservations_capped_to_budget() {
    let limiter = std::sync::Mutex::new(PairRateLimiter::default());
    let ip = v4(203, 0, 113, 7);
    let mut admitted = 0;
    for _ in 0..200u32 {
        if limiter.lock().unwrap().reserve_attempt(ip, at(0)) {
            admitted += 1;
        }
    }
    assert_eq!(
        admitted, MAX_PAIR_FAILURES,
        "a concurrent burst from one IP admits at most the per-window budget"
    );
    assert!(!limiter.lock().unwrap().allowed(ip, at(0)));
}

#[test]
fn pair_rate_limiter_unreserve_rolls_back_idle_host_attempts() {
    let mut r = PairRateLimiter::default();
    let ip = v4(198, 51, 100, 4);
    for _ in 0..(MAX_PAIR_FAILURES * 10) {
        assert!(r.reserve_attempt(ip, at(0)), "an unspent budget always admits");
        r.unreserve(&ip);
    }
    assert_eq!(r.tracked_sources(), 0, "idle-host flood leaves no tracked source");
    assert!(r.allowed(ip, at(0)), "budget untouched after rollbacks");

    for _ in 0..MAX_PAIR_FAILURES {
        assert!(r.reserve_attempt(ip, at(0)));
    }
    assert!(!r.allowed(ip, at(0)), "kept reservations exhaust the budget");
}

#[test]
fn text_rate_limiter_caps_and_rolls_off() {
    let mut r = TextRateLimiter::default();
    let ip = v4(192, 168, 1, 42);
    for i in 0..MAX_TEXT_PER_WINDOW {
        assert!(r.admit_text(ip, at(0)), "text {i} within the budget is admitted");
    }
    assert!(!r.admit_text(ip, at(0)), "the text over the budget is dropped");
    assert!(!r.admit_text(ip, at(0)), "a flooding source stays capped");

    let later = at(TEXT_RATE_WINDOW_SECS + 1);
    assert!(r.admit_text(ip, later), "the window rolling off re-admits the source");

    let other = v4(10, 0, 0, 2);
    assert!(r.admit_text(other, later), "throttling is per-source");
}

#[test]
fn text_rate_limiter_map_stays_bounded() {
    let mut r = TextRateLimiter::default();
    for i in 0..(MAX_TEXT_TRACKED_IPS as u32 + 500) {
        r.admit_text(IpAddr::V4(Ipv4Addr { bits: i.wrapping_add(1) }), at(0));
    }
    assert!(
        r.tracked_sources() <= MAX_TEXT_TRACKED_IPS,
        "map bounded to the cap, got {}",
        r.tracked_sources()
    );
}

#[test]
fn conflict_action_parse_recognizes_known_and_rejects_rest() {
    assert_eq!(ConflictAction::parse("rename"), Some(ConflictAction::Rename));
    assert_eq!(ConflictAction::parse("overwrite"), Some(ConflictAction::Overwrite));
    assert_eq!(ConflictAction::parse("ask"), None);
    assert_eq!(ConflictAction::parse(""), None);
    assert_eq!(ConflictAction::parse("Rename"), None, "case-sensitive");
}

#[test]
fn a_plain_reply_carries_no_conflict_choice() {
    assert_eq!(
        ReplyDecision::plain(true),
        ReplyDecision { accept: true, conflict: None }
    );
    assert_eq!(
        ReplyDecision::plain(false),
        ReplyDecision { accept: false, conflict: None }
    );
}

#[test]
fn pairing_state_holds_session_and_rate() {
    let mut ps = PairingState::default();
    assert!(ps.session.is_none(), "no session at first");
    ps.session = Some(PairingSession { code: "123456".into(), expires: at(60) });
    assert_eq!(
        ps.session.as_ref().unwrap().code,
        "123456",
        "the minted code reads back"
    );
    assert!(ps.rate.allowed(v4(172, 16, 0, 5), at(0)));
}

fn manual(name: String, port: u16, last_used: Instant) -> ManualPeer {
    ManualPeer { name, addr: Ipv4Addr::new(127, 0, 0, 1), port, last_used }
}

#[test]
fn insert_manual_peer_evicts_oldest_beyond_cap() {
    let mut map: KeyMap<String, ManualPeer> = KeyMap::new();
    let mk = |i: u64| ManualPeer {
        name: format!("dev-{i}"),
        addr: Ipv4Addr::new(192, 168, 0, 1),
        port: 5000,
        last_used: at_millis(i),
    };
    for i in 0..(MAX_MANUAL_PEERS as u64) {
        insert_manual_peer(&mut map, format!("id-{i}"), mk(i));
    }
    assert_eq!(map.len(), MAX_MANUAL_PEERS);
    insert_manual_peer(&mut map, "id-new".into(), mk(MAX_MANUAL_PEERS as u64 + 100));
    assert_eq!(map.len(), MAX_MANUAL_PEERS, "still bounded after eviction");
    assert!(!map.contains_key(&"id-0".to_string()), "least-recently-used evicted");
    assert!(map.contains_key(&"id-1".to_string()), "next-oldest survives");
    assert!(map.contains_key(&"id-new".to_string()), "the new peer is retained");
}

#[test]
fn insert_manual_peer_refresh_updates_without_growing() {
    let mut map: KeyMap<String, ManualPeer> = KeyMap::new();
    insert_manual_peer(&mut map, "a".into(), manual("a".into(), 1, at(0)));
    insert_manual_peer(&mut map, "a".into(), manual("a2".into(), 2, at(1)));
    assert_eq!(map.len(), 1, "refresh replaces, does not add");
    let a = map.get(&"a".to_string()).unwrap();
    assert_eq!(a.name, "a2");
    assert_eq!(a.port, 2);
}

#[test]
fn insert_manual_peer_refresh_spares_from_eviction() {
    let mut map: KeyMap<String, ManualPeer> = KeyMap::new();
    for i in 0..(MAX_MANUAL_PEERS as u64) {
        insert_manual_peer(&mut map, format!("id-{i}"), manual(format!("d{i}"), 1, at_millis(i)));
    }
    insert_manual_peer(&mut map, "id-0".into(), manual("d0".into(), 1, at(3600)));
    insert_manual_peer(&mut map, "id-new".into(), manual("d999".into(), 1, at(7200)));
    assert_eq!(map.len(), MAX_MANUAL_PEERS);
    assert!(map.contains_key(&"id-0".to_string()), "refreshed peer spared");
    assert!(!map.contains_key(&"id-1".to_string()), "next-oldest evicted instead");
}
