use lanbeam::error::LanBeamError;
use lanbeam::net::{IpAddr, Ipv4Addr};
use lanbeam::pages::{content_disposition, html_escape, human_size, message_page};
use lanbeam::share::{
    begin_download, clamp_max_downloads, clamp_ttl, create_share, denied, file_headers,
    finish_download, has_active_share, internal_error, landing, list_shares, new_registry, refund,
    share_expiry_secs, stop_share, sweep, token_of, update_share, Denied, DownloadPlan, Opened,
    PathProbe, Share, ShareCandidate, ShareRegistry, MAX_SHARE_DOWNLOADS, SHARE_TTL_RANGE_SECS,
};
use lanbeam::share_links::{
    do_start_share, do_update_share, is_on_private_network, lan_gate, list_shares_dto,
};
use lanbeam::time::{Clock, Duration, Instant};

const START: u128 = 1_000_000_000_000;

fn at(secs: u64) -> Instant {
    Instant { nanos: START + secs as u128 * 1_000_000_000 }
}

fn clock(secs: u64) -> Clock {
    Clock { now: at(secs), unix_secs: 1_700_000_000 + secs }
}

fn file(name: &str, size: u64) -> ShareCandidate {
    ShareCandidate {
        name: name.to_string(),
        path: format!("/srv/{name}"),
        probe: PathProbe::Regular(size),
    }
}

fn share_of(
    reg: &mut ShareRegistry,
    files: Vec<ShareCandidate>,
    ttl: Duration,
    max: Option<u32>,
) -> String {
    create_share(reg, files, ttl, max, clock(0)).expect("a share of regular files")
}

fn minute() -> Duration {
    Duration::from_secs(60)
}

fn get_share<'a>(reg: &'a ShareRegistry, token: &str) -> &'a Share {
    reg.shares.get(&token.to_string()).unwrap()
}

fn contains(reg: &ShareRegistry, token: &str) -> bool {
    reg.shares.contains_key(&token.to_string())
}

fn change(reg: &mut ShareRegistry, token: &str, f: impl Fn(&mut Share)) {
    f(reg.shares.get_mut(&token.to_string()).unwrap());
}

/// The status that a whole request for one file ends with.
fn fetch(reg: &mut ShareRegistry, token: &str, index: u32, now: Instant) -> u16 {
    match begin_download(reg, token, index, false, now, "127.0.0.1") {
        DownloadPlan::Refuse(d) => denied(d).status(),
        DownloadPlan::Open { size, .. } => {
            match finish_download(reg, token, size, Opened::Length(size)) {
                Ok(_) => 200,
                Err(d) => denied(d).status(),
            }
        }
        DownloadPlan::Head { .. } => panic!("not a request for headers"),
    }
}

#[test]
fn create_share_validates_files() {
    let mut reg = new_registry();
    let token = create_share(&mut reg, vec![file("ok.bin", 5)], minute(), None, clock(0))
        .expect("an existing absolute file is accepted");
    assert!(token.len() >= 22, "token must be >= 22 chars, got {}", token.len());

    match create_share(&mut reg, vec![], minute(), None, clock(0)) {
        Err(LanBeamError::UnsafePath(m)) => {
            assert_eq!(m, "a share must contain at least one file")
        }
        other => panic!("{other:?}"),
    }
    let relative = ShareCandidate {
        name: "x".into(),
        path: "relative/x".into(),
        probe: PathProbe::Relative,
    };
    match create_share(&mut reg, vec![relative], minute(), None, clock(0)) {
        Err(LanBeamError::UnsafePath(m)) => {
            assert_eq!(m, "share path is not absolute: relative/x")
        }
        other => panic!("{other:?}"),
    }
    let gone = ShareCandidate {
        name: "g".into(),
        path: "/srv/nope.bin".into(),
        probe: PathProbe::Unreadable("no such file".into()),
    };
    match create_share(&mut reg, vec![gone], minute(), None, clock(0)) {
        Err(LanBeamError::Io(m)) => assert_eq!(m, "share file /srv/nope.bin: no such file"),
        other => panic!("{other:?}"),
    }
    let dir = ShareCandidate {
        name: "d".into(),
        path: "/srv".into(),
        probe: PathProbe::NotRegular,
    };
    match create_share(&mut reg, vec![file("a", 1), dir], minute(), None, clock(0)) {
        Err(LanBeamError::UnsafePath(m)) => {
            assert_eq!(m, "share path is not a regular file: /srv")
        }
        other => panic!("{other:?}"),
    }
    assert_eq!(reg.shares.len(), 1, "refused files register nothing");
}

#[test]
fn tokens_are_unique_and_url_safe() {
    let mut reg = new_registry();
    let a = share_of(&mut reg, vec![file("t", 1)], minute(), None);
    let b = share_of(&mut reg, vec![file("t", 1)], minute(), None);
    assert_ne!(a, b, "each share gets a fresh token");
    for t in [&a, &b] {
        assert!(
            t.chars().all(|c| c.is_ascii_alphanumeric() || c == '-' || c == '_'),
            "token must be URL-safe base64url: {t}"
        );
    }
}

#[test]
fn a_token_is_the_base64url_form_of_its_bytes() {
    assert_eq!(token_of(&[0u8; 18]), "AAAAAAAAAAAAAAAAAAAAAAAA");
    assert_eq!(token_of(&[0xFFu8; 18]), "________________________");
    let mut b = [0u8; 18];
    b[0] = 0x4D;
    b[1] = 0x61;
    b[2] = 0x6E;
    assert!(token_of(&b).starts_with("TWFu"));
}

fn bare_share() -> Share {
    Share {
        token: "t".into(),
        files: vec![],
        created: at(0),
        ttl: Duration::from_secs(60),
        max_downloads: Some(2),
        downloads: 0,
        active: true,
        expires_at_secs: 0,
    }
}

#[test]
fn check_gates_active_ttl_and_budget() {
    let base = bare_share();
    assert!(base.check(at(0)).is_ok(), "a fresh in-budget share serves");

    let stopped = Share { active: false, ..bare_share() };
    assert!(matches!(stopped.check(at(0)), Err(Denied::Gone)), "stopped → Gone");

    assert!(matches!(base.check(at(61)), Err(Denied::Gone)), "past TTL → Gone");

    let spent = Share { downloads: 2, ..bare_share() };
    assert!(matches!(spent.check(at(0)), Err(Denied::Gone)), "budget spent → Gone");
}

#[test]
fn the_life_of_a_share_ends_exactly_at_its_ttl() {
    let s = bare_share();
    assert!(s.check(at(59)).is_ok());
    assert!(s.check(at(60)).is_err());
    assert!(s.check(Instant { nanos: 0 }).is_ok(), "a time before its making is no expiry");
}

#[test]
fn fetch_returns_the_right_bytes() {
    let mut reg = new_registry();
    let token = share_of(&mut reg, vec![file("doc.bin", 1900)], minute(), None);
    match begin_download(&mut reg, &token, 0, false, at(1), "127.0.0.1") {
        DownloadPlan::Open { path, name, size, .. } => {
            assert_eq!(path, "/srv/doc.bin");
            assert_eq!(size, 1900);
            let len = finish_download(&mut reg, &token, size, Opened::Length(1900)).unwrap();
            let h = file_headers(len, &name);
            assert!(h.content_disposition.starts_with("attachment"));
            assert_eq!(h.content_length, "1900");
            assert_eq!(h.content_type, "application/octet-stream");
        }
        other => panic!("{other:?}"),
    }
}

#[test]
fn a_real_get_fires_the_download_hook_but_a_head_does_not() {
    let mut reg = new_registry();
    let token = share_of(&mut reg, vec![file("hooked.bin", 11)], minute(), Some(3));

    match begin_download(&mut reg, &token, 0, true, at(1), "127.0.0.1") {
        DownloadPlan::Head { name, size } => {
            assert_eq!(name, "hooked.bin");
            assert_eq!(size, 11);
        }
        other => panic!("{other:?}"),
    }
    match begin_download(&mut reg, &token, 0, false, at(1), "127.0.0.1") {
        DownloadPlan::Open { event: ev, .. } => {
            assert_eq!(ev.token, token);
            assert_eq!(ev.index, 0);
            assert_eq!(ev.name, "hooked.bin");
            assert_eq!(ev.size, 11);
            assert_eq!(ev.downloads, 1, "whole-set count after one fetch");
            assert_eq!(ev.max_downloads, Some(3));
            assert_eq!(ev.file_count, 1);
            assert_eq!(ev.peer_ip, "127.0.0.1");
        }
        other => panic!("{other:?}"),
    }
}

#[test]
fn single_file_landing_redirects_to_index_zero() {
    let mut reg = new_registry();
    let token = share_of(&mut reg, vec![file("only.bin", 4)], minute(), None);
    let r = landing(&reg, &token, at(1));
    assert_eq!(r.status(), 302, "single file redirects");
    assert_eq!(r.location, Some(format!("/s/{token}/0")), "redirects to index 0");
}

#[test]
fn landing_lists_exactly_the_shared_files() {
    let mut reg = new_registry();
    let token = share_of(&mut reg, vec![file("alpha.txt", 4), file("beta.txt", 8)], minute(), None);
    let r = landing(&reg, &token, at(1));
    let html = r.body;
    assert_eq!(r.status, 200);
    assert!(html.contains("alpha.txt"), "lists the first file: {html}");
    assert!(html.contains("beta.txt"), "lists the second file");
    assert!(html.contains(&format!("/s/{token}/0")), "download link for index 0");
    assert!(html.contains(&format!("/s/{token}/1")), "download link for index 1");
    assert!(!html.contains(&format!("/s/{token}/2")), "no phantom third file");
    assert!(html.contains("2 files shared with you."));
    assert!(html.contains("<span class=\"sz\">4 B</span>"));
    assert!(html.starts_with("<!doctype html>") && html.ends_with("</body></html>"));
}

#[test]
fn unknown_stopped_and_expired_are_refused() {
    let mut reg = new_registry();
    let stopped = share_of(&mut reg, vec![file("s.bin", 4)], minute(), None);
    let expired = share_of(&mut reg, vec![file("s.bin", 4)], Duration::from_millis(40), None);
    stop_share(&mut reg, &stopped);

    assert_eq!(fetch(&mut reg, "deadbeefdeadbeefdeadbe", 0, at(0)), 404, "unknown token → 404");
    assert_eq!(fetch(&mut reg, &stopped, 0, at(0)), 410, "stopped token → 410");
    assert_eq!(fetch(&mut reg, &expired, 0, at(1)), 410, "expired token → 410");
    assert_eq!(landing(&reg, "deadbeef", at(0)).status(), 404);
    assert_eq!(landing(&reg, &stopped, at(0)).status(), 410);
}

#[test]
fn an_index_past_the_file_set_is_404() {
    let mut reg = new_registry();
    let token = share_of(&mut reg, vec![file("one.bin", 13)], minute(), None);
    assert_eq!(fetch(&mut reg, &token, 5, at(1)), 404, "index past the file set → 404");
    assert_eq!(fetch(&mut reg, &token, u32::MAX, at(1)), 404);
    assert_eq!(get_share(&reg, &token).downloads, 0, "a refused index counts nothing");
}

#[test]
fn max_downloads_enforced() {
    let mut reg = new_registry();
    let token = share_of(&mut reg, vec![file("cap.bin", 6)], minute(), Some(2));
    let a = fetch(&mut reg, &token, 0, at(1));
    let b = fetch(&mut reg, &token, 0, at(1));
    assert_eq!((a, b), (200, 200), "the first two downloads succeed");
    assert_eq!(fetch(&mut reg, &token, 0, at(1)), 410, "the download over the cap → 410 Gone");
}

#[test]
fn head_probe_does_not_consume_a_download_slot() {
    let mut reg = new_registry();
    let token = share_of(&mut reg, vec![file("head.bin", 320)], minute(), Some(1));
    match begin_download(&mut reg, &token, 0, true, at(1), "127.0.0.1") {
        DownloadPlan::Head { name, size } => {
            let h = file_headers(size, &name);
            assert!(h.content_disposition.starts_with("attachment"));
            assert_eq!(h.content_length, "320");
        }
        other => panic!("{other:?}"),
    }
    let listed = list_shares(&reg, at(1));
    assert_eq!(listed.len(), 1);
    assert_eq!(listed[0].downloads, 0, "a HEAD counts as no download");
    assert_eq!(fetch(&mut reg, &token, 0, at(1)), 200, "the real GET still serves after a HEAD");
}

#[test]
fn cap_is_per_file_not_per_share() {
    let mut reg = new_registry();
    let token = share_of(&mut reg, vec![file("solo.bin", 4)], minute(), Some(1));
    let a = fetch(&mut reg, &token, 0, at(1));
    let b = fetch(&mut reg, &token, 0, at(1));
    assert_eq!((a, b), (200, 410), "single-file cap=1: one download then Gone");

    let token = share_of(
        &mut reg,
        vec![file("m0.bin", 4), file("m1.bin", 4), file("m2.bin", 4)],
        minute(),
        Some(1),
    );
    for i in 0..3 {
        assert_eq!(
            fetch(&mut reg, &token, i, at(1)),
            200,
            "file {i} downloads once under a per-file cap"
        );
    }
    assert_eq!(
        fetch(&mut reg, &token, 0, at(1)),
        410,
        "every file spent once → repeats are Gone"
    );
}

#[test]
fn a_vanished_file_gives_its_fetch_back() {
    let mut reg = new_registry();
    let token = share_of(&mut reg, vec![file("gone.bin", 4)], minute(), Some(1));
    match begin_download(&mut reg, &token, 0, false, at(1), "127.0.0.1") {
        DownloadPlan::Open { size, .. } => {
            assert_eq!(get_share(&reg, &token).downloads, 1);
            assert_eq!(
                finish_download(&mut reg, &token, size, Opened::Failed),
                Err(Denied::NotFound)
            );
        }
        other => panic!("{other:?}"),
    }
    assert_eq!(get_share(&reg, &token).downloads, 0);
    assert_eq!(fetch(&mut reg, &token, 0, at(1)), 200);
    refund(&mut reg, "no-such-token");
    assert_eq!(
        finish_download(&mut reg, &token, 4, Opened::UnknownLength),
        Ok(4),
        "an unreadable length falls back to the captured one"
    );
}

#[test]
fn sweep_drops_dead_shares_only() {
    let mut reg = new_registry();
    let live = share_of(&mut reg, vec![file("sw", 1)], minute(), None);
    let stopped = share_of(&mut reg, vec![file("sw", 1)], minute(), None);
    let expired = share_of(&mut reg, vec![file("sw", 1)], Duration::from_millis(1), None);
    stop_share(&mut reg, &stopped);
    sweep(&mut reg, at(1));
    assert!(contains(&reg, &live), "the live share survives");
    assert!(!contains(&reg, &stopped), "the stopped share is reclaimed");
    assert!(!contains(&reg, &expired), "the expired share is reclaimed");
}

#[test]
fn clamps_pin_ttl_and_download_cap() {
    let (lo, hi) = SHARE_TTL_RANGE_SECS;
    assert_eq!(clamp_ttl(0).as_secs(), lo, "below the floor snaps up");
    assert_eq!(clamp_ttl(600).as_secs(), 600, "an in-range TTL passes through");
    assert_eq!(clamp_ttl(u64::MAX).as_secs(), hi, "above the ceiling snaps down");

    assert_eq!(clamp_max_downloads(None), None, "unlimited stays unlimited");
    assert_eq!(clamp_max_downloads(Some(0)), Some(1), "0 snaps up to 1");
    assert_eq!(clamp_max_downloads(Some(5)), Some(5), "in-range passes through");
    assert_eq!(
        clamp_max_downloads(Some(MAX_SHARE_DOWNLOADS + 50)),
        Some(MAX_SHARE_DOWNLOADS),
        "over the cap snaps down"
    );
}

#[test]
fn update_share_reconfigures_active_only() {
    let mut reg = new_registry();
    let token = share_of(&mut reg, vec![file("u", 1)], minute(), Some(1));
    let before = share_expiry_secs(&reg, &token).expect("a fresh share has an expiry");

    let updated = update_share(&mut reg, &token, Duration::from_secs(3600), None, clock(1))
        .expect("an active share reconfigures");
    assert!(
        updated >= before,
        "the extended TTL pushes the expiry out: {updated} < {before}"
    );
    assert_eq!(updated, 1_700_000_001 + 3600);
    assert_eq!(get_share(&reg, &token).max_downloads, None, "the cap was lifted to unlimited");

    assert!(update_share(&mut reg, "nope", minute(), None, clock(1)).is_none());

    stop_share(&mut reg, &token);
    assert!(
        update_share(&mut reg, &token, minute(), None, clock(1)).is_none(),
        "a stopped share stays dead"
    );
}

#[test]
fn update_share_refuses_an_expired_share() {
    let mut reg = new_registry();
    let token = share_of(&mut reg, vec![file("exp", 1)], minute(), Some(1));
    change(&mut reg, &token, |s| s.ttl = Duration::from_secs(0));
    assert!(
        update_share(&mut reg, &token, Duration::from_secs(600), None, clock(0)).is_none(),
        "an expired (but still-active) share is not resurrected by a reconfigure"
    );
    assert!(
        matches!(get_share(&reg, &token).check(at(0)), Err(Denied::Gone)),
        "the expired share still 410s — no fresh TTL was granted"
    );
}

#[test]
fn list_shares_reflects_live_shares() {
    let mut reg = new_registry();
    let live = share_of(&mut reg, vec![file("a.bin", 4), file("b.bin", 8)], minute(), Some(3));
    let stopped = share_of(&mut reg, vec![file("a.bin", 4)], minute(), None);
    stop_share(&mut reg, &stopped);

    let listed = list_shares(&reg, at(0));
    assert_eq!(listed.len(), 1, "only the live share is listed");
    let info = &listed[0];
    assert_eq!(info.token, live);
    assert_eq!(info.file_count, 2, "both registered files are counted");
    assert_eq!(info.total_size, 12, "sizes sum (4 + 8)");
    assert_eq!(info.downloads, 0);
    assert_eq!(info.max_downloads, Some(3));
    assert!(has_active_share(&reg, at(0)), "a serveable share is advertised");

    stop_share(&mut reg, &live);
    assert!(list_shares(&reg, at(0)).is_empty(), "a stopped share drops off the list");
    assert!(!has_active_share(&reg, at(0)), "no serveable share → nothing to advertise");
}

#[test]
fn list_is_sorted_by_expiry_and_token() {
    let mut reg = new_registry();
    let short = share_of(&mut reg, vec![file("a", 1)], minute(), None);
    let long = share_of(&mut reg, vec![file("b", 1)], Duration::from_secs(600), None);
    let other = share_of(&mut reg, vec![file("c", 1)], minute(), None);
    let listed: Vec<String> = list_shares(&reg, at(0)).into_iter().map(|s| s.token).collect();
    let mut ties = vec![short, other];
    ties.sort();
    assert_eq!(listed, vec![long, ties[0].clone(), ties[1].clone()]);
}

#[test]
fn exhausted_share_lists_but_is_not_advertised() {
    let mut reg = new_registry();
    let token = share_of(&mut reg, vec![file("cap", 1)], minute(), Some(1));
    change(&mut reg, &token, |s| s.downloads = 1);
    assert_eq!(
        list_shares(&reg, at(0)).len(),
        1,
        "an exhausted share stays visible in the list"
    );
    assert!(
        !has_active_share(&reg, at(0)),
        "an exhausted share is not advertised — its link only 410s"
    );
}

#[test]
fn helpers_format_size_and_disposition() {
    assert_eq!(human_size(0), "0 B");
    assert_eq!(human_size(512), "512 B");
    assert_eq!(human_size(1536), "1.5 KB");
    assert_eq!(human_size(5 * 1024 * 1024), "5.0 MB");

    let cd = content_disposition("naïve rapport.pdf");
    assert!(cd.contains("filename*=UTF-8''"), "carries an RFC 5987 filename*: {cd}");
    assert!(cd.contains("filename=\""), "carries an ASCII fallback: {cd}");
    assert!(cd.contains("na%C3%AFve"), "utf-8 percent-encoded: {cd}");
}

/// The size as it would be formatted from a double.
fn float_size(bytes: u64) -> String {
    let units = ["B", "KB", "MB", "GB", "TB"];
    if bytes < 1024 {
        return format!("{bytes} B");
    }
    let mut size = bytes as f64;
    let mut unit = 0;
    while size >= 1024.0 && unit < units.len() - 1 {
        size /= 1024.0;
        unit += 1;
    }
    format!("{size:.1} {}", units[unit])
}

#[test]
fn sizes_agree_with_double_precision() {
    let mut sizes: Vec<u64> = vec![
        1023, 1024, 1025, 1075, 1076, 1126, 1127, 1 << 20, (1 << 20) - 1, (1 << 30) - 1, 1 << 30,
        (1 << 40) - 1, 1 << 40, (1 << 53) - 1, 1 << 53, (1 << 53) + 1, u64::MAX, u64::MAX - 1,
    ];
    for k in 0..4u64 {
        for j in 0..60u64 {
            let tie = (1u64 << 38) * (2 * j + 1) + (k << 50);
            sizes.push(tie);
            sizes.push(tie + 1);
            sizes.push(tie - 1);
        }
    }
    let tie_far = (1u64 << 38) * ((1u64 << 25) + 1);
    for d in 0..2000u64 {
        sizes.push(tie_far + d);
        sizes.push(tie_far - d);
        sizes.push(1536 + d * 51);
    }
    for s in sizes {
        assert_eq!(human_size(s), float_size(s), "{s} bytes");
    }
}

#[test]
fn disposition_ascii_fallback_defaults_to_download() {
    let cd = content_disposition("   ");
    assert!(
        cd.contains("filename=\"download\""),
        "an all-whitespace name falls back to `download`: {cd}"
    );
    assert!(
        cd.contains("filename*=UTF-8''%20%20%20"),
        "the extended form still encodes the original bytes: {cd}"
    );
}

#[test]
fn disposition_is_a_safe_header_value() {
    let cd = content_disposition("a\"b\\c\n\u{1F600}.txt");
    assert_eq!(
        cd,
        "attachment; filename=\"a_b_c__.txt\"; filename*=UTF-8''a%22b%5Cc%0A%F0%9F%98%80.txt"
    );
    assert!(cd.bytes().all(|b| (0x20..0x7F).contains(&b)));
}

#[test]
fn markup_in_names_is_escaped() {
    assert_eq!(html_escape("<a href='x'>\"&\""), "&lt;a href=&#39;x&#39;&gt;&quot;&amp;&quot;");
    assert!(message_page("<b>").contains("<p class=\"lead\">&lt;b&gt;</p>"));
}

#[test]
fn denied_maps_variants_to_status() {
    assert_eq!(denied(Denied::NotFound).status(), 404, "NotFound → 404");
    assert_eq!(denied(Denied::Gone).status(), 410, "Gone → 410");
    assert_eq!(internal_error().status(), 500);
}

#[test]
fn stop_share_reports_whether_found() {
    let mut reg = new_registry();
    let token = share_of(&mut reg, vec![file("st", 1)], minute(), None);
    assert!(stop_share(&mut reg, &token), "an existing share is stopped");
    assert!(
        !stop_share(&mut reg, "no-such-token"),
        "an unknown token stops nothing → false"
    );
}

#[test]
fn share_expiry_secs_known_and_unknown() {
    let mut reg = new_registry();
    let token = share_of(&mut reg, vec![file("ex", 1)], Duration::from_secs(120), None);
    assert_eq!(share_expiry_secs(&reg, &token), Some(1_700_000_120));
    assert_eq!(share_expiry_secs(&reg, "nope"), None, "an unknown token has no expiry");
}

#[test]
fn list_shares_divides_downloads_by_file_count() {
    let mut reg = new_registry();
    let token = share_of(&mut reg, vec![file("d1", 1), file("d2", 1)], minute(), Some(3));
    change(&mut reg, &token, |s| s.downloads = 4);
    let listed = list_shares(&reg, at(0));
    assert_eq!(listed.len(), 1);
    assert_eq!(
        listed[0].downloads, 2,
        "4 raw fetches / 2 files = 2 whole-set downloads"
    );
}

#[test]
fn list_shares_omits_an_expired_share() {
    let mut reg = new_registry();
    let token = share_of(&mut reg, vec![file("le", 1)], minute(), None);
    change(&mut reg, &token, |s| s.ttl = Duration::from_secs(0));
    assert!(
        list_shares(&reg, at(0)).is_empty(),
        "an expired share is not listed even before the sweep reclaims it"
    );
}

#[test]
fn sweep_keeps_an_exhausted_but_unexpired_share() {
    let mut reg = new_registry();
    let token = share_of(&mut reg, vec![file("sk", 1)], minute(), Some(1));
    change(&mut reg, &token, |s| s.downloads = 5);
    sweep(&mut reg, at(0));
    assert!(
        contains(&reg, &token),
        "an exhausted-but-unexpired share survives the sweep"
    );
}

#[test]
fn has_active_share_false_on_empty_registry() {
    let reg = new_registry();
    assert!(!has_active_share(&reg, at(0)), "an empty registry advertises no share");
}

// ── links ─────────────────────────────────────────────────────────────────

fn lan() -> Option<Ipv4Addr> {
    Some(Ipv4Addr::new(192, 168, 1, 20))
}

#[test]
fn start_share_lists_with_url_and_port() {
    let mut reg = new_registry();
    let started = do_start_share(
        &mut reg,
        vec![file("doc.bin", 11)],
        600,
        Some(3),
        52200,
        lan(),
        clock(0),
    )
    .expect("an existing absolute file starts a share");
    assert!(
        started.url.contains(":52200/s/"),
        "the URL carries the bound share port: {}",
        started.url
    );
    assert!(started.url.starts_with("http://"), "a plain-HTTP LAN URL: {}", started.url);
    assert!(
        started.url.ends_with(&started.token),
        "the URL ends with the token: {}",
        started.url
    );
    assert!(started.expires_at > 0, "a live share has a wall-clock expiry");

    let listed = list_shares_dto(&reg, at(0), 52200, lan());
    assert_eq!(listed.len(), 1, "the new share is listed");
    let e = &listed[0];
    assert_eq!(e.token, started.token);
    assert_eq!(e.url, started.url, "list and start agree on the URL");
    assert_eq!(e.file_count, 1);
    assert_eq!(e.total_size, 11, "\"hello share\" is 11 bytes");
    assert_eq!(e.max_downloads, Some(3));
    assert_eq!(e.downloads, 0);
    assert_eq!(e.expires_at, started.expires_at);
    assert_eq!(
        list_shares_dto(&reg, at(0), 0, lan())[0].url,
        "",
        "without a port there is no link"
    );
}

#[test]
fn start_share_refused_without_a_bound_port() {
    let mut reg = new_registry();
    match do_start_share(&mut reg, vec![file("np.bin", 1)], 600, None, 0, lan(), clock(0)) {
        Err(LanBeamError::Io(m)) => assert_eq!(m, "browser share server is not available"),
        other => panic!("{other:?}"),
    }
    assert!(
        list_shares_dto(&reg, at(0), 0, lan()).is_empty(),
        "a refused start registers nothing"
    );
}

#[test]
fn a_share_without_a_lan_address_is_loopback_only() {
    let mut reg = new_registry();
    let s = do_start_share(&mut reg, vec![file("l", 1)], 600, None, 52200, None, clock(0)).unwrap();
    assert_eq!(s.url, format!("http://127.0.0.1:52200/s/{}", s.token));
}

#[test]
fn update_share_changes_expiry_and_cap() {
    let mut reg = new_registry();
    let started =
        do_start_share(&mut reg, vec![file("u.bin", 4)], 60, Some(1), 52200, lan(), clock(0))
            .unwrap();
    let updated = do_update_share(&mut reg, &started.token, 86_400, None, clock(1))
        .expect("an active share reconfigures");
    assert!(
        updated.expires_at >= started.expires_at,
        "the longer TTL moves the expiry out: {} < {}",
        updated.expires_at,
        started.expires_at
    );
    let e = list_shares_dto(&reg, at(1), 52200, lan())
        .into_iter()
        .find(|e| e.token == started.token)
        .expect("the reconfigured share is still listed");
    assert_eq!(e.max_downloads, None, "the download cap was lifted to unlimited");
    assert_eq!(e.expires_at, updated.expires_at, "the list shows the new expiry");
    assert!(
        do_update_share(&mut reg, "ghost-token", 60, None, clock(1)).is_none(),
        "an unknown token is a no-op"
    );
}

#[test]
fn stop_share_kills_the_link() {
    let mut reg = new_registry();
    let started =
        do_start_share(&mut reg, vec![file("s.bin", 3)], 600, None, 52200, lan(), clock(0))
            .unwrap();
    assert_eq!(
        list_shares_dto(&reg, at(0), 52200, lan()).len(),
        1,
        "the share is live before stop"
    );
    stop_share(&mut reg, &started.token);
    assert!(
        list_shares_dto(&reg, at(0), 52200, lan()).is_empty(),
        "a stopped share drops off the list"
    );
    assert!(
        !has_active_share(&reg, at(0)),
        "a stopped share can no longer serve — its link is dead"
    );
}

#[test]
fn only_private_networks_are_served() {
    for ip in [[127, 0, 0, 1], [10, 1, 2, 3], [172, 16, 0, 1], [172, 31, 255, 1], [192, 168, 9, 9], [169, 254, 1, 1]] {
        let a = IpAddr::V4(Ipv4Addr::new(ip[0], ip[1], ip[2], ip[3]));
        assert!(is_on_private_network(a), "{ip:?}");
        assert!(lan_gate(a).is_none());
    }
    for ip in [[8, 8, 8, 8], [172, 32, 0, 1], [172, 15, 0, 1], [192, 169, 0, 1], [11, 0, 0, 1]] {
        let a = IpAddr::V4(Ipv4Addr::new(ip[0], ip[1], ip[2], ip[3]));
        assert!(!is_on_private_network(a), "{ip:?}");
        assert_eq!(lan_gate(a).unwrap().status(), 404);
    }
    assert!(is_on_private_network(IpAddr::V6(1)));
    assert!(is_on_private_network(IpAddr::V6(0xFE80u128 << 112 | 7)));
    assert!(is_on_private_network(IpAddr::V6(0xFD00u128 << 112 | 7)));
    assert!(is_on_private_network(IpAddr::V6(0xFFFF_0A00_0001)));
    assert!(!is_on_private_network(IpAddr::V6(0xFFFF_0808_0808)));
    assert!(!is_on_private_network(IpAddr::V6(0x2001u128 << 112 | 7)));
}
