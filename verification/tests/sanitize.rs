use lanbeam::error::LanBeamError;
use lanbeam::placement::{
    dedupe_name, ensure_parent_in_root, open_error, opened_inside_root, resume_next, root_error,
    GateEvent, GateStep, OpenEvent, OpenStep, ResumeEvent, ResumeStep,
};
use lanbeam::sanitize::{
    sanitize_component, validate, Decision, RejectReason, MAX_COMPONENTS, MAX_COMPONENT_LEN,
    MAX_TOTAL_LEN,
};

fn accept_path(name: &str) -> String {
    match validate(name) {
        Decision::Accept(p) => p.to_slash_string(),
        other => panic!("expected Accept for {name:?}, got {other:?}"),
    }
}

fn reject(name: &str) -> RejectReason {
    match validate(name) {
        Decision::Reject(r) => r,
        other => panic!("expected Reject for {name:?}, got {other:?}"),
    }
}

#[test]
fn san_matrix_validate() {
    assert_eq!(accept_path("report.pdf"), "report.pdf");
    assert_eq!(accept_path("My Photo.jpg"), "My Photo.jpg");
    assert_eq!(accept_path("docs/report.txt"), "docs/report.txt");
    assert_eq!(accept_path("photos/2026/img.jpg"), "photos/2026/img.jpg");
    assert_eq!(accept_path("a//b.txt"), "a/b.txt");
    assert_eq!(accept_path("./readme.md"), "readme.md");
    assert_eq!(accept_path("../x"), "x");
    assert_eq!(accept_path("a/../../x"), "a/x");
    assert_eq!(accept_path("..\\x"), "x");
    assert_eq!(reject("/x"), RejectReason::AbsolutePath);
    assert_eq!(reject("/etc/passwd"), RejectReason::AbsolutePath);
    assert_eq!(reject("C:\\x"), RejectReason::DrivePrefix);
    assert_eq!(reject("C:x"), RejectReason::DrivePrefix);
    assert_eq!(reject("\\\\host\\share\\x"), RejectReason::AbsolutePath);
    assert_eq!(accept_path("evil.bat."), "evil.bat");
    assert_eq!(accept_path("evil.exe   "), "evil.exe");
    assert_eq!(accept_path("CON"), "_CON");
    assert_eq!(accept_path("con.txt"), "_con.txt");
    assert_eq!(accept_path("LPT1"), "_LPT1");
    assert_eq!(accept_path("a.txt:evil"), "a.txt_evil");
    assert_eq!(accept_path("a.txt::$DATA"), "a.txt__$DATA");
    assert_eq!(reject("bad\0.txt"), RejectReason::NullByte);
    assert_eq!(reject(""), RejectReason::Empty);
    assert_eq!(reject("   "), RejectReason::Empty);
    assert_eq!(reject("..."), RejectReason::NoValidComponents);
    assert_eq!(accept_path("photo\u{202E}gnp.exe"), "photognp.exe");
    assert_eq!(accept_path("a<b>c*d?.txt"), "a_b_c_d_.txt");
    assert_eq!(accept_path("CLOCK$"), "_CLOCK$");
    assert_eq!(accept_path("CONIN$"), "_CONIN$");
}

#[test]
fn reserved_stem_normalization() {
    assert_eq!(accept_path("NUL .txt"), "_NUL .txt");
    assert_eq!(accept_path("CON .txt"), "_CON .txt");
    assert!(accept_path("COM\u{00B9}").starts_with('_'));
    assert!(accept_path("LPT\u{00B2}.log").starts_with('_'));
    assert!(accept_path("com\u{00B3}").starts_with('_'));
    assert_eq!(accept_path("summary.txt"), "summary.txt");
}

#[test]
fn san29_startup_attack_is_neutralized() {
    let payload = "..\\..\\..\\..\\..\\AppData\\Roaming\\Microsoft\\Windows\\Start Menu\\Programs\\Startup\\evil.exe";
    assert_eq!(
        accept_path(payload),
        "AppData/Roaming/Microsoft/Windows/Start Menu/Programs/Startup/evil.exe"
    );
    if let Decision::Accept(rel) = validate(payload) {
        assert!(rel.components.iter().all(|c| c != "." && c != ".." && !c.contains('/')));
    }
}

#[test]
fn sanitize_component_yields_one_safe_token() {
    assert_eq!(sanitize_component("John's PC", "device"), "John's PC");
    assert_eq!(sanitize_component("a/b\\c", "device"), "a_b_c");
    assert_eq!(sanitize_component("..", "device"), "device", "traversal falls back");
    assert_eq!(sanitize_component("   ", "device"), "device", "blank falls back");
    assert_eq!(sanitize_component("2026-07-12", "date"), "2026-07-12");
    assert!(sanitize_component("CON", "device").starts_with('_'));
}

#[test]
fn reject_total_length_over_limit() {
    let huge = "a".repeat(MAX_TOTAL_LEN + 1);
    assert_eq!(reject(&huge), RejectReason::TooLong);
}

#[test]
fn reject_single_component_over_limit() {
    let long_comp = "b".repeat(MAX_COMPONENT_LEN + 1);
    assert_eq!(long_comp.len(), MAX_COMPONENT_LEN + 1);
    assert!(long_comp.len() <= MAX_TOTAL_LEN);
    assert_eq!(reject(&long_comp), RejectReason::TooLong);
    let at_comp_limit = "b".repeat(MAX_COMPONENT_LEN);
    assert_eq!(accept_path(&at_comp_limit), at_comp_limit);
}

#[test]
fn component_limit_counts_bytes() {
    let at_limit = "é".repeat(MAX_COMPONENT_LEN / 2);
    assert_eq!(accept_path(&at_limit), at_limit);
    assert_eq!(reject(&"é".repeat(MAX_COMPONENT_LEN / 2 + 1)), RejectReason::TooLong);
}

#[test]
fn reject_too_many_components() {
    let over = vec!["a"; MAX_COMPONENTS + 1].join("/");
    assert_eq!(reject(&over), RejectReason::TooManyComponents);
    let at = vec!["a"; MAX_COMPONENTS].join("/");
    assert_eq!(accept_path(&at), at);
    let with_dots = "a/./a/./a";
    assert_eq!(accept_path(with_dots), "a/a/a");
}

#[test]
fn a_hidden_traversal_is_dropped() {
    assert_eq!(accept_path("a/.\u{200B}./b"), "a/b");
    assert_eq!(accept_path("\u{202E}..\u{2060}/x"), "x");
}

// ── opening on disk ───────────────────────────────────────────────────────

/// Opens against a set of taken names and returns the name that was opened.
fn open_among(name: &str, taken: &[&str]) -> String {
    let mut step = OpenStep::start();
    for _ in 0..100 {
        step = match step {
            OpenStep::Probe { attempt, .. } => {
                let candidate = dedupe_name(name, attempt);
                if taken.contains(&candidate.as_str()) {
                    step.next(OpenEvent::Yes)
                } else {
                    step.next(OpenEvent::No)
                }
            }
            OpenStep::Create { .. } => step.next(OpenEvent::Done),
            OpenStep::Verify { .. } => step.next(OpenEvent::Yes),
            OpenStep::Opened { attempt } => return dedupe_name(name, attempt),
            other => panic!("unexpected {other:?}"),
        };
    }
    panic!("never opened");
}

#[test]
fn resolve_dedupes_extensionless_name() {
    assert_eq!(open_among("README", &[]), "README");
    assert_eq!(open_among("README", &["README"]), "README (1)");
    assert_eq!(open_among("README", &["README", "README (1)"]), "README (2)");
}

#[test]
fn resolve_dedupe_preserves_extension() {
    assert_eq!(open_among("photo.jpg", &["photo.jpg"]), "photo (1).jpg");
}

#[test]
fn dedupe_keeps_dot_files_whole_and_ends_with_dup() {
    assert_eq!(dedupe_name(".bashrc", 1), ".bashrc (1)");
    assert_eq!(dedupe_name("a.tar.gz", 3), "a.tar (3).gz");
    assert_eq!(dedupe_name("a.txt", 10_000), "a (10000).txt");
    assert_eq!(dedupe_name("a.txt", 10_001), "a (dup).txt");
}

#[test]
fn an_escaped_file_is_removed_and_refused() {
    let created = OpenStep::Verify { attempt: 0 };
    let remove = created.next(OpenEvent::No);
    assert_eq!(remove, OpenStep::Remove { attempt: 0 });
    let end = remove.next(OpenEvent::Done);
    assert_eq!(end, OpenStep::Escaped);
    match open_error(end, "t", "") {
        Some(LanBeamError::UnsafePath(m)) => assert_eq!(m, "escapes download root"),
        other => panic!("{other:?}"),
    }
}

#[test]
fn a_lost_race_starts_over_and_gives_up_in_the_end() {
    let step = OpenStep::Create { round: 0, attempt: 2 };
    assert_eq!(step.next(OpenEvent::Taken), OpenStep::Probe { round: 1, attempt: 0 });
    let last = OpenStep::Create { round: 9_999, attempt: 2 };
    let end = last.next(OpenEvent::Taken);
    assert_eq!(end, OpenStep::Collisions);
    match open_error(end, "t", "") {
        Some(LanBeamError::Io(m)) => assert_eq!(m, "too many name collisions"),
        other => panic!("{other:?}"),
    }
    let failed = step.next(OpenEvent::Error);
    match open_error(failed, "/d/a.txt", "denied") {
        Some(LanBeamError::Io(m)) => assert_eq!(m, "create /d/a.txt: denied"),
        other => panic!("{other:?}"),
    }
}

#[test]
fn attempts_have_names_of_their_own_that_stay_safe() {
    for name in ["a.txt", "archive.tar.gz", "plain", ".hidden", "_CON"] {
        let mut seen = std::collections::HashSet::new();
        for attempt in 0..=10_001 {
            let n = dedupe_name(name, attempt);
            assert_eq!(accept_path(&n), n, "a numbered name passes the validation unchanged");
            assert!(seen.insert(n));
        }
    }
}

fn parts(p: &[&str]) -> Vec<String> {
    p.iter().map(|s| s.to_string()).collect()
}

#[test]
fn containment_is_by_component() {
    let base = parts(&["/", "home", "dl"]);
    assert!(opened_inside_root(&parts(&["/", "home", "dl", "a"]), &base));
    assert!(opened_inside_root(&base, &base));
    assert!(!opened_inside_root(&parts(&["/", "home", "dl2", "a"]), &base));
    assert!(!opened_inside_root(&parts(&["/", "home"]), &base));
}

#[test]
fn the_parent_gate_resolves_before_it_creates() {
    let base = parts(&["/", "dl"]);
    let step = GateStep::ProbeAncestor { depth: 4 };
    let step = ensure_parent_in_root(step, GateEvent::Exists(false), &base, 1);
    assert!(matches!(step, GateStep::ProbeAncestor { depth: 3 }));
    let step = ensure_parent_in_root(step, GateEvent::Exists(true), &base, 1);
    assert!(matches!(step, GateStep::ResolveAncestor { depth: 3 }));
    let outside = ensure_parent_in_root(
        GateStep::ResolveAncestor { depth: 3 },
        GateEvent::Resolved(Ok(parts(&["/", "tmp"]))),
        &base,
        1,
    );
    match outside {
        GateStep::Refused(LanBeamError::UnsafePath(m)) => assert_eq!(m, "escapes download root"),
        other => panic!("{other:?}"),
    }
    let step = ensure_parent_in_root(
        step,
        GateEvent::Resolved(Ok(parts(&["/", "dl", "a"]))),
        &base,
        1,
    );
    assert!(matches!(step, GateStep::CreateFolders));
    let step = ensure_parent_in_root(step, GateEvent::Created(Ok(())), &base, 1);
    assert!(matches!(step, GateStep::ResolveParent));
    let step = ensure_parent_in_root(
        step,
        GateEvent::Resolved(Ok(parts(&["/", "dl", "a", "b"]))),
        &base,
        1,
    );
    assert!(matches!(step, GateStep::Allowed));
    match ensure_parent_in_root(
        GateStep::CreateFolders,
        GateEvent::Created(Err("full".to_string())),
        &base,
        1,
    ) {
        GateStep::Refused(LanBeamError::UnsafePath(m)) => assert_eq!(m, "create dirs: full"),
        other => panic!("{other:?}"),
    }
}

fn refusal(step: ResumeStep) -> LanBeamError {
    match step {
        ResumeStep::Refused(e) => e,
        other => panic!("{other:?}"),
    }
}

#[test]
fn resuming_refuses_links_and_escapes() {
    let step = resume_next(ResumeStep::CheckLink, ResumeEvent::Link(false), "/d/a");
    assert!(matches!(step, ResumeStep::Open));
    let step = resume_next(step, ResumeEvent::Opened(Ok(())), "/d/a");
    assert!(matches!(step, ResumeStep::Verify));
    assert!(matches!(resume_next(step, ResumeEvent::Inside(true), "/d/a"), ResumeStep::Opened));

    let e = refusal(resume_next(ResumeStep::CheckLink, ResumeEvent::Link(true), "/d/a"));
    assert!(
        matches!(e, LanBeamError::UnsafePath(m) if m == "refusing to resume through a symlink")
    );
    let e = refusal(resume_next(ResumeStep::Verify, ResumeEvent::Inside(false), "/d/a"));
    assert!(matches!(e, LanBeamError::UnsafePath(m) if m == "escapes download root"));
    let denied = ResumeEvent::Opened(Err("denied".to_string()));
    let e = refusal(resume_next(ResumeStep::Open, denied, "/d/a"));
    assert!(matches!(e, LanBeamError::Io(m) if m == "open partial /d/a: denied"));
    assert!(matches!(root_error("gone"), LanBeamError::UnsafePath(m) if m == "download root: gone"));
}
