use lanbeam::diagnostics::{
    bundle_file, diagnostics_text, newest_log_file, tail_offset, tail_text, LogCandidate, Report,
    ReportedIface, ReportedLog,
};
use lanbeam::settings::Settings;

#[test]
fn read_tail_caps_and_keeps_the_end() {
    let file = b"AAAAAAAAAAtail-marker";
    let from = tail_offset(file.len() as u64, 11) as usize;
    assert_eq!(tail_text(&file[from..]), "tail-marker");
    let from = tail_offset(file.len() as u64, 10_000) as usize;
    assert_eq!(tail_text(&file[from..]), "AAAAAAAAAAtail-marker");
}

#[test]
fn a_tail_that_begins_inside_a_character_is_readable() {
    assert_eq!(tail_text(&"é!".as_bytes()[1..]), "\u{FFFD}!");
}

fn log(name: &str, modified: Option<u128>) -> LogCandidate {
    LogCandidate { name: name.to_string(), modified }
}

#[test]
fn newest_log_file_picks_latest_log() {
    let files = vec![
        log("old.log", Some(1)),
        log("ignore.txt", Some(9)),
        log("new.log", Some(2)),
        log("unknown.log", None),
        log(".log", Some(10)),
    ];
    let got = newest_log_file(&files).expect("a log file exists");
    assert_eq!(files[got].name, "new.log");
    assert_eq!(newest_log_file(&vec![log("a.txt", Some(1))]), None);
}

#[test]
fn a_bundle_is_written_whatever_could_be_read() {
    assert_eq!(bundle_file("20010909-014640"), "lanbeam-diag-20010909-014640.txt");
    let text = diagnostics_text(&Report {
        stamp: "20010909-014640".to_string(),
        version: "1.2.3".to_string(),
        os: "linux".to_string(),
        arch: "x86_64".to_string(),
        tcp_port: 51704,
        download_dir: None,
        settings: None,
        interfaces: Ok(vec![ReportedIface {
            name: "eth0".to_string(),
            ip: "10.0.0.1".to_string(),
            loopback: false,
        }]),
        log: ReportedLog::Missing,
    });
    assert!(text.contains("1.2.3") && text.contains("51704") && text.contains("eth0"));
    assert!(text.contains("<unavailable: settings lock poisoned>\n"));
    assert!(text.contains("[log tail (up to 512000 bytes)]\n"));

    let mut s = Settings::defaults("My \"PC\"".to_string());
    s.download_dir_override = Some("D:\\Drop".to_string());
    let text = diagnostics_text(&Report {
        stamp: "s".to_string(),
        version: "v".to_string(),
        os: "o".to_string(),
        arch: "a".to_string(),
        tcp_port: 0,
        download_dir: Some("/d".to_string()),
        settings: Some(s),
        interfaces: Err("denied".to_string()),
        log: ReportedLog::Tail { path: "/l".to_string(), text: "last words".to_string() },
    });
    assert!(text.contains("Some(\"D:\\\\Drop\")"), "{text}");
    assert!(text.contains("denied") && text.contains("last words"));
}
