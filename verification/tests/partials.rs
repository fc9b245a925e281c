use lanbeam::partials::{
    FileIdentity, PartialRecord, PartialsStore, StoredTable, WriteGate,
};

fn empty_store() -> PartialsStore {
    PartialsStore::load("partials.json".to_string(), StoredTable::Missing)
}

fn rec(rel: &str, bytes: u64) -> PartialRecord {
    PartialRecord {
        rel: rel.into(),
        size: 1000,
        sha256: Some("deadbeef".into()),
        disk_rel: rel.into(),
        bytes_written: bytes,
    }
}

fn id(rel: &str) -> FileIdentity {
    FileIdentity { rel: rel.into(), size: 1000, sha256: Some("deadbeef".into()) }
}

#[test]
fn roundtrip_preserves_records() {
    let mut store = empty_store();
    assert_eq!(store.len(), 0, "missing file must mean empty store");
    store.set_files("dev-a", &[], vec![rec("a.bin", 400), rec("b.bin", 500)]);

    let written: Vec<(String, Vec<PartialRecord>)> = store.map.entries.clone();
    let back = PartialsStore::load("partials.json".to_string(), StoredTable::Parsed(written));
    assert_eq!(back.len(), 2);
    let got = back.lookup("dev-a", &id("a.bin")).expect("a.bin survives the round-trip");
    assert_eq!(got.bytes_written, 400);
}

#[test]
fn lookup_requires_full_identity_match() {
    let mut store = empty_store();
    store.set_files("dev", &[], vec![rec("f.bin", 300)]);

    let same = id("f.bin");
    assert!(store.lookup("dev", &same).is_some());
    let changed_hash = FileIdentity { sha256: Some("00000000".into()), ..id("f.bin") };
    assert!(
        store.lookup("dev", &changed_hash).is_none(),
        "a new hash must not match"
    );
    let changed_size = FileIdentity { size: 2000, ..id("f.bin") };
    assert!(
        store.lookup("dev", &changed_size).is_none(),
        "a new size must not match"
    );
    assert!(
        store.lookup("other-dev", &same).is_none(),
        "partials are per device"
    );
}

#[test]
fn set_files_removes_then_appends_and_prunes_empty_device() {
    let mut store = empty_store();
    let a = rec("a.bin", 400).identity();
    let b = rec("b.bin", 500).identity();
    store.set_files("dev", &[], vec![rec("a.bin", 400), rec("b.bin", 500)]);
    assert_eq!(store.len(), 2);

    store.set_files("dev", &[a.clone(), b.clone()], vec![rec("a.bin", 800)]);
    assert_eq!(store.len(), 1, "only the still-partial file remains");
    let id_a = id("a.bin");
    assert_eq!(store.lookup("dev", &id_a).unwrap().bytes_written, 800);

    store.set_files("dev", &[a, b], vec![]);
    assert_eq!(store.len(), 0);
    assert!(store.lookup("dev", &id_a).is_none());
    assert_eq!(store.map.len(), 0, "the device is gone with its last file");
}

#[test]
fn clear_device_returns_and_empties() {
    let mut store = empty_store();
    store.set_files("dev", &[], vec![rec("a.bin", 400), rec("b.bin", 500)]);
    let removed = store.clear_device("dev");
    assert_eq!(removed.len(), 2);
    assert_eq!(store.len(), 0);
    assert!(
        store.clear_device("dev").is_empty(),
        "second discard has nothing"
    );
}

#[test]
fn stale_snapshot_cannot_overwrite_newer_one() {
    let mut store = empty_store();
    let mut gate = WriteGate { last_written: 0 };
    store.set_files("dev", &[], vec![rec("a.bin", 400)]);
    let old_snap = store.snapshot(Some("old".to_string())).expect("serializable");
    store.set_files("dev", &[], vec![rec("b.bin", 500)]);
    let new_snap = store.snapshot(Some("new".to_string())).expect("serializable");

    assert!(new_snap.is_current(&gate));
    new_snap.settle(&mut gate, true);
    assert!(!old_snap.is_current(&gate), "stale → no-op");
    old_snap.settle(&mut gate, true);
    assert!(new_snap.is_current(&gate));
    assert_eq!(new_snap.json, "new");
    assert_eq!(new_snap.path, "partials.json");
}

#[test]
fn a_failed_write_leaves_room_for_an_older_image() {
    let mut store = empty_store();
    let mut gate = WriteGate { last_written: 0 };
    store.set_files("dev", &[], vec![rec("a.bin", 400)]);
    let old_snap = store.snapshot(Some("old".to_string())).unwrap();
    store.set_files("dev", &[], vec![rec("b.bin", 500)]);
    let new_snap = store.snapshot(Some("new".to_string())).unwrap();
    new_snap.settle(&mut gate, false);
    assert!(old_snap.is_current(&gate));
    assert!(store.snapshot(None).is_none(), "what cannot be serialized is not written");
}

#[test]
fn corrupted_file_falls_back_to_empty() {
    let store = PartialsStore::load("partials.json".to_string(), StoredTable::Broken);
    assert!(store.is_empty(), "corrupt file must yield an empty store");
    assert_eq!(store.len(), 0);
}

#[test]
fn unreadable_path_falls_back_to_empty() {
    let store = PartialsStore::load("a-folder".to_string(), StoredTable::Broken);
    assert!(store.is_empty());
    assert_eq!(store.len(), 0);
}

#[test]
fn set_files_idempotent_reports_no_change() {
    let mut store = empty_store();
    let a = rec("a.bin", 400).identity();
    assert!(store.set_files("dev", &[], vec![rec("a.bin", 400)]));
    let seq = store.seq;
    let changed = store.set_files("dev", &[a], vec![rec("a.bin", 400)]);
    assert!(!changed, "identical result must report no change");
    assert_eq!(store.seq, seq);
    assert_eq!(store.len(), 1);
    assert!(!store.set_files("nobody", &[], vec![]));
}

#[test]
fn is_empty_tracks_records() {
    let mut store = empty_store();
    assert!(store.is_empty());
    store.set_files("dev", &[], vec![rec("a.bin", 400)]);
    assert!(!store.is_empty());
    store.clear_device("dev");
    assert!(store.is_empty());
}

#[test]
fn of_two_entries_for_a_device_the_later_counts() {
    let store = PartialsStore::load(
        "partials.json".to_string(),
        StoredTable::Parsed(vec![
            ("dev".to_string(), vec![rec("a.bin", 1)]),
            ("dev".to_string(), vec![rec("b.bin", 2)]),
        ]),
    );
    assert_eq!(store.len(), 1);
    assert!(store.lookup("dev", &id("a.bin")).is_none());
    assert_eq!(store.lookup("dev", &id("b.bin")).unwrap().bytes_written, 2);
}

#[test]
fn clearing_a_device_takes_its_files_off_the_count() {
    let mut store = empty_store();
    store.set_files("dev", &[], vec![rec("a.bin", 1), rec("b.bin", 2)]);
    store.set_files("other", &[], vec![rec("a.bin", 3)]);
    let (before, seq) = (store.len(), store.seq);
    let removed = store.clear_device("dev");
    assert_eq!(store.len() + removed.len(), before);
    assert_eq!(store.seq, seq + 1);
    assert_eq!(store.lookup("dev", &id("a.bin")), None);
    assert_eq!(store.lookup("other", &id("a.bin")).unwrap().bytes_written, 3);
    assert!(store.clear_device("dev").is_empty());
    assert_eq!((store.len(), store.seq), (1, seq + 1), "a second time changes nothing");
}
