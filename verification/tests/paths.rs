use std::collections::BTreeMap;

use lanbeam::paths::{is_owned, migration_note, Migration, MoveStep};

/// Moves the files of one folder, held as names with contents, to another.
fn move_all(
    old: &mut BTreeMap<String, String>,
    new: &mut BTreeMap<String, String>,
    rename_works: bool,
) -> Option<String> {
    let mut m = Migration::new();
    let names: Vec<String> = old.keys().cloned().collect();
    for name in names {
        let mut step = match MoveStep::start(&name) {
            Some(s) => s,
            None => continue,
        };
        while step != MoveStep::Moved && step != MoveStep::Failed && step != MoveStep::Kept {
            let ok = match step {
                MoveStep::CheckDestination => new.contains_key(&name),
                MoveStep::MakeFolder => true,
                MoveStep::Rename => {
                    if rename_works {
                        let body = old.remove(&name).unwrap();
                        new.insert(name.clone(), body);
                    }
                    rename_works
                }
                MoveStep::Copy => {
                    new.insert(name.clone(), old[&name].clone());
                    true
                }
                MoveStep::RemoveSource => old.remove(&name).is_some(),
                _ => unreachable!(),
            };
            step = step.next(ok);
        }
        m.record(name, step);
    }
    migration_note("old", "new", &m)
}

fn folder(files: &[(&str, &str)]) -> BTreeMap<String, String> {
    files.iter().map(|(n, b)| (n.to_string(), b.to_string())).collect()
}

#[test]
fn migration_carries_the_trust_store_and_settings_across() {
    for rename_works in [true, false] {
        let mut old = folder(&[
            ("trusted.json", "TRUST-CIRCLE"),
            ("settings.json", "SETTINGS"),
            ("partials.json", "PARTIALS"),
            ("trusted-b.json", "INSTANCE-B"),
            ("some-other-app.json", "NOT OURS"),
        ]);
        let mut new = folder(&[]);
        let note = move_all(&mut old, &mut new, rename_works).expect("something moved");
        assert_eq!(new["trusted.json"], "TRUST-CIRCLE", "the trust circle arrived intact");
        assert!(new.contains_key("settings.json"));
        assert!(new.contains_key("partials.json"));
        assert!(new.contains_key("trusted-b.json"), "instance profiles too");
        assert!(!old.contains_key("trusted.json"), "and it was a MOVE");
        assert!(
            old.contains_key("some-other-app.json"),
            "a file that is not ours is not ours to move"
        );
        assert!(note.contains("trusted.json"));
    }
}

#[test]
fn a_second_migration_moves_nothing() {
    let mut old = folder(&[("trusted.json", "T"), ("partials-b.json", "P"), ("other.txt", "O")]);
    let mut new = folder(&[("settings.json", "S")]);
    assert!(move_all(&mut old, &mut new, true).is_some());
    let (old_after, new_after) = (old.clone(), new.clone());
    assert!(move_all(&mut old, &mut new, false).is_none());
    assert_eq!((old, new), (old_after, new_after));
}

#[test]
fn migration_never_overwrites_what_is_already_there() {
    let mut old = folder(&[("trusted.json", "OLD")]);
    let mut new = folder(&[("trusted.json", "NEW")]);
    move_all(&mut old, &mut new, true);
    assert_eq!(
        new["trusted.json"], "NEW",
        "the destination is the newer truth, and it stays"
    );
}

#[test]
fn migration_is_silent_when_there_is_nothing_to_do() {
    assert!(move_all(&mut folder(&[]), &mut folder(&[]), true).is_none());
}

#[test]
fn the_note_names_what_moved_and_what_did_not() {
    let mut m = Migration::new();
    m.record("a.json".to_string(), MoveStep::Moved);
    m.record("b.json".to_string(), MoveStep::Moved);
    m.record("c.json".to_string(), MoveStep::Failed);
    m.record("d.json".to_string(), MoveStep::Kept);
    assert_eq!(
        migration_note("/old", "/new", &m).unwrap(),
        "migrated app data out of the bundle-id folder: /old -> /new (a.json, b.json); COULD NOT MOVE: c.json"
    );
    assert!(is_owned("settings-x.json"));
    assert!(!is_owned("settingsx.json"));
    assert!(!is_owned("settings.txt"));
}
