//! Where the application keeps its files, and the move of its data out of the
//! folder that is named after the bundle identifier.

use vstd::prelude::*;

use crate::sanitize::texts;
use crate::text::{chars_eq, chars_of, concat, has_prefix, joined, starts_with};

verus! {

/// The name of the application's folder.
pub const APP_DIR: &'static str = "LanBeam";

/// Whether `s` ends with `suffix`.
pub open spec fn ends_with(s: Seq<char>, suffix: Seq<char>) -> bool {
    suffix.len() <= s.len() && s.subrange(s.len() - suffix.len(), s.len() as int) == suffix
}

/// A file name without its `.json`, empty when it has none.
pub open spec fn json_stem(name: Seq<char>) -> Seq<char> {
    if ends_with(name, ".json"@) {
        name.subrange(0, name.len() - 5)
    } else {
        Seq::empty()
    }
}

/// Whether a stem is `base` itself or that of an instance.
pub open spec fn stem_of(stem: Seq<char>, base: Seq<char>) -> bool {
    stem == base || starts_with(stem, base + "-"@)
}

/// Whether a file belongs to the application: the settings, the trusted peers
/// and the partial transfers, each also for instances.
pub open spec fn owned(name: Seq<char>) -> bool {
    let stem = json_stem(name);
    stem_of(stem, "settings"@) || stem_of(stem, "trusted"@) || stem_of(stem, "partials"@)
}

fn matches_stem(stem: &[char], base: &str) -> (r: bool)
    ensures
        r == stem_of(stem@, base@),
{
    let b = chars_of(base);
    let dashed = concat(base, "-");
    let d = chars_of(dashed.as_str());
    chars_eq(stem, b.as_slice()) || has_prefix(stem, d.as_slice())
}

pub fn is_owned(name: &str) -> (r: bool)
    ensures
        r == owned(name@),
{
    let v = chars_of(name);
    let n: usize = v.len();
    proof {
        reveal_strlit(".json");
    }
    let suffix = chars_of(".json");
    let mut stem: Vec<char> = Vec::new();
    if n >= 5 && chars_eq(vstd::slice::slice_subrange(v.as_slice(), n - 5, n), suffix.as_slice()) {
        stem = crate::text::copy_chars(vstd::slice::slice_subrange(v.as_slice(), 0, n - 5));
    }
    proof {
        assert(stem@ =~= json_stem(name@));
    }
    matches_stem(stem.as_slice(), "settings") || matches_stem(stem.as_slice(), "trusted")
        || matches_stem(stem.as_slice(), "partials")
}

/// One step of moving a file.
#[derive(Debug, Clone, Copy, PartialEq, Eq, Structural)]
pub enum MoveStep {
    /// See whether there is a file at the destination.
    CheckDestination,
    MakeFolder,
    Rename,
    Copy,
    RemoveSource,
    /// The end: the file is at the destination.
    Moved,
    /// The end: the file could not be moved.
    Failed,
    /// The end: there was a file at the destination already.
    Kept,
}

impl MoveStep {
    pub open spec fn ends(self) -> bool {
        self is Moved || self is Failed || self is Kept
    }

    /// What follows a step, given whether it succeeded or found something.
    pub open spec fn after(self, ok: bool) -> MoveStep {
        match self {
            MoveStep::CheckDestination => if ok {
                MoveStep::Kept
            } else {
                MoveStep::MakeFolder
            },
            MoveStep::MakeFolder => if ok {
                MoveStep::Rename
            } else {
                MoveStep::Failed
            },
            MoveStep::Rename => if ok {
                MoveStep::Moved
            } else {
                MoveStep::Copy
            },
            MoveStep::Copy => if ok {
                MoveStep::RemoveSource
            } else {
                MoveStep::Failed
            },
            MoveStep::RemoveSource => MoveStep::Moved,
            end => end,
        }
    }

    /// The first step for a file of the old folder; files of others are left
    /// alone.
    pub fn start(name: &str) -> (r: Option<MoveStep>)
        ensures
            r == if owned(name@) {
                Some(MoveStep::CheckDestination)
            } else {
                None
            },
    {
        if is_owned(name) {
            Some(MoveStep::CheckDestination)
        } else {
            None
        }
    }

    pub fn next(self, ok: bool) -> (r: MoveStep)
        ensures
            r == self.after(ok),
    {
        match self {
            MoveStep::CheckDestination => {
                if ok {
                    MoveStep::Kept
                } else {
                    MoveStep::MakeFolder
                }
            },
            MoveStep::MakeFolder => {
                if ok {
                    MoveStep::Rename
                } else {
                    MoveStep::Failed
                }
            },
            MoveStep::Rename => {
                if ok {
                    MoveStep::Moved
                } else {
                    MoveStep::Copy
                }
            },
            MoveStep::Copy => {
                if ok {
                    MoveStep::RemoveSource
                } else {
                    MoveStep::Failed
                }
            },
            MoveStep::RemoveSource => MoveStep::Moved,
            MoveStep::Moved => MoveStep::Moved,
            MoveStep::Failed => MoveStep::Failed,
            MoveStep::Kept => MoveStep::Kept,
        }
    }
}

/// The steps that follow the outcomes of the steps before them.
pub open spec fn run(step: MoveStep, outcomes: Seq<bool>) -> MoveStep
    decreases outcomes.len(),
{
    if outcomes.len() == 0 {
        step
    } else {
        run(step, outcomes.drop_last()).after(outcomes.last())
    }
}

/// A file that is at the destination is never overwritten: once it was seen
/// there, no further step is taken, whatever would come of it.
pub proof fn law_migration_never_overwrites(outcomes: Seq<bool>)
    requires
        outcomes.len() > 0,
        outcomes[0],
    ensures
        run(MoveStep::CheckDestination, outcomes) is Kept,
    decreases outcomes.len(),
{
    reveal_with_fuel(run, 2);
    if outcomes.len() > 1 {
        law_migration_never_overwrites(outcomes.drop_last());
    } else {
        assert(outcomes.drop_last() =~= Seq::<bool>::empty());
    }
}

/// The source is only removed once its copy was made.
pub proof fn law_source_removed_after_copy(outcomes: Seq<bool>)
    requires
        run(MoveStep::CheckDestination, outcomes) is RemoveSource,
    ensures
        outcomes.len() > 0,
        outcomes.last(),
        run(MoveStep::CheckDestination, outcomes.drop_last()) is Copy,
{
    reveal_with_fuel(run, 2);
}

/// Every file comes to an end within five steps.
pub proof fn law_move_ends(outcomes: Seq<bool>)
    requires
        outcomes.len() == 5,
    ensures
        run(MoveStep::CheckDestination, outcomes).ends(),
{
    reveal_with_fuel(run, 6);
}

/// The files of a move that came to an end.
#[derive(Debug)]
pub struct Migration {
    pub moved: Vec<String>,
    pub failed: Vec<String>,
}

impl Migration {
    pub fn new() -> (m: Self)
        ensures
            m.moved@.len() == 0,
            m.failed@.len() == 0,
    {
        Migration { moved: Vec::new(), failed: Vec::new() }
    }

    /// Records how a file ended; one that was kept is not mentioned.
    pub fn record(&mut self, name: String, end: MoveStep)
        ensures
            final(self).moved@ == if end is Moved {
                old(self).moved@.push(name)
            } else {
                old(self).moved@
            },
            final(self).failed@ == if end is Failed {
                old(self).failed@.push(name)
            } else {
                old(self).failed@
            },
    {
        match end {
            MoveStep::Moved => {
                self.moved.push(name);
            },
            MoveStep::Failed => {
                self.failed.push(name);
            },
            _ => {},
        }
    }
}

/// The names separated by a comma and a space.
pub open spec fn name_list(names: Seq<String>) -> Seq<char> {
    joined(texts(names), ", "@)
}

fn join_names(names: &Vec<String>) -> (r: String)
    ensures
        r@ == name_list(names@),
{
    let mut r = String::new();
    let ghost parts = texts(names@);
    let n: usize = names.len();
    for i in 0..n
        invariant
            n == names@.len(),
            parts == texts(names@),
            r@ == joined(parts.subrange(0, i as int), ", "@),
    {
        proof {
            assert(parts.subrange(0, i + 1).drop_last() =~= parts.subrange(0, i as int));
            assert(parts.subrange(0, i + 1).last() == names@[i as int]@);
        }
        if i > 0 {
            r.append(", ");
        }
        r.append(names[i].as_str());
        proof {
            if i == 0 {
                assert(r@ =~= names@[0]@);
            }
        }
    }
    proof {
        assert(parts.subrange(0, n as int) =~= parts);
    }
    r
}

/// What is logged of a move.
pub open spec fn note_text(
    old: Seq<char>,
    new: Seq<char>,
    moved: Seq<String>,
    failed: Seq<String>,
) -> Seq<char> {
    let head = "migrated app data out of the bundle-id folder: "@ + old + " -> "@ + new + " ("@
        + name_list(moved) + ")"@;
    if failed.len() == 0 {
        head
    } else {
        head + "; COULD NOT MOVE: "@ + name_list(failed)
    }
}

/// The line to log once the files were moved; none if there was nothing to
/// move.
pub fn migration_note(old_dir: &str, new_dir: &str, m: &Migration) -> (r: Option<String>)
    ensures
        match r {
            Some(n) => (m.moved@.len() > 0 || m.failed@.len() > 0) && n@ == note_text(
                old_dir@,
                new_dir@,
                m.moved@,
                m.failed@,
            ),
            None => m.moved@.len() == 0 && m.failed@.len() == 0,
        },
{
    if m.moved.len() == 0 && m.failed.len() == 0 {
        return None;
    }
    let mut note = concat("migrated app data out of the bundle-id folder: ", old_dir);
    note.append(" -> ");
    note.append(new_dir);
    note.append(" (");
    let done = join_names(&m.moved);
    note.append(done.as_str());
    note.append(")");
    if m.failed.len() > 0 {
        note.append("; COULD NOT MOVE: ");
        let left = join_names(&m.failed);
        note.append(left.as_str());
    }
    Some(note)
}

// ── a whole move ──────────────────────────────────────────────────────────

/// The files of the old and of the new folder, each with its bytes.
pub struct Folders {
    pub old: Map<Seq<char>, Seq<u8>>,
    pub new: Map<Seq<char>, Seq<u8>>,
}

/// What a step finds or achieves on a disk that refuses nothing, but for a
/// rename between two volumes.
pub open spec fn step_outcome(
    f: Folders,
    name: Seq<char>,
    step: MoveStep,
    rename_works: bool,
) -> bool {
    match step {
        MoveStep::CheckDestination => f.new.contains_key(name),
        MoveStep::Rename => rename_works,
        _ => true,
    }
}

/// What a step does to the files.
pub open spec fn step_effect(
    f: Folders,
    name: Seq<char>,
    step: MoveStep,
    rename_works: bool,
) -> Folders {
    match step {
        MoveStep::Rename => if rename_works {
            Folders { old: f.old.remove(name), new: f.new.insert(name, f.old[name]) }
        } else {
            f
        },
        MoveStep::Copy => Folders { new: f.new.insert(name, f.old[name]), ..f },
        MoveStep::RemoveSource => Folders { old: f.old.remove(name), ..f },
        _ => f,
    }
}

/// Where the steps of one file lead, and what they leave behind.
pub open spec fn carried(
    f: Folders,
    name: Seq<char>,
    step: MoveStep,
    rename_works: bool,
    limit: nat,
) -> (MoveStep, Folders)
    decreases limit,
{
    if limit == 0 || step.ends() {
        (step, f)
    } else {
        carried(
            step_effect(f, name, step, rename_works),
            name,
            step.after(step_outcome(f, name, step, rename_works)),
            rename_works,
            (limit - 1) as nat,
        )
    }
}

/// The end of one file of the old folder. One that is not owned is not
/// touched.
pub open spec fn file_moved(f: Folders, name: Seq<char>, rename_works: bool) -> (MoveStep, Folders) {
    if owned(name) {
        carried(f, name, MoveStep::CheckDestination, rename_works, 5)
    } else {
        (MoveStep::Kept, f)
    }
}

/// What a move of the files with these names leaves behind, and the names that
/// are recorded of it.
pub struct Moving {
    pub folders: Folders,
    pub moved: Seq<Seq<char>>,
    pub failed: Seq<Seq<char>>,
}

/// The move of one file after another.
pub open spec fn migrated(f: Folders, names: Seq<Seq<char>>, rename_works: bool) -> Moving
    decreases names.len(),
{
    if names.len() == 0 {
        Moving { folders: f, moved: Seq::empty(), failed: Seq::empty() }
    } else {
        let before = migrated(f, names.drop_last(), rename_works);
        let (end, folders) = file_moved(before.folders, names.last(), rename_works);
        Moving {
            folders,
            moved: if end is Moved {
                before.moved.push(names.last())
            } else {
                before.moved
            },
            failed: if end is Failed {
                before.failed.push(names.last())
            } else {
                before.failed
            },
        }
    }
}

/// Whether a file of the old folder is due to move: it is owned, and the new
/// folder has none of its name.
pub open spec fn moves(f: Folders, name: Seq<char>) -> bool {
    f.old.contains_key(name) && owned(name) && !f.new.contains_key(name)
}

/// Whether these are the names of the old folder, each once.
pub open spec fn lists_old(f: Folders, names: Seq<Seq<char>>) -> bool {
    &&& names.no_duplicates()
    &&& forall|n: Seq<char>| #[trigger] names.contains(n) <==> f.old.contains_key(n)
}

/// The folders once the files that are due among `names` are moved.
pub open spec fn after_move(f: Folders, names: Seq<Seq<char>>) -> Folders {
    Folders {
        old: Map::new(
            |n: Seq<char>| f.old.contains_key(n) && !(moves(f, n) && names.contains(n)),
            |n: Seq<char>| f.old[n],
        ),
        new: Map::new(
            |n: Seq<char>| f.new.contains_key(n) || (moves(f, n) && names.contains(n)),
            |n: Seq<char>|
                if f.new.contains_key(n) {
                    f.new[n]
                } else {
                    f.old[n]
                },
        ),
    }
}

proof fn lemma_file_moved(f: Folders, name: Seq<char>, rename_works: bool)
    requires
        f.old.contains_key(name),
    ensures
        file_moved(f, name, rename_works) == if moves(f, name) {
            (
                MoveStep::Moved,
                Folders { old: f.old.remove(name), new: f.new.insert(name, f.old[name]) },
            )
        } else {
            (MoveStep::Kept, f)
        },
{
    reveal_with_fuel(carried, 6);
}

proof fn lemma_migrated(f: Folders, names: Seq<Seq<char>>, rename_works: bool)
    requires
        names.no_duplicates(),
        forall|i: int| 0 <= i < names.len() ==> f.old.contains_key(#[trigger] names[i]),
    ensures
        migrated(f, names, rename_works).folders == after_move(f, names),
        migrated(f, names, rename_works).moved == names.filter(|n: Seq<char>| moves(f, n)),
        migrated(f, names, rename_works).failed.len() == 0,
    decreases names.len(),
{
    reveal(Seq::filter);
    let p = |n: Seq<char>| moves(f, n);
    let r = migrated(f, names, rename_works);
    if names.len() == 0 {
        assert(r.folders.old =~= after_move(f, names).old);
        assert(r.folders.new =~= after_move(f, names).new);
    } else {
        let rest = names.drop_last();
        let last = names.last();
        assert(rest.no_duplicates());
        assert forall|i: int| 0 <= i < rest.len() implies f.old.contains_key(
            #[trigger] rest[i],
        ) by {
            assert(rest[i] == names[i]);
        }
        lemma_migrated(f, rest, rename_works);
        assert(!rest.contains(last)) by {
            assert(names[names.len() - 1] == last);
            if rest.contains(last) {
                let i = choose|i: int| 0 <= i < rest.len() && rest[i] == last;
                assert(names[i] == last);
            }
        }
        assert(names[names.len() - 1] == last);
        let g = after_move(f, rest);
        lemma_file_moved(g, last, rename_works);
        assert(moves(g, last) == moves(f, last));
        assert forall|n: Seq<char>| #[trigger] names.contains(n) <==> rest.contains(n) || n
            == last by {
            if names.contains(n) {
                let i = choose|i: int| 0 <= i < names.len() && names[i] == n;
                if i < rest.len() {
                    assert(rest[i] == n);
                }
            }
            if rest.contains(n) {
                let i = choose|i: int| 0 <= i < rest.len() && rest[i] == n;
                assert(names[i] == n);
            }
        }
        assert(r.folders.old =~= after_move(f, names).old);
        assert(r.folders.new =~= after_move(f, names).new);
    }
}

/// A move of the whole old folder, whether files are renamed or copied: a file
/// is moved if and only if it is owned and the new folder had none of its
/// name. It then has its bytes in the new folder and is gone from the old one.
/// Every other file of either folder stays as it was, nothing fails, and a
/// note is due if and only if some file moved.
pub proof fn law_migration_moves_owned_files_only(
    f: Folders,
    names: Seq<Seq<char>>,
    rename_works: bool,
)
    requires
        lists_old(f, names),
    ensures
        ({
            let r = migrated(f, names, rename_works);
            &&& forall|n: Seq<char>| #[trigger] r.moved.contains(n) <==> moves(f, n)
            &&& forall|n: Seq<char>| #[trigger]
                moves(f, n) ==> r.folders.new.contains_key(n) && r.folders.new[n] == f.old[n]
                    && !r.folders.old.contains_key(n)
            &&& forall|n: Seq<char>|
                !moves(f, n) ==> r.folders.old.contains_key(n) == #[trigger] f.old.contains_key(n)
                    && (f.old.contains_key(n) ==> r.folders.old[n] == f.old[n])
            &&& forall|n: Seq<char>|
                !moves(f, n) ==> r.folders.new.contains_key(n) == #[trigger] f.new.contains_key(n)
                    && (f.new.contains_key(n) ==> r.folders.new[n] == f.new[n])
            &&& r.failed.len() == 0
            &&& r.moved.len() == 0 <==> forall|n: Seq<char>| !#[trigger] moves(f, n)
        }),
{
    let p = |n: Seq<char>| moves(f, n);
    assert forall|i: int| 0 <= i < names.len() implies f.old.contains_key(#[trigger] names[i]) by {
        assert(names.contains(names[i]));
    }
    lemma_migrated(f, names, rename_works);
    let moved = migrated(f, names, rename_works).moved;
    assert forall|n: Seq<char>| #[trigger] moved.contains(n) <==> moves(f, n) by {
        if moves(f, n) {
            assert(names.contains(n));
            let i = choose|i: int| 0 <= i < names.len() && names[i] == n;
            names.lemma_filter_contains(p, i);
        }
        if moved.contains(n) {
            let i = choose|i: int| 0 <= i < moved.len() && moved[i] == n;
            names.lemma_filter_pred(p, i);
        }
    }
    if moved.len() > 0 {
        assert(moved.contains(moved[0]));
        assert(moves(f, moved[0]));
    }
    assert forall|n: Seq<char>| #[trigger] moves(f, n) implies names.contains(n)
        && moved.contains(n) by {
        assert(f.old.contains_key(n));
    }
}

/// A second move finds nothing to do.
pub proof fn law_second_migration_moves_nothing(
    f: Folders,
    names: Seq<Seq<char>>,
    rename_works: bool,
    left: Seq<Seq<char>>,
    rename_works_now: bool,
)
    requires
        lists_old(f, names),
        lists_old(migrated(f, names, rename_works).folders, left),
    ensures
        ({
            let g = migrated(f, names, rename_works).folders;
            let again = migrated(g, left, rename_works_now);
            again.folders == g && again.moved.len() == 0 && again.failed.len() == 0
        }),
{
    let g = migrated(f, names, rename_works).folders;
    law_migration_moves_owned_files_only(f, names, rename_works);
    law_migration_moves_owned_files_only(g, left, rename_works_now);
    let again = migrated(g, left, rename_works_now).folders;
    assert forall|n: Seq<char>| !#[trigger] moves(g, n) by {
        if moves(f, n) {
            assert(g.new.contains_key(n));
        } else if g.old.contains_key(n) {
            assert(f.old.contains_key(n));
            assert(f.new.contains_key(n) == g.new.contains_key(n));
        }
    }
    assert forall|i: int| 0 <= i < left.len() implies g.old.contains_key(#[trigger] left[i]) by {
        assert(left.contains(left[i]));
    }
    lemma_migrated(g, left, rename_works_now);
    assert(again.old =~= g.old);
    assert(again.new =~= g.new);
}

/// Whether `part` occurs somewhere in `s`.
pub open spec fn occurs(part: Seq<char>, s: Seq<char>) -> bool {
    exists|i: int|
        0 <= i && i + part.len() <= s.len() && part == #[trigger] s.subrange(i, i + part.len())
}

proof fn lemma_occurs_around(part: Seq<char>, a: Seq<char>, s: Seq<char>, b: Seq<char>)
    requires
        occurs(part, s),
    ensures
        occurs(part, a + s + b),
{
    let i = choose|i: int|
        0 <= i && i + part.len() <= s.len() && part == #[trigger] s.subrange(i, i + part.len());
    let k = a.len() + i;
    assert((a + s + b).subrange(k, k + part.len()) =~= s.subrange(i, i + part.len()));
}

proof fn lemma_occurs_in_list(parts: Seq<Seq<char>>, sep: Seq<char>, k: int)
    requires
        0 <= k < parts.len(),
    ensures
        occurs(parts[k], joined(parts, sep)),
    decreases parts.len(),
{
    let all = joined(parts, sep);
    let last = parts.last();
    if k == parts.len() - 1 {
        let from = all.len() - last.len();
        assert(all.subrange(from, from + last.len()) =~= last);
    } else {
        lemma_occurs_in_list(parts.drop_last(), sep, k);
        lemma_occurs_around(
            parts[k],
            Seq::empty(),
            joined(parts.drop_last(), sep),
            sep + last,
        );
        assert(all =~= Seq::<char>::empty() + joined(parts.drop_last(), sep) + (sep + last));
    }
}

/// The note names every file that was moved.
pub proof fn law_note_names_every_moved_file(
    old: Seq<char>,
    new: Seq<char>,
    moved: Seq<String>,
    failed: Seq<String>,
    k: int,
)
    requires
        0 <= k < moved.len(),
    ensures
        occurs(moved[k]@, note_text(old, new, moved, failed)),
{
    let head = "migrated app data out of the bundle-id folder: "@ + old + " -> "@ + new + " ("@;
    let tail = if failed.len() == 0 {
        Seq::empty()
    } else {
        "; COULD NOT MOVE: "@ + name_list(failed)
    };
    assert(texts(moved)[k] == moved[k]@);
    lemma_occurs_in_list(texts(moved), ", "@, k);
    lemma_occurs_around(moved[k]@, head, name_list(moved), ")"@ + tail);
    assert(note_text(old, new, moved, failed) =~= head + name_list(moved) + (")"@ + tail));
}

} // verus!
