//! Where received files go, how unfinished ones are taken up again, and which
//! files of the program move to its new folder.

use vstd::prelude::*;

use crate::commands::{finish_connect, finish_join, ConnectResult, PairAnswer};
use crate::error::LanBeamError;
use crate::keymap::KeyMap;
use crate::laws::texts::{
    all_blank, digits_only, lemma_decimal_digits, lemma_last_index, lemma_trimmed_of, tight, worth,
};
use crate::pairing::DialTarget;
use crate::paths::{is_owned, migration_note, Migration, MoveStep};
use crate::placement::{
    dedupe_name, ensure_parent_in_root, open_error, opened_inside_root, resume_next, root_error,
    GateEvent, GateStep, OpenEvent, OpenStep, ResumeEvent, ResumeStep,
};
use crate::sanitize::texts;
use crate::state::ManualPeer;
use crate::text::{decimal, last_index};
use crate::time::Instant;

verus! {

// ── names for files that are there already ────────────────────────────────

/// A name taken apart: `s` and `e`, where `e` is the last dot of the name and
/// what follows it. A name whose only dot comes first, or that has none, has no
/// such end.
pub open spec fn parts_of(name: Seq<char>, s: Seq<char>, e: Seq<char>) -> bool {
    &&& name == s + e
    &&& s.len() > 0 || e.len() == 0
    &&& e.len() > 0 ==> e[0] == '.' && forall|i: int| 1 <= i < e.len() ==> #[trigger] e[i] != '.'
    &&& e.len() == 0 ==> forall|i: int| 1 <= i < s.len() ==> #[trigger] s[i] != '.'
}

/// The first attempt has the name itself; the next ten thousand put a number in brackets
/// in front of the end of the name, and every further one `(dup)`.
pub proof fn law_attempts_number_the_name(
    name: &str,
    attempt: u32,
    r: String,
    s: Seq<char>,
    e: Seq<char>,
)
    requires
        call_ensures(dedupe_name, (name, attempt), r),
        parts_of(name@, s, e),
    ensures
        attempt == 0 ==> r@ == name@,
        1 <= attempt <= 10_000 ==> exists|d: Seq<char>| #[trigger]
            digits_only(d) && worth(d) == attempt && d.len() >= 1 && d[0] != '0' && r@ == s + " ("@
                + d + ")"@ + e,
        attempt > 10_000 ==> r@ == s + " (dup)"@ + e,
{
    lemma_last_index(name@, '.');
    let p = last_index(name@, '.');
    if e.len() > 0 {
        assert(name@[s.len() as int] == '.');
        assert forall|i: int| s.len() < i < name@.len() implies name@[i] != '.' by {
            assert(name@[i] == e[i - s.len()]);
        }
        assert(p == s.len());
        assert(name@.subrange(0, p) =~= s);
        assert(name@.subrange(p, name@.len() as int) =~= e);
    } else {
        assert(name@ =~= s);
        if p > 0 {
            assert(s[p] == '.');
        }
        assert(e =~= Seq::empty());
    }
    lemma_decimal_digits(attempt as nat);
    if 1 <= attempt <= 10_000 {
        assert(digits_only(decimal(attempt as nat)));
    }
}

// ── opening a file ────────────────────────────────────────────────────────

/// How a file comes to be opened: under each name in turn it is asked whether
/// something is there, up to number ten thousand; the first free name, or the
/// one behind the last, is created; what was created is opened only if it lies
/// inside the root, and removed else. A name that was taken in between starts the
/// round again, ten thousand times at most.
pub proof fn law_opening_step_by_step(first: OpenStep, step: OpenStep, event: OpenEvent, r: OpenStep)
    requires
        call_ensures(OpenStep::start, (), first),
        call_ensures(OpenStep::next, (step, event), r),
    ensures
        first == (OpenStep::Probe { round: 0, attempt: 0 }),
        step matches OpenStep::Probe { round, attempt } ==> {
            &&& event is No ==> r == (OpenStep::Create { round, attempt })
            &&& event is Yes && attempt < 10_000 ==> r == (OpenStep::Probe {
                round,
                attempt: (attempt + 1) as u32,
            })
            &&& event is Yes && attempt >= 10_000 ==> r == (OpenStep::Create { round, attempt: 10_001 })
        },
        step matches OpenStep::Create { round, attempt } ==> {
            &&& event is Done ==> r == (OpenStep::Verify { attempt })
            &&& event is Error ==> r == (OpenStep::Failed { attempt })
            &&& event is Taken && round < 9999 ==> r == (OpenStep::Probe {
                round: (round + 1) as u32,
                attempt: 0,
            })
            &&& event is Taken && round >= 9999 ==> r is Collisions
        },
        step matches OpenStep::Verify { attempt } ==> {
            &&& event is Yes ==> r == (OpenStep::Opened { attempt })
            &&& event is No ==> r == (OpenStep::Remove { attempt })
        },
        step is Remove ==> r is Escaped,
        step is Opened || step is Escaped || step is Failed || step is Collisions ==> r == step,
{
}

/// A file that could not be opened is told of in the words for why, and one that
/// was, or that is still on its way, is no error.
pub proof fn law_opening_errors(
    step: OpenStep,
    target: &str,
    why: &str,
    r: Option<LanBeamError>,
    root: LanBeamError,
)
    requires
        call_ensures(open_error, (step, target, why), r),
        call_ensures(root_error, (why,), root),
    ensures
        r is Some <==> step is Escaped || step is Failed || step is Collisions,
        step is Escaped ==> r->0 is UnsafePath && r->0->UnsafePath_0@ == "escapes download root"@,
        step is Failed ==> r->0 is Io && r->0->Io_0@ == "create "@ + target@ + ": "@ + why@,
        step is Collisions ==> r->0 is Io && r->0->Io_0@ == "too many name collisions"@,
        root is UnsafePath && root->UnsafePath_0@ == "download root: "@ + why@,
{
}

/// An unfinished file is taken up only if it is no link, can be opened, and lies
/// inside the root.
pub proof fn law_resuming_step_by_step(
    step: ResumeStep,
    event: ResumeEvent,
    target: &str,
    r: ResumeStep,
)
    requires
        call_ensures(resume_next, (step, event, target), r),
    ensures
        step is CheckLink && event == ResumeEvent::Link(false) ==> r is Open,
        step is CheckLink && event == ResumeEvent::Link(true) ==> (r matches ResumeStep::Refused(e)
            && e is UnsafePath && e->UnsafePath_0@ == "refusing to resume through a symlink"@),
        step is Open && event is Opened && event->Opened_0 is Ok ==> r is Verify,
        step is Open && event is Opened && event->Opened_0 is Err ==> (
        r matches ResumeStep::Refused(e) && e is Io && e->Io_0@ == "open partial "@ + target@ + ": "@
            + event->Opened_0->Err_0@),
        step is Verify && event == ResumeEvent::Inside(true) ==> r is Opened,
        step is Verify && event == ResumeEvent::Inside(false) ==> (r matches ResumeStep::Refused(e)
            && e is UnsafePath && e->UnsafePath_0@ == "escapes download root"@),
        step is Opened || step is Refused ==> r == step,
        step is CheckLink && !(event is Link) ==> r == step,
        step is Open && !(event is Opened) ==> r == step,
        step is Verify && !(event is Inside) ==> r == step,
{
}

/// A path lies inside a root if it begins with all its parts.
pub open spec fn inside(path: Seq<String>, root: Seq<String>) -> bool {
    root.len() <= path.len() && forall|i: int| 0 <= i < root.len() ==> path[i]@ == (#[trigger] root[i])@
}

proof fn lemma_inside(path: Seq<String>, root: Seq<String>)
    ensures
        crate::placement::within_root(path, root) == inside(path, root),
{
    if root.len() <= path.len() {
        let a = texts(path).subrange(0, root.len() as int);
        let b = texts(root);
        if inside(path, root) {
            assert forall|i: int| 0 <= i < root.len() implies a[i] == b[i] by {
                assert(path[i]@ == root[i]@);
            }
            assert(a =~= b);
        }
        if a == b {
            assert forall|i: int| 0 <= i < root.len() implies path[i]@ == (#[trigger] root[i])@ by {
                assert(a[i] == b[i]);
            }
        }
    }
}

/// What was opened lies inside the root exactly when its path begins with all the
/// parts of the root.
pub proof fn law_inside_is_part_by_part(path: &Vec<String>, root: &Vec<String>, r: bool)
    requires
        call_ensures(opened_inside_root, (path, root), r),
    ensures
        r == inside(path@, root@),
{
    lemma_inside(path@, root@);
}

/// The folders of a file are made only below a folder that is there and lies
/// inside the root, or where none is there down to the root; and they are used
/// only if they then lie inside it.
pub proof fn law_folders_step_by_step(
    step: GateStep,
    event: GateEvent,
    base: &Vec<String>,
    floor: usize,
    r: GateStep,
)
    requires
        call_ensures(ensure_parent_in_root, (step, event, base, floor), r),
    ensures
        step matches GateStep::ProbeAncestor { depth } ==> {
            &&& event == GateEvent::Exists(true) ==> r == (GateStep::ResolveAncestor { depth })
            &&& event == GateEvent::Exists(false) && depth > floor ==> r == (
            GateStep::ProbeAncestor { depth: (depth - 1) as usize })
            &&& event == GateEvent::Exists(false) && depth <= floor ==> r is CreateFolders
        },
        step is ResolveAncestor || step is ResolveParent ==> (event matches GateEvent::Resolved(
            Ok(at),
        ) ==> {
            &&& inside(at@, base@) && step is ResolveAncestor ==> r is CreateFolders
            &&& inside(at@, base@) && step is ResolveParent ==> r is Allowed
            &&& !inside(at@, base@) ==> says(r, "escapes download root"@)
        }),
        step is ResolveAncestor ==> (event matches GateEvent::Resolved(Err(e)) ==> says(
            r,
            "canonicalize ancestor: "@ + e@,
        )),
        step is ResolveParent ==> (event matches GateEvent::Resolved(Err(e)) ==> says(
            r,
            "canonicalize parent: "@ + e@,
        )),
        step is CreateFolders && event is Created && event->Created_0 is Ok ==> r is ResolveParent,
        step is CreateFolders ==> (event matches GateEvent::Created(Err(e)) ==> says(
            r,
            "create dirs: "@ + e@,
        )),
        step is Allowed || step is Refused ==> r == step,
{
    match event {
        GateEvent::Resolved(Ok(at)) => {
            lemma_inside(at@, base@);
        },
        _ => {},
    }
}

/// A refusal as an unsafe path, in these words.
pub open spec fn says(step: GateStep, words: Seq<char>) -> bool {
    match step {
        GateStep::Refused(e) => e is UnsafePath && e->UnsafePath_0@ == words,
        _ => false,
    }
}

// ── the move to the new folder ────────────────────────────────────────────

/// `base.json`, or `base-`, anything, and `.json`.
pub open spec fn file_of(name: Seq<char>, base: Seq<char>) -> bool {
    ||| name == base + ".json"@
    ||| exists|x: Seq<char>| name == #[trigger] (base + "-"@ + x) + ".json"@
}

proof fn lemma_file_of(name: Seq<char>, base: Seq<char>)
    requires
        base.len() > 0,
    ensures
        crate::paths::stem_of(crate::paths::json_stem(name), base) == file_of(name, base),
{
    reveal_strlit(".json");
    reveal_strlit("-");
    let json = ".json"@;
    let n = name.len() as int;
    let stem = crate::paths::json_stem(name);
    let lead = base + "-"@;
    if crate::paths::ends_with(name, json) {
        assert(name =~= stem + json);
        if crate::text::starts_with(stem, lead) {
            let x = stem.subrange(lead.len() as int, stem.len() as int);
            assert(stem =~= lead + x);
            assert(name == (base + "-"@ + x) + json);
        }
        if name == base + json {
            assert(stem =~= base);
        }
        if exists|x: Seq<char>| name == #[trigger] (base + "-"@ + x) + json {
            let x = choose|x: Seq<char>| name == #[trigger] (base + "-"@ + x) + json;
            assert(stem =~= lead + x);
            assert(stem.subrange(0, lead.len() as int) =~= lead);
        }
    } else {
        if name == base + json {
            assert(name.subrange(n - 5, n) =~= json);
        }
        if exists|x: Seq<char>| name == #[trigger] (base + "-"@ + x) + json {
            let x = choose|x: Seq<char>| name == #[trigger] (base + "-"@ + x) + json;
            assert(name.subrange(n - 5, n) =~= json);
        }
    }
}

/// The files of the program are those of its settings, its trust list and its
/// unfinished files, of every instance; these move, and no other file does.
pub proof fn law_own_files_by_name(name: &str, r: bool, start: Option<MoveStep>)
    requires
        call_ensures(is_owned, (name,), r),
        call_ensures(MoveStep::start, (name,), start),
    ensures
        r <==> file_of(name@, "settings"@) || file_of(name@, "trusted"@) || file_of(
            name@,
            "partials"@,
        ),
        start is Some <==> r,
        start is Some ==> start->0 is CheckDestination,
{
    reveal_strlit("settings");
    reveal_strlit("trusted");
    reveal_strlit("partials");
    lemma_file_of(name@, "settings"@);
    lemma_file_of(name@, "trusted"@);
    lemma_file_of(name@, "partials"@);
}

/// A file is kept where it is if one of its name is at the destination;
/// otherwise the folder is made, the file is renamed or, where that fails,
/// copied, and removed once it was copied. What fails before leaves it in place.
pub proof fn law_move_step_by_step(step: MoveStep, ok: bool, r: MoveStep)
    requires
        call_ensures(MoveStep::next, (step, ok), r),
    ensures
        step is CheckDestination ==> (ok ==> r is Kept) && (!ok ==> r is MakeFolder),
        step is MakeFolder ==> (ok ==> r is Rename) && (!ok ==> r is Failed),
        step is Rename ==> (ok ==> r is Moved) && (!ok ==> r is Copy),
        step is Copy ==> (ok ==> r is RemoveSource) && (!ok ==> r is Failed),
        step is RemoveSource ==> r is Moved,
        step is Moved || step is Failed || step is Kept ==> r == step,
{
}

/// The names with a comma and a space between them.
pub open spec fn listed(names: Seq<String>, t: Seq<char>) -> bool
    decreases names.len(),
{
    if names.len() == 0 {
        t.len() == 0
    } else if names.len() == 1 {
        t == names[0]@
    } else {
        let end = seq![',', ' '] + names[names.len() - 1]@;
        &&& end.len() <= t.len()
        &&& t.subrange(t.len() - end.len(), t.len() as int) == end
        &&& listed(names.drop_last(), t.subrange(0, t.len() - end.len()))
    }
}

proof fn lemma_listed(names: Seq<String>)
    ensures
        listed(names, crate::paths::name_list(names)),
    decreases names.len(),
{
    reveal_strlit(", ");
    assert(", "@ =~= seq![',', ' ']);
    let t = crate::paths::name_list(names);
    if names.len() > 1 {
        lemma_listed(names.drop_last());
        assert(texts(names).drop_last() =~= texts(names.drop_last()));
        let head = crate::paths::name_list(names.drop_last());
        let end = seq![',', ' '] + names[names.len() - 1]@;
        assert(t =~= head + end);
        assert(t.subrange(t.len() - end.len(), t.len() as int) =~= end);
        assert(t.subrange(0, t.len() - end.len()) =~= head);
    }
}

/// The note tells both folders, the files that moved, and the files that could
/// not; where nothing moved or failed there is none. A file that was kept is in
/// neither list.
pub proof fn law_note_tells_what_moved(
    from: &str,
    to: &str,
    m: &Migration,
    r: Option<String>,
    fresh: Migration,
    a: &mut Migration,
    name: String,
    end: MoveStep,
)
    requires
        call_ensures(migration_note, (from, to, m), r),
        call_ensures(Migration::new, (), fresh),
        call_ensures(Migration::record, (a, name, end), ()),
    ensures
        fresh.moved@.len() == 0 && fresh.failed@.len() == 0,
        end is Moved ==> final(a).moved@ == old(a).moved@.push(name) && final(a).failed@ == old(
            a,
        ).failed@,
        end is Failed ==> final(a).failed@ == old(a).failed@.push(name) && final(a).moved@ == old(
            a,
        ).moved@,
        !(end is Moved) && !(end is Failed) ==> final(a).moved@ == old(a).moved@ && final(a).failed@
            == old(a).failed@,
        r is None <==> m.moved@.len() == 0 && m.failed@.len() == 0,
        r matches Some(n) ==> exists|moved: Seq<char>, failed: Seq<char>|
            {
                &&& #[trigger] listed(m.moved@, moved)
                &&& #[trigger] listed(m.failed@, failed)
                &&& n@ == "migrated app data out of the bundle-id folder: "@ + from@ + " -> "@ + to@
                    + " ("@ + moved + ")"@ + (if m.failed@.len() == 0 {
                    Seq::empty()
                } else {
                    "; COULD NOT MOVE: "@ + failed
                })
            },
{
    lemma_listed(m.moved@);
    lemma_listed(m.failed@);
    match r {
        Some(n) => {
            let moved = crate::paths::name_list(m.moved@);
            let failed = crate::paths::name_list(m.failed@);
            assert(listed(m.moved@, moved) && listed(m.failed@, failed));
            let head = "migrated app data out of the bundle-id folder: "@ + from@ + " -> "@ + to@
                + " ("@ + moved + ")"@;
            if m.failed@.len() == 0 {
                assert(n@ =~= head + Seq::empty());
            } else {
                assert(n@ =~= head + ("; COULD NOT MOVE: "@ + failed));
            }
        },
        None => {},
    }
}

// ── the end of a connection ───────────────────────────────────────────────

/// The first eight characters.
pub open spec fn short(id: Seq<char>) -> Seq<char> {
    if id.len() <= 8 {
        id
    } else {
        id.subrange(0, 8)
    }
}

/// Whether the device is remembered at this address under this name, among the
/// devices before it.
pub open spec fn remembered_at(
    before: Map<Seq<char>, ManualPeer>,
    after: Map<Seq<char>, ManualPeer>,
    id: Seq<char>,
    name: Seq<char>,
    target: DialTarget,
    now: Instant,
) -> bool {
    &&& forall|k: Seq<char>|
        k != id && #[trigger] after.contains_key(k) ==> before.contains_key(k) && after[k]
            == before[k]
    &&& after.contains_key(id) ==> {
        let p = after[id];
        p.name@ == name && p.addr == target.ip && p.port == target.port && p.last_used == now
    }
    &&& before.insert(id, after[id]).dom().len() <= 256 ==> after.contains_key(id) && after.dom()
        == before.dom().insert(id)
}

/// An accepted pairing remembers the device where it was dialed, under the name
/// that it gave or the beginning of its id; a refused one gives the reason and
/// remembers nothing.
pub proof fn law_pairing_remembers_the_device(
    manual: &mut KeyMap<String, ManualPeer>,
    target: &DialTarget,
    id: String,
    sas: String,
    answer: PairAnswer,
    now: Instant,
    r: Result<ConnectResult, LanBeamError>,
)
    requires
        old(manual).wf(),
        call_ensures(finish_join, (manual, target, id, sas, answer, now), r),
    ensures
        r is Ok <==> answer.accept,
        r matches Ok(c) ==> {
            &&& c.device_id@ == id@ && c.sas@ == sas@
            &&& c.name@ == if all_blank(answer.name@) {
                short(id@)
            } else {
                answer.name@
            }
            &&& remembered_at(old(manual)@, final(manual)@, id@, c.name@, *target, now)
        },
        r matches Err(e) ==> final(manual)@ == old(manual)@ && e is Protocol && e->Protocol_0@
            == match answer.reason {
            Some(why) => why@,
            None => "pairing rejected"@,
        },
{
    crate::laws::preferences::lemma_blank(answer.name@);
    match r {
        Ok(c) => {
            lemma_remembered_at(*old(manual), final(manual)@, id@, c.name@, *target, now);
        },
        Err(e) => {},
    }
}

/// A connection remembers the device where it was dialed, under the name that it
/// gave, blanks aside, or the beginning of its id.
pub proof fn law_connection_remembers_the_device(
    manual: &mut KeyMap<String, ManualPeer>,
    target: &DialTarget,
    id: String,
    sas: String,
    name: Option<String>,
    now: Instant,
    c: ConnectResult,
    a: Seq<char>,
    t: Seq<char>,
    b: Seq<char>,
)
    requires
        old(manual).wf(),
        call_ensures(finish_connect, (manual, target, id, sas, name, now), c),
        name is Some ==> name->0@ == a + t + b && all_blank(a) && all_blank(b) && tight(t),
    ensures
        c.device_id@ == id@ && c.sas@ == sas@,
        name is Some && t.len() > 0 ==> c.name@ == t,
        name is None || t.len() == 0 ==> c.name@ == short(id@),
        remembered_at(old(manual)@, final(manual)@, id@, c.name@, *target, now),
{
    if name is Some {
        lemma_trimmed_of(a, t, b);
    }
    lemma_remembered_at(*old(manual), final(manual)@, id@, c.name@, *target, now);
}

proof fn lemma_remembered_at(
    manual: KeyMap<String, ManualPeer>,
    after: Map<Seq<char>, ManualPeer>,
    id: Seq<char>,
    name: Seq<char>,
    target: DialTarget,
    now: Instant,
)
    requires
        manual.wf(),
        crate::commands::peer_added(manual@, after, id, name, target.ip, target.port, now),
    ensures
        remembered_at(manual@, after, id, name, target, now),
{
    let before = manual@;
    crate::keymap::lemma_size(manual.entries@);
    let p = choose|p: ManualPeer| #[trigger]
        crate::state::trimmed_peers(before.insert(id, p), after) && p.name@ == name && p.addr
            == target.ip && p.port == target.port && p.last_used == now;
    let all = before.insert(id, p);
    assert(all.dom() =~= before.dom().insert(id));
    assert(before.insert(id, after[id]).dom() =~= before.dom().insert(id));
    if all.dom().len() <= 256 {
        assert(after.dom().subset_of(all.dom())) by {
            assert forall|k: Seq<char>| after.dom().contains(k) implies all.dom().contains(k) by {
                assert(after.contains_key(k));
            }
        }
        vstd::set_lib::lemma_subset_equality(after.dom(), all.dom());
        assert(after.dom().contains(id));
    }
}

} // verus!
