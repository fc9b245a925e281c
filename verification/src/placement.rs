//! The decisions taken while a received file is opened on disk: the name it
//! gets next to files that are already there, and the checks that keep it
//! inside the download root.

use vstd::prelude::*;

use crate::error::LanBeamError;
use crate::sanitize::{
    bidi_or_zero_width, illegal, lemma_bracket_is_no_device, lemma_device_is_before_the_dot,
    normal_component, separator, texts,
};
use crate::text::{
    ascii_digit, chars_of, concat, decimal, decimal_string, first_index, last_index,
    lemma_decimal_value, lemma_first_index, lemma_first_index_unique, rindex_of, string_of,
};

verus! {

// ── names next to others ──────────────────────────────────────────────────

/// The name without its extension. A dot at the very beginning starts no
/// extension.
pub open spec fn stem(name: Seq<char>) -> Seq<char> {
    let p = last_index(name, '.');
    if p <= 0 {
        name
    } else {
        name.subrange(0, p)
    }
}

/// The extension with its dot, or nothing.
pub open spec fn dotted_ext(name: Seq<char>) -> Seq<char> {
    let p = last_index(name, '.');
    if p <= 0 {
        Seq::empty()
    } else {
        name.subrange(p, name.len() as int)
    }
}

/// How many numbered names are tried.
pub const MAX_NUMBERED: u32 = 10_000;

/// The name of an attempt: the name itself, then numbered ones, and at last
/// one that is not numbered.
pub open spec fn attempt_name(name: Seq<char>, attempt: u32) -> Seq<char> {
    if attempt == 0 {
        name
    } else if attempt <= MAX_NUMBERED {
        stem(name) + " ("@ + decimal(attempt as nat) + ")"@ + dotted_ext(name)
    } else {
        stem(name) + " (dup)"@ + dotted_ext(name)
    }
}

/// A name that stands for an entry of a folder: no path, and neither the
/// folder itself nor its parent.
pub open spec fn entry_name(name: Seq<char>) -> bool {
    &&& name.len() > 0
    &&& name != seq!['.']
    &&& name != seq!['.', '.']
    &&& forall|i: int| 0 <= i < name.len() ==> !separator(#[trigger] name[i]) && name[i] != ':'
}

pub fn dedupe_name(name: &str, attempt: u32) -> (r: String)
    requires
        entry_name(name@),
    ensures
        r@ == attempt_name(name@, attempt),
{
    if attempt == 0 {
        return name.to_owned();
    }
    let v = chars_of(name);
    let n: usize = v.len();
    let p: usize = match rindex_of(v.as_slice(), '.') {
        Some(i) => if i == 0 {
            n
        } else {
            i
        },
        None => n,
    };
    let head = vstd::slice::slice_subrange(v.as_slice(), 0, p);
    let tail = vstd::slice::slice_subrange(v.as_slice(), p, n);
    proof {
        assert(head@ =~= stem(name@));
        assert(tail@ =~= dotted_ext(name@));
    }
    let mut r = string_of(head);
    if attempt <= MAX_NUMBERED {
        r.append(" (");
        let number = decimal_string(attempt as u64);
        r.append(number.as_str());
        r.append(")");
    } else {
        r.append(" (dup)");
    }
    let ext = string_of(tail);
    r.append(ext.as_str());
    r
}

proof fn lemma_last_index(s: Seq<char>, c: char)
    ensures
        -1 <= last_index(s, c) < s.len(),
        last_index(s, c) >= 0 ==> s[last_index(s, c)] == c,
    decreases s.len(),
{
    if s.len() > 0 && s.last() != c {
        lemma_last_index(s.drop_last(), c);
    }
}

/// What an attempt puts between the stem and the extension.
pub open spec fn attempt_mark(attempt: u32) -> Seq<char> {
    if attempt == 0 {
        Seq::empty()
    } else if attempt <= MAX_NUMBERED {
        " ("@ + decimal(attempt as nat) + ")"@
    } else {
        " (dup)"@
    }
}

proof fn lemma_attempt_parts(name: Seq<char>, attempt: u32)
    ensures
        attempt_name(name, attempt) == stem(name) + attempt_mark(attempt) + dotted_ext(name),
        stem(name) + dotted_ext(name) == name,
        dotted_ext(name).len() > 0 ==> dotted_ext(name)[0] == '.',
        attempt > 0 ==> attempt_mark(attempt).len() > 2 && attempt_mark(attempt).last() == ')',
        forall|i: int|
            0 <= i < attempt_mark(attempt).len() ==> !illegal(#[trigger] attempt_mark(attempt)[i])
                && !bidi_or_zero_width(attempt_mark(attempt)[i]) && attempt_mark(attempt)[i] != '.',
{
    lemma_last_index(name, '.');
    reveal_strlit(" (");
    reveal_strlit(")");
    reveal_strlit(" (dup)");
    lemma_decimal_value(attempt as nat);
    let mark = attempt_mark(attempt);
    assert(stem(name) + dotted_ext(name) =~= name);
    assert(attempt_name(name, attempt) =~= stem(name) + mark + dotted_ext(name));
    if 0 < attempt <= MAX_NUMBERED {
        let d = decimal(attempt as nat);
        assert forall|i: int| 0 <= i < mark.len() implies !illegal(#[trigger] mark[i])
            && !bidi_or_zero_width(mark[i]) && mark[i] != '.' by {
            if 2 <= i < 2 + d.len() {
                assert(mark[i] == d[i - 2]);
                assert(ascii_digit(d[i - 2]));
            }
        }
    }
}

/// The name of every attempt is as safe as the name itself.
pub proof fn law_attempt_is_normal(name: Seq<char>, attempt: u32)
    requires
        normal_component(name),
    ensures
        entry_name(name),
        normal_component(attempt_name(name, attempt)),
{
    assert forall|i: int| 0 <= i < name.len() implies !separator(#[trigger] name[i]) && name[i]
        != ':' by {
        assert(!illegal(name[i]));
    }
    lemma_attempt_parts(name, attempt);
    let head = stem(name);
    let mark = attempt_mark(attempt);
    let ext = dotted_ext(name);
    let n = attempt_name(name, attempt);
    if attempt > 0 {
        assert forall|i: int| 0 <= i < n.len() implies !illegal(#[trigger] n[i])
            && !bidi_or_zero_width(n[i]) by {
            if i < head.len() {
                assert(n[i] == name[i]);
            } else if i < head.len() + mark.len() {
                assert(n[i] == mark[i - head.len()]);
            } else {
                assert(n[i] == name[i - mark.len()]);
            }
        }
        if ext.len() > 0 {
            assert(n.last() == name.last());
        } else {
            assert(n.last() == mark.last());
        }
        assert(n != seq!['.'] && n != seq!['.', '.']) by {
            assert(seq!['.'].last() == '.' && seq!['.', '.'].last() == '.');
        }
        lemma_first_index(head, '.');
        let k = first_index(head, '.');
        if k < head.len() {
            assert forall|i: int| 0 <= i < k implies name[i] != '.' && n[i] != '.' by {
                assert(head[i] == name[i] && head[i] == n[i]);
            }
            assert(head[k] == name[k] && head[k] == n[k]);
            lemma_first_index_unique(name, '.', k);
            lemma_first_index_unique(n, '.', k);
            assert(name.subrange(0, k) =~= n.subrange(0, k));
            lemma_device_is_before_the_dot(name, n);
        } else {
            let m = (head.len() + mark.len()) as int;
            assert forall|i: int| 0 <= i < m implies n[i] != '.' by {
                if i < head.len() {
                    assert(n[i] == head[i]);
                } else {
                    assert(n[i] == mark[i - head.len()]);
                }
            }
            if ext.len() > 0 {
                assert(n[m] == ext[0]);
            }
            lemma_first_index_unique(n, '.', m);
            assert(n[m - 1] == mark.last());
            lemma_bracket_is_no_device(n);
        }
    }
}

/// No two attempts have the same name, so a search among them always comes to
/// another one.
pub proof fn law_attempts_are_distinct(name: Seq<char>, a: u32, b: u32)
    requires
        a < b <= MAX_NUMBERED + 1,
    ensures
        attempt_name(name, a) != attempt_name(name, b),
{
    lemma_attempt_parts(name, a);
    lemma_attempt_parts(name, b);
    let x = attempt_name(name, a);
    let y = attempt_name(name, b);
    let h = stem(name).len() as int;
    if x == y {
        assert(x.len() == y.len());
        assert(attempt_mark(a) =~= x.subrange(h, h + attempt_mark(a).len()));
        assert(attempt_mark(b) =~= y.subrange(h, h + attempt_mark(b).len()));
        assert(attempt_mark(a) == attempt_mark(b));
        reveal_strlit(" (");
        reveal_strlit(")");
        reveal_strlit(" (dup)");
        let da = decimal(a as nat);
        lemma_decimal_value(a as nat);
        assert(attempt_mark(a).subrange(2, attempt_mark(a).len() - 1) =~= da);
        if b <= MAX_NUMBERED {
            let db = decimal(b as nat);
            assert(attempt_mark(b).subrange(2, attempt_mark(b).len() - 1) =~= db);
            lemma_decimal_value(b as nat);
        } else {
            assert(ascii_digit(da[0]));
            assert(attempt_mark(b)[2] == 'd');
            assert(attempt_mark(a)[2] == da[0]);
        }
    }
}

// ── opening ───────────────────────────────────────────────────────────────

/// How often a name that was taken in the meantime is looked for again.
pub const MAX_ROUNDS: u32 = 10_000;

/// One step of opening a new file.
#[derive(Debug, Clone, Copy, PartialEq, Eq, Structural)]
pub enum OpenStep {
    /// See whether something has the name of this attempt; links are not
    /// followed.
    Probe { round: u32, attempt: u32 },
    /// Create the file under the name of this attempt, which must be new.
    Create { round: u32, attempt: u32 },
    /// See whether the created file lies inside the root.
    Verify { attempt: u32 },
    /// Remove the created file, which lies outside.
    Remove { attempt: u32 },
    /// The end: the file is open.
    Opened { attempt: u32 },
    /// The end: the file would have been outside the root.
    Escaped,
    /// The end: the file system refused.
    Failed { attempt: u32 },
    /// The end: every name was taken in the meantime.
    Collisions,
}

/// The outcome of a step.
#[derive(Debug, Clone, Copy, PartialEq, Eq, Structural)]
pub enum OpenEvent {
    /// Something has the name, or the file lies inside.
    Yes,
    /// Nothing has the name, or the file lies outside.
    No,
    /// The file was created, or removed.
    Done,
    /// The name was taken in the meantime.
    Taken,
    /// Any other failure.
    Error,
}

impl OpenStep {
    pub open spec fn after(self, event: OpenEvent) -> OpenStep {
        match (self, event) {
            (OpenStep::Probe { round, attempt }, OpenEvent::Yes) => if attempt < MAX_NUMBERED {
                OpenStep::Probe { round, attempt: (attempt + 1) as u32 }
            } else {
                OpenStep::Create { round, attempt: (MAX_NUMBERED + 1) as u32 }
            },
            (OpenStep::Probe { round, attempt }, OpenEvent::No) => OpenStep::Create {
                round,
                attempt,
            },
            (OpenStep::Create { round: _, attempt }, OpenEvent::Done) => OpenStep::Verify {
                attempt,
            },
            (OpenStep::Create { round, attempt: _ }, OpenEvent::Taken) => if round + 1
                < MAX_ROUNDS {
                OpenStep::Probe { round: (round + 1) as u32, attempt: 0 }
            } else {
                OpenStep::Collisions
            },
            (OpenStep::Create { round: _, attempt }, OpenEvent::Error) => OpenStep::Failed {
                attempt,
            },
            (OpenStep::Verify { attempt }, OpenEvent::Yes) => OpenStep::Opened { attempt },
            (OpenStep::Verify { attempt }, OpenEvent::No) => OpenStep::Remove { attempt },
            (OpenStep::Remove { attempt: _ }, _) => OpenStep::Escaped,
            (step, _) => step,
        }
    }

    pub fn start() -> (r: OpenStep)
        ensures
            r == (OpenStep::Probe { round: 0, attempt: 0 }),
    {
        OpenStep::Probe { round: 0, attempt: 0 }
    }

    /// What follows a step. An outcome that a step cannot have changes
    /// nothing.
    pub fn next(self, event: OpenEvent) -> (r: OpenStep)
        ensures
            r == self.after(event),
    {
        match (self, event) {
            (OpenStep::Probe { round, attempt }, OpenEvent::Yes) => {
                if attempt < MAX_NUMBERED {
                    OpenStep::Probe { round, attempt: attempt + 1 }
                } else {
                    OpenStep::Create { round, attempt: MAX_NUMBERED + 1 }
                }
            },
            (OpenStep::Probe { round, attempt }, OpenEvent::No) => OpenStep::Create {
                round,
                attempt,
            },
            (OpenStep::Create { round: _, attempt }, OpenEvent::Done) => OpenStep::Verify {
                attempt,
            },
            (OpenStep::Create { round, attempt: _ }, OpenEvent::Taken) => {
                if round < MAX_ROUNDS - 1 {
                    OpenStep::Probe { round: round + 1, attempt: 0 }
                } else {
                    OpenStep::Collisions
                }
            },
            (OpenStep::Create { round: _, attempt }, OpenEvent::Error) => OpenStep::Failed {
                attempt,
            },
            (OpenStep::Verify { attempt }, OpenEvent::Yes) => OpenStep::Opened { attempt },
            (OpenStep::Verify { attempt }, OpenEvent::No) => OpenStep::Remove { attempt },
            (OpenStep::Remove { attempt: _ }, _) => OpenStep::Escaped,
            (step, _) => step,
        }
    }
}

/// A file counts as open only after it was seen inside the root.
pub proof fn law_open_file_was_seen_inside(step: OpenStep, event: OpenEvent)
    requires
        step.after(event) is Opened,
        !(step is Opened),
    ensures
        step is Verify,
        event is Yes,
{
}

/// A file that lies outside the root is removed before it is refused.
pub proof fn law_escaped_file_is_removed(step: OpenStep, event: OpenEvent)
    ensures
        step.after(event) is Escaped && !(step is Escaped) ==> step is Remove,
        step.after(event) is Remove && !(step is Remove) ==> step is Verify && event is No,
{
}

/// A name is only created after nothing was found under it, or as the very
/// last one.
pub proof fn law_create_follows_a_free_probe(step: OpenStep, event: OpenEvent)
    requires
        step.after(event) is Create,
        !(step is Create),
    ensures
        step is Probe,
        event is No ==> step.after(event)->Create_attempt == step->Probe_attempt,
        event is Yes ==> step.after(event)->Create_attempt == MAX_NUMBERED + 1,
{
}

/// How the end of opening is reported.
pub fn open_error(step: OpenStep, target: &str, why: &str) -> (r: Option<LanBeamError>)
    ensures
        match step {
            OpenStep::Escaped => r matches Some(LanBeamError::UnsafePath(m)) && m@
                == "escapes download root"@,
            OpenStep::Failed { attempt: _ } => r matches Some(LanBeamError::Io(m)) && m@
                == "create "@ + target@ + ": "@ + why@,
            OpenStep::Collisions => r matches Some(LanBeamError::Io(m)) && m@
                == "too many name collisions"@,
            _ => r is None,
        },
{
    match step {
        OpenStep::Escaped => Some(LanBeamError::UnsafePath("escapes download root".to_owned())),
        OpenStep::Failed { attempt: _ } => {
            let mut m = concat("create ", target);
            m.append(": ");
            m.append(why);
            Some(LanBeamError::Io(m))
        },
        OpenStep::Collisions => Some(LanBeamError::Io("too many name collisions".to_owned())),
        _ => None,
    }
}

/// One step of opening a partial file to continue it.
#[derive(Debug)]
pub enum ResumeStep {
    /// See whether a symbolic link is in its place.
    CheckLink,
    /// Open the file as it is, or create it.
    Open,
    /// See whether the opened file lies inside the root.
    Verify,
    /// The end: the file is open.
    Opened,
    /// The end: nothing of the file was touched.
    Refused(LanBeamError),
}

/// The outcome of a step.
#[derive(Debug)]
pub enum ResumeEvent {
    Link(bool),
    Opened(Result<(), String>),
    Inside(bool),
}

/// Whether `next` follows `step` by `event`.
pub open spec fn resume_follows(
    step: ResumeStep,
    event: ResumeEvent,
    target: Seq<char>,
    next: ResumeStep,
) -> bool {
    match (step, event) {
        (ResumeStep::CheckLink, ResumeEvent::Link(link)) => if link {
            next matches ResumeStep::Refused(LanBeamError::UnsafePath(m)) && m@
                == "refusing to resume through a symlink"@
        } else {
            next is Open
        },
        (ResumeStep::Open, ResumeEvent::Opened(Ok(_))) => next is Verify,
        (ResumeStep::Open, ResumeEvent::Opened(Err(e))) => next matches ResumeStep::Refused(
            LanBeamError::Io(m),
        ) && m@ == "open partial "@ + target + ": "@ + e@,
        (ResumeStep::Verify, ResumeEvent::Inside(inside)) => if inside {
            next is Opened
        } else {
            next matches ResumeStep::Refused(LanBeamError::UnsafePath(m)) && m@
                == "escapes download root"@
        },
        _ => next == step,
    }
}

/// The next step of continuing a partial file: never through a link, and only
/// inside the root. A file that is refused is left as it is.
pub fn resume_next(step: ResumeStep, event: ResumeEvent, target: &str) -> (next: ResumeStep)
    ensures
        resume_follows(step, event, target@, next),
{
    match (step, event) {
        (ResumeStep::CheckLink, ResumeEvent::Link(link)) => {
            if link {
                ResumeStep::Refused(
                    LanBeamError::UnsafePath("refusing to resume through a symlink".to_owned()),
                )
            } else {
                ResumeStep::Open
            }
        },
        (ResumeStep::Open, ResumeEvent::Opened(Ok(()))) => ResumeStep::Verify,
        (ResumeStep::Open, ResumeEvent::Opened(Err(e))) => {
            let mut m = concat("open partial ", target);
            m.append(": ");
            m.append(e.as_str());
            ResumeStep::Refused(LanBeamError::Io(m))
        },
        (ResumeStep::Verify, ResumeEvent::Inside(inside)) => {
            if inside {
                ResumeStep::Opened
            } else {
                ResumeStep::Refused(LanBeamError::UnsafePath("escapes download root".to_owned()))
            }
        },
        (step, _) => step,
    }
}

/// A partial file is opened only after no link was seen in its place, and
/// continued only after it was seen inside the root.
pub proof fn law_resume_is_guarded(
    step: ResumeStep,
    event: ResumeEvent,
    target: Seq<char>,
    next: ResumeStep,
)
    requires
        resume_follows(step, event, target, next),
    ensures
        next is Open && !(step is Open) ==> step is CheckLink && event == ResumeEvent::Link(false),
        next is Opened && !(step is Opened) ==> step is Verify && event == ResumeEvent::Inside(
            true,
        ),
{
}

/// The refusal when the download root itself cannot be resolved.
pub fn root_error(why: &str) -> (r: LanBeamError)
    ensures
        r matches LanBeamError::UnsafePath(m) && m@ == "download root: "@ + why@,
{
    LanBeamError::UnsafePath(concat("download root: ", why))
}

// ── checking the parent folder ──────────────────────────────────────────

/// Whether a real path lies at or under `base`, component by component.
pub open spec fn within_root(found_at: Seq<String>, base: Seq<String>) -> bool {
    base.len() <= found_at.len() && texts(found_at).subrange(0, base.len() as int) == texts(base)
}

pub fn opened_inside_root(found_at: &Vec<String>, base: &Vec<String>) -> (r: bool)
    ensures
        r == within_root(found_at@, base@),
{
    if base.len() > found_at.len() {
        return false;
    }
    for i in 0..base.len()
        invariant
            base@.len() <= found_at@.len(),
            forall|k: int| 0 <= k < i ==> (#[trigger] found_at@[k])@ == base@[k]@,
    {
        if found_at[i] != base[i] {
            proof {
                assert(texts(found_at@).subrange(0, base@.len() as int)[i as int] != texts(
                    base@,
                )[i as int]);
            }
            return false;
        }
    }
    proof {
        assert(texts(found_at@).subrange(0, base@.len() as int) =~= texts(base@));
    }
    true
}

/// One step of the check that the parent folder of a file lies inside the
/// root. Ancestors are counted by their components.
#[derive(Debug)]
pub enum GateStep {
    /// See whether there is something at the ancestor of this depth.
    ProbeAncestor { depth: usize },
    /// Resolve the ancestor of this depth, which exists.
    ResolveAncestor { depth: usize },
    /// Create the folders up to the parent.
    CreateFolders,
    /// Resolve the parent.
    ResolveParent,
    /// The end: the parent lies inside the root.
    Allowed,
    /// The end.
    Refused(LanBeamError),
}

/// The outcome of a step.
#[derive(Debug)]
pub enum GateEvent {
    Exists(bool),
    /// The components of the real path.
    Resolved(Result<Vec<String>, String>),
    Created(Result<(), String>),
}

pub open spec fn refused_with(step: GateStep, text: Seq<char>) -> bool {
    step matches GateStep::Refused(LanBeamError::UnsafePath(m)) && m@ == text
}

/// Whether `next` follows `step` by `event`.
pub open spec fn gate_follows(
    step: GateStep,
    event: GateEvent,
    base: Seq<String>,
    floor: usize,
    next: GateStep,
) -> bool {
    match (step, event) {
        (GateStep::ProbeAncestor { depth }, GateEvent::Exists(found)) => if found {
            next == (GateStep::ResolveAncestor { depth })
        } else if depth > floor {
            next == (GateStep::ProbeAncestor { depth: (depth - 1) as usize })
        } else {
            next is CreateFolders
        },
        (GateStep::ResolveAncestor { depth: _ }, GateEvent::Resolved(Ok(found_at))) => if within_root(
            found_at@,
            base,
        ) {
            next is CreateFolders
        } else {
            refused_with(next, "escapes download root"@)
        },
        (GateStep::ResolveAncestor { depth: _ }, GateEvent::Resolved(Err(e))) => refused_with(
            next,
            "canonicalize ancestor: "@ + e@,
        ),
        (GateStep::CreateFolders, GateEvent::Created(Ok(_))) => next is ResolveParent,
        (GateStep::CreateFolders, GateEvent::Created(Err(e))) => refused_with(
            next,
            "create dirs: "@ + e@,
        ),
        (GateStep::ResolveParent, GateEvent::Resolved(Ok(found_at))) => if within_root(found_at@, base) {
            next is Allowed
        } else {
            refused_with(next, "escapes download root"@)
        },
        (GateStep::ResolveParent, GateEvent::Resolved(Err(e))) => refused_with(
            next,
            "canonicalize parent: "@ + e@,
        ),
        _ => next == step,
    }
}

/// The next step of the check. The deepest ancestor that exists is resolved
/// before anything is created, so that a link inside the root cannot lead the
/// creation outside; `floor` is the depth of the outermost ancestor.
pub fn ensure_parent_in_root(
    step: GateStep,
    event: GateEvent,
    base: &Vec<String>,
    floor: usize,
) -> (next: GateStep)
    ensures
        gate_follows(step, event, base@, floor, next),
{
    match (step, event) {
        (GateStep::ProbeAncestor { depth }, GateEvent::Exists(found)) => {
            if found {
                GateStep::ResolveAncestor { depth }
            } else if depth > floor {
                GateStep::ProbeAncestor { depth: depth - 1 }
            } else {
                GateStep::CreateFolders
            }
        },
        (GateStep::ResolveAncestor { depth: _ }, GateEvent::Resolved(Ok(found_at))) => {
            if opened_inside_root(&found_at, base) {
                GateStep::CreateFolders
            } else {
                GateStep::Refused(LanBeamError::UnsafePath("escapes download root".to_owned()))
            }
        },
        (
            GateStep::ResolveAncestor { depth: _ },
            GateEvent::Resolved(Err(e)),
        ) => GateStep::Refused(
            LanBeamError::UnsafePath(concat("canonicalize ancestor: ", e.as_str())),
        ),
        (GateStep::CreateFolders, GateEvent::Created(Ok(()))) => GateStep::ResolveParent,
        (GateStep::CreateFolders, GateEvent::Created(Err(e))) => GateStep::Refused(
            LanBeamError::UnsafePath(concat("create dirs: ", e.as_str())),
        ),
        (GateStep::ResolveParent, GateEvent::Resolved(Ok(found_at))) => {
            if opened_inside_root(&found_at, base) {
                GateStep::Allowed
            } else {
                GateStep::Refused(LanBeamError::UnsafePath("escapes download root".to_owned()))
            }
        },
        (GateStep::ResolveParent, GateEvent::Resolved(Err(e))) => GateStep::Refused(
            LanBeamError::UnsafePath(concat("canonicalize parent: ", e.as_str())),
        ),
        (step, _) => step,
    }
}

/// A file is only opened under a parent that was resolved inside the root.
pub proof fn law_gate_allows_only_inside(
    step: GateStep,
    event: GateEvent,
    base: Seq<String>,
    floor: usize,
    next: GateStep,
)
    requires
        gate_follows(step, event, base, floor, next),
        next is Allowed,
        !(step is Allowed),
    ensures
        step is ResolveParent,
        event matches GateEvent::Resolved(Ok(found_at)) && within_root(found_at@, base),
{
}

/// Folders are only created once the deepest ancestor that exists was resolved
/// inside the root, or where no ancestor exists at all.
pub proof fn law_gate_creates_only_inside(
    step: GateStep,
    event: GateEvent,
    base: Seq<String>,
    floor: usize,
    next: GateStep,
)
    requires
        gate_follows(step, event, base, floor, next),
        next is CreateFolders,
        !(step is CreateFolders),
    ensures
        (step is ResolveAncestor && (event matches GateEvent::Resolved(Ok(found_at)) && within_root(
            found_at@,
            base,
        ))) || (step matches GateStep::ProbeAncestor { depth } && depth <= floor && event
            == GateEvent::Exists(false)),
{
}

/// The components of a validated path joined to a root stay under that root.
pub proof fn law_joined_path_stays_inside(root: Seq<String>, rel: Seq<String>)
    ensures
        within_root(root + rel, root),
{
    assert(texts(root + rel).subrange(0, root.len() as int) =~= texts(root));
}

} // verus!
