//! The single gate for the names of received files: a purely lexical decision
//! on the name, and the decisions taken while the file is opened on disk.
//!
//! An accepted name is a relative path made of normal components only (no
//! `..`, no root, no drive prefix), so joining it to the download root can
//! never leave that root.

use vstd::prelude::*;
use vstd::utf8::encode_utf8;

use crate::text::{
    ascii_alphabetic, ascii_lowercase, ascii_lowered, chars_eq, chars_of, control, first_index,
    is_ascii_alphabetic, is_control, joined, lemma_first_index, lemma_split_concat,
    lemma_split_none, split_by, split_chars, string_of, trim_chars, trim_end_by, trim_end_len,
    trim_start_by, trim_start_len, trimmed, views,
};

verus! {

pub const MAX_COMPONENTS: usize = 16;

pub const MAX_COMPONENT_LEN: usize = 200;

pub const MAX_TOTAL_LEN: usize = 4096;

/// A validated relative path: its components, outermost directory first.
#[derive(Debug, PartialEq)]
pub struct RelPath {
    pub components: Vec<String>,
}

/// The characters of each string.
pub open spec fn texts(v: Seq<String>) -> Seq<Seq<char>> {
    v.map_values(|s: String| s@)
}

impl View for RelPath {
    type V = Seq<Seq<char>>;

    open spec fn view(&self) -> Seq<Seq<char>> {
        texts(self.components@)
    }
}

impl RelPath {
    /// The components separated by `/`.
    pub fn to_slash_string(&self) -> (r: String)
        ensures
            r@ == joined(self@, seq!['/']),
    {
        let mut r = String::new();
        let n: usize = self.components.len();
        let ghost parts = self@;
        for i in 0..n
            invariant
                n == self.components@.len(),
                parts == self@,
                r@ == joined(parts.subrange(0, i as int), seq!['/']),
        {
            proof {
                assert(parts.subrange(0, i + 1).drop_last() =~= parts.subrange(0, i as int));
                assert(parts.subrange(0, i + 1).last() == self.components@[i as int]@);
                assert(seq!['/'] =~= Seq::<char>::empty().push('/'));
            }
            if i > 0 {
                r.push('/');
                proof {
                    assert(r@ =~= joined(parts.subrange(0, i as int), seq!['/']) + seq!['/']);
                }
            }
            r.append(self.components[i].as_str());
            proof {
                if i == 0 {
                    assert(r@ =~= self.components@[0]@);
                }
            }
        }
        proof {
            assert(parts.subrange(0, n as int) =~= parts);
        }
        r
    }
}

#[derive(Debug, PartialEq)]
pub enum Decision {
    /// A validated relative path, not yet resolved on disk.
    Accept(RelPath),
    Reject(RejectReason),
}

#[derive(Debug, PartialEq, Eq, Clone, Copy, Structural)]
pub enum RejectReason {
    NullByte,
    Empty,
    AbsolutePath,
    DrivePrefix,
    NoValidComponents,
    TooManyComponents,
    TooLong,
    EscapesDownloadRoot,
}

// ── one component ─────────────────────────────────────────────────────────

/// Bidirectional controls and zero-width characters, which can disguise an
/// extension.
pub open spec fn bidi_or_zero_width(c: char) -> bool {
    let u = c as u32;
    ||| 0x200B <= u <= 0x200F
    ||| 0x202A <= u <= 0x202E
    ||| 0x2060 <= u <= 0x2064
    ||| 0x2066 <= u <= 0x2069
    ||| u == 0xFEFF
}

pub fn is_bidi_or_zero_width(c: char) -> (r: bool)
    ensures
        r == bidi_or_zero_width(c),
{
    let u: u32 = c as u32;
    (0x200B <= u && u <= 0x200F) || (0x202A <= u && u <= 0x202E) || (0x2060 <= u && u <= 0x2064)
        || (0x2066 <= u && u <= 0x2069) || u == 0xFEFF
}

/// Characters that some file system refuses or gives a meaning of its own.
pub open spec fn illegal(c: char) -> bool {
    ||| control(c)
    ||| c == '<'
    ||| c == '>'
    ||| c == ':'
    ||| c == '"'
    ||| c == '|'
    ||| c == '?'
    ||| c == '*'
    ||| c == '/'
    ||| c == '\\'
}

pub open spec fn legalized(c: char) -> char {
    if illegal(c) {
        '_'
    } else {
        c
    }
}

fn legalize(c: char) -> (r: char)
    ensures
        r == legalized(c),
{
    if is_control(c) || c == '<' || c == '>' || c == ':' || c == '"' || c == '|' || c == '?' || c
        == '*' || c == '/' || c == '\\' {
        '_'
    } else {
        c
    }
}

pub open spec fn dot_or_space(c: char) -> bool {
    c == '.' || c == ' '
}

fn is_dot_or_space(c: char) -> (r: bool)
    ensures
        r == dot_or_space(c),
{
    c == '.' || c == ' '
}

pub open spec fn is_dot_char(c: char) -> bool {
    c == '.'
}

fn is_dot(c: char) -> (r: bool)
    ensures
        r == is_dot_char(c),
{
    c == '.'
}

pub open spec fn separator(c: char) -> bool {
    c == '/' || c == '\\'
}

fn is_separator(c: char) -> (r: bool)
    ensures
        r == separator(c),
{
    c == '/' || c == '\\'
}

/// The device names that Windows resolves whatever the extension.
pub open spec fn reserved_names() -> Seq<Seq<char>> {
    seq![
        "CON"@, "PRN"@, "AUX"@, "NUL"@,
        "COM0"@, "COM1"@, "COM2"@, "COM3"@, "COM4"@,
        "COM5"@, "COM6"@, "COM7"@, "COM8"@, "COM9"@,
        "LPT0"@, "LPT1"@, "LPT2"@, "LPT3"@, "LPT4"@,
        "LPT5"@, "LPT6"@, "LPT7"@, "LPT8"@, "LPT9"@,
        "CONIN$"@, "CONOUT$"@, "CLOCK$"@,
    ]
}

/// Superscript one, two and three fold to the plain digit.
pub open spec fn folded_digit(c: char) -> char {
    if c == '\u{00B9}' {
        '1'
    } else if c == '\u{00B2}' {
        '2'
    } else if c == '\u{00B3}' {
        '3'
    } else {
        c
    }
}

fn fold_digit(c: char) -> (r: char)
    ensures
        r == folded_digit(c),
{
    if c == '\u{00B9}' {
        '1'
    } else if c == '\u{00B2}' {
        '2'
    } else if c == '\u{00B3}' {
        '3'
    } else {
        c
    }
}

/// What precedes the first dot, without spaces and dots at its ends and with
/// superscript digits folded: the part of a name that can denote a device.
pub open spec fn device_stem(s: Seq<char>) -> Seq<char> {
    let p = |c: char| dot_or_space(c);
    let raw = split_by(s, |c: char| is_dot_char(c))[0];
    trim_end_by(trim_start_by(raw, p), p).map_values(|c: char| folded_digit(c))
}

/// Whether the name denotes a reserved device, whatever its letter case.
pub open spec fn reserved_stem(s: Seq<char>) -> bool {
    exists|i: int|
        0 <= i < reserved_names().len() && #[trigger] ascii_lowered(reserved_names()[i])
            == ascii_lowered(device_stem(s))
}

fn reserved_list() -> (r: Vec<&'static str>)
    ensures
        r@.len() == reserved_names().len(),
        forall|i: int| 0 <= i < r@.len() ==> (#[trigger] r@[i])@ == reserved_names()[i],
{
    vec![
        "CON", "PRN", "AUX", "NUL",
        "COM0", "COM1", "COM2", "COM3", "COM4", "COM5", "COM6", "COM7", "COM8", "COM9",
        "LPT0", "LPT1", "LPT2", "LPT3", "LPT4", "LPT5", "LPT6", "LPT7", "LPT8", "LPT9",
        "CONIN$", "CONOUT$", "CLOCK$",
    ]
}

pub fn is_reserved_stem(s: &str) -> (r: bool)
    ensures
        r == reserved_stem(s@),
{
    let v = chars_of(s);
    reserved_chars(v.as_slice())
}

fn reserved_chars(v: &[char]) -> (r: bool)
    ensures
        r == reserved_stem(v@),
{
    let ghost dot = |c: char| is_dot_char(c);
    let ghost ends = |c: char| dot_or_space(c);
    let pieces = split_chars(v, is_dot, Ghost(dot));
    let raw = pieces[0].as_slice();
    proof {
        assert(views(pieces@)[0] == pieces@[0]@);
    }
    let a: usize = trim_start_len(raw, is_dot_or_space, Ghost(ends));
    let rest = vstd::slice::slice_subrange(raw, a, raw.len());
    let n: usize = trim_end_len(rest, is_dot_or_space, Ghost(ends));
    let core = vstd::slice::slice_subrange(rest, 0, n);
    let mut stem: Vec<char> = Vec::new();
    for i in 0..n
        invariant
            n == core@.len(),
            stem@ == core@.subrange(0, i as int).map_values(|c: char| folded_digit(c)),
    {
        stem.push(fold_digit(core[i]));
        proof {
            assert(stem@ =~= core@.subrange(0, i + 1).map_values(|c: char| folded_digit(c)));
        }
    }
    proof {
        assert(core@.subrange(0, n as int) =~= core@);
        assert(stem@ == device_stem(v@));
    }
    let lower = ascii_lowercase(stem.as_slice());
    let names = reserved_list();
    for i in 0..names.len()
        invariant
            lower@ == ascii_lowered(device_stem(v@)),
            names@.len() == reserved_names().len(),
            forall|k: int| 0 <= k < names@.len() ==> (#[trigger] names@[k])@ == reserved_names()[k],
            forall|k: int|
                0 <= k < i ==> #[trigger] ascii_lowered(reserved_names()[k]) != lower@,
    {
        let name = chars_of(names[i]);
        let name_lower = ascii_lowercase(name.as_slice());
        if chars_eq(name_lower.as_slice(), lower.as_slice()) {
            proof {
                assert(ascii_lowered(reserved_names()[i as int]) == ascii_lowered(
                    device_stem(v@),
                ));
            }
            return true;
        }
    }
    false
}

/// The visible characters of a component made legal, without trailing dots
/// and spaces.
pub open spec fn legal_text(comp: Seq<char>) -> Seq<char> {
    trim_end_by(
        comp.filter(|c: char| !bidi_or_zero_width(c)).map_values(|c: char| legalized(c)),
        |c: char| dot_or_space(c),
    )
}

/// The component a raw piece of a name turns into, or nothing: empty pieces,
/// `.`, `..` and pieces with nothing left are dropped, and a reserved device
/// name gets a leading `_`.
pub open spec fn cleaned(comp: Seq<char>) -> Option<Seq<char>> {
    let s = legal_text(comp);
    if comp.len() == 0 || comp == seq!['.'] || comp == seq!['.', '.'] || s.len() == 0 {
        None
    } else if reserved_stem(s) {
        Some(seq!['_'] + s)
    } else {
        Some(s)
    }
}

pub fn clean_component(comp: &str) -> (r: Option<String>)
    ensures
        r is Some == cleaned(comp@) is Some,
        r matches Some(s) ==> cleaned(comp@) == Some(s@),
{
    let v = chars_of(comp);
    clean_chars(v.as_slice())
}

fn clean_chars(v: &[char]) -> (r: Option<String>)
    ensures
        r is Some == cleaned(v@) is Some,
        r matches Some(s) ==> cleaned(v@) == Some(s@),
{
    let n: usize = v.len();
    if n == 0 || (n == 1 && v[0] == '.') || (n == 2 && v[0] == '.' && v[1] == '.') {
        proof {
            if n == 1 {
                assert(v@ =~= seq!['.']);
            }
            if n == 2 {
                assert(v@ =~= seq!['.', '.']);
            }
        }
        return None;
    }
    proof {
        assert(v@ != seq!['.'] && v@ != seq!['.', '.']) by {
            if n == 1 {
                assert(v@[0] != seq!['.'][0]);
            }
            if n == 2 {
                assert(v@[0] != seq!['.', '.'][0] || v@[1] != seq!['.', '.'][1]);
            }
        }
    }
    let ghost seen = |c: char| !bidi_or_zero_width(c);
    let ghost legal = |c: char| legalized(c);
    let mut out: Vec<char> = Vec::new();
    for i in 0..n
        invariant
            n == v@.len(),
            seen == (|c: char| !bidi_or_zero_width(c)),
            legal == (|c: char| legalized(c)),
            out@ == v@.subrange(0, i as int).filter(seen).map_values(legal),
    {
        let ghost prefix = v@.subrange(0, i as int);
        proof {
            reveal(Seq::filter);
            assert(v@.subrange(0, i + 1).drop_last() =~= prefix);
            assert(v@.subrange(0, i + 1).last() == v@[i as int]);
        }
        if !is_bidi_or_zero_width(v[i]) {
            out.push(legalize(v[i]));
            proof {
                assert(out@ =~= prefix.filter(seen).push(v@[i as int]).map_values(legal));
            }
        }
    }
    proof {
        assert(v@.subrange(0, n as int) =~= v@);
    }
    let m: usize = trim_end_len(out.as_slice(), is_dot_or_space, Ghost(|c: char| dot_or_space(c)));
    let kept = vstd::slice::slice_subrange(out.as_slice(), 0, m);
    proof {
        assert(kept@ == legal_text(v@));
    }
    if m == 0 {
        return None;
    }
    if reserved_chars(kept) {
        let mut s = String::new();
        s.push('_');
        let tail = string_of(kept);
        s.append(tail.as_str());
        proof {
            assert(s@ =~= seq!['_'] + kept@);
        }
        return Some(s);
    }
    Some(string_of(kept))
}

// ── a whole name ──────────────────────────────────────────────────────────

/// The components that the raw pieces turn into, dropped ones left out.
pub open spec fn survivors(pieces: Seq<Seq<char>>) -> Seq<Seq<char>>
    decreases pieces.len(),
{
    if pieces.len() == 0 {
        Seq::empty()
    } else {
        let before = survivors(pieces.drop_last());
        match cleaned(pieces.last()) {
            Some(s) => before.push(s),
            None => before,
        }
    }
}

/// The length in bytes of a text in UTF-8.
pub open spec fn byte_len(s: Seq<char>) -> nat {
    encode_utf8(s).len()
}

pub open spec fn any_too_long(parts: Seq<Seq<char>>) -> bool {
    exists|i: int| 0 <= i < parts.len() && byte_len(#[trigger] parts[i]) > MAX_COMPONENT_LEN
}

/// The decision on a name: the components of the path, or why it is refused.
pub open spec fn validated(name: Seq<char>) -> Result<Seq<Seq<char>>, RejectReason> {
    let t = trimmed(name);
    let parts = survivors(split_by(t, |c: char| separator(c)));
    if name.contains('\0') {
        Err(RejectReason::NullByte)
    } else if t.len() == 0 {
        Err(RejectReason::Empty)
    } else if byte_len(t) > MAX_TOTAL_LEN {
        Err(RejectReason::TooLong)
    } else if separator(t[0]) {
        Err(RejectReason::AbsolutePath)
    } else if t.len() >= 2 && ascii_alphabetic(t[0]) && t[1] == ':' {
        Err(RejectReason::DrivePrefix)
    } else if any_too_long(parts) {
        Err(RejectReason::TooLong)
    } else if parts.len() == 0 {
        Err(RejectReason::NoValidComponents)
    } else if parts.len() > MAX_COMPONENTS {
        Err(RejectReason::TooManyComponents)
    } else {
        Ok(parts)
    }
}

impl Decision {
    /// The decision as a mathematical value.
    pub open spec fn verdict(self) -> Result<Seq<Seq<char>>, RejectReason> {
        match self {
            Decision::Accept(p) => Ok(p@),
            Decision::Reject(r) => Err(r),
        }
    }
}

fn has_nul(v: &[char]) -> (r: bool)
    ensures
        r == v@.contains('\0'),
{
    for i in 0..v.len()
        invariant
            forall|k: int| 0 <= k < i ==> v@[k] != '\0',
    {
        if v[i] == '\0' {
            proof {
                assert(v@[i as int] == '\0');
            }
            return true;
        }
    }
    false
}

/// Pure lexical validation of a received file's name.
pub fn validate(name: &str) -> (d: Decision)
    ensures
        d.verdict() == validated(name@),
{
    let all = chars_of(name);
    if has_nul(all.as_slice()) {
        return Decision::Reject(RejectReason::NullByte);
    }
    let t = trim_chars(name);
    if t.len() == 0 {
        return Decision::Reject(RejectReason::Empty);
    }
    let text = string_of(t.as_slice());
    if text.as_str().as_bytes().len() > MAX_TOTAL_LEN {
        return Decision::Reject(RejectReason::TooLong);
    }
    if is_separator(t[0]) {
        return Decision::Reject(RejectReason::AbsolutePath);
    }
    if t.len() >= 2 && is_ascii_alphabetic(t[0]) && t[1] == ':' {
        return Decision::Reject(RejectReason::DrivePrefix);
    }
    let ghost sep = |c: char| separator(c);
    let pieces = split_chars(t.as_slice(), is_separator, Ghost(sep));
    let ghost raw = views(pieces@);
    let mut parts: Vec<String> = Vec::new();
    let n: usize = pieces.len();
    for i in 0..n
        invariant
            n == pieces@.len(),
            raw == views(pieces@),
            raw == split_by(t@, sep),
            t@ == trimmed(name@),
            sep == (|c: char| separator(c)),
            t@.len() > 0,
            !name@.contains('\0'),
            byte_len(t@) <= MAX_TOTAL_LEN,
            !separator(t@[0]),
            !(t@.len() >= 2 && ascii_alphabetic(t@[0]) && t@[1] == ':'),
            texts(parts@) == survivors(raw.subrange(0, i as int)),
            !any_too_long(texts(parts@)),
    {
        let ghost before = texts(parts@);
        proof {
            assert(raw.subrange(0, i + 1).drop_last() =~= raw.subrange(0, i as int));
            assert(raw.subrange(0, i + 1).last() == pieces@[i as int]@);
        }
        match clean_chars(pieces[i].as_slice()) {
            None => {},
            Some(s) => {
                let ghost old_parts = parts@;
                if s.as_str().as_bytes().len() > MAX_COMPONENT_LEN {
                    proof {
                        let part = before.push(s@);
                        lemma_survivors_prefix(raw, i + 1);
                        let whole = survivors(raw);
                        assert(whole[before.len() as int] == s@);
                        assert(any_too_long(whole));
                    }
                    return Decision::Reject(RejectReason::TooLong);
                }
                parts.push(s);
                proof {
                    assert(texts(parts@) =~= before.push(s@));
                    assert forall|k: int| 0 <= k < texts(parts@).len() implies byte_len(
                        #[trigger] texts(parts@)[k],
                    ) <= MAX_COMPONENT_LEN by {
                        if k < before.len() {
                            assert(before[k] == texts(parts@)[k]);
                        }
                    }
                }
            },
        }
    }
    proof {
        assert(raw.subrange(0, n as int) =~= raw);
    }
    if parts.len() == 0 {
        return Decision::Reject(RejectReason::NoValidComponents);
    }
    if parts.len() > MAX_COMPONENTS {
        return Decision::Reject(RejectReason::TooManyComponents);
    }
    Decision::Accept(RelPath { components: parts })
}

/// The survivors of the first `n` pieces begin the survivors of all of them.
proof fn lemma_survivors_prefix(pieces: Seq<Seq<char>>, n: int)
    requires
        0 <= n <= pieces.len(),
    ensures
        survivors(pieces.subrange(0, n)).len() <= survivors(pieces).len(),
        forall|k: int|
            0 <= k < survivors(pieces.subrange(0, n)).len() ==> survivors(
                pieces.subrange(0, n),
            )[k] == #[trigger] survivors(pieces)[k],
    decreases pieces.len(),
{
    if n == pieces.len() {
        assert(pieces.subrange(0, n) =~= pieces);
    } else {
        lemma_survivors_prefix(pieces.drop_last(), n);
        assert(pieces.drop_last().subrange(0, n) =~= pieces.subrange(0, n));
    }
}

/// An untrusted display string as one safe path component, or `fallback` when
/// nothing safe remains.
pub fn sanitize_component(name: &str, fallback: &str) -> (r: String)
    ensures
        r@ == match cleaned(name@) {
            Some(s) => s,
            None => fallback@,
        },
{
    match clean_component(name) {
        Some(s) => s,
        None => fallback.to_owned(),
    }
}

// ── what an accepted name is ──────────────────────────────────────────────

/// A path component that names an entry of its parent directory and nothing
/// else: no separator, no drive or stream colon, no traversal, no device.
pub open spec fn normal_component(s: Seq<char>) -> bool {
    &&& s.len() > 0
    &&& s != seq!['.']
    &&& s != seq!['.', '.']
    &&& !dot_or_space(s.last())
    &&& forall|i: int| 0 <= i < s.len() ==> !illegal(#[trigger] s[i]) && !bidi_or_zero_width(s[i])
    &&& !reserved_stem(s)
}

pub proof fn lemma_trim_end_is_prefix(s: Seq<char>, p: spec_fn(char) -> bool)
    ensures
        trim_end_by(s, p).len() <= s.len(),
        trim_end_by(s, p) == s.subrange(0, trim_end_by(s, p).len() as int),
        trim_end_by(s, p).len() > 0 ==> !p(trim_end_by(s, p).last()),
        forall|i: int| trim_end_by(s, p).len() <= i < s.len() ==> p(#[trigger] s[i]),
    decreases s.len(),
{
    if s.len() > 0 && p(s.last()) {
        lemma_trim_end_is_prefix(s.drop_last(), p);
        let t = trim_end_by(s, p);
        assert(s.drop_last().subrange(0, t.len() as int) =~= s.subrange(0, t.len() as int));
        assert forall|i: int| t.len() <= i < s.len() implies p(#[trigger] s[i]) by {
            if i < s.len() - 1 {
                assert(s.drop_last()[i] == s[i]);
            }
        }
    } else {
        assert(s.subrange(0, s.len() as int) =~= s);
    }
}

/// The first piece of a split keeps the first character when it is no
/// separator.
proof fn lemma_split_keeps_first(s: Seq<char>, p: spec_fn(char) -> bool)
    requires
        s.len() > 0,
        !p(s[0]),
    ensures
        split_by(s, p).len() >= 1,
        split_by(s, p)[0].len() >= 1,
        split_by(s, p)[0][0] == s[0],
    decreases s.len(),
{
    if s.len() == 1 {
        assert(s.drop_last() =~= Seq::<char>::empty());
        assert(split_by(s.drop_last(), p) =~= seq![Seq::<char>::empty()]);
    } else {
        lemma_split_keeps_first(s.drop_last(), p);
    }
}

/// A name that begins with `_` denotes no device.
proof fn lemma_underscore_is_no_device(s: Seq<char>)
    requires
        s.len() > 0,
        s[0] == '_',
    ensures
        !reserved_stem(s),
{
    let dot = |c: char| is_dot_char(c);
    let p = |c: char| dot_or_space(c);
    lemma_split_keeps_first(s, dot);
    let raw = split_by(s, dot)[0];
    assert(trim_start_by(raw, p) == raw);
    let t = trim_end_by(raw, p);
    lemma_trim_end_is_prefix(raw, p);
    if t.len() == 0 {
        assert(p(raw[0]));
    }
    assert(t[0] == '_');
    let stem = device_stem(s);
    assert(stem[0] == '_');
    let lowered = ascii_lowered(stem);
    assert(lowered[0] == '_');
    assert forall|i: int| 0 <= i < reserved_names().len() implies #[trigger] ascii_lowered(
        reserved_names()[i],
    ) != lowered by {
        reveal_reserved(i);
        assert(ascii_lowered(reserved_names()[i])[0] != '_');
    }
}

/// A name whose part before the first dot ends in a bracket denotes no device.
pub proof fn lemma_bracket_is_no_device(s: Seq<char>)
    requires
        first_index(s, '.') > 0,
        s[first_index(s, '.') - 1] == ')',
    ensures
        !reserved_stem(s),
{
    let p = |c: char| dot_or_space(c);
    lemma_first_index(s, '.');
    lemma_first_piece(s);
    let raw = s.subrange(0, first_index(s, '.'));
    lemma_trim_start_keeps_last(raw, p);
    let t = trim_start_by(raw, p);
    assert(trim_end_by(t, p) == t);
    let stem = device_stem(s);
    assert(stem.last() == ')');
    let lowered = ascii_lowered(stem);
    assert(lowered.last() == ')');
    assert forall|i: int| 0 <= i < reserved_names().len() implies #[trigger] ascii_lowered(
        reserved_names()[i],
    ) != lowered by {
        reveal_reserved(i);
        assert(ascii_lowered(reserved_names()[i]).last() != ')');
    }
}

/// Names that agree up to their first dot denote the same device or none.
pub proof fn lemma_device_is_before_the_dot(s: Seq<char>, t: Seq<char>)
    requires
        first_index(s, '.') == first_index(t, '.'),
        s.subrange(0, first_index(s, '.')) == t.subrange(0, first_index(t, '.')),
    ensures
        reserved_stem(s) == reserved_stem(t),
{
    lemma_first_piece(s);
    lemma_first_piece(t);
}

/// The first piece of a split at dots is what precedes the first dot.
pub proof fn lemma_first_piece(s: Seq<char>)
    ensures
        split_by(s, |c: char| is_dot_char(c))[0] == s.subrange(0, first_index(s, '.')),
{
    let dot = |c: char| is_dot_char(c);
    lemma_first_index(s, '.');
    let k = first_index(s, '.');
    let a = s.subrange(0, k);
    lemma_split_none(a, dot);
    if k == s.len() {
        assert(a =~= s);
    } else {
        let b = s.subrange(k + 1, s.len() as int);
        lemma_split_concat(a, '.', b, dot);
        assert(a + seq!['.'] + b =~= s);
    }
}

proof fn lemma_trim_start_keeps_last(s: Seq<char>, p: spec_fn(char) -> bool)
    requires
        s.len() > 0,
        !p(s.last()),
    ensures
        trim_start_by(s, p).len() > 0,
        trim_start_by(s, p).last() == s.last(),
    decreases s.len(),
{
    if p(s[0]) {
        assert(s.len() > 1);
        lemma_trim_start_keeps_last(s.drop_first(), p);
    }
}

/// Reserved names begin with a capital letter and do not end in a bracket.
pub proof fn reveal_reserved(i: int)
    requires
        0 <= i < reserved_names().len(),
    ensures
        reserved_names()[i].len() > 0,
        'A' <= reserved_names()[i][0] && reserved_names()[i][0] <= 'Z',
        reserved_names()[i].last() != ')',
{
    reveal_strlit("CON");
    reveal_strlit("PRN");
    reveal_strlit("AUX");
    reveal_strlit("NUL");
    reveal_strlit("COM0");
    reveal_strlit("COM1");
    reveal_strlit("COM2");
    reveal_strlit("COM3");
    reveal_strlit("COM4");
    reveal_strlit("COM5");
    reveal_strlit("COM6");
    reveal_strlit("COM7");
    reveal_strlit("COM8");
    reveal_strlit("COM9");
    reveal_strlit("LPT0");
    reveal_strlit("LPT1");
    reveal_strlit("LPT2");
    reveal_strlit("LPT3");
    reveal_strlit("LPT4");
    reveal_strlit("LPT5");
    reveal_strlit("LPT6");
    reveal_strlit("LPT7");
    reveal_strlit("LPT8");
    reveal_strlit("LPT9");
    reveal_strlit("CONIN$");
    reveal_strlit("CONOUT$");
    reveal_strlit("CLOCK$");
}

/// Whatever survives cleaning is a normal component.
pub proof fn law_cleaned_is_normal(comp: Seq<char>)
    requires
        cleaned(comp) is Some,
    ensures
        normal_component(cleaned(comp)->0),
{
    let seen = |c: char| !bidi_or_zero_width(c);
    let legal = |c: char| legalized(c);
    let p = |c: char| dot_or_space(c);
    let filtered = comp.filter(seen);
    let mapped = filtered.map_values(legal);
    let s = legal_text(comp);
    lemma_trim_end_is_prefix(mapped, p);
    assert forall|i: int| 0 <= i < s.len() implies !illegal(#[trigger] s[i])
        && !bidi_or_zero_width(s[i]) by {
        assert(s[i] == mapped[i]);
        assert(mapped[i] == legalized(filtered[i]));
        comp.lemma_filter_pred(seen, i);
    }
    assert(!dot_or_space(s.last()));
    let r = cleaned(comp)->0;
    if reserved_stem(s) {
        assert(r[0] == '_');
        lemma_underscore_is_no_device(r);
        assert forall|i: int| 0 <= i < r.len() implies !illegal(#[trigger] r[i])
            && !bidi_or_zero_width(r[i]) by {
            if i > 0 {
                assert(r[i] == s[i - 1]);
            }
        }
    }
    assert(r.last() == s.last());
    assert(r != seq!['.']) by {
        assert(seq!['.'].last() == '.');
    }
    assert(r != seq!['.', '.']) by {
        assert(seq!['.', '.'].last() == '.');
    }
}

/// An accepted name is a relative path of one to sixteen normal components,
/// each within the length limit: joining it to a root cannot leave the root.
pub proof fn law_accept_is_relative_and_normal_only(name: Seq<char>)
    requires
        validated(name) is Ok,
    ensures
        1 <= validated(name)->Ok_0.len() <= MAX_COMPONENTS,
        forall|i: int|
            0 <= i < validated(name)->Ok_0.len() ==> normal_component(
                #[trigger] validated(name)->Ok_0[i],
            ) && byte_len(validated(name)->Ok_0[i]) <= MAX_COMPONENT_LEN,
{
    let pieces = split_by(trimmed(name), |c: char| separator(c));
    lemma_survivors_normal(pieces);
}

proof fn lemma_survivors_normal(pieces: Seq<Seq<char>>)
    ensures
        forall|i: int|
            0 <= i < survivors(pieces).len() ==> normal_component(#[trigger] survivors(pieces)[i]),
    decreases pieces.len(),
{
    if pieces.len() > 0 {
        lemma_survivors_normal(pieces.drop_last());
        let before = survivors(pieces.drop_last());
        if cleaned(pieces.last()) is Some {
            law_cleaned_is_normal(pieces.last());
            assert forall|i: int| 0 <= i < survivors(pieces).len() implies normal_component(
                #[trigger] survivors(pieces)[i],
            ) by {
                if i < before.len() {
                    assert(survivors(pieces)[i] == before[i]);
                }
            }
        }
    }
}

/// A sanitized display string is one normal component whenever the fallback
/// is one.
pub proof fn law_sanitized_component_is_normal(name: Seq<char>, fallback: Seq<char>)
    requires
        normal_component(fallback),
    ensures
        normal_component(
            match cleaned(name) {
                Some(s) => s,
                None => fallback,
            },
        ),
{
    if cleaned(name) is Some {
        law_cleaned_is_normal(name);
    }
}

} // verus!
