//! What becomes of a received name, character by character and piece by piece.

use vstd::prelude::*;
use vstd::utf8::encode_utf8;

use crate::exif::{lemma_filter_same, lemma_filter_within};
use crate::laws::texts::{all_blank, law_split_undoes_weaving, lemma_trimmed_of, tight, woven};
use crate::sanitize::{
    clean_component, cleaned, is_bidi_or_zero_width, is_reserved_stem, legal_text, legalized,
    lemma_first_piece, lemma_trim_end_is_prefix, reserved_names, reserved_stem, sanitize_component,
    survivors, validate, Decision, RejectReason, RelPath,
};
use crate::text::{
    ascii_lower, ascii_lowered, first_index, lemma_first_index, split_by, trim_end_by,
    trim_start_by,
};

verus! {

/// Characters that cannot be seen: zero-width ones and controls of direction.
pub open spec fn unseen(c: char) -> bool {
    let u = c as u32;
    ||| u == 0x200B || u == 0x200C || u == 0x200D || u == 0x200E || u == 0x200F
    ||| u == 0x202A || u == 0x202B || u == 0x202C || u == 0x202D || u == 0x202E
    ||| u == 0x2060 || u == 0x2061 || u == 0x2062 || u == 0x2063 || u == 0x2064
    ||| u == 0x2066 || u == 0x2067 || u == 0x2068 || u == 0x2069
    ||| u == 0xFEFF
}

/// Characters that no file name may hold: control codes and `"*/:<>?\|`.
pub open spec fn forbidden(c: char) -> bool {
    let u = c as u32;
    ||| u < 0x20
    ||| 0x7F <= u && u < 0xA0
    ||| u == 0x22 || u == 0x2A || u == 0x2F || u == 0x3A || u == 0x3C || u == 0x3E || u == 0x3F
    ||| u == 0x5C || u == 0x7C
}

/// A letter in either case.
pub open spec fn either(c: char, upper: char, lower: char) -> bool {
    c == upper || c == lower
}

pub open spec fn spelled_con(s: Seq<char>) -> bool {
    s.len() >= 3 && either(s[0], 'C', 'c') && either(s[1], 'O', 'o') && either(s[2], 'N', 'n')
}

/// The names that Windows gives to devices: `CON`, `PRN`, `AUX`, `NUL`, `COM`
/// or `LPT` with one digit (a superscript one, two or three counts), `CONIN$`,
/// `CONOUT$` and `CLOCK$`, in any letter case.
pub open spec fn device(s: Seq<char>) -> bool {
    ||| s.len() == 3 && spelled_con(s)
    ||| s.len() == 3 && either(s[0], 'P', 'p') && either(s[1], 'R', 'r') && either(s[2], 'N', 'n')
    ||| s.len() == 3 && either(s[0], 'A', 'a') && either(s[1], 'U', 'u') && either(s[2], 'X', 'x')
    ||| s.len() == 3 && either(s[0], 'N', 'n') && either(s[1], 'U', 'u') && either(s[2], 'L', 'l')
    ||| s.len() == 4 && port_digit(s[3]) && either(s[0], 'C', 'c') && either(s[1], 'O', 'o')
        && either(s[2], 'M', 'm')
    ||| s.len() == 4 && port_digit(s[3]) && either(s[0], 'L', 'l') && either(s[1], 'P', 'p')
        && either(s[2], 'T', 't')
    ||| s.len() == 6 && spelled_con(s) && either(s[3], 'I', 'i') && either(s[4], 'N', 'n') && s[5]
        == '$'
    ||| s.len() == 7 && spelled_con(s) && either(s[3], 'O', 'o') && either(s[4], 'U', 'u')
        && either(s[5], 'T', 't') && s[6] == '$'
    ||| s.len() == 6 && either(s[0], 'C', 'c') && either(s[1], 'L', 'l') && either(s[2], 'O', 'o')
        && either(s[3], 'C', 'c') && either(s[4], 'K', 'k') && s[5] == '$'
}

pub open spec fn port_digit(c: char) -> bool {
    '0' <= c && c <= '9' || c as u32 == 0xB9 || c as u32 == 0xB2 || c as u32 == 0xB3
}

pub open spec fn spaces(s: Seq<char>) -> bool {
    forall|i: int| 0 <= i < s.len() ==> #[trigger] s[i] == ' '
}

/// Whether the name opens a device: what stands before its first dot, spaces
/// around it aside, is the name of one.
pub open spec fn opens_device(s: Seq<char>) -> bool {
    exists|a: int, b: int, d: int|
        #![trigger s.subrange(a, b), s.subrange(b, d)]
        {
            &&& 0 <= a <= b <= d <= s.len()
            &&& d < s.len() ==> s[d] == '.'
            &&& forall|i: int| 0 <= i < d ==> s[i] != '.'
            &&& spaces(s.subrange(0, a))
            &&& spaces(s.subrange(b, d))
            &&& device(s.subrange(a, b))
        }
}

/// Dots and spaces at the end of a name are lost on some systems.
pub open spec fn faint(c: char) -> bool {
    c == '.' || c == ' '
}

/// A piece of a path that can stand as it is.
pub open spec fn safe_piece(s: Seq<char>) -> bool {
    &&& s.len() > 0
    &&& !faint(s[s.len() - 1])
    &&& forall|i: int| 0 <= i < s.len() ==> !forbidden(#[trigger] s[i]) && !unseen(s[i])
    &&& !opens_device(s)
}

pub open spec fn same_fold(name: Seq<char>, core: Seq<char>) -> bool {
    ascii_lowered(name) == ascii_lowered(
        core.map_values(|c: char| crate::sanitize::folded_digit(c)),
    )
}

/// Two texts fold to the same iff they do so at every place.
proof fn lemma_same_fold(name: Seq<char>, core: Seq<char>)
    ensures
        same_fold(name, core) == (name.len() == core.len() && forall|i: int|
            0 <= i < name.len() ==> ascii_lower(#[trigger] name[i]) == ascii_lower(
                crate::sanitize::folded_digit(core[i]),
            )),
{
    let x = ascii_lowered(name);
    let y = ascii_lowered(core.map_values(|c: char| crate::sanitize::folded_digit(c)));
    assert(x.len() == name.len() && y.len() == core.len());
    if x == y {
        assert forall|i: int| 0 <= i < name.len() implies ascii_lower(#[trigger] name[i])
            == ascii_lower(crate::sanitize::folded_digit(core[i])) by {
            assert(x[i] == y[i]);
            assert(x[i] == ascii_lower(name[i]));
        }
    } else if name.len() == core.len() && forall|i: int|
        0 <= i < name.len() ==> ascii_lower(#[trigger] name[i]) == ascii_lower(
            crate::sanitize::folded_digit(core[i]),
        ) {
        assert(x =~= y);
    }
}

#[verifier::rlimit(40)]
proof fn lemma_device_list(core: Seq<char>)
    ensures
        device(core) == exists|i: int|
            0 <= i < reserved_names().len() && #[trigger] same_fold(reserved_names()[i], core),
{
    reveal_strlit("CON");
    reveal_strlit("PRN");
    reveal_strlit("AUX");
    reveal_strlit("NUL");
    reveal_strlit("COM0");
    reveal_strlit("COM1");
    reveal_strlit("COM2");
    reveal_strlit("COM3");
    reveal_strlit("COM4");
    reveal_strlit("COM5");
    reveal_strlit("COM6");
    reveal_strlit("COM7");
    reveal_strlit("COM8");
    reveal_strlit("COM9");
    reveal_strlit("LPT0");
    reveal_strlit("LPT1");
    reveal_strlit("LPT2");
    reveal_strlit("LPT3");
    reveal_strlit("LPT4");
    reveal_strlit("LPT5");
    reveal_strlit("LPT6");
    reveal_strlit("LPT7");
    reveal_strlit("LPT8");
    reveal_strlit("LPT9");
    reveal_strlit("CONIN$");
    reveal_strlit("CONOUT$");
    reveal_strlit("CLOCK$");
    let names = reserved_names();
    if device(core) {
        let k: int = if core.len() == 3 {
            if either(core[0], 'C', 'c') {
                0
            } else if either(core[0], 'P', 'p') {
                1
            } else if either(core[0], 'A', 'a') {
                2
            } else {
                3
            }
        } else if core.len() == 4 {
            (if either(core[0], 'C', 'c') {
                4int
            } else {
                14int
            }) + (crate::sanitize::folded_digit(core[3]) as u32 - 48)
        } else if core.len() == 7 {
            25
        } else if either(core[1], 'O', 'o') {
            24
        } else {
            26
        };
        lemma_same_fold(names[k], core);
        assert(same_fold(names[k], core));
    }
    assert forall|i: int| 0 <= i < names.len() && #[trigger] same_fold(names[i], core) implies device(
        core,
    ) by {
        lemma_same_fold(names[i], core);
        let n = names[i];
        assert(n.len() >= 3);
        assert(ascii_lower(n[0]) == ascii_lower(crate::sanitize::folded_digit(core[0])));
        assert(ascii_lower(n[1]) == ascii_lower(crate::sanitize::folded_digit(core[1])));
        assert(ascii_lower(n[2]) == ascii_lower(crate::sanitize::folded_digit(core[2])));
        if n.len() > 3 {
            assert(ascii_lower(n[3]) == ascii_lower(crate::sanitize::folded_digit(core[3])));
        }
        if n.len() > 4 {
            assert(ascii_lower(n[4]) == ascii_lower(crate::sanitize::folded_digit(core[4])));
            assert(ascii_lower(n[5]) == ascii_lower(crate::sanitize::folded_digit(core[5])));
        }
        if n.len() > 6 {
            assert(ascii_lower(n[6]) == ascii_lower(crate::sanitize::folded_digit(core[6])));
        }
    }
}

#[verifier::rlimit(40)]
pub proof fn lemma_opens_device(s: Seq<char>)
    ensures
        reserved_stem(s) == opens_device(s),
{
    let p = |c: char| crate::sanitize::dot_or_space(c);
    lemma_first_piece(s);
    lemma_first_index(s, '.');
    let d = first_index(s, '.');
    let raw = s.subrange(0, d);
    crate::laws::texts::lemma_trim_start_parts(raw, p);
    let mid = trim_start_by(raw, p);
    lemma_trim_end_is_prefix(mid, p);
    let core = trim_end_by(mid, p);
    let a = raw.len() - mid.len();
    let b = a + core.len();
    assert(core =~= s.subrange(a, b));
    lemma_device_list(core);
    if reserved_stem(s) {
        let i = choose|i: int|
            0 <= i < reserved_names().len() && #[trigger] ascii_lowered(reserved_names()[i])
                == ascii_lowered(crate::sanitize::device_stem(s));
        assert(same_fold(reserved_names()[i], core));
        assert(spaces(s.subrange(0, a))) by {
            assert forall|i: int| 0 <= i < a implies #[trigger] s.subrange(0, a)[i] == ' ' by {
                assert(p(raw[i]));
            }
        }
        assert(spaces(s.subrange(b, d))) by {
            assert forall|i: int| 0 <= i < d - b implies #[trigger] s.subrange(b, d)[i] == ' ' by {
                assert(p(mid[core.len() + i]));
                assert(mid[core.len() + i] == s[b + i]);
            }
        }
        assert(device(s.subrange(a, b)));
    }
    if opens_device(s) {
        let (x, y, z) = choose|x: int, y: int, z: int|
            #![trigger s.subrange(x, y), s.subrange(y, z)]
            {
                &&& 0 <= x <= y <= z <= s.len()
                &&& z < s.len() ==> s[z] == '.'
                &&& forall|i: int| 0 <= i < z ==> s[i] != '.'
                &&& spaces(s.subrange(0, x))
                &&& spaces(s.subrange(y, z))
                &&& device(s.subrange(x, y))
            };
        crate::text::lemma_first_index_unique(s, '.', z);
        let name = s.subrange(x, y);
        assert(name[0] == s[x]);
        assert(name[name.len() - 1] == s[y - 1]);
        assert(!p(s[x]) && !p(s[y - 1]));
        if a < x {
            assert(mid[0] == s[a]);
            assert(s.subrange(0, x)[a] == ' ');
        }
        if x < a {
            assert(p(raw[x]));
        }
        assert(a == x);
        if b > y {
            assert(core.last() == s[b - 1]);
            assert(s.subrange(y, z)[b - 1 - y] == ' ');
        }
        if b < y {
            assert(mid[y - 1 - a] == s[y - 1]);
            assert(p(mid[y - 1 - a]));
        }
        assert(core == name);
        let i = choose|i: int|
            0 <= i < reserved_names().len() && #[trigger] same_fold(reserved_names()[i], core);
        assert(ascii_lowered(reserved_names()[i]) == ascii_lowered(
            crate::sanitize::device_stem(s),
        ));
    }
}

/// A name opens a device by what stands before its first dot.
pub proof fn law_devices_by_letters(s: &str, r: bool)
    requires
        call_ensures(is_reserved_stem, (s,), r),
    ensures
        r == opens_device(s@),
{
    lemma_opens_device(s@);
}

/// `s` as the first `n` visible characters of `comp`, each forbidden one as `_`.
pub open spec fn made_legal(s: Seq<char>, visible: Seq<char>) -> bool {
    s.len() <= visible.len() && forall|i: int|
        0 <= i < s.len() ==> #[trigger] s[i] == if forbidden(visible[i]) {
            '_'
        } else {
            visible[i]
        }
}

proof fn lemma_legal_text(comp: Seq<char>, visible: Seq<char>)
    requires
        visible == comp.filter(|c: char| !unseen(c)),
    ensures
        made_legal(legal_text(comp), visible),
        forall|i: int| legal_text(comp).len() <= i < visible.len() ==> faint(#[trigger] visible[i]),
        legal_text(comp).len() > 0 ==> !faint(legal_text(comp).last()),
{
    let seen = |c: char| !crate::sanitize::bidi_or_zero_width(c);
    let kept = |c: char| !unseen(c);
    lemma_filter_same(comp, seen, kept);
    let mapped = visible.map_values(|c: char| legalized(c));
    let p = |c: char| crate::sanitize::dot_or_space(c);
    lemma_trim_end_is_prefix(mapped, p);
    let s = legal_text(comp);
    assert forall|i: int| 0 <= i < s.len() implies #[trigger] s[i] == if forbidden(visible[i]) {
        '_'
    } else {
        visible[i]
    } by {
        assert(s[i] == mapped[i]);
    }
    assert forall|i: int| s.len() <= i < visible.len() implies faint(#[trigger] visible[i]) by {
        assert(p(mapped[i]));
        assert(mapped[i] == legalized(visible[i]));
    }
}

/// Cleaning one piece leaves out what cannot be seen, puts `_` for every
/// forbidden character, keeps every other character in its place, and cuts off
/// dots and spaces at the end, and only these. A piece has nothing left only if
/// all of it that can be seen is dots and spaces. What is left gets `_` in front
/// if and only if it opens a device.
pub proof fn law_cleaning_changes_nothing_else(comp: &str, visible: Seq<char>, r: Option<String>)
    requires
        call_ensures(clean_component, (comp,), r),
        visible == comp@.filter(|c: char| !unseen(c)),
    ensures
        r is None <==> forall|i: int| 0 <= i < visible.len() ==> faint(#[trigger] visible[i]),
        r matches Some(t) ==> exists|s: Seq<char>|
            {
                &&& #[trigger] made_legal(s, visible)
                &&& s.len() > 0 && !faint(s[s.len() - 1])
                &&& forall|i: int| s.len() <= i < visible.len() ==> faint(#[trigger] visible[i])
                &&& t@ == if opens_device(s) {
                    seq!['_'] + s
                } else {
                    s
                }
            },
{
    lemma_legal_text(comp@, visible);
    let s = legal_text(comp@);
    lemma_opens_device(s);
    let kept = |c: char| !unseen(c);
    if comp@.len() == 0 {
        reveal(Seq::filter);
        assert(visible.len() == 0);
    }
    if comp@ == seq!['.'] || comp@ == seq!['.', '.'] {
        assert forall|i: int| 0 <= i < visible.len() implies faint(#[trigger] visible[i]) by {
            comp@.lemma_filter_pred(kept, i);
            lemma_filter_within(comp@, kept, i);
        }
    }
    if s.len() > 0 {
        assert(made_legal(s, visible));
        if forall|i: int| 0 <= i < visible.len() ==> faint(#[trigger] visible[i]) {
            assert(faint(visible[s.len() - 1]));
        }
    }
}

pub proof fn lemma_filter_all<A>(s: Seq<A>, p: spec_fn(A) -> bool)
    requires
        forall|i: int| 0 <= i < s.len() ==> p(#[trigger] s[i]),
    ensures
        s.filter(p) == s,
    decreases s.len(),
{
    reveal(Seq::filter);
    if s.len() > 0 {
        assert(p(s[s.len() - 1]));
        assert forall|i: int| 0 <= i < s.drop_last().len() implies p(#[trigger] s.drop_last()[i]) by {
            assert(s.drop_last()[i] == s[i]);
        }
        lemma_filter_all(s.drop_last(), p);
        assert(s =~= s.drop_last().push(s.last()));
    } else {
        assert(s.filter(p) =~= s);
    }
}

proof fn lemma_safe_is_kept(s: Seq<char>)
    requires
        safe_piece(s),
    ensures
        cleaned(s) == Some(s),
{
    let kept = |c: char| !unseen(c);
    lemma_filter_all(s, kept);
    lemma_legal_text(s, s);
    let t = legal_text(s);
    if t.len() < s.len() {
        assert(faint(s[s.len() - 1]));
    }
    assert(t =~= s);
    lemma_opens_device(s);
    assert(s != seq!['.']) by {
        assert(seq!['.'][0] == '.');
    }
    assert(s != seq!['.', '.']) by {
        assert(seq!['.', '.'][1] == '.');
    }
}

/// A piece that is safe already is kept as it is, and so is a display string.
pub proof fn law_safe_piece_is_kept(
    comp: &str,
    r: Option<String>,
    fallback: &str,
    shown: String,
)
    requires
        safe_piece(comp@),
        call_ensures(clean_component, (comp,), r),
        call_ensures(sanitize_component, (comp, fallback), shown),
    ensures
        r matches Some(t) && t@ == comp@,
        shown@ == comp@,
{
    lemma_safe_is_kept(comp@);
}

/// A display string becomes what its piece becomes, and the fallback where that
/// has nothing left.
pub proof fn law_display_string_or_fallback(
    name: &str,
    fallback: &str,
    r: Option<String>,
    shown: String,
)
    requires
        call_ensures(clean_component, (name,), r),
        call_ensures(sanitize_component, (name, fallback), shown),
    ensures
        shown@ == match r {
            Some(t) => t@,
            None => fallback@,
        },
{
}

/// One character is unseen by its code point.
pub proof fn law_unseen_by_code_point(c: char, r: bool)
    requires
        call_ensures(is_bidi_or_zero_width, (c,), r),
    ensures
        r == unseen(c),
{
}

/// The parts that the pieces of a path become: piece by piece what cleaning it
/// leaves, the pieces of which nothing is left passed over.
pub open spec fn gathered(pieces: Seq<Seq<char>>, parts: Seq<Seq<char>>) -> bool
    decreases pieces.len(),
{
    if pieces.len() == 0 {
        parts.len() == 0
    } else {
        match cleaned(pieces[pieces.len() - 1]) {
            None => gathered(pieces.drop_last(), parts),
            Some(s) => parts.len() > 0 && parts[parts.len() - 1] == s && gathered(
                pieces.drop_last(),
                parts.drop_last(),
            ),
        }
    }
}

proof fn lemma_gathered(pieces: Seq<Seq<char>>, parts: Seq<Seq<char>>)
    requires
        gathered(pieces, parts),
    ensures
        survivors(pieces) == parts,
    decreases pieces.len(),
{
    if pieces.len() > 0 {
        match cleaned(pieces.last()) {
            None => {
                lemma_gathered(pieces.drop_last(), parts);
            },
            Some(s) => {
                lemma_gathered(pieces.drop_last(), parts.drop_last());
                assert(parts =~= parts.drop_last().push(s));
            },
        }
    } else {
        assert(survivors(pieces) =~= parts);
    }
}

/// A separator of either kind.
pub open spec fn slash(c: char) -> bool {
    c as u32 == 0x2F || c as u32 == 0x5C
}

/// A name as it is received: a path `t` between blanks, of pieces that hold no
/// separator.
pub open spec fn reads_as(
    name: Seq<char>,
    t: Seq<char>,
    pieces: Seq<Seq<char>>,
    seps: Seq<char>,
) -> bool {
    &&& exists|a: Seq<char>, b: Seq<char>|
        #![trigger all_blank(a), all_blank(b)]
        all_blank(a) && all_blank(b) && name == a + t + b
    &&& tight(t)
    &&& pieces.len() >= 1 && seps.len() == pieces.len() - 1
    &&& t == woven(pieces, seps)
    &&& forall|i: int| 0 <= i < seps.len() ==> slash(#[trigger] seps[i])
    &&& forall|i: int, k: int|
        0 <= i < pieces.len() && 0 <= k < pieces[i].len() ==> !slash(#[trigger] pieces[i][k])
}

/// Every name is refused for the first of these reasons that holds of it: it
/// holds a zero character; it is blank; it has over 4096 bytes; it begins with a
/// separator; it begins with a letter and a colon; a part of it has over 200
/// bytes; it has no part; it has over sixteen parts. Otherwise its parts are the
/// path.
#[verifier::rlimit(40)]
pub proof fn law_name_is_refused_only_for_these_reasons(
    name: &str,
    d: Decision,
    t: Seq<char>,
    pieces: Seq<Seq<char>>,
    seps: Seq<char>,
    parts: Seq<Seq<char>>,
)
    requires
        call_ensures(validate, (name,), d),
        reads_as(name@, t, pieces, seps),
        gathered(pieces, parts),
    ensures
        d is Accept ==> d->Accept_0@ == parts,
        match d {
            Decision::Accept(_) => {
                &&& !name@.contains('\0') && t.len() > 0
                &&& encode_utf8(t).len() <= 4096
                &&& !slash(t[0])
                &&& !(t.len() >= 2 && t[1] == ':' && letter(t[0]))
                &&& 1 <= parts.len() <= 16
                &&& forall|i: int|
                    0 <= i < parts.len() ==> encode_utf8(#[trigger] parts[i]).len() <= 200
            },
            Decision::Reject(RejectReason::NullByte) => name@.contains('\0'),
            Decision::Reject(RejectReason::Empty) => t.len() == 0 && !name@.contains('\0'),
            Decision::Reject(why) => {
                &&& !name@.contains('\0') && t.len() > 0
                &&& match why {
                    RejectReason::TooLong => encode_utf8(t).len() > 4096 || !slash(t[0]) && !(
                    t.len() >= 2 && t[1] == ':' && letter(t[0])) && exists|i: int|
                        0 <= i < parts.len() && encode_utf8(#[trigger] parts[i]).len() > 200,
                    RejectReason::AbsolutePath => encode_utf8(t).len() <= 4096 && slash(t[0]),
                    RejectReason::DrivePrefix => encode_utf8(t).len() <= 4096 && t.len() >= 2
                        && t[1] == ':' && letter(t[0]),
                    RejectReason::NoValidComponents => encode_utf8(t).len() <= 4096 && !slash(t[0])
                        && !(t.len() >= 2 && t[1] == ':' && letter(t[0])) && parts.len() == 0,
                    RejectReason::TooManyComponents => encode_utf8(t).len() <= 4096 && !slash(t[0])
                        && !(t.len() >= 2 && t[1] == ':' && letter(t[0])) && parts.len() > 16
                        && forall|i: int|
                        0 <= i < parts.len() ==> encode_utf8(#[trigger] parts[i]).len() <= 200,
                    _ => false,
                }
            },
        },
{
    let sep = |c: char| crate::sanitize::separator(c);
    let (a, b) = choose|a: Seq<char>, b: Seq<char>|
        #![trigger all_blank(a), all_blank(b)]
        all_blank(a) && all_blank(b) && name@ == a + t + b;
    lemma_trimmed_of(a, t, b);
    assert forall|i: int| 0 <= i < seps.len() implies sep(#[trigger] seps[i]) by {
        lemma_slash(seps[i]);
    }
    assert forall|i: int, k: int| 0 <= i < pieces.len() && 0 <= k < pieces[i].len() implies !sep(
        #[trigger] pieces[i][k],
    ) by {
        lemma_slash(pieces[i][k]);
    }
    law_split_undoes_weaving(pieces, seps, sep);
    lemma_gathered(pieces, parts);
    assert(d.verdict() == crate::sanitize::validated(name@));
    if t.len() > 0 {
        lemma_letter(t[0]);
        lemma_slash(t[0]);
    }
    assert forall|i: int| 0 <= i < parts.len() implies crate::sanitize::byte_len(
        #[trigger] parts[i],
    ) == encode_utf8(parts[i]).len() by {}
}

pub open spec fn letter(c: char) -> bool {
    65 <= c as u32 && c as u32 <= 90 || 97 <= c as u32 && c as u32 <= 122
}

proof fn lemma_slash(c: char)
    ensures
        slash(c) == crate::sanitize::separator(c),
{
}

proof fn lemma_letter(c: char)
    ensures
        letter(c) == crate::text::ascii_alphabetic(c),
{
}

proof fn lemma_safe_gathered(pieces: Seq<Seq<char>>)
    requires
        forall|i: int| 0 <= i < pieces.len() ==> safe_piece(#[trigger] pieces[i]),
    ensures
        gathered(pieces, pieces),
    decreases pieces.len(),
{
    if pieces.len() > 0 {
        assert(safe_piece(pieces[pieces.len() - 1]));
        lemma_safe_is_kept(pieces[pieces.len() - 1]);
        assert forall|i: int| 0 <= i < pieces.drop_last().len() implies safe_piece(
            #[trigger] pieces.drop_last()[i],
        ) by {
            assert(pieces.drop_last()[i] == pieces[i]);
        }
        lemma_safe_gathered(pieces.drop_last());
    }
}

/// A relative name that is safe already is accepted unchanged: up to sixteen
/// safe pieces of up to 200 bytes, up to 4096 bytes in all, with separators of
/// either kind between them and blanks around them, become exactly these pieces.
pub proof fn law_safe_name_is_accepted_unchanged(
    name: &str,
    d: Decision,
    t: Seq<char>,
    pieces: Seq<Seq<char>>,
    seps: Seq<char>,
)
    requires
        call_ensures(validate, (name,), d),
        reads_as(name@, t, pieces, seps),
        !name@.contains('\0'),
        pieces.len() <= 16,
        encode_utf8(t).len() <= 4096,
        forall|i: int|
            0 <= i < pieces.len() ==> safe_piece(#[trigger] pieces[i]) && encode_utf8(
                pieces[i],
            ).len() <= 200,
    ensures
        d matches Decision::Accept(p) && p@ == pieces,
{
    lemma_safe_gathered(pieces);
    law_name_is_refused_only_for_these_reasons(name, d, t, pieces, seps, pieces);
    lemma_woven_start(pieces, seps);
    assert(safe_piece(pieces[0]));
    assert(t.len() > 0);
    assert(t[0] == pieces[0][0]);
    assert(!slash(pieces[0][0]));
    if t.len() >= 2 && t[1] == ':' {
        if pieces[0].len() >= 2 {
            assert(t[1] == pieces[0][1]);
            assert(forbidden(pieces[0][1]));
        } else {
            assert(slash(seps[0]));
        }
    }
}

/// A woven text begins with its first piece, and then the first separator.
proof fn lemma_woven_start(pieces: Seq<Seq<char>>, seps: Seq<char>)
    requires
        pieces.len() >= 1,
        seps.len() == pieces.len() - 1,
    ensures
        woven(pieces, seps).len() >= pieces[0].len(),
        woven(pieces, seps).subrange(0, pieces[0].len() as int) == pieces[0],
        pieces.len() == 1 ==> woven(pieces, seps) == pieces[0],
        pieces.len() > 1 ==> woven(pieces, seps).len() > pieces[0].len() && woven(
            pieces,
            seps,
        )[pieces[0].len() as int] == seps[0],
        forall|i: int| 0 <= i < pieces[0].len() ==> woven(pieces, seps)[i] == #[trigger] pieces[0][i],
    decreases pieces.len(),
{
    let w = woven(pieces, seps);
    if pieces.len() > 1 {
        lemma_woven_start(pieces.drop_last(), seps.drop_last());
        assert(pieces.drop_last()[0] == pieces[0]);
        if pieces.len() > 2 {
            assert(seps.drop_last()[0] == seps[0]);
        }
    }
    assert(w.subrange(0, pieces[0].len() as int) =~= pieces[0]);
}

/// A path is written with one `/` between its parts, and reading it apart at
/// `/` gives the parts back.
pub proof fn law_written_path_reads_back(p: &RelPath, r: String)
    requires
        call_ensures(RelPath::to_slash_string, (p,), r),
        p@.len() >= 1,
        forall|i: int, k: int|
            0 <= i < p@.len() && 0 <= k < p@[i].len() ==> !slash(#[trigger] p@[i][k]),
    ensures
        r@ == woven(p@, Seq::new((p@.len() - 1) as nat, |i: int| '/')),
        split_by(r@, |c: char| c == '/') == p@,
{
    crate::laws::texts::law_joined_is_woven(p@, '/');
    let seps = Seq::new((p@.len() - 1) as nat, |i: int| '/');
    let bar = |c: char| c == '/';
    assert forall|i: int, k: int| 0 <= i < p@.len() && 0 <= k < p@[i].len() implies !bar(
        #[trigger] p@[i][k],
    ) by {
        assert(!slash(p@[i][k]));
    }
    law_split_undoes_weaving(p@, seps, bar);
}

} // verus!
