//! What trimming, cutting apart, counting and numbering do to a text.

use vstd::prelude::*;

use crate::sanitize::lemma_trim_end_is_prefix;
use crate::text::{
    ascii_lowercase, chars_eq, chars_of, concat, copy_chars, cut_to_bytes, decimal, decimal_chars,
    decimal_string, digits_value, has_prefix, hex_lower_char, hex_upper_char, index_of,
    is_ascii_alphabetic, is_ascii_digit, is_control, is_white_space, joined, last_index,
    lemma_decimal_no_leading_zero, lemma_decimal_value, lemma_first_index, lemma_split_concat,
    lemma_split_none, padded_string, parse_unsigned, rindex_of, split_by, str_eq, string_of,
    to_ascii_lower, trim_chars, trim_end_by, trim_slice, trim_start_by, trim_string, trimmed,
    white_space,
};

verus! {

/// The characters with the Unicode property `White_Space`.
pub open spec fn blank(c: char) -> bool {
    let u = c as u32;
    ||| u == 0x20 || u == 0xA0 || u == 0x85 || u == 0x3000 || u == 0x1680
    ||| u == 0x09 || u == 0x0A || u == 0x0B || u == 0x0C || u == 0x0D
    ||| 0x2000 <= u && u < 0x200B
    ||| u == 0x2028 || u == 0x2029 || u == 0x202F || u == 0x205F
}

pub open spec fn all_blank(s: Seq<char>) -> bool {
    forall|i: int| 0 <= i < s.len() ==> blank(#[trigger] s[i])
}

/// A text that neither begins nor ends with white space.
pub open spec fn tight(s: Seq<char>) -> bool {
    s.len() > 0 ==> !blank(s[0]) && !blank(s[s.len() - 1])
}

/// What the tests on one character answer, by code point.
pub proof fn law_character_tests(
    c: char,
    white: bool,
    control: bool,
    alpha: bool,
    digit: bool,
    lower: char,
)
    requires
        call_ensures(is_white_space, (c,), white),
        call_ensures(is_control, (c,), control),
        call_ensures(is_ascii_alphabetic, (c,), alpha),
        call_ensures(is_ascii_digit, (c,), digit),
        call_ensures(to_ascii_lower, (c,), lower),
    ensures
        white == blank(c),
        control == ((c as u32) < 32 || 127 <= c as u32 && (c as u32) < 160),
        digit == (48 <= c as u32 && c as u32 <= 57),
        alpha == (65 <= c as u32 && c as u32 <= 90 || 97 <= c as u32 && c as u32 <= 122),
        lower as u32 == c as u32 + if 65 <= c as u32 && c as u32 <= 90 {
            32int
        } else {
            0
        },
{
}

/// A text that is cut out of blanks on both sides is what trimming leaves.
pub proof fn lemma_trimmed_of(a: Seq<char>, t: Seq<char>, b: Seq<char>)
    requires
        all_blank(a),
        all_blank(b),
        tight(t),
    ensures
        trimmed(a + t + b) == t,
{
    let p = |c: char| white_space(c);
    let s = a + t + b;
    lemma_trim_start_parts(s, p);
    let mid = trim_start_by(s, p);
    let n = s.len() - mid.len();
    lemma_trim_end_is_prefix(mid, p);
    if t.len() > 0 {
        assert(s[a.len() as int] == t[0]);
        if n < a.len() {
            assert(mid[0] == s[n]);
            assert(s[n] == a[n]);
        }
        if n > a.len() {
            assert(p(s[a.len() as int]));
        }
        assert(mid =~= t + b);
        let out = trim_end_by(mid, p);
        if out.len() < t.len() {
            assert(mid[t.len() - 1] == t[t.len() - 1]);
            assert(p(mid[t.len() - 1]));
        }
        if out.len() > t.len() {
            assert(out.last() == mid[out.len() - 1]);
            assert(mid[out.len() - 1] == b[out.len() - 1 - t.len()]);
        }
        assert(out =~= t);
    } else {
        assert forall|i: int| 0 <= i < s.len() implies p(#[trigger] s[i]) by {
            if i < a.len() {
                assert(s[i] == a[i]);
            } else {
                assert(s[i] == b[i - a.len()]);
            }
        }
        if mid.len() > 0 {
            assert(mid[0] == s[n]);
        }
        assert(trim_end_by(mid, p) =~= t);
    }
}

pub proof fn lemma_trim_start_parts(s: Seq<char>, p: spec_fn(char) -> bool)
    ensures
        trim_start_by(s, p).len() <= s.len(),
        trim_start_by(s, p) == s.subrange(s.len() - trim_start_by(s, p).len(), s.len() as int),
        trim_start_by(s, p).len() > 0 ==> !p(trim_start_by(s, p)[0]),
        forall|i: int| 0 <= i < s.len() - trim_start_by(s, p).len() ==> p(#[trigger] s[i]),
    decreases s.len(),
{
    let t = trim_start_by(s, p);
    if s.len() > 0 && p(s[0]) {
        lemma_trim_start_parts(s.drop_first(), p);
        assert(s.drop_first().subrange(s.drop_first().len() - t.len(), s.drop_first().len() as int)
            =~= s.subrange(s.len() - t.len(), s.len() as int));
        assert forall|i: int| 0 <= i < s.len() - t.len() implies p(#[trigger] s[i]) by {
            if i > 0 {
                assert(s.drop_first()[i - 1] == s[i]);
            }
        }
    } else {
        assert(s.subrange(0, s.len() as int) =~= s);
    }
}

/// Every text is blanks, what trimming leaves, and blanks.
pub proof fn lemma_trimmed_parts(s: Seq<char>) -> (r: (Seq<char>, Seq<char>))
    ensures
        s == r.0 + trimmed(s) + r.1,
        all_blank(r.0),
        all_blank(r.1),
        tight(trimmed(s)),
{
    let p = |c: char| white_space(c);
    lemma_trim_start_parts(s, p);
    let mid = trim_start_by(s, p);
    lemma_trim_end_is_prefix(mid, p);
    let out = trim_end_by(mid, p);
    let a = s.subrange(0, s.len() - mid.len());
    let b = mid.subrange(out.len() as int, mid.len() as int);
    assert(s =~= a + out + b);
    assert forall|i: int| 0 <= i < a.len() implies blank(#[trigger] a[i]) by {
        assert(p(s[i]));
    }
    assert forall|i: int| 0 <= i < b.len() implies blank(#[trigger] b[i]) by {
        assert(p(mid[out.len() + i]));
    }
    if out.len() > 0 {
        assert(out[0] == mid[0]);
        assert(out.last() == out[out.len() - 1]);
    }
    (a, b)
}

/// Trimming takes blanks away from both ends and nothing else: whatever text is
/// written between blanks comes back, if it has none at its own ends.
pub proof fn law_trimming_takes_blanks_only(s: &str, r: String, a: Seq<char>, t: Seq<char>, b: Seq<char>)
    requires
        call_ensures(trim_string, (s,), r),
        s@ == a + t + b,
        all_blank(a),
        all_blank(b),
        tight(t),
    ensures
        r@ == t,
{
    lemma_trimmed_of(a, t, b);
}

/// The pieces with the given separators between them: `seps[i]` stands behind
/// piece `i`.
pub open spec fn woven(pieces: Seq<Seq<char>>, seps: Seq<char>) -> Seq<char>
    decreases pieces.len(),
{
    if pieces.len() == 0 {
        Seq::empty()
    } else if pieces.len() == 1 {
        pieces[0]
    } else {
        woven(pieces.drop_last(), seps.drop_last()) + seq![seps.last()] + pieces.last()
    }
}

/// Cutting a text apart at separators finds the pieces it was woven from.
pub proof fn law_split_undoes_weaving(
    pieces: Seq<Seq<char>>,
    seps: Seq<char>,
    p: spec_fn(char) -> bool,
)
    requires
        pieces.len() >= 1,
        seps.len() == pieces.len() - 1,
        forall|i: int| 0 <= i < seps.len() ==> p(#[trigger] seps[i]),
        forall|i: int, k: int|
            0 <= i < pieces.len() && 0 <= k < pieces[i].len() ==> !p(#[trigger] pieces[i][k]),
    ensures
        split_by(woven(pieces, seps), p) == pieces,
    decreases pieces.len(),
{
    if pieces.len() == 1 {
        lemma_split_none(pieces[0], p);
        assert(pieces =~= seq![pieces[0]]);
    } else {
        let head = pieces.drop_last();
        let hs = seps.drop_last();
        assert forall|i: int, k: int| 0 <= i < head.len() && 0 <= k < head[i].len() implies !p(
            #[trigger] head[i][k],
        ) by {
            assert(head[i] == pieces[i]);
            assert(!p(pieces[i][k]));
        }
        law_split_undoes_weaving(head, hs, p);
        let last = pieces.last();
        assert forall|k: int| 0 <= k < last.len() implies !p(#[trigger] last[k]) by {
            assert(!p(pieces[pieces.len() - 1][k]));
        }
        lemma_split_none(last, p);
        assert(p(seps[seps.len() - 1]));
        lemma_split_concat(woven(head, hs), seps.last(), last, p);
        assert(head + seq![last] =~= pieces);
    }
}

/// Every text is woven from the pieces that cutting it apart gives: none of them
/// holds a separator, and nothing else is lost.
pub proof fn law_split_loses_only_separators(s: Seq<char>, p: spec_fn(char) -> bool) -> (seps: Seq<
    char,
>)
    ensures
        split_by(s, p).len() == seps.len() + 1,
        forall|i: int| 0 <= i < seps.len() ==> p(#[trigger] seps[i]),
        forall|i: int, k: int|
            0 <= i < split_by(s, p).len() && 0 <= k < split_by(s, p)[i].len() ==> !p(
                #[trigger] split_by(s, p)[i][k],
            ),
        woven(split_by(s, p), seps) == s,
    decreases s.len(),
{
    let all = split_by(s, p);
    if s.len() == 0 {
        assert(all[0] =~= s);
        Seq::empty()
    } else {
        let before = split_by(s.drop_last(), p);
        let seps = law_split_loses_only_separators(s.drop_last(), p);
        assert(s =~= s.drop_last().push(s.last()));
        if p(s.last()) {
            let more = seps.push(s.last());
            assert(all.drop_last() =~= before);
            assert(more.drop_last() =~= seps);
            assert(woven(all, more) =~= s);
            assert forall|i: int, k: int| 0 <= i < all.len() && 0 <= k < all[i].len() implies !p(
                #[trigger] all[i][k],
            ) by {
                assert(all[i] == before[i]);
                assert(!p(before[i][k]));
            }
            more
        } else {
            assert(all.drop_last() =~= before.drop_last());
            assert(all.last() == before.last().push(s.last()));
            if all.len() == 1 {
                assert(woven(all, seps) =~= s);
            } else {
                assert(woven(all, seps) =~= s);
            }
            assert forall|i: int, k: int| 0 <= i < all.len() && 0 <= k < all[i].len() implies !p(
                #[trigger] all[i][k],
            ) by {
                if i < before.len() - 1 {
                    assert(all[i] == before[i]);
                    assert(!p(before[i][k]));
                } else if k < before.last().len() {
                    assert(all[i][k] == before[before.len() - 1][k]);
                    assert(!p(before[before.len() - 1][k]));
                } else {
                    assert(all[i][k] == s.last());
                }
            }
            seps
        }
    }
}

/// Joining is weaving with the same separator everywhere.
pub proof fn law_joined_is_woven(parts: Seq<Seq<char>>, c: char)
    ensures
        joined(parts, seq![c]) == woven(parts, Seq::new((parts.len() - 1) as nat, |i: int| c)),
    decreases parts.len(),
{
    if parts.len() > 1 {
        law_joined_is_woven(parts.drop_last(), c);
        let seps = Seq::new((parts.len() - 1) as nat, |i: int| c);
        assert(seps.drop_last() =~= Seq::new((parts.drop_last().len() - 1) as nat, |i: int| c));
    }
}

proof fn lemma_digit(c: char)
    ensures
        crate::text::ascii_digit(c) == (48 <= c as u32 && c as u32 <= 57),
{
}

/// What a run of decimal digits is worth, most significant digit first.
pub open spec fn worth(s: Seq<char>) -> int
    decreases s.len(),
{
    if s.len() == 0 {
        0
    } else {
        10 * worth(s.subrange(0, s.len() - 1)) + (s[s.len() - 1] as u32 - 48)
    }
}

pub open spec fn digits_only(s: Seq<char>) -> bool {
    forall|i: int| 0 <= i < s.len() ==> 48 <= (#[trigger] s[i]) as u32 && s[i] as u32 <= 57
}

pub proof fn lemma_worth(s: Seq<char>)
    requires
        digits_only(s),
    ensures
        worth(s) == digits_value(s),
    decreases s.len(),
{
    if s.len() > 0 {
        assert(s.drop_last() =~= s.subrange(0, s.len() - 1));
        assert(s[s.len() - 1] == s.last());
        assert forall|i: int| 0 <= i < s.drop_last().len() implies 48 <= (
        #[trigger] s.drop_last()[i]) as u32 && s.drop_last()[i] as u32 <= 57 by {
            assert(s.drop_last()[i] == s[i]);
        }
        lemma_worth(s.subrange(0, s.len() - 1));
    }
}

/// A written number is digits that are worth it, and begins with a zero only if
/// it is zero. A padded one is filled with zeros in front up to its width.
pub proof fn law_written_number_is_worth_itself(n: u64, width: usize, s: String, q: String)
    requires
        call_ensures(decimal_string, (n,), s),
        call_ensures(padded_string, (n, width), q),
    ensures
        s@.len() >= 1 && digits_only(s@) && worth(s@) == n,
        s@[0] == '0' ==> n == 0 && s@.len() == 1,
        q@.len() >= width && q@.len() >= s@.len(),
        s@.len() >= width ==> q@ == s@,
        s@.len() < width ==> q@.len() == width,
        q@.subrange(q@.len() - s@.len(), q@.len() as int) == s@,
        forall|i: int| 0 <= i < q@.len() - s@.len() ==> q@[i] == '0',
{
    lemma_decimal_digits(n as nat);
    assert(q@.subrange(q@.len() - s@.len(), q@.len() as int) =~= s@);
}

/// The decimal form of any number is digits that are worth it.
pub proof fn lemma_decimal_digits(n: nat)
    ensures
        decimal(n).len() >= 1 && digits_only(decimal(n)) && worth(decimal(n)) == n,
        decimal(n)[0] == '0' ==> n == 0 && decimal(n).len() == 1,
{
    lemma_decimal_value(n);
    lemma_decimal_no_leading_zero(n);
    let s = decimal(n);
    assert forall|i: int| 0 <= i < s.len() implies 48 <= (#[trigger] s[i]) as u32 && s[i] as u32
        <= 57 by {
        assert(crate::text::ascii_digit(s[i]));
    }
    lemma_worth(s);
}

/// A number is read from one or more digits behind an optional plus sign, and
/// from nothing else; it is what they are worth, unless that is too great.
pub proof fn law_read_number_is_the_worth_of_its_digits(s: &[char], max: u64, r: Option<u64>)
    requires
        call_ensures(parse_unsigned, (s, max), r),
    ensures
        ({
            let body = if s@.len() > 0 && s@[0] == '+' {
                s@.subrange(1, s@.len() as int)
            } else {
                s@
            };
            match r {
                Some(n) => body.len() > 0 && digits_only(body) && n == worth(body) && n <= max,
                None => body.len() == 0 || !digits_only(body) || worth(body) > max,
            }
        }),
{
    let body = if s@.len() > 0 && s@[0] == '+' {
        assert(s@.drop_first() =~= s@.subrange(1, s@.len() as int));
        s@.subrange(1, s@.len() as int)
    } else {
        s@
    };
    assert(crate::text::all_digits(body) == digits_only(body)) by {
        assert forall|i: int| 0 <= i < body.len() implies crate::text::ascii_digit(
            #[trigger] body[i],
        ) == (48 <= body[i] as u32 && body[i] as u32 <= 57) by {
            lemma_digit(body[i]);
        }
    }
    if digits_only(body) {
        lemma_worth(body);
    }
}

/// The position found is that of a first or last occurrence.
pub proof fn law_positions_are_first_and_last(v: &[char], c: char, first: usize, last: Option<usize>)
    requires
        call_ensures(index_of, (v, c), first),
        call_ensures(rindex_of, (v, c), last),
    ensures
        first <= v@.len(),
        forall|i: int| 0 <= i < first ==> v@[i] != c,
        first < v@.len() ==> v@[first as int] == c,
        last is None ==> forall|i: int| 0 <= i < v@.len() ==> v@[i] != c,
        last matches Some(n) ==> n < v@.len() && v@[n as int] == c && forall|i: int|
            n < i < v@.len() ==> v@[i] != c,
{
    lemma_first_index(v@, c);
    lemma_last_index(v@, c);
}

pub proof fn lemma_last_index(s: Seq<char>, c: char)
    ensures
        -1 <= last_index(s, c) < s.len(),
        last_index(s, c) >= 0 ==> s[last_index(s, c)] == c,
        forall|i: int| last_index(s, c) < i < s.len() ==> s[i] != c,
    decreases s.len(),
{
    if s.len() > 0 && s.last() != c {
        lemma_last_index(s.drop_last(), c);
        assert forall|i: int| last_index(s, c) < i < s.len() implies s[i] != c by {
            if i < s.len() - 1 {
                assert(s.drop_last()[i] == s[i]);
            }
        }
    }
}

/// A hexadecimal digit is the digit itself below ten, and a letter from `A` or
/// `a` on above.
pub proof fn law_hexadecimal_digits(d: u8, up: char, low: char)
    requires
        d < 16,
        call_ensures(hex_upper_char, (d,), up),
        call_ensures(hex_lower_char, (d,), low),
    ensures
        up as u32 == d + if d < 10 {
            48int
        } else {
            55
        },
        low as u32 == d + if d < 10 {
            48int
        } else {
            87
        },
{
}

/// Copying, comparing and joining texts go by their characters.
pub proof fn law_texts_go_by_characters(
    a: &str,
    b: &str,
    v: Vec<char>,
    w: &[char],
    s: String,
    same: bool,
    both: String,
)
    requires
        call_ensures(chars_of, (a,), v),
        call_ensures(string_of, (w,), s),
        call_ensures(str_eq, (a, b), same),
        call_ensures(concat, (a, b), both),
    ensures
        v@ == a@,
        s@ == w@,
        same == (a@ == b@),
        both@ == a@ + b@,
{
}

/// Lower case keeps the length and touches `A` to `Z` only.
pub proof fn law_lower_case_touches_capitals_only(v: &[char], r: Vec<char>)
    requires
        call_ensures(ascii_lowercase, (v,), r),
    ensures
        r@.len() == v@.len(),
        forall|i: int|
            0 <= i < v@.len() ==> (#[trigger] r@[i]) as u32 == v@[i] as u32 + if 65 <= v@[i] as u32
                && v@[i] as u32 <= 90 {
                32int
            } else {
                0
            },
{
}

/// The forms of these functions on lists of characters agree with those on
/// texts; cutting to a number of bytes leaves the longest beginning that fits.
pub proof fn law_character_lists(
    v: &[char],
    w: &[char],
    same: bool,
    copy: Vec<char>,
    trim: Vec<char>,
    s: &str,
    from: Vec<char>,
    text: String,
    head: bool,
    n: u64,
    digits: Vec<char>,
    written: String,
    bytes: usize,
    cut: String,
)
    requires
        call_ensures(chars_eq, (v, w), same),
        call_ensures(copy_chars, (v,), copy),
        call_ensures(trim_slice, (v,), trim),
        s@ == v@,
        call_ensures(trim_chars, (s,), from),
        call_ensures(trim_string, (s,), text),
        call_ensures(has_prefix, (v, w), head),
        call_ensures(decimal_chars, (n,), digits),
        call_ensures(decimal_string, (n,), written),
        call_ensures(cut_to_bytes, (v, bytes), cut),
    ensures
        same <==> v@ == w@,
        copy@ == v@,
        trim@ == text@ && from@ == text@,
        head <==> w@.len() <= v@.len() && forall|i: int| 0 <= i < w@.len() ==> v@[i] == #[trigger] w@[i],
        digits@ == written@,
        cut@.len() <= v@.len() && cut@ == v@.subrange(0, cut@.len() as int),
        vstd::utf8::encode_utf8(cut@).len() <= bytes,
        cut@.len() < v@.len() ==> vstd::utf8::encode_utf8(
            v@.subrange(0, cut@.len() as int + 1),
        ).len() > bytes,
{
    crate::text::law_cut_text_is_the_longest(v@, bytes as nat);
    if w@.len() <= v@.len() {
        let start = v@.subrange(0, w@.len() as int);
        if start == w@ {
            assert forall|i: int| 0 <= i < w@.len() implies v@[i] == #[trigger] w@[i] by {
                assert(start[i] == w@[i]);
            }
        } else if forall|i: int| 0 <= i < w@.len() ==> v@[i] == #[trigger] w@[i] {
            assert(start =~= w@);
        }
    }
}

} // verus!
