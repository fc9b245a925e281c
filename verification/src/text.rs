//! Text primitives: strings as sequences of characters, trimming, splitting,
//! ASCII case folding, and the decimal and hexadecimal forms of numbers.

use vstd::prelude::*;
use vstd::utf8::{decode_utf8, encode_utf8, valid_utf8};

verus! {

/// `String::push` appends one character at the end.
pub assume_specification[ String::push ](s: &mut String, c: char)
    ensures
        final(s)@ == old(s)@.push(c),
;

/// The characters of a string, in order.
pub fn chars_of(s: &str) -> (v: Vec<char>)
    ensures
        v@ == s@,
{
    let mut v: Vec<char> = Vec::new();
    for c in it: s.chars()
        invariant
            v@ == it.seq().subrange(0, it.index() as int),
            it.seq() == s@,
    {
        v.push(c);
    }
    v
}

/// The string made of the given characters.
pub fn string_of(v: &[char]) -> (s: String)
    ensures
        s@ == v@,
{
    let mut s = String::new();
    for i in 0..v.len()
        invariant
            s@ == v@.subrange(0, i as int),
    {
        s.push(v[i]);
    }
    s
}

/// Whether two strings hold the same characters.
pub fn str_eq(a: &str, b: &str) -> (r: bool)
    ensures
        r == (a@ == b@),
{
    let x = chars_of(a);
    let y = chars_of(b);
    chars_eq(x.as_slice(), y.as_slice())
}

/// Whether two character slices are equal.
pub fn chars_eq(x: &[char], y: &[char]) -> (r: bool)
    ensures
        r == (x@ == y@),
{
    if x.len() != y.len() {
        return false;
    }
    for i in 0..x.len()
        invariant
            x@.len() == y@.len(),
            forall|k: int| 0 <= k < i ==> x@[k] == y@[k],
    {
        if x[i] != y[i] {
            return false;
        }
    }
    proof {
        assert(x@ =~= y@);
    }
    true
}

/// The first `n` characters, or all of them.
pub open spec fn take_chars(s: Seq<char>, n: nat) -> Seq<char> {
    if s.len() <= n {
        s
    } else {
        s.subrange(0, n as int)
    }
}

/// The longest beginning of a text that takes at most `n` bytes in UTF-8.
pub open spec fn take_bytes(s: Seq<char>, n: nat) -> Seq<char>
    decreases s.len(),
{
    if s.len() == 0 || encode_utf8(s).len() <= n {
        s
    } else {
        take_bytes(s.drop_last(), n)
    }
}

/// Every character takes at least one byte.
proof fn lemma_bytes_at_least(s: Seq<char>)
    ensures
        encode_utf8(s).len() >= s.len(),
    decreases s.len(),
{
    if s.len() > 0 {
        lemma_bytes_at_least(s.drop_first());
    }
}

/// A text cut to `n` bytes is a beginning of it that has at most `n` bytes,
/// and every longer beginning has more.
pub proof fn law_cut_text_is_the_longest(s: Seq<char>, n: nat)
    ensures
        take_bytes(s, n).len() <= s.len(),
        take_bytes(s, n) == s.subrange(0, take_bytes(s, n).len() as int),
        encode_utf8(take_bytes(s, n)).len() <= n,
        forall|k: int|
            take_bytes(s, n).len() < k <= s.len() ==> encode_utf8(#[trigger] s.subrange(0, k)).len()
                > n,
    decreases s.len(),
{
    assert(s.subrange(0, s.len() as int) =~= s);
    if s.len() > 0 && encode_utf8(s).len() > n {
        let rest = s.drop_last();
        law_cut_text_is_the_longest(rest, n);
        let t = take_bytes(s, n);
        assert(rest.subrange(0, t.len() as int) =~= s.subrange(0, t.len() as int));
        assert forall|k: int| t.len() < k <= s.len() implies encode_utf8(
            #[trigger] s.subrange(0, k),
        ).len() > n by {
            if k < s.len() {
                assert(rest.subrange(0, k) =~= s.subrange(0, k));
            }
        }
    }
}

/// Cutting to `n` characters first changes nothing: more do not fit.
proof fn lemma_take_bytes_of_chars(s: Seq<char>, n: nat)
    ensures
        take_bytes(s, n) == take_bytes(take_chars(s, n), n),
    decreases s.len(),
{
    if s.len() > n {
        lemma_bytes_at_least(s);
        lemma_take_bytes_of_chars(s.drop_last(), n);
        assert(take_chars(s.drop_last(), n) =~= take_chars(s, n));
    }
}

/// The longest beginning of a text that takes at most `n` bytes.
pub fn cut_to_bytes(v: &[char], n: usize) -> (r: String)
    ensures
        r@ == take_bytes(v@, n as nat),
{
    let mut k: usize = if v.len() < n {
        v.len()
    } else {
        n
    };
    proof {
        lemma_take_bytes_of_chars(v@, n as nat);
        assert(v@.subrange(0, k as int) =~= take_chars(v@, n as nat));
    }
    while k > 0
        invariant
            k <= v@.len(),
            take_bytes(v@, n as nat) == take_bytes(v@.subrange(0, k as int), n as nat),
        decreases k,
    {
        let s = string_of(vstd::slice::slice_subrange(v, 0, k));
        if s.as_str().as_bytes().len() <= n {
            return s;
        }
        proof {
            assert(v@.subrange(0, k as int).drop_last() =~= v@.subrange(0, k - 1));
        }
        k = k - 1;
    }
    let r = String::new();
    proof {
        assert(r@ =~= v@.subrange(0, 0));
    }
    r
}

// ── letter case ───────────────────────────────────────────────────────────

/// The lower case form of a text under the Unicode rules.
pub uninterp spec fn lowercase_of(s: Seq<char>) -> Seq<char>;

/// `str::to_lowercase`: the lower case equivalent of a text, which depends on
/// the text alone.
#[verifier::external_body]
pub(crate) fn to_lowercase(s: &str) -> (r: String)
    ensures
        r@ == lowercase_of(s@),
{
    s.to_lowercase()
}

/// The upper case form of a text under the Unicode rules.
pub uninterp spec fn uppercase_of(s: Seq<char>) -> Seq<char>;

/// `str::to_uppercase`: the upper case equivalent of a text, which depends on
/// the text alone.
#[verifier::external_body]
pub(crate) fn to_uppercase(s: &str) -> (r: String)
    ensures
        r@ == uppercase_of(s@),
{
    s.to_uppercase()
}

/// The text of bytes that are no valid UTF-8, with a replacement character for
/// every invalid sequence.
pub uninterp spec fn replaced_text(bytes: Seq<u8>) -> Seq<char>;

/// The text of a byte string.
pub open spec fn utf8_lossy(bytes: Seq<u8>) -> Seq<char> {
    if valid_utf8(bytes) {
        decode_utf8(bytes)
    } else {
        replaced_text(bytes)
    }
}

/// `String::from_utf8_lossy`: bytes that are valid UTF-8 become their text;
/// in others the invalid sequences are replaced.
#[verifier::external_body]
pub(crate) fn lossy_text(bytes: &[u8]) -> (s: String)
    ensures
        valid_utf8(bytes@) ==> s@ == decode_utf8(bytes@),
        !valid_utf8(bytes@) ==> s@ == replaced_text(bytes@),
{
    String::from_utf8_lossy(bytes).into_owned()
}

// ── character classes ─────────────────────────────────────────────────────

/// The Unicode `White_Space` property.
pub open spec fn white_space(c: char) -> bool {
    let u = c as u32;
    ||| 0x09 <= u <= 0x0D
    ||| u == 0x20
    ||| u == 0x85
    ||| u == 0xA0
    ||| u == 0x1680
    ||| 0x2000 <= u <= 0x200A
    ||| u == 0x2028
    ||| u == 0x2029
    ||| u == 0x202F
    ||| u == 0x205F
    ||| u == 0x3000
}

pub fn is_white_space(c: char) -> (r: bool)
    ensures
        r == white_space(c),
{
    let u: u32 = c as u32;
    (0x09 <= u && u <= 0x0D) || u == 0x20 || u == 0x85 || u == 0xA0 || u == 0x1680 || (0x2000 <= u
        && u <= 0x200A) || u == 0x2028 || u == 0x2029 || u == 0x202F || u == 0x205F || u == 0x3000
}

/// The Unicode general category `Cc`: the C0 and C1 control codes.
pub open spec fn control(c: char) -> bool {
    c as u32 <= 0x1F || 0x7F <= c as u32 <= 0x9F
}

pub fn is_control(c: char) -> (r: bool)
    ensures
        r == control(c),
{
    let u: u32 = c as u32;
    u <= 0x1F || (0x7F <= u && u <= 0x9F)
}

pub open spec fn ascii_alphabetic(c: char) -> bool {
    ('a' <= c && c <= 'z') || ('A' <= c && c <= 'Z')
}

pub fn is_ascii_alphabetic(c: char) -> (r: bool)
    ensures
        r == ascii_alphabetic(c),
{
    ('a' <= c && c <= 'z') || ('A' <= c && c <= 'Z')
}

pub open spec fn ascii_digit(c: char) -> bool {
    '0' <= c && c <= '9'
}

pub fn is_ascii_digit(c: char) -> (r: bool)
    ensures
        r == ascii_digit(c),
{
    '0' <= c && c <= '9'
}

/// ASCII upper case letters folded to lower case; every other character is
/// itself.
pub open spec fn ascii_lower(c: char) -> char {
    if 'A' <= c && c <= 'Z' {
        (c as u32 + 32) as char
    } else {
        c
    }
}

pub fn to_ascii_lower(c: char) -> (r: char)
    ensures
        r == ascii_lower(c),
{
    if 'A' <= c && c <= 'Z' {
        let b: u8 = c as u8;
        (b + 32) as char
    } else {
        c
    }
}

/// A text with its ASCII letters in lower case.
pub open spec fn ascii_lowered(s: Seq<char>) -> Seq<char> {
    s.map_values(|c: char| ascii_lower(c))
}

pub fn ascii_lowercase(v: &[char]) -> (r: Vec<char>)
    ensures
        r@ == ascii_lowered(v@),
{
    let mut r: Vec<char> = Vec::new();
    for i in 0..v.len()
        invariant
            r@ == ascii_lowered(v@.subrange(0, i as int)),
    {
        r.push(to_ascii_lower(v[i]));
        proof {
            assert(v@.subrange(0, i + 1).drop_last() =~= v@.subrange(0, i as int));
            assert(r@ =~= ascii_lowered(v@.subrange(0, i + 1)));
        }
    }
    proof {
        assert(v@.subrange(0, v@.len() as int) =~= v@);
    }
    r
}

// ── trimming ──────────────────────────────────────────────────────────────

/// `s` without its longest prefix of characters in `p`.
pub open spec fn trim_start_by(s: Seq<char>, p: spec_fn(char) -> bool) -> Seq<char>
    decreases s.len(),
{
    if s.len() > 0 && p(s[0]) {
        trim_start_by(s.drop_first(), p)
    } else {
        s
    }
}

/// `s` without its longest suffix of characters in `p`.
pub open spec fn trim_end_by(s: Seq<char>, p: spec_fn(char) -> bool) -> Seq<char>
    decreases s.len(),
{
    if s.len() > 0 && p(s.last()) {
        trim_end_by(s.drop_last(), p)
    } else {
        s
    }
}

/// `s` without white space at either end.
pub open spec fn trimmed(s: Seq<char>) -> Seq<char> {
    let p = |c: char| white_space(c);
    trim_end_by(trim_start_by(s, p), p)
}

/// How many characters remain once the trailing ones in `p` are gone.
pub fn trim_end_len<F: Fn(char) -> bool>(
    v: &[char],
    f: F,
    Ghost(p): Ghost<spec_fn(char) -> bool>,
) -> (n: usize)
    requires
        forall|c: char| f.requires((c,)),
        forall|c: char, r: bool| f.ensures((c,), r) ==> r == p(c),
    ensures
        n <= v@.len(),
        v@.subrange(0, n as int) == trim_end_by(v@, p),
{
    let mut n: usize = v.len();
    proof {
        assert(v@.subrange(0, n as int) =~= v@);
    }
    while n > 0
        invariant
            n <= v@.len(),
            forall|c: char| f.requires((c,)),
            forall|c: char, r: bool| f.ensures((c,), r) ==> r == p(c),
            trim_end_by(v@.subrange(0, n as int), p) == trim_end_by(v@, p),
        decreases n,
    {
        proof {
            assert(v@.subrange(0, n as int).drop_last() =~= v@.subrange(0, n - 1));
            assert(v@.subrange(0, n as int).last() == v@[n - 1]);
        }
        if !f(v[n - 1]) {
            return n;
        }
        n = n - 1;
    }
    n
}

/// How many leading characters are in `p`.
pub fn trim_start_len<F: Fn(char) -> bool>(
    v: &[char],
    f: F,
    Ghost(p): Ghost<spec_fn(char) -> bool>,
) -> (n: usize)
    requires
        forall|c: char| f.requires((c,)),
        forall|c: char, r: bool| f.ensures((c,), r) ==> r == p(c),
    ensures
        n <= v@.len(),
        v@.subrange(n as int, v@.len() as int) == trim_start_by(v@, p),
{
    let mut n: usize = 0;
    proof {
        assert(v@.subrange(0, v@.len() as int) =~= v@);
    }
    while n < v.len()
        invariant
            n <= v@.len(),
            forall|c: char| f.requires((c,)),
            forall|c: char, r: bool| f.ensures((c,), r) ==> r == p(c),
            trim_start_by(v@.subrange(n as int, v@.len() as int), p) == trim_start_by(v@, p),
        decreases v@.len() - n,
    {
        proof {
            assert(v@.subrange(n as int, v@.len() as int).drop_first() =~= v@.subrange(
                n + 1,
                v@.len() as int,
            ));
            assert(v@.subrange(n as int, v@.len() as int)[0] == v@[n as int]);
        }
        if !f(v[n]) {
            return n;
        }
        n = n + 1;
    }
    n
}

/// The characters without white space at either end.
pub fn trim_slice(v: &[char]) -> (r: Vec<char>)
    ensures
        r@ == trimmed(v@),
{
    let ghost p = |c: char| white_space(c);
    let a: usize = trim_start_len(v, is_white_space, Ghost(p));
    let rest = vstd::slice::slice_subrange(v, a, v.len());
    let n: usize = trim_end_len(rest, is_white_space, Ghost(p));
    copy_chars(vstd::slice::slice_subrange(rest, 0, n))
}

/// The characters of `s` without white space at either end.
pub fn trim_chars(s: &str) -> (r: Vec<char>)
    ensures
        r@ == trimmed(s@),
{
    let v = chars_of(s);
    trim_slice(v.as_slice())
}

/// `str::trim`, as an owned string.
pub fn trim_string(s: &str) -> (r: String)
    ensures
        r@ == trimmed(s@),
{
    let v = trim_chars(s);
    string_of(v.as_slice())
}

pub fn copy_chars(v: &[char]) -> (r: Vec<char>)
    ensures
        r@ == v@,
{
    let mut r: Vec<char> = Vec::new();
    for i in 0..v.len()
        invariant
            r@ == v@.subrange(0, i as int),
    {
        r.push(v[i]);
    }
    proof {
        assert(v@.subrange(0, v@.len() as int) =~= v@);
    }
    r
}

// ── splitting and joining ─────────────────────────────────────────────────

/// The pieces of `s` between the characters in `p`; there is always at least
/// one piece, and pieces may be empty.
pub open spec fn split_by(s: Seq<char>, p: spec_fn(char) -> bool) -> Seq<Seq<char>>
    decreases s.len(),
{
    if s.len() == 0 {
        seq![Seq::<char>::empty()]
    } else {
        let before = split_by(s.drop_last(), p);
        if p(s.last()) {
            before.push(Seq::empty())
        } else {
            before.update(before.len() - 1, before.last().push(s.last()))
        }
    }
}

pub proof fn lemma_split_nonempty(s: Seq<char>, p: spec_fn(char) -> bool)
    ensures
        split_by(s, p).len() >= 1,
    decreases s.len(),
{
    if s.len() > 0 {
        lemma_split_nonempty(s.drop_last(), p);
    }
}

/// A text without separators is its only piece.
pub proof fn lemma_split_none(s: Seq<char>, p: spec_fn(char) -> bool)
    requires
        forall|i: int| 0 <= i < s.len() ==> !p(#[trigger] s[i]),
    ensures
        split_by(s, p) == seq![s],
    decreases s.len(),
{
    if s.len() == 0 {
        assert(s =~= Seq::<char>::empty());
    } else {
        let head = s.drop_last();
        assert forall|i: int| 0 <= i < head.len() implies !p(#[trigger] head[i]) by {
            assert(head[i] == s[i]);
        }
        lemma_split_none(head, p);
        assert(!p(s[s.len() - 1]));
        assert(head.push(s.last()) =~= s);
        assert(split_by(s, p) =~= seq![s]);
    }
}

/// Splitting around a separator splits both sides.
pub proof fn lemma_split_concat(a: Seq<char>, c: char, b: Seq<char>, p: spec_fn(char) -> bool)
    requires
        p(c),
    ensures
        split_by(a + seq![c] + b, p) == split_by(a, p) + split_by(b, p),
    decreases b.len(),
{
    let whole = a + seq![c] + b;
    if b.len() == 0 {
        assert(whole.drop_last() =~= a);
        assert(whole.last() == c);
        assert(split_by(whole, p) =~= split_by(a, p) + split_by(b, p));
    } else {
        lemma_split_concat(a, c, b.drop_last(), p);
        lemma_split_nonempty(b.drop_last(), p);
        assert(whole.drop_last() =~= a + seq![c] + b.drop_last());
        assert(whole.last() == b.last());
        assert(split_by(whole, p) =~= split_by(a, p) + split_by(b, p));
    }
}

pub open spec fn views(v: Seq<Vec<char>>) -> Seq<Seq<char>> {
    v.map_values(|x: Vec<char>| x@)
}

pub fn split_chars<F: Fn(char) -> bool>(
    v: &[char],
    f: F,
    Ghost(p): Ghost<spec_fn(char) -> bool>,
) -> (r: Vec<Vec<char>>)
    requires
        forall|c: char| f.requires((c,)),
        forall|c: char, b: bool| f.ensures((c,), b) ==> b == p(c),
    ensures
        views(r@) == split_by(v@, p),
        r@.len() >= 1,
{
    let mut done: Vec<Vec<char>> = Vec::new();
    let mut piece: Vec<char> = Vec::new();
    let n: usize = v.len();
    proof {
        assert(views(done@).push(piece@) =~= split_by(v@.subrange(0, 0), p));
    }
    for i in 0..n
        invariant
            n == v@.len(),
            forall|c: char| f.requires((c,)),
            forall|c: char, b: bool| f.ensures((c,), b) ==> b == p(c),
            views(done@).push(piece@) == split_by(v@.subrange(0, i as int), p),
    {
        let ghost before = views(done@).push(piece@);
        let ghost old_piece = piece@;
        let ghost old_done = done@;
        proof {
            assert(v@.subrange(0, i + 1).drop_last() =~= v@.subrange(0, i as int));
            assert(v@.subrange(0, i + 1).last() == v@[i as int]);
            assert(before.last() == old_piece);
        }
        if f(v[i]) {
            done.push(piece);
            piece = Vec::new();
            proof {
                assert(views(done@) =~= before);
                assert(views(done@).push(piece@) =~= before.push(Seq::empty()));
            }
        } else {
            piece.push(v[i]);
            proof {
                assert(views(done@).push(piece@) =~= before.update(
                    before.len() - 1,
                    old_piece.push(v@[i as int]),
                ));
            }
        }
    }
    let ghost whole = views(done@).push(piece@);
    done.push(piece);
    proof {
        assert(v@.subrange(0, n as int) =~= v@);
        assert(views(done@) =~= whole);
    }
    done
}

/// The pieces joined with `sep` between neighbours.
pub open spec fn joined(parts: Seq<Seq<char>>, sep: Seq<char>) -> Seq<char>
    decreases parts.len(),
{
    if parts.len() == 0 {
        Seq::empty()
    } else if parts.len() == 1 {
        parts[0]
    } else {
        joined(parts.drop_last(), sep) + sep + parts.last()
    }
}

/// `a` followed by `b`.
pub fn concat(a: &str, b: &str) -> (r: String)
    ensures
        r@ == a@ + b@,
{
    let mut r = a.to_owned();
    r.append(b);
    r
}

/// Whether `s` begins with `prefix`.
pub open spec fn starts_with(s: Seq<char>, prefix: Seq<char>) -> bool {
    prefix.len() <= s.len() && s.subrange(0, prefix.len() as int) == prefix
}

pub fn has_prefix(s: &[char], prefix: &[char]) -> (r: bool)
    ensures
        r == starts_with(s@, prefix@),
{
    if prefix.len() > s.len() {
        return false;
    }
    chars_eq(vstd::slice::slice_subrange(s, 0, prefix.len()), prefix)
}

/// The position of the first `c` in `s`, or the length of `s`.
pub open spec fn first_index(s: Seq<char>, c: char) -> int
    decreases s.len(),
{
    if s.len() == 0 {
        0
    } else if s[0] == c {
        0
    } else {
        1 + first_index(s.drop_first(), c)
    }
}

pub proof fn lemma_first_index(s: Seq<char>, c: char)
    ensures
        0 <= first_index(s, c) <= s.len(),
        forall|i: int| 0 <= i < first_index(s, c) ==> s[i] != c,
        first_index(s, c) < s.len() ==> s[first_index(s, c)] == c,
    decreases s.len(),
{
    if s.len() > 0 && s[0] != c {
        lemma_first_index(s.drop_first(), c);
        assert forall|i: int| 0 <= i < first_index(s, c) implies s[i] != c by {
            if i > 0 {
                assert(s.drop_first()[i - 1] == s[i]);
            }
        }
    }
}

/// The only position that can be the first index.
pub proof fn lemma_first_index_unique(s: Seq<char>, c: char, n: int)
    requires
        0 <= n <= s.len(),
        forall|i: int| 0 <= i < n ==> s[i] != c,
        n < s.len() ==> s[n] == c,
    ensures
        first_index(s, c) == n,
{
    lemma_first_index(s, c);
    let f = first_index(s, c);
    if f < n {
        assert(s[f] != c);
    } else if n < f {
        assert(s[n] != c);
    }
}

pub fn index_of(v: &[char], c: char) -> (n: usize)
    ensures
        n == first_index(v@, c),
        n <= v@.len(),
{
    for i in 0..v.len()
        invariant
            forall|k: int| 0 <= k < i ==> v@[k] != c,
    {
        if v[i] == c {
            proof {
                lemma_first_index_unique(v@, c, i as int);
            }
            return i;
        }
    }
    proof {
        lemma_first_index_unique(v@, c, v@.len() as int);
    }
    v.len()
}

/// The position of the last `c` in `s`, or -1.
pub open spec fn last_index(s: Seq<char>, c: char) -> int
    decreases s.len(),
{
    if s.len() == 0 {
        -1
    } else if s.last() == c {
        s.len() - 1
    } else {
        last_index(s.drop_last(), c)
    }
}

pub fn rindex_of(v: &[char], c: char) -> (r: Option<usize>)
    ensures
        match r {
            Some(n) => n == last_index(v@, c) && n < v@.len(),
            None => last_index(v@, c) == -1,
        },
{
    let mut n: usize = v.len();
    proof {
        assert(v@.subrange(0, n as int) =~= v@);
    }
    while n > 0
        invariant
            n <= v@.len(),
            last_index(v@, c) == last_index(v@.subrange(0, n as int), c),
        decreases n,
    {
        proof {
            assert(v@.subrange(0, n as int).drop_last() =~= v@.subrange(0, n - 1));
            assert(v@.subrange(0, n as int).last() == v@[n - 1]);
        }
        if v[n - 1] == c {
            return Some(n - 1);
        }
        n = n - 1;
    }
    None
}

// ── decimal numbers ───────────────────────────────────────────────────────

pub open spec fn digit(d: nat) -> char {
    (48 + d) as char
}

fn digit_char(d: u64) -> (c: char)
    requires
        d < 10,
    ensures
        c == digit(d as nat),
{
    (48u8 + d as u8) as char
}

/// The decimal form of a number, without leading zeros.
pub open spec fn decimal(n: nat) -> Seq<char>
    decreases n,
{
    if n < 10 {
        seq![digit(n)]
    } else {
        decimal(n / 10).push(digit(n % 10))
    }
}

pub fn decimal_chars(n: u64) -> (v: Vec<char>)
    ensures
        v@ == decimal(n as nat),
    decreases n,
{
    if n < 10 {
        let v: Vec<char> = vec![digit_char(n)];
        proof {
            assert(v@ =~= seq![digit(n as nat)]);
        }
        v
    } else {
        let mut v = decimal_chars(n / 10);
        v.push(digit_char(n % 10));
        v
    }
}

pub fn decimal_string(n: u64) -> (s: String)
    ensures
        s@ == decimal(n as nat),
{
    let v = decimal_chars(n);
    string_of(v.as_slice())
}

/// The decimal form with leading zeros up to `width` characters.
pub open spec fn padded(n: nat, width: nat) -> Seq<char> {
    let d = decimal(n);
    if d.len() >= width {
        d
    } else {
        Seq::new((width - d.len()) as nat, |i: int| '0') + d
    }
}

pub fn padded_string(n: u64, width: usize) -> (s: String)
    ensures
        s@ == padded(n as nat, width as nat),
{
    let v = decimal_chars(n);
    let mut s = String::new();
    if v.len() < width {
        let zeros: usize = width - v.len();
        for i in 0..zeros
            invariant
                s@ == Seq::new(i as nat, |k: int| '0'),
        {
            s.push('0');
            proof {
                assert(s@ =~= Seq::new((i + 1) as nat, |k: int| '0'));
            }
        }
    } else {
        proof {
            assert(s@ + v@ =~= v@);
        }
    }
    let d = string_of(v.as_slice());
    s.append(d.as_str());
    s
}

/// The number a run of decimal digits denotes.
pub open spec fn digits_value(s: Seq<char>) -> nat
    decreases s.len(),
{
    if s.len() == 0 {
        0
    } else {
        digits_value(s.drop_last()) * 10 + (s.last() as u32 - 48) as nat
    }
}

pub open spec fn all_digits(s: Seq<char>) -> bool {
    forall|i: int| 0 <= i < s.len() ==> ascii_digit(#[trigger] s[i])
}

/// An unsigned number no greater than `max`: decimal digits after an optional
/// plus sign.
pub open spec fn parsed_unsigned(s: Seq<char>, max: nat) -> Option<nat> {
    let body = if s.len() > 0 && s[0] == '+' {
        s.drop_first()
    } else {
        s
    };
    if body.len() == 0 || !all_digits(body) || digits_value(body) > max {
        None
    } else {
        Some(digits_value(body))
    }
}

pub fn parse_unsigned(s: &[char], max: u64) -> (r: Option<u64>)
    ensures
        match r {
            Some(n) => parsed_unsigned(s@, max as nat) == Some(n as nat),
            None => parsed_unsigned(s@, max as nat) is None,
        },
{
    let start: usize = if s.len() > 0 && s[0] == '+' { 1 } else { 0 };
    let body = vstd::slice::slice_subrange(s, start, s.len());
    proof {
        if start == 1 {
            assert(body@ =~= s@.drop_first());
        } else {
            assert(body@ =~= s@);
        }
    }
    if body.len() == 0 {
        return None;
    }
    let mut acc: u128 = 0;
    let mut over: bool = false;
    for i in 0..body.len()
        invariant
            body@ == (if s@.len() > 0 && s@[0] == '+' {
                s@.drop_first()
            } else {
                s@
            }),
            forall|k: int| 0 <= k < i ==> ascii_digit(#[trigger] body@[k]),
            over ==> digits_value(body@.subrange(0, i as int)) > max,
            !over ==> acc == digits_value(body@.subrange(0, i as int)) && acc <= max,
    {
        proof {
            assert(body@.subrange(0, i + 1).drop_last() =~= body@.subrange(0, i as int));
            assert(body@.subrange(0, i + 1).last() == body@[i as int]);
        }
        if !is_ascii_digit(body[i]) {
            proof {
                assert(!ascii_digit(body@[i as int]));
            }
            return None;
        }
        if !over {
            let d: u32 = body[i] as u32 - 48;
            acc = acc * 10 + d as u128;
            if acc > max as u128 {
                over = true;
            }
        }
    }
    proof {
        assert(body@.subrange(0, body@.len() as int) =~= body@);
        assert(all_digits(body@));
    }
    if over {
        None
    } else {
        Some(acc as u64)
    }
}

/// The decimal form is made of digits and denotes its number.
pub proof fn lemma_decimal_value(n: nat)
    ensures
        decimal(n).len() > 0,
        all_digits(decimal(n)),
        digits_value(decimal(n)) == n,
    decreases n,
{
    if n < 10 {
        let s = seq![digit(n)];
        assert(s.drop_last() =~= Seq::<char>::empty());
        assert(digits_value(Seq::<char>::empty()) == 0);
        assert(s.last() as u32 == 48 + n);
    } else {
        lemma_decimal_value(n / 10);
        let head = decimal(n / 10);
        let s = decimal(n);
        assert(s.drop_last() =~= head);
        assert(s.last() as u32 == 48 + n % 10);
        assert forall|i: int| 0 <= i < s.len() implies ascii_digit(#[trigger] s[i]) by {
            if i < head.len() {
                assert(s[i] == head[i]);
            }
        }
    }
}

/// A decimal form is no longer than its bound.
pub proof fn lemma_decimal_len(n: nat, k: nat)
    requires
        k >= 1,
        n < vstd::arithmetic::power::pow(10, k),
    ensures
        decimal(n).len() <= k,
    decreases k,
{
    if n >= 10 {
        vstd::arithmetic::power::lemma_pow1(10);
        assert(k > 1);
        vstd::arithmetic::power::lemma_pow_adds(10, 1, (k - 1) as nat);
        assert(vstd::arithmetic::power::pow(10, k) == 10 * vstd::arithmetic::power::pow(
            10,
            (k - 1) as nat,
        ));
        lemma_decimal_len(n / 10, (k - 1) as nat);
    }
}

/// Only zero begins with a zero.
pub proof fn lemma_decimal_no_leading_zero(n: nat)
    ensures
        decimal(n).len() > 0,
        decimal(n)[0] == '0' ==> n == 0,
    decreases n,
{
    if n >= 10 {
        lemma_decimal_no_leading_zero(n / 10);
        assert(decimal(n)[0] == decimal(n / 10)[0]);
    }
}

/// Parsing gives back every number in range from its decimal form.
pub proof fn law_decimal_parses_back(n: nat, max: nat)
    requires
        n <= max,
    ensures
        parsed_unsigned(decimal(n), max) == Some(n),
{
    lemma_decimal_value(n);
    assert(ascii_digit(decimal(n)[0]));
}

// ── hexadecimal ───────────────────────────────────────────────────────────

/// The upper case hexadecimal digit of a value below sixteen.
pub open spec fn hex_upper(d: u8) -> char {
    if d < 10 {
        (48 + d) as char
    } else {
        (55 + d) as char
    }
}

pub fn hex_upper_char(d: u8) -> (c: char)
    requires
        d < 16,
    ensures
        c == hex_upper(d),
{
    if d < 10 {
        (48 + d) as char
    } else {
        (55 + d) as char
    }
}

/// The lower case hexadecimal digit of a value below sixteen.
pub open spec fn hex_lower(d: u8) -> char {
    if d < 10 {
        (48 + d) as char
    } else {
        (87 + d) as char
    }
}

pub fn hex_lower_char(d: u8) -> (c: char)
    requires
        d < 16,
    ensures
        c == hex_lower(d),
{
    if d < 10 {
        (48 + d) as char
    } else {
        (87 + d) as char
    }
}

} // verus!
