//! URL-safe base64 without padding, the form of device identities and share
//! tokens.

use base64::engine::general_purpose::URL_SAFE_NO_PAD;
use base64::Engine;
use vstd::prelude::*;

verus! {

/// The alphabet: letters, digits, `-` and `_`.
pub open spec fn base64_char(v: int) -> char {
    if v < 26 {
        (65 + v) as char
    } else if v < 52 {
        (71 + v) as char
    } else if v < 62 {
        (v - 4) as char
    } else if v == 62 {
        '-'
    } else {
        '_'
    }
}

/// The byte at `k`, or the zero bits that fill up the last group.
pub open spec fn byte_or_zero(b: Seq<u8>, k: int) -> int {
    if k < b.len() {
        b[k] as int
    } else {
        0
    }
}

/// The `i`-th group of six bits of a byte string: four groups for every three
/// bytes, from the most significant bit down.
pub open spec fn sextet(b: Seq<u8>, i: int) -> int {
    let k = 3 * (i / 4);
    if i % 4 == 0 {
        byte_or_zero(b, k) / 4
    } else if i % 4 == 1 {
        (byte_or_zero(b, k) % 4) * 16 + byte_or_zero(b, k + 1) / 16
    } else if i % 4 == 2 {
        (byte_or_zero(b, k + 1) % 16) * 4 + byte_or_zero(b, k + 2) / 64
    } else {
        byte_or_zero(b, k + 2) % 64
    }
}

/// The unpadded URL-safe base64 form of a byte string.
pub open spec fn base64url(b: Seq<u8>) -> Seq<char> {
    Seq::new(((4 * b.len() + 2) / 3) as nat, |i: int| base64_char(sextet(b, i)))
}

/// `base64::Engine::encode` with the `URL_SAFE_NO_PAD` engine: every three
/// bytes become four characters of the URL-safe alphabet, and a rest of one or
/// two bytes becomes two or three characters. The encoded form has to fit one
/// allocation.
#[verifier::external_body]
pub(crate) fn encode_base64url(bytes: &[u8]) -> (s: String)
    requires
        bytes@.len() <= 0x1000_0000,
    ensures
        s@ == base64url(bytes@),
{
    URL_SAFE_NO_PAD.encode(bytes)
}

/// The failure of a base64 decoding.
#[verifier::external_type_specification]
#[verifier::external_body]
pub struct ExDecodeError(base64::DecodeError);

/// `base64::Engine::decode` with the `URL_SAFE_NO_PAD` engine: it refuses
/// padding, foreign characters and stray trailing bits, so it accepts exactly
/// the texts that encoding produces, and gives back what was encoded.
#[verifier::external_body]
pub(crate) fn decode_base64url(s: &str) -> (r: Result<Vec<u8>, base64::DecodeError>)
    ensures
        match r {
            Ok(v) => base64url(v@) == s@,
            Err(_) => forall|b: Seq<u8>| #[trigger] base64url(b) != s@,
        },
{
    URL_SAFE_NO_PAD.decode(s)
}

/// A character of the URL-safe base64 alphabet.
pub open spec fn url_safe(c: char) -> bool {
    ('A' <= c && c <= 'Z') || ('a' <= c && c <= 'z') || ('0' <= c && c <= '9') || c == '-' || c
        == '_'
}

/// The encoded form only holds characters that are safe in a URL.
pub proof fn law_base64url_is_url_safe(b: Seq<u8>)
    ensures
        forall|i: int| 0 <= i < base64url(b).len() ==> url_safe(#[trigger] base64url(b)[i]),
{
    assert forall|i: int| 0 <= i < base64url(b).len() implies url_safe(
        #[trigger] base64url(b)[i],
    ) by {
        lemma_sextet_range(b, i);
    }
}

proof fn lemma_base64_char_injective(v: int, w: int)
    requires
        0 <= v < 64,
        0 <= w < 64,
        base64_char(v) == base64_char(w),
    ensures
        v == w,
{
}

/// A byte from the two groups of bits that it spans.
proof fn lemma_byte_from_sextets(b: Seq<u8>, j: int, r: int)
    requires
        0 <= j,
        0 <= r < 3,
        3 * j + r < b.len(),
    ensures
        r == 0 ==> b[3 * j] == sextet(b, 4 * j) * 4 + sextet(b, 4 * j + 1) / 16,
        r == 1 ==> b[3 * j + 1] == (sextet(b, 4 * j + 1) % 16) * 16 + sextet(b, 4 * j + 2) / 4,
        r == 2 ==> b[3 * j + 2] == (sextet(b, 4 * j + 2) % 4) * 64 + sextet(b, 4 * j + 3),
{
    assert((4 * j) / 4 == j && (4 * j) % 4 == 0);
    assert((4 * j + 1) / 4 == j && (4 * j + 1) % 4 == 1);
    assert((4 * j + 2) / 4 == j && (4 * j + 2) % 4 == 2);
    assert((4 * j + 3) / 4 == j && (4 * j + 3) % 4 == 3);
}

/// Different byte strings have different encoded forms, so decoding what was
/// encoded gives back the same bytes.
pub proof fn law_base64url_injective(a: Seq<u8>, b: Seq<u8>)
    requires
        base64url(a) == base64url(b),
    ensures
        a == b,
{
    assert(base64url(a).len() == (4 * a.len() + 2) / 3);
    assert(base64url(b).len() == (4 * b.len() + 2) / 3);
    let n = a.len() as int;
    assert(n == b.len());
    assert forall|k: int| 0 <= k < n implies a[k] == b[k] by {
        let j = k / 3;
        let r = k % 3;
        lemma_byte_from_sextets(a, j, r);
        lemma_byte_from_sextets(b, j, r);
        let i = 4 * j + r;
        assert(k == 3 * j + r);
        assert(i + 1 < (4 * n + 2) / 3);
        lemma_sextet_range(a, i);
        lemma_sextet_range(b, i);
        lemma_sextet_range(a, i + 1);
        lemma_sextet_range(b, i + 1);
        assert(base64url(a)[i] == base64_char(sextet(a, i)));
        assert(base64url(b)[i] == base64_char(sextet(b, i)));
        assert(base64url(a)[i + 1] == base64_char(sextet(a, i + 1)));
        assert(base64url(b)[i + 1] == base64_char(sextet(b, i + 1)));
        lemma_base64_char_injective(sextet(a, i), sextet(b, i));
        lemma_base64_char_injective(sextet(a, i + 1), sextet(b, i + 1));
    }
    assert(a =~= b);
}

proof fn lemma_sextet_range(b: Seq<u8>, i: int)
    requires
        0 <= i,
    ensures
        0 <= sextet(b, i) < 64,
{
}

} // verus!
