//! Percent-encoding of query values.

use vstd::prelude::*;
use vstd::utf8::encode_utf8;

use crate::pages::{percent_triplet, push_percent};
use crate::text::{hex_upper, lossy_text, utf8_lossy};

verus! {

/// The bytes that stand for themselves in a query value: ASCII letters and
/// digits, and `- _ . ~`.
pub open spec fn unreserved(b: u8) -> bool {
    ||| 48 <= b <= 57
    ||| 65 <= b <= 90
    ||| 97 <= b <= 122
    ||| b == 45
    ||| b == 95
    ||| b == 46
    ||| b == 126
}

fn is_unreserved(b: u8) -> (r: bool)
    ensures
        r == unreserved(b),
{
    (48 <= b && b <= 57) || (65 <= b && b <= 90) || (97 <= b && b <= 122) || b == 45 || b == 95 || b
        == 46 || b == 126
}

/// The form of one byte.
pub open spec fn encoded_byte(b: u8) -> Seq<char> {
    if unreserved(b) {
        seq![b as char]
    } else {
        percent_triplet(b)
    }
}

/// The form of a byte string.
pub open spec fn encoded(bytes: Seq<u8>) -> Seq<char>
    decreases bytes.len(),
{
    if bytes.len() == 0 {
        Seq::empty()
    } else {
        encoded_byte(bytes[0]) + encoded(bytes.drop_first())
    }
}

/// Percent-encodes the UTF-8 bytes of a text.
pub fn percent_encode(s: &str) -> (r: String)
    ensures
        r@ == encoded(encode_utf8(s@)),
{
    let bytes = s.as_bytes();
    let mut out = String::new();
    let ghost all = encoded(bytes@);
    proof {
        assert(bytes@.subrange(0, bytes@.len() as int) =~= bytes@);
        assert(out@ + all =~= all);
    }
    for i in 0..bytes.len()
        invariant
            out@ + encoded(bytes@.subrange(i as int, bytes@.len() as int)) == all,
    {
        let b: u8 = bytes[i];
        let ghost before = out@;
        let ghost rest = bytes@.subrange(i as int, bytes@.len() as int);
        proof {
            assert(rest[0] == b);
            assert(rest.drop_first() =~= bytes@.subrange(i + 1, bytes@.len() as int));
        }
        if is_unreserved(b) {
            out.push(b as char);
        } else {
            push_percent(&mut out, b);
        }
        proof {
            assert(out@ =~= before + encoded_byte(b));
            assert(out@ + encoded(rest.drop_first()) =~= before + (encoded_byte(b) + encoded(
                rest.drop_first(),
            )));
        }
    }
    proof {
        let rest = bytes@.subrange(bytes@.len() as int, bytes@.len() as int);
        assert(rest =~= Seq::<u8>::empty());
        assert(out@ + encoded(rest) =~= out@);
    }
    out
}

/// The value of a hexadecimal digit in either case.
pub open spec fn hex_byte(b: u8) -> Option<u8> {
    if 48 <= b <= 57 {
        Some((b - 48) as u8)
    } else if 65 <= b <= 70 {
        Some((b - 55) as u8)
    } else if 97 <= b <= 102 {
        Some((b - 87) as u8)
    } else {
        None
    }
}

fn hex_digit(b: u8) -> (r: Option<u8>)
    ensures
        r == hex_byte(b),
        r matches Some(v) ==> v < 16,
{
    if 48 <= b && b <= 57 {
        Some(b - 48)
    } else if 65 <= b && b <= 70 {
        Some(b - 55)
    } else if 97 <= b && b <= 102 {
        Some(b - 87)
    } else {
        None
    }
}

/// The bytes that an encoded form stands for: a percent sign with two
/// hexadecimal digits is one byte, a plus sign is a space, and every other
/// byte, a stray percent sign among them, is itself.
pub open spec fn decoded(b: Seq<u8>) -> Seq<u8>
    decreases b.len(),
{
    if b.len() == 0 {
        Seq::empty()
    } else if b[0] == 37 && b.len() > 2 && hex_byte(b[1]) is Some && hex_byte(b[2]) is Some {
        seq![(hex_byte(b[1])->0 * 16 + hex_byte(b[2])->0) as u8] + decoded(
            b.subrange(3, b.len() as int),
        )
    } else if b[0] == 43 {
        seq![32u8] + decoded(b.drop_first())
    } else {
        seq![b[0]] + decoded(b.drop_first())
    }
}

fn decode_bytes(bytes: &[u8]) -> (out: Vec<u8>)
    ensures
        out@ == decoded(bytes@),
{
    let mut out: Vec<u8> = Vec::new();
    let mut i: usize = 0;
    let n: usize = bytes.len();
    proof {
        assert(bytes@.subrange(0, n as int) =~= bytes@);
        assert(out@ + decoded(bytes@) =~= decoded(bytes@));
    }
    while i < n
        invariant
            n == bytes@.len(),
            i <= n,
            out@ + decoded(bytes@.subrange(i as int, n as int)) == decoded(bytes@),
        decreases n - i,
    {
        let ghost rest = bytes@.subrange(i as int, n as int);
        let ghost before = out@;
        let b: u8 = bytes[i];
        proof {
            assert(rest[0] == b);
            assert(rest.drop_first() =~= bytes@.subrange(i + 1, n as int));
        }
        if b == 37 && n - i > 2 {
            proof {
                assert(rest[1] == bytes@[i + 1] && rest[2] == bytes@[i + 2]);
                assert(rest.subrange(3, rest.len() as int) =~= bytes@.subrange(
                    i + 3,
                    n as int,
                ));
            }
            match (hex_digit(bytes[i + 1]), hex_digit(bytes[i + 2])) {
                (Some(hi), Some(lo)) => {
                    let v: u8 = hi * 16 + lo;
                    out.push(v);
                    proof {
                        assert(out@ + decoded(bytes@.subrange(i + 3, n as int)) =~= before + (
                        seq![v] + decoded(bytes@.subrange(i + 3, n as int))));
                    }
                    i = i + 3;
                },
                _ => {
                    out.push(37);
                    proof {
                        assert(out@ + decoded(rest.drop_first()) =~= before + (seq![37u8]
                            + decoded(rest.drop_first())));
                    }
                    i = i + 1;
                },
            }
        } else {
            let v: u8 = if b == 43 {
                32
            } else {
                b
            };
            out.push(v);
            proof {
                assert(out@ + decoded(rest.drop_first()) =~= before + (seq![v] + decoded(
                    rest.drop_first(),
                )));
            }
            i = i + 1;
        }
    }
    proof {
        let rest = bytes@.subrange(n as int, n as int);
        assert(rest =~= Seq::<u8>::empty());
        assert(out@ + decoded(rest) =~= out@);
    }
    out
}

/// Reverses `percent_encode`; also reads a plus sign as a space.
pub fn percent_decode(s: &str) -> (r: String)
    ensures
        r@ == utf8_lossy(decoded(encode_utf8(s@))),
{
    let v = decode_bytes(s.as_bytes());
    lossy_text(v.as_slice())
}

// ── laws ──────────────────────────────────────────────────────────────────

/// The characters that an encoded form is made of.
pub open spec fn encoded_char(c: char) -> bool {
    '\0' <= c && c <= '\u{7f}' && (unreserved(c as u8) || c == '%')
}

proof fn lemma_encoded_byte(b: u8)
    ensures
        forall|i: int| 0 <= i < encoded_byte(b).len() ==> encoded_char(#[trigger] encoded_byte(b)[i]),
{
    if !unreserved(b) {
        let t = percent_triplet(b);
        assert(t[0] == '%');
        assert(encoded_char(t[1]) && encoded_char(t[2])) by {
            let x = b / 16;
            let y = b % 16;
            assert(x < 16 && y < 16);
        }
    }
}

/// An encoded value holds nothing that could end it or separate it from its
/// neighbours in a query.
pub proof fn law_encoded_is_inert(bytes: Seq<u8>)
    ensures
        forall|i: int| 0 <= i < encoded(bytes).len() ==> encoded_char(#[trigger] encoded(bytes)[i]),
    decreases bytes.len(),
{
    if bytes.len() > 0 {
        law_encoded_is_inert(bytes.drop_first());
        lemma_encoded_byte(bytes[0]);
        let head = encoded_byte(bytes[0]);
        let tail = encoded(bytes.drop_first());
        assert forall|i: int| 0 <= i < encoded(bytes).len() implies encoded_char(
            #[trigger] encoded(bytes)[i],
        ) by {
            if i < head.len() {
                assert(encoded(bytes)[i] == head[i]);
            } else {
                assert(encoded(bytes)[i] == tail[i - head.len()]);
            }
        }
    }
}

/// The codes of ASCII characters.
spec fn codes(s: Seq<char>) -> Seq<u8> {
    s.map_values(|c: char| c as u8)
}

proof fn lemma_codes(s: Seq<char>)
    requires
        vstd::utf8::is_ascii_chars(s),
    ensures
        encode_utf8(s) == codes(s),
{
    vstd::utf8::is_ascii_chars_encode_utf8(s);
    assert(encode_utf8(s) =~= codes(s));
}

proof fn lemma_decode_encoded(bytes: Seq<u8>)
    ensures
        decoded(codes(encoded(bytes))) == bytes,
    decreases bytes.len(),
{
    if bytes.len() == 0 {
        assert(codes(encoded(bytes)) =~= Seq::<u8>::empty());
        assert(decoded(Seq::<u8>::empty()) =~= bytes);
    } else {
        let b = bytes[0];
        let rest = bytes.drop_first();
        lemma_decode_encoded(rest);
        let tail = codes(encoded(rest));
        let c = codes(encoded(bytes));
        assert(c =~= codes(encoded_byte(b)) + tail);
        if unreserved(b) {
            assert(codes(encoded_byte(b)) =~= seq![b]);
            assert(c[0] == b);
            assert(c.drop_first() =~= tail);
            assert(decoded(c) =~= seq![b] + rest);
        } else {
            let x = b / 16;
            let y = b % 16;
            assert(x < 16 && y < 16);
            let t = codes(encoded_byte(b));
            assert(t =~= seq![37u8, hex_upper(x) as u8, hex_upper(y) as u8]);
            assert(hex_byte(hex_upper(x) as u8) == Some(x));
            assert(hex_byte(hex_upper(y) as u8) == Some(y));
            assert(c[0] == 37 && c[1] == t[1] && c[2] == t[2]);
            assert(c.subrange(3, c.len() as int) =~= tail);
            assert(x * 16 + y == b);
            assert(decoded(c) =~= seq![b] + rest);
        }
        assert(seq![b] + rest =~= bytes);
    }
}

/// Decoding an encoded text gives back the text.
pub proof fn law_percent_codec_round_trips(s: Seq<char>)
    ensures
        utf8_lossy(decoded(encode_utf8(encoded(encode_utf8(s))))) == s,
{
    let bytes = encode_utf8(s);
    law_encoded_is_inert(bytes);
    assert forall|i: int| 0 <= i < encoded(bytes).len() implies '\0' <= #[trigger] encoded(bytes)[i]
        <= '\u{7f}' by {
        assert(encoded_char(encoded(bytes)[i]));
    }
    lemma_codes(encoded(bytes));
    lemma_decode_encoded(bytes);
    vstd::utf8::encode_utf8_valid_utf8(s);
    vstd::utf8::encode_utf8_decode_utf8(s);
}

/// A character that stands for itself both ways.
pub open spec fn plain(c: char) -> bool {
    '\0' <= c && c <= '\u{7f}' && c != '%' && c != '+'
}

/// A text of plain characters decodes to itself.
pub proof fn lemma_plain_decodes_to_itself(s: Seq<char>)
    requires
        forall|i: int| 0 <= i < s.len() ==> plain(#[trigger] s[i]),
    ensures
        utf8_lossy(decoded(encode_utf8(s))) == s,
{
    assert forall|i: int| 0 <= i < s.len() implies '\0' <= #[trigger] s[i] <= '\u{7f}' by {
        assert(plain(s[i]));
    }
    lemma_codes(s);
    let c = codes(s);
    assert forall|i: int| 0 <= i < c.len() implies #[trigger] c[i] != 37 && c[i] != 43 by {
        assert(plain(s[i]));
    }
    lemma_plain_bytes(c);
    vstd::utf8::encode_utf8_valid_utf8(s);
    vstd::utf8::encode_utf8_decode_utf8(s);
}

proof fn lemma_plain_bytes(b: Seq<u8>)
    requires
        forall|i: int| 0 <= i < b.len() ==> #[trigger] b[i] != 37 && b[i] != 43,
    ensures
        decoded(b) == b,
    decreases b.len(),
{
    if b.len() == 0 {
        assert(decoded(b) =~= b);
    } else {
        let rest = b.drop_first();
        assert forall|i: int| 0 <= i < rest.len() implies #[trigger] rest[i] != 37 && rest[i]
            != 43 by {
            assert(rest[i] == b[i + 1]);
        }
        lemma_plain_bytes(rest);
        assert(b[0] != 37 && b[0] != 43);
        assert(decoded(b) =~= b);
    }
}

} // verus!
