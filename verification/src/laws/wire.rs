//! Frames, versions, keys and tokens, byte by byte.

use vstd::prelude::*;

use crate::commands::{check_pairing_version, check_text_version};
use crate::consts::{MAX_PLAINTEXT, NOISE_TAG};
use crate::encoding::base64url;
use crate::error::LanBeamError;
use crate::identity::{
    account_for, decode_device_id, generate_identity, identity_from_blob, identity_from_keys,
    Identity,
};
use crate::protocol::{
    decode, encode_control, encode_file_chunk, negotiate_version, Frame, FrameView,
};
use crate::share::{generate_token, token_of};

verus! {

/// A control frame is the byte 1 and the message; a chunk is the byte 2, the
/// index with its most significant byte first, and up to 65514 bytes.
pub proof fn law_frames_byte_by_byte(
    json: &[u8],
    c: Vec<u8>,
    index: u32,
    bytes: &[u8],
    f: Result<Vec<u8>, LanBeamError>,
)
    requires
        call_ensures(encode_control, (json,), c),
        call_ensures(encode_file_chunk, (index, bytes), f),
    ensures
        c@ == seq![1u8] + json@,
        f is Ok <==> bytes@.len() <= 65514,
        f matches Ok(v) ==> {
            &&& v@.len() == bytes@.len() + 5
            &&& v@[0] == 2
            &&& 16_777_216 * v@[1] + 65_536 * v@[2] + 256 * v@[3] + v@[4] == index
            &&& v@.subrange(5, v@.len() as int) == bytes@
        },
        f matches Err(e) ==> e is Protocol,
{
    match f {
        Ok(v) => {
            assert(v@.subrange(5, v@.len() as int) =~= bytes@);
            lemma_bytes_of(index);
            let b = crate::protocol::be_bytes(index);
            assert(v@[1] == b[0] && v@[2] == b[1] && v@[3] == b[2] && v@[4] == b[3]);
        },
        Err(e) => {},
    }
}

proof fn lemma_bytes_of(n: u32)
    ensures
        ({
            let b = crate::protocol::be_bytes(n);
            16_777_216 * b[0] + 65_536 * b[1] + 256 * b[2] + b[3] == n
        }),
{
    let hi = n / 0x1_0000;
    let lo = n % 0x1_0000;
    assert(n / 0x100_0000 == hi / 256);
    assert(n / 0x100 % 256 == lo / 256) by {
        assert(n / 0x100 == hi * 256 + lo / 256);
    }
    assert(n % 256 == lo % 256);
}

/// Reading a frame that was written gives back the message, or the index and the
/// bytes.
pub proof fn law_frames_read_back(
    json: &[u8],
    c: Vec<u8>,
    index: u32,
    bytes: &[u8],
    v: Vec<u8>,
    wire1: &[u8],
    wire2: &[u8],
    r1: Result<Frame, LanBeamError>,
    r2: Result<Frame, LanBeamError>,
)
    requires
        call_ensures(encode_control, (json,), c),
        call_ensures(encode_file_chunk, (index, bytes), Ok(v)),
        wire1@ == c@ && wire2@ == v@,
        call_ensures(decode, (wire1,), r1),
        call_ensures(decode, (wire2,), r2),
    ensures
        r1 is Ok && r1->Ok_0@ == FrameView::Control(json@),
        r2 is Ok && r2->Ok_0@ == FrameView::FileChunk(index, bytes@),
{
    crate::protocol::law_control_round_trip(json@);
    crate::protocol::law_chunk_round_trip(index, bytes@);
}

/// Whatever is read was written as a frame: the byte 1 and the message, or the
/// byte 2, an index and bytes. Only an empty frame, a chunk without its whole
/// index and a frame of another kind are refused.
pub proof fn law_only_frames_are_read(p: &[u8], r: Result<Frame, LanBeamError>)
    requires
        call_ensures(decode, (p,), r),
    ensures
        r is Err <==> p@.len() == 0 || p@[0] != 1 && p@[0] != 2 || p@[0] == 2 && p@.len() < 5,
        r matches Ok(f) ==> match f@ {
            FrameView::Control(json) => p@ == seq![1u8] + json,
            FrameView::FileChunk(index, bytes) => {
                &&& p@.len() == bytes.len() + 5 && p@[0] == 2
                &&& 16_777_216 * p@[1] + 65_536 * p@[2] + 256 * p@[3] + p@[4] == index
                &&& p@.subrange(5, p@.len() as int) == bytes
            },
        },
        r matches Err(e) ==> e is Protocol,
{
    match r {
        Ok(f) => {
            let body = p@.drop_first();
            match f@ {
                FrameView::Control(json) => {
                    assert(p@ =~= seq![1u8] + json);
                },
                FrameView::FileChunk(index, bytes) => {
                    assert(p@.subrange(5, p@.len() as int) =~= bytes);
                    assert(body[0] == p@[1] && body[1] == p@[2] && body[2] == p@[3] && body[3]
                        == p@[4]);
                },
            }
        },
        Err(e) => {},
    }
}

/// Version 2 is agreed on with whoever speaks it, else version 1, else none.
pub proof fn law_versions_one_and_two(versions: &[u8], r: Option<u8>)
    requires
        call_ensures(negotiate_version, (versions,), r),
    ensures
        r == if versions@.contains(2u8) {
            Some(2u8)
        } else if versions@.contains(1u8) {
            Some(1u8)
        } else {
            None
        },
{
    if versions@.contains(2u8) {
        let i = choose|i: int| 0 <= i < versions@.len() && versions@[i] == 2u8;
        assert(crate::protocol::supported(versions@[i]));
    }
    if versions@.contains(1u8) {
        let i = choose|i: int| 0 <= i < versions@.len() && versions@[i] == 1u8;
        assert(crate::protocol::supported(versions@[i]));
    }
}

/// Pairing and quick texts need version 2 of the other side.
pub proof fn law_pairing_and_texts_need_version_two(
    version: u8,
    p: Result<(), LanBeamError>,
    t: Result<(), LanBeamError>,
)
    requires
        call_ensures(check_pairing_version, (version,), p),
        call_ensures(check_text_version, (version,), t),
    ensures
        p is Ok <==> version >= 2,
        t is Ok <==> version >= 2,
        p matches Err(e) ==> e is PeerTooOld,
        t matches Err(e) ==> e is PeerTooOld,
{
}

// ── URL-safe base64 ───────────────────────────────────────────────────────

/// The value of a character of the alphabet `A` to `Z`, `a` to `z`, `0` to `9`,
/// `-`, `_`.
pub open spec fn six_bits(c: char) -> int {
    if 'A' <= c && c <= 'Z' {
        c as u32 - 65
    } else if 'a' <= c && c <= 'z' {
        c as u32 - 97 + 26
    } else if '0' <= c && c <= '9' {
        c as u32 - 48 + 52
    } else if c == '-' {
        62
    } else if c == '_' {
        63
    } else {
        -1
    }
}

proof fn lemma_six_bits(v: int)
    requires
        0 <= v < 64,
    ensures
        six_bits(crate::encoding::base64_char(v)) == v,
{
}

proof fn lemma_sextets(a: int, b: int, c: int)
    requires
        0 <= a < 256,
        0 <= b < 256,
        0 <= c < 256,
    ensures
        262_144 * (a / 4) + 4096 * ((a % 4) * 16 + b / 16) + 64 * ((b % 16) * 4 + c / 64)
            + c % 64 == 65_536 * a + 256 * b + c,
        0 <= a / 4 < 64,
        0 <= (a % 4) * 16 + b / 16 < 64,
        0 <= (b % 16) * 4 + c / 64 < 64,
        0 <= c % 64 < 64,
{
    assert(a == 4 * (a / 4) + a % 4);
    assert(b == 16 * (b / 16) + b % 16);
    assert(c == 64 * (c / 64) + c % 64);
}

/// Three bytes become four characters with the same 24 bits, most significant
/// first.
#[verifier::rlimit(40)]
pub proof fn law_three_bytes_are_four_characters(b: Seq<u8>, g: int)
    requires
        0 <= g,
        3 * g + 2 < b.len(),
    ensures
        ({
            let s = base64url(b);
            &&& 4 * g + 3 < s.len()
            &&& 262_144 * six_bits(s[4 * g]) + 4096 * six_bits(s[4 * g + 1]) + 64 * six_bits(
                s[4 * g + 2],
            ) + six_bits(s[4 * g + 3]) == 65_536 * b[3 * g] + 256 * b[3 * g + 1] + b[3 * g + 2]
        }),
{
    let s = base64url(b);
    let (x, y, z) = (b[3 * g] as int, b[3 * g + 1] as int, b[3 * g + 2] as int);
    lemma_sextets(x, y, z);
    assert((4 * g) / 4 == g && (4 * g + 1) / 4 == g && (4 * g + 2) / 4 == g && (4 * g + 3) / 4 == g);
    lemma_six_bits(x / 4);
    lemma_six_bits((x % 4) * 16 + y / 16);
    lemma_six_bits((y % 16) * 4 + z / 64);
    lemma_six_bits(z % 64);
    assert(4 * g + 3 < s.len());
    assert(s[4 * g] == crate::encoding::base64_char(x / 4));
    assert(s[4 * g + 1] == crate::encoding::base64_char((x % 4) * 16 + y / 16));
    assert(s[4 * g + 2] == crate::encoding::base64_char((y % 16) * 4 + z / 64));
    assert(s[4 * g + 3] == crate::encoding::base64_char(z % 64));
}

/// Two bytes that are left over become three characters, the last two bits being
/// zero; one byte becomes two characters, the last four bits being zero.
#[verifier::rlimit(40)]
pub proof fn law_rest_of_one_or_two_bytes(b: Seq<u8>)
    ensures
        ({
            let s = base64url(b);
            let n = b.len() as int;
            &&& n % 3 == 0 ==> s.len() == n / 3 * 4
            &&& n % 3 == 1 ==> s.len() == n / 3 * 4 + 2 && 64 * six_bits(s[s.len() - 2]) + six_bits(
                s[s.len() - 1],
            ) == 16 * b[n - 1]
            &&& n % 3 == 2 ==> s.len() == n / 3 * 4 + 3 && 4096 * six_bits(s[s.len() - 3]) + 64
                * six_bits(s[s.len() - 2]) + six_bits(s[s.len() - 1]) == 4 * (256 * b[n - 2]
                + b[n - 1])
        }),
{
    let s = base64url(b);
    let n = b.len() as int;
    let g = n / 3;
    assert((4 * g) / 4 == g && (4 * g + 1) / 4 == g && (4 * g + 2) / 4 == g);
    if n % 3 == 1 {
        let x = b[n - 1] as int;
        lemma_sextets(x, 0, 0);
        lemma_six_bits(x / 4);
        lemma_six_bits((x % 4) * 16);
        assert(s.len() == 4 * g + 2);
        assert(s[4 * g] == crate::encoding::base64_char(x / 4));
        assert(s[4 * g + 1] == crate::encoding::base64_char((x % 4) * 16));
    } else if n % 3 == 2 {
        let (x, y) = (b[n - 2] as int, b[n - 1] as int);
        lemma_sextets(x, y, 0);
        lemma_six_bits(x / 4);
        lemma_six_bits((x % 4) * 16 + y / 16);
        lemma_six_bits((y % 16) * 4);
        assert(s.len() == 4 * g + 3);
        assert(s[4 * g] == crate::encoding::base64_char(x / 4));
        assert(s[4 * g + 1] == crate::encoding::base64_char((x % 4) * 16 + y / 16));
        assert(s[4 * g + 2] == crate::encoding::base64_char((y % 16) * 4));
    }
}

/// A token is the base64 form of its eighteen bytes: 24 characters that a link
/// can hold. Every generated token has that form.
pub proof fn law_tokens_are_24_characters(
    bytes: &[u8; 18],
    t: String,
    g: Result<String, LanBeamError>,
)
    requires
        call_ensures(token_of, (bytes,), t),
        call_ensures(generate_token, (), g),
    ensures
        t@ == base64url(bytes@) && t@.len() == 24,
        g matches Ok(u) ==> u@.len() == 24 && forall|i: int|
            0 <= i < 24 ==> six_bits(#[trigger] u@[i]) >= 0,
        g matches Err(e) ==> e is Crypto,
{
    match g {
        Ok(u) => {
            assert forall|i: int| 0 <= i < 24 implies six_bits(#[trigger] u@[i]) >= 0 by {
                assert(crate::encoding::url_safe(u@[i]));
            }
        },
        Err(e) => {},
    }
}

// ── identities ────────────────────────────────────────────────────────────

/// The id of a device is the base64 form of its public key, and leads back to
/// that key alone.
pub proof fn law_device_id_is_the_public_key(
    me: &Identity,
    id: String,
    s: &str,
    k: Option<[u8; 32]>,
)
    requires
        call_ensures(Identity::device_id, (me,), id),
        s@ == id@,
        call_ensures(decode_device_id, (s,), k),
        me.public_key().len() == 32,
    ensures
        id@ == base64url(me.public_key()) && id@.len() == 43,
        k matches Some(key) && key@ == me.public_key(),
{
    assert(crate::identity::is_device_id(s@, me.public_key()));
    match k {
        Some(key) => {
            crate::encoding::law_base64url_injective(key@, me.public_key());
        },
        None => {},
    }
}

/// A text that is no id of any key is refused, and any other leads to its key.
pub proof fn law_ids_lead_to_their_keys(s: &str, k: Option<[u8; 32]>, key: Seq<u8>)
    requires
        call_ensures(decode_device_id, (s,), k),
        key.len() == 32,
    ensures
        base64url(key) == s@ <==> k is Some && k->0@ == key,
{
    if base64url(key) == s@ {
        assert(crate::identity::is_device_id(s@, key));
        match k {
            Some(x) => {
                crate::encoding::law_base64url_injective(x@, key);
            },
            None => {},
        }
    }
}

/// An identity is stored as its two keys, the public one first, and comes back
/// from what was stored. What has not 64 bytes is no stored identity.
pub proof fn law_identity_is_stored_as_its_keys(
    me: &Identity,
    v: Vec<u8>,
    p: &[u8; 32],
    stored: Vec<u8>,
    again: Result<(Identity, Option<Vec<u8>>), LanBeamError>,
)
    requires
        me.public_key().len() == 32,
        call_ensures(Identity::to_blob, (me,), v),
        call_ensures(Identity::private_bytes, (me,), p),
        call_ensures(Identity::load_or_create, (Some(stored),), again),
    ensures
        v@ == me.public_key() + p@,
        stored@ == v@ ==> again is Ok && again->Ok_0.1 is None && again->Ok_0.0.public_key()
            + again->Ok_0.0.secret() == v@,
        stored@.len() != 64 ==> again is Ok && again->Ok_0.1 is Some,
{
}

/// Keys of 32 bytes each make an identity, and others do not.
pub proof fn law_keys_have_32_bytes(
    public: &[u8],
    private: &[u8],
    r: Result<Identity, LanBeamError>,
    blob: &mut Vec<u8>,
    b: Option<Identity>,
)
    requires
        call_ensures(identity_from_keys, (public, private), r),
        call_ensures(identity_from_blob, (blob,), b),
    ensures
        r is Ok <==> public@.len() == 32 && private@.len() == 32,
        r matches Ok(id) ==> id.public_key() == public@ && id.secret() == private@,
        r matches Err(e) ==> e is Crypto,
        b is Some <==> old(blob)@.len() == 64,
        b matches Some(id) ==> id.public_key() + id.secret() == old(blob)@,
        final(blob)@.len() == 0,
{
}

/// The keychain account is the usual one, and for another instance that one, a
/// hyphen and the name of the instance.
pub proof fn law_keychain_accounts(suffix: &str, other: String, usual: String)
    requires
        call_ensures(account_for, (Some(suffix),), other),
        call_ensures(account_for, (None,), usual),
    ensures
        usual@ == "identity-x25519-v1"@,
        other@ == usual@ + "-"@ + suffix@,
{
}

/// A chunk of any size that is accepted fits one encrypted message of at most
/// 65535 bytes, together with its tag, and so does every text that can be sent,
/// as it is.
pub proof fn law_chunks_fit_one_message(
    index: u32,
    bytes: &[u8],
    v: Vec<u8>,
    text: &str,
)
    requires
        call_ensures(encode_file_chunk, (index, bytes), Ok(v)),
        call_ensures(crate::commands::check_text, (text,), Ok(())),
    ensures
        v@.len() + NOISE_TAG <= 65535,
        v@.len() <= MAX_PLAINTEXT && MAX_PLAINTEXT + NOISE_TAG == 65535,
        vstd::utf8::encode_utf8(text@).len() < MAX_PLAINTEXT,
{
}

/// Where nothing is stored, an identity is made and handed out to be stored as its
/// two keys; the public one belongs to the private one.
pub proof fn law_first_identity_is_stored(
    r: Result<(Identity, Option<Vec<u8>>), LanBeamError>,
    g: Result<Identity, LanBeamError>,
)
    requires
        call_ensures(Identity::load_or_create, (None,), r),
        call_ensures(generate_identity, (), g),
    ensures
        r matches Ok((id, fresh)) && fresh is Some && fresh->0@ == id.public_key() + id.secret()
            && id.public_key() == crate::identity::x25519_public(id.secret()),
        g matches Ok(id) && id.public_key() == crate::identity::x25519_public(id.secret()),
{
}

} // verus!
