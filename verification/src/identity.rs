//! The device's identity: one X25519 key pair whose public half is the device
//! id. It is stored as one blob, the public key followed by the private one.

use vstd::prelude::*;
use zeroize::{Zeroize, Zeroizing};

use crate::consts::NOISE_PARAMS;
use crate::encoding::{base64url, decode_base64url, encode_base64url, law_base64url_injective};
use crate::error::{LanBeamError, Result};
use crate::settings::opt_text;
use crate::text::concat;

verus! {

pub const KR_SERVICE: &'static str = "LanBeam";

pub const KR_ACCOUNT: &'static str = "identity-x25519-v1";

/// The keychain account of an instance: the primary's, or one of its own.
pub open spec fn account_name(suffix: Option<Seq<char>>) -> Seq<char> {
    match suffix {
        Some(s) => KR_ACCOUNT@ + "-"@ + s,
        None => KR_ACCOUNT@,
    }
}

pub fn account_for(suffix: Option<&str>) -> (r: String)
    ensures
        r@ == account_name(opt_text(suffix)),
{
    match suffix {
        Some(s) => {
            let mut r = concat(KR_ACCOUNT, "-");
            r.append(s);
            r
        },
        None => KR_ACCOUNT.to_owned(),
    }
}

/// Different instances have different accounts, and none has the primary's.
pub proof fn law_accounts_are_isolated(a: Seq<char>, b: Seq<char>)
    ensures
        account_name(Some(a)) != account_name(None),
        account_name(Some(a)) == account_name(Some(b)) ==> a == b,
{
    reveal_strlit("-");
    let x = account_name(Some(a));
    let y = account_name(Some(b));
    let n = KR_ACCOUNT@.len() as int + 1;
    assert(x.len() == n + a.len());
    if x == y {
        assert(a =~= x.subrange(n, x.len() as int));
        assert(b =~= y.subrange(n, y.len() as int));
    }
}

/// A private key, which is overwritten when it is dropped.
#[verifier::external_body]
pub struct SecretKey {
    bytes: Zeroizing<[u8; 32]>,
}

/// The bytes of a private key.
pub uninterp spec fn secret_bytes(k: SecretKey) -> Seq<u8>;

/// `Zeroizing::new` holds the bytes as they are. That they are overwritten when
/// it is dropped is not stated.
#[verifier::external_body]
fn seal_key(bytes: [u8; 32]) -> (k: SecretKey)
    ensures
        secret_bytes(k) == bytes@,
{
    SecretKey { bytes: Zeroizing::new(bytes) }
}

/// `Deref` of a `Zeroizing` gives the bytes that it holds.
#[verifier::external_body]
fn open_key(k: &SecretKey) -> (r: &[u8; 32])
    ensures
        r@ == secret_bytes(*k),
{
    &*k.bytes
}

/// A key pair.
pub struct Identity {
    pub public: [u8; 32],
    private: SecretKey,
}

impl Identity {
    /// The device id: the public key in URL-safe base64.
    pub fn device_id(&self) -> (r: String)
        ensures
            r@ == base64url(self.public_key()),
            r@.len() == 43,
    {
        encode_base64url(self.public.as_slice())
    }

    /// The bytes of the public key.
    pub closed spec fn public_key(self) -> Seq<u8> {
        self.public@
    }

    /// The bytes of the private key.
    pub closed spec fn secret(self) -> Seq<u8> {
        secret_bytes(self.private)
    }

    pub fn private_bytes(&self) -> (r: &[u8; 32])
        ensures
            r@ == self.secret(),
    {
        open_key(&self.private)
    }

    /// The stored form.
    pub open spec fn blob(self) -> Seq<u8> {
        self.public_key() + self.secret()
    }

    /// The public key belongs to the private one.
    pub open spec fn consistent(self) -> bool {
        self.public_key() == x25519_public(self.secret())
    }

    /// The stored identity, or a fresh one and the blob to store it by. What
    /// has not the length of a blob counts as nothing stored.
    pub fn load_or_create(stored: Option<Vec<u8>>) -> (r: Result<(Identity, Option<Vec<u8>>)>)
        ensures
            match stored {
                Some(b) if b@.len() == 64 => r matches Ok((id, fresh)) && id.blob() == b@
                    && fresh is None,
                _ => r matches Ok((id, fresh)) && id.consistent() && (fresh matches Some(v) && v@
                    == id.blob()),
            },
    {
        if let Some(mut blob) = stored {
            if let Some(id) = identity_from_blob(&mut blob) {
                return Ok((id, None));
            }
        }
        let id = generate_identity()?;
        let blob = id.to_blob();
        Ok((id, Some(blob)))
    }

    pub fn to_blob(&self) -> (v: Vec<u8>)
        ensures
            v@ == self.blob(),
            v@.len() == 64,
    {
        let mut v: Vec<u8> = Vec::new();
        for i in 0..32
            invariant
                v@ == self.public@.subrange(0, i as int),
        {
            v.push(self.public[i]);
        }
        let private = self.private_bytes();
        for i in 0..32
            invariant
                private@ == self.secret(),
                v@ == self.public@ + private@.subrange(0, i as int),
        {
            v.push(private[i]);
            proof {
                assert(v@ =~= self.public@ + private@.subrange(0, i + 1));
            }
        }
        proof {
            assert(private@.subrange(0, 32) =~= private@);
        }
        v
    }
}

/// `zeroize::Zeroize::zeroize` on a vector overwrites its bytes with zeros and
/// empties it.
#[verifier::external_body]
fn wipe(v: &mut Vec<u8>)
    ensures
        final(v)@.len() == 0,
{
    v.zeroize();
}

fn key_at(v: &[u8], from: usize) -> (k: [u8; 32])
    requires
        from + 32 <= v@.len(),
    ensures
        k@ == v@.subrange(from as int, from + 32),
{
    let mut k: [u8; 32] = [0u8; 32];
    let len: usize = v.len();
    for i in 0..32
        invariant
            from + 32 <= len,
            len == v@.len(),
            forall|j: int| 0 <= j < i ==> k@[j] == v@[from + j],
    {
        k[i] = v[from + i];
    }
    proof {
        assert(k@ =~= v@.subrange(from as int, from + 32));
    }
    k
}

/// The identity of a stored blob, which is wiped; nothing when the blob has not
/// the length of one, in which case a new identity is due.
pub fn identity_from_blob(blob: &mut Vec<u8>) -> (r: Option<Identity>)
    ensures
        final(blob)@.len() == 0,
        match r {
            Some(id) => old(blob)@.len() == 64 && id.blob() == old(blob)@,
            None => old(blob)@.len() != 64,
        },
{
    let ghost whole = blob@;
    if blob.len() != 64 {
        wipe(blob);
        return None;
    }
    let public = key_at(blob.as_slice(), 0);
    let private = key_at(blob.as_slice(), 32);
    proof {
        assert(public@ + private@ =~= whole);
    }
    wipe(blob);
    Some(Identity { public, private: seal_key(private) })
}

/// The X25519 public key of a private key: the base point times the clamped
/// private key.
pub uninterp spec fn x25519_public(private: Seq<u8>) -> Seq<u8>;

/// `snow::Builder::generate_keypair` for the handshake of a name. For the one
/// that is used here there always is a pair, of 32 bytes each; the private key
/// is drawn at random and the public key is the one that belongs to it. Nothing
/// is said of other handshakes. It does not return where the system has no
/// source of randomness.
#[verifier::external_body]
fn draw_keypair(name: &str) -> (r: std::result::Result<(Vec<u8>, Vec<u8>), snow::Error>)
    ensures
        match r {
            Ok(k) => name@ == NOISE_PARAMS@ ==> k.0@.len() == 32 && k.1@.len() == 32 && k.0@
                == x25519_public(k.1@),
            Err(_) => name@ != NOISE_PARAMS@,
        },
{
    let params = name.parse()?;
    snow::Builder::new(params).generate_keypair().map(|k| (k.public, k.private))
}

/// The identity of a drawn key pair, whose halves have to be 32 bytes long.
pub fn identity_from_keys(public: &[u8], private: &[u8]) -> (r: Result<Identity>)
    ensures
        if public@.len() != 32 {
            r matches Err(LanBeamError::Crypto(m)) && m@ == "unexpected public key length"@
        } else if private@.len() != 32 {
            r matches Err(LanBeamError::Crypto(m)) && m@ == "unexpected private key length"@
        } else {
            r matches Ok(id) && id.public_key() == public@ && id.secret() == private@
        },
{
    if public.len() != 32 {
        return Err(LanBeamError::Crypto("unexpected public key length".to_owned()));
    }
    if private.len() != 32 {
        return Err(LanBeamError::Crypto("unexpected private key length".to_owned()));
    }
    let a = key_at(public, 0);
    let b = key_at(private, 0);
    proof {
        assert(a@ =~= public@);
        assert(b@ =~= private@);
    }
    Ok(Identity { public: a, private: seal_key(b) })
}

/// A fresh identity. Its public key is the one of its private key, which is
/// drawn at random.
pub fn generate_identity() -> (r: Result<Identity>)
    ensures
        r matches Ok(id) && id.consistent(),
{
    match draw_keypair(NOISE_PARAMS) {
        Ok((public, mut private)) => {
            let r = identity_from_keys(public.as_slice(), private.as_slice());
            wipe(&mut private);
            r
        },
        Err(e) => Err(LanBeamError::from(e)),
    }
}

/// Whether a text is the device id of some key.
pub open spec fn is_device_id(s: Seq<char>, key: Seq<u8>) -> bool {
    key.len() == 32 && base64url(key) == s
}

/// Whether `s` is the device id of some key.
pub open spec fn names_device(s: Seq<char>) -> bool {
    exists|k: Seq<u8>| #[trigger] is_device_id(s, k)
}

/// The public key that a device id stands for.
pub fn decode_device_id(s: &str) -> (r: Option<[u8; 32]>)
    ensures
        match r {
            Some(k) => is_device_id(s@, k@),
            None => !names_device(s@),
        },
{
    match decode_base64url(s) {
        Ok(v) => {
            if v.len() != 32 {
                proof {
                    assert forall|k: Seq<u8>| !#[trigger] is_device_id(s@, k) by {
                        if is_device_id(s@, k) {
                            law_base64url_injective(k, v@);
                        }
                    }
                }
                return None;
            }
            let k = key_at(v.as_slice(), 0);
            proof {
                assert(k@ =~= v@);
            }
            Some(k)
        },
        Err(_) => None,
    }
}

// ── laws ──────────────────────────────────────────────────────────────────

/// A device id belongs to one key only.
pub proof fn law_device_id_is_unique(s: Seq<char>, a: Seq<u8>, b: Seq<u8>)
    requires
        is_device_id(s, a),
        is_device_id(s, b),
    ensures
        a == b,
{
    law_base64url_injective(a, b);
}

/// What is loaded from a stored identity is that identity.
pub proof fn law_blob_round_trips(a: Identity, b: Identity)
    requires
        a.blob() == b.blob(),
    ensures
        a.public_key() == b.public_key(),
        a.secret() == b.secret(),
{
    assert(a.public@ =~= a.blob().subrange(0, 32));
    assert(b.public@ =~= b.blob().subrange(0, 32));
    assert(a.secret() =~= a.blob().subrange(32, a.blob().len() as int));
    assert(b.secret() =~= b.blob().subrange(32, b.blob().len() as int));
}

} // verus!
