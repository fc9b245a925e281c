//! The crate-wide error type: its text, the coarse code a user interface
//! switches on, and whether a failed receive keeps its partial file.

use vstd::prelude::*;
use vstd::std_specs::convert::FromSpecImpl;
use vstd::string::to_string_from_display_ensures;

verus! {

/// The operating system's I/O error, carried only for its text.
#[verifier::external_type_specification]
#[verifier::external_body]
pub struct ExIoError(std::io::Error);

/// A failure of the system's keychain, carried only for its text.
#[verifier::external_type_specification]
#[verifier::external_body]
pub struct ExKeyringError(keyring::Error);

/// A failure of the Noise library, carried only for its text.
#[verifier::external_type_specification]
#[verifier::external_body]
pub struct ExNoiseError(snow::Error);

#[derive(Debug)]
pub enum LanBeamError {
    Io(String),
    Bind(String),
    Handshake(String),
    IdentityMismatch,
    PeerNotFound,
    /// The peer received a quick text but its receive policy dropped it.
    TextRefused,
    /// The peer is rate-limiting quick text from this source.
    TextThrottled,
    /// The address dialed answered with this device's own key.
    SelfPeer,
    Rejected,
    UnsafePath(String),
    Keyring(String),
    Crypto(String),
    Protocol(String),
    /// The peer dropped the version exchange that follows the handshake.
    PeerTooOld(String),
    Cancelled,
    /// A received file's digest did not match the one its sender declared.
    Integrity(String),
    Timeout,
    /// A path to open is no longer on disk.
    NotFound(String),
}

pub type Result<T> = std::result::Result<T, LanBeamError>;

impl LanBeamError {
    /// The text of the error: a fixed phrase, followed by the detail where the
    /// variant has one.
    pub open spec fn text(self) -> Seq<char> {
        match self {
            LanBeamError::Io(m) => "io: "@ + m@,
            LanBeamError::Bind(m) => "bind failed: "@ + m@,
            LanBeamError::Handshake(m) => "handshake failed: "@ + m@,
            LanBeamError::IdentityMismatch => "peer identity mismatch"@,
            LanBeamError::PeerNotFound => "peer not found"@,
            LanBeamError::TextRefused => "the peer's receive policy dropped the text"@,
            LanBeamError::TextThrottled => "the peer is throttling quick text"@,
            LanBeamError::SelfPeer => "that address is this device"@,
            LanBeamError::Rejected => "rejected by peer"@,
            LanBeamError::UnsafePath(m) => "unsafe filename: "@ + m@,
            LanBeamError::Keyring(m) => "keyring: "@ + m@,
            LanBeamError::Crypto(m) => "crypto: "@ + m@,
            LanBeamError::Protocol(m) => "protocol: "@ + m@,
            LanBeamError::PeerTooOld(m) => "peer version too old: "@ + m@,
            LanBeamError::Cancelled => "cancelled"@,
            LanBeamError::Integrity(m) => "integrity: "@ + m@,
            LanBeamError::Timeout => "timeout"@,
            LanBeamError::NotFound(m) => "not found: "@ + m@,
        }
    }

    pub fn to_string(&self) -> (r: String)
        ensures
            r@ == self.text(),
    {
        match self {
            LanBeamError::Io(m) => phrase("io: ", m),
            LanBeamError::Bind(m) => phrase("bind failed: ", m),
            LanBeamError::Handshake(m) => phrase("handshake failed: ", m),
            LanBeamError::IdentityMismatch => "peer identity mismatch".to_owned(),
            LanBeamError::PeerNotFound => "peer not found".to_owned(),
            LanBeamError::TextRefused => "the peer's receive policy dropped the text".to_owned(),
            LanBeamError::TextThrottled => "the peer is throttling quick text".to_owned(),
            LanBeamError::SelfPeer => "that address is this device".to_owned(),
            LanBeamError::Rejected => "rejected by peer".to_owned(),
            LanBeamError::UnsafePath(m) => phrase("unsafe filename: ", m),
            LanBeamError::Keyring(m) => phrase("keyring: ", m),
            LanBeamError::Crypto(m) => phrase("crypto: ", m),
            LanBeamError::Protocol(m) => phrase("protocol: ", m),
            LanBeamError::PeerTooOld(m) => phrase("peer version too old: ", m),
            LanBeamError::Cancelled => "cancelled".to_owned(),
            LanBeamError::Integrity(m) => phrase("integrity: ", m),
            LanBeamError::Timeout => "timeout".to_owned(),
            LanBeamError::NotFound(m) => phrase("not found: ", m),
        }
    }

    /// The code that each error carries to the user interface.
    pub open spec fn code(self) -> Seq<char> {
        match self {
            LanBeamError::Rejected => "declined"@,
            LanBeamError::Timeout => "timeout"@,
            LanBeamError::Cancelled => "cancelled"@,
            LanBeamError::PeerTooOld(_) => "peer_too_old"@,
            LanBeamError::Integrity(_) => "integrity"@,
            LanBeamError::TextRefused | LanBeamError::TextThrottled => "text_dropped"@,
            LanBeamError::Io(_)
            | LanBeamError::Bind(_)
            | LanBeamError::Keyring(_)
            | LanBeamError::NotFound(_) => "io"@,
            _ => "protocol"@,
        }
    }

    /// Coarse machine-readable code, so that a refusal by the peer can be told
    /// from a failure without matching on the error's text.
    pub fn ui_code(&self) -> (r: &'static str)
        ensures
            r@ == self.code(),
    {
        match self {
            LanBeamError::Rejected => "declined",
            LanBeamError::Timeout => "timeout",
            LanBeamError::Cancelled => "cancelled",
            LanBeamError::PeerTooOld(_) => "peer_too_old",
            LanBeamError::Integrity(_) => "integrity",
            LanBeamError::TextRefused | LanBeamError::TextThrottled => "text_dropped",
            LanBeamError::Io(_)
            | LanBeamError::Bind(_)
            | LanBeamError::Keyring(_)
            | LanBeamError::NotFound(_) => "io",
            _ => "protocol",
        }
    }

    /// Whether a receive that ended with this error keeps the partial file for
    /// a later resume. Only bytes that are provably wrong are not worth it.
    pub fn keeps_partial(&self) -> (r: bool)
        ensures
            r == !(self is Integrity),
    {
        !matches!(self, LanBeamError::Integrity(_))
    }
}

fn phrase(prefix: &str, detail: &String) -> (r: String)
    ensures
        r@ == prefix@ + detail@,
{
    let mut r = prefix.to_owned();
    r.append(detail.as_str());
    r
}

impl From<std::io::Error> for LanBeamError {
    fn from(e: std::io::Error) -> (r: Self)
        ensures
            r matches LanBeamError::Io(m) && to_string_from_display_ensures(&e, m),
    {
        LanBeamError::Io(e.to_string())
    }
}

impl FromSpecImpl<std::io::Error> for LanBeamError {
    open spec fn obeys_from_spec() -> bool {
        false
    }

    open spec fn from_spec(e: std::io::Error) -> Self {
        arbitrary()
    }
}

impl From<keyring::Error> for LanBeamError {
    fn from(e: keyring::Error) -> (r: Self)
        ensures
            r matches LanBeamError::Keyring(m) && to_string_from_display_ensures(&e, m),
    {
        LanBeamError::Keyring(e.to_string())
    }
}

impl FromSpecImpl<keyring::Error> for LanBeamError {
    open spec fn obeys_from_spec() -> bool {
        false
    }

    open spec fn from_spec(e: keyring::Error) -> Self {
        arbitrary()
    }
}

impl From<snow::Error> for LanBeamError {
    fn from(e: snow::Error) -> (r: Self)
        ensures
            r matches LanBeamError::Crypto(m) && to_string_from_display_ensures(&e, m),
    {
        LanBeamError::Crypto(e.to_string())
    }
}

impl FromSpecImpl<snow::Error> for LanBeamError {
    open spec fn obeys_from_spec() -> bool {
        false
    }

    open spec fn from_spec(e: snow::Error) -> Self {
        arbitrary()
    }
}

} // verus!
