use lanbeam::error::LanBeamError;

#[test]
fn display_text_matches_thiserror_attributes() {
    assert_eq!(LanBeamError::Io("disk".into()).to_string(), "io: disk");
    assert_eq!(
        LanBeamError::Bind("addr in use".into()).to_string(),
        "bind failed: addr in use"
    );
    assert_eq!(
        LanBeamError::Handshake("nope".into()).to_string(),
        "handshake failed: nope"
    );
    assert_eq!(LanBeamError::IdentityMismatch.to_string(), "peer identity mismatch");
    assert_eq!(LanBeamError::PeerNotFound.to_string(), "peer not found");
    assert_eq!(LanBeamError::Rejected.to_string(), "rejected by peer");
    assert_eq!(
        LanBeamError::UnsafePath("../etc".into()).to_string(),
        "unsafe filename: ../etc"
    );
    assert_eq!(LanBeamError::Keyring("locked".into()).to_string(), "keyring: locked");
    assert_eq!(LanBeamError::Crypto("bad key".into()).to_string(), "crypto: bad key");
    assert_eq!(LanBeamError::Protocol("oops".into()).to_string(), "protocol: oops");
    assert_eq!(
        LanBeamError::PeerTooOld("v0".into()).to_string(),
        "peer version too old: v0"
    );
    assert_eq!(LanBeamError::Cancelled.to_string(), "cancelled");
    assert_eq!(LanBeamError::Integrity("hash".into()).to_string(), "integrity: hash");
    assert_eq!(LanBeamError::Timeout.to_string(), "timeout");
}

#[test]
fn remaining_display_texts() {
    assert_eq!(
        LanBeamError::TextRefused.to_string(),
        "the peer's receive policy dropped the text"
    );
    assert_eq!(
        LanBeamError::TextThrottled.to_string(),
        "the peer is throttling quick text"
    );
    assert_eq!(LanBeamError::SelfPeer.to_string(), "that address is this device");
    assert_eq!(LanBeamError::NotFound("/x".into()).to_string(), "not found: /x");
}

#[test]
fn ui_code_covers_every_variant() {
    assert_eq!(LanBeamError::Rejected.ui_code(), "declined");
    assert_eq!(LanBeamError::Timeout.ui_code(), "timeout");
    assert_eq!(LanBeamError::Cancelled.ui_code(), "cancelled");
    assert_eq!(LanBeamError::PeerTooOld("x".into()).ui_code(), "peer_too_old");
    assert_eq!(LanBeamError::Integrity("x".into()).ui_code(), "integrity");
    assert_eq!(LanBeamError::Io("x".into()).ui_code(), "io");
    assert_eq!(LanBeamError::Bind("x".into()).ui_code(), "io");
    assert_eq!(LanBeamError::Keyring("x".into()).ui_code(), "io");
    assert_eq!(LanBeamError::Handshake("x".into()).ui_code(), "protocol");
    assert_eq!(LanBeamError::IdentityMismatch.ui_code(), "protocol");
    assert_eq!(LanBeamError::PeerNotFound.ui_code(), "protocol");
    assert_eq!(LanBeamError::UnsafePath("x".into()).ui_code(), "protocol");
    assert_eq!(LanBeamError::Crypto("x".into()).ui_code(), "protocol");
    assert_eq!(LanBeamError::Protocol("x".into()).ui_code(), "protocol");
}

#[test]
fn dropped_texts_and_missing_files_have_their_own_codes() {
    assert_eq!(LanBeamError::TextRefused.ui_code(), "text_dropped");
    assert_eq!(LanBeamError::TextThrottled.ui_code(), "text_dropped");
    assert_eq!(LanBeamError::NotFound("x".into()).ui_code(), "io");
    assert_eq!(LanBeamError::SelfPeer.ui_code(), "protocol");
}

#[test]
fn keeps_partial_only_false_for_integrity() {
    assert!(!LanBeamError::Integrity("bad".into()).keeps_partial());
    assert!(LanBeamError::Timeout.keeps_partial());
    assert!(LanBeamError::Cancelled.keeps_partial());
    assert!(LanBeamError::Io("blip".into()).keeps_partial());
    assert!(LanBeamError::Rejected.keeps_partial());
    assert!(LanBeamError::Protocol("torn".into()).keeps_partial());
    assert!(LanBeamError::PeerTooOld("v0".into()).keeps_partial());
}

#[test]
fn from_io_error_maps_to_io_variant() {
    let io = std::io::Error::new(std::io::ErrorKind::NotFound, "missing");
    let err: LanBeamError = io.into();
    match &err {
        LanBeamError::Io(msg) => assert!(msg.contains("missing")),
        other => panic!("expected Io, got {other:?}"),
    }
    assert_eq!(err.ui_code(), "io");
}
