use lanbeam::error::LanBeamError;
use lanbeam::identity::{
    account_for, decode_device_id, generate_identity, identity_from_blob, identity_from_keys,
    Identity, KR_ACCOUNT,
};

#[test]
fn generated_keys_have_correct_shape() {
    let id = generate_identity().expect("generate");
    assert_eq!(id.public.len(), 32);
    assert_eq!(id.private_bytes().len(), 32);
    assert_eq!(id.device_id().len(), 43);
}

#[test]
fn generated_identities_differ() {
    let a = generate_identity().unwrap();
    let b = generate_identity().unwrap();
    assert_ne!(a.device_id(), b.device_id());
    assert_ne!(a.private_bytes(), b.private_bytes());
    assert_ne!(&a.public, a.private_bytes());
}

#[test]
fn account_for_isolates_instances() {
    assert_eq!(account_for(None), KR_ACCOUNT);
    assert_eq!(account_for(Some("b")), format!("{KR_ACCOUNT}-b"));
    assert_ne!(account_for(Some("b")), account_for(None));
}

#[test]
fn a_stored_identity_reads_back() {
    let a = generate_identity().unwrap();
    let mut blob = a.to_blob();
    assert_eq!(blob.len(), 64);
    let b = identity_from_blob(&mut blob).unwrap();
    assert_eq!(a.public, b.public);
    assert_eq!(a.private_bytes(), b.private_bytes());
    assert!(blob.iter().all(|x| *x == 0), "nothing of the key is left behind");
    assert!(identity_from_blob(&mut vec![1u8; 63]).is_none());
    assert!(identity_from_blob(&mut vec![1u8; 65]).is_none());
}

#[test]
fn identity_is_stable_across_loads() {
    let (a, stored) = Identity::load_or_create(None).expect("first load");
    let (b, _) = Identity::load_or_create(stored).expect("second load");
    assert_eq!(a.public, b.public);
    assert_eq!(a.device_id(), b.device_id());
}

#[test]
fn an_identity_is_created_once() {
    let (a, stored) = Identity::load_or_create(None).unwrap();
    let blob = stored.expect("a fresh identity is to be stored");
    assert_eq!(blob, a.to_blob());
    let (b, again) = Identity::load_or_create(Some(blob)).unwrap();
    assert!(again.is_none());
    assert_eq!(a.public, b.public);
    assert_eq!(a.device_id(), b.device_id());
    let (c, fresh) = Identity::load_or_create(Some(vec![7; 10])).unwrap();
    assert!(fresh.is_some(), "a broken blob counts as none");
    assert_ne!(c.device_id(), a.device_id());
}

#[test]
fn a_fresh_public_key_belongs_to_its_private_key() {
    let a = generate_identity().unwrap();
    let b = generate_identity().unwrap();
    let name = lanbeam::consts::NOISE_PARAMS;
    let mut out = snow::Builder::new(name.parse().unwrap())
        .local_private_key(a.private_bytes())
        .build_initiator()
        .unwrap();
    let mut inn = snow::Builder::new(name.parse().unwrap())
        .local_private_key(b.private_bytes())
        .build_responder()
        .unwrap();
    let mut wire = [0u8; 1024];
    let mut text = [0u8; 1024];
    let n = out.write_message(&[], &mut wire).unwrap();
    inn.read_message(&wire[..n], &mut text).unwrap();
    let n = inn.write_message(&[], &mut wire).unwrap();
    out.read_message(&wire[..n], &mut text).unwrap();
    let n = out.write_message(&[], &mut wire).unwrap();
    inn.read_message(&wire[..n], &mut text).unwrap();
    assert_eq!(inn.get_remote_static().unwrap(), &a.public);
    assert_eq!(out.get_remote_static().unwrap(), &b.public);
}

#[test]
fn keys_of_a_wrong_length_are_refused() {
    assert!(identity_from_keys(&[1; 32], &[2; 32]).is_ok());
    match identity_from_keys(&[1; 31], &[2; 32]) {
        Err(LanBeamError::Crypto(m)) => assert_eq!(m, "unexpected public key length"),
        _ => panic!("a short public key"),
    }
    match identity_from_keys(&[1; 32], &[2; 33]) {
        Err(LanBeamError::Crypto(m)) => assert_eq!(m, "unexpected private key length"),
        _ => panic!("a long private key"),
    }
}

#[test]
fn a_device_id_names_its_key() {
    let mut public = [0u8; 32];
    for (i, b) in public.iter_mut().enumerate() {
        *b = (i * 7) as u8;
    }
    let id = identity_from_keys(&public, &[0; 32]).unwrap();
    assert_eq!(decode_device_id(&id.device_id()), Some(public));
    assert_eq!(decode_device_id("AAAA"), None, "three bytes");
    assert_eq!(decode_device_id(&"A".repeat(42)), None);
    assert_eq!(decode_device_id(&format!("{}=", "A".repeat(43))), None, "no padding");
    assert_eq!(decode_device_id(&format!("{}+", "A".repeat(42))), None, "not url-safe");
}
