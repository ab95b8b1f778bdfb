//! Point encodings, address derivation, key validation, and the
//! deterministic collaborator derivations.

use k256::elliptic_curve::sec1::ToEncodedPoint;
use sha3::{Digest, Keccak256};
use tofn::api::derive_ethereum_address;
use tofn::collections::TypedUsize;
use tofn::keygen::{
    create_party_keypair_and_zksetup, create_party_keypair_and_zksetup_unsafe,
    dummy_secret_recovery_key, recover_party_keypair, recover_party_keypair_unsafe,
    validate_secret_key, KeygenPartyId,
};
use tofn::k256_serde::{point_to_bytes, to_array32, to_array33, ProjectivePoint, SecretScalar};

fn scalar_of_byte(b: u8) -> SecretScalar {
    let mut bytes = [0u8; 32];
    bytes[31] = b;
    SecretScalar::from_bytes(bytes).unwrap()
}

#[test]
fn point_bytes_round_trip() {
    let p = ProjectivePoint::generator_mul(&scalar_of_byte(5));
    let p_bytes = p.to_bytes();
    assert_eq!(p_bytes.len(), 33);
    let p_decoded = ProjectivePoint::from_bytes(&p_bytes.to_vec()).unwrap();
    assert!(p_decoded == p);
    assert_eq!(point_to_bytes(&p), p_bytes);

    // an uncompressed encoding decodes to the same compressed bytes
    let uncompressed = k256::PublicKey::from_sec1_bytes(&p_bytes)
        .unwrap()
        .to_encoded_point(false);
    let p_from_uncompressed =
        ProjectivePoint::from_bytes(&uncompressed.as_bytes().to_vec()).unwrap();
    assert!(p_from_uncompressed == p);

    // garbage is rejected
    assert!(ProjectivePoint::from_bytes(&vec![7u8; 33]).is_none());
}

#[test]
fn array_helpers_check_lengths() {
    assert!(to_array33(&vec![1u8; 33]).is_ok());
    assert!(to_array33(&vec![1u8; 32]).is_err());
    assert!(to_array32(&vec![1u8; 32]).is_ok());
    assert!(to_array32(&vec![1u8; 33]).is_err());
    assert_eq!(to_array33(&vec![9u8; 33]).unwrap(), [9u8; 33]);
}

#[test]
fn secret_key_validation() {
    let mut key = vec![0u8; 32];
    assert!(validate_secret_key(&key).is_err()); // zero
    key[31] = 1;
    assert!(validate_secret_key(&key).is_ok());
    assert!(validate_secret_key(&vec![1u8; 31]).is_err()); // wrong length
    assert!(validate_secret_key(&vec![0xffu8; 32]).is_err()); // above the group order
}

#[test]
fn ethereum_address_matches_keccak_of_uncompressed_key() {
    let vkey = ProjectivePoint::generator_mul(&scalar_of_byte(11)).to_bytes();
    let address = derive_ethereum_address(&vkey).unwrap();

    let uncompressed = k256::PublicKey::from_sec1_bytes(&vkey)
        .unwrap()
        .to_encoded_point(false);
    let hash = Keccak256::digest(&uncompressed.as_bytes()[1..]);
    assert_eq!(&address[..], &hash[12..]);

    // bytes that are no curve point are rejected
    assert!(derive_ethereum_address(&[7u8; 33]).is_err());
}

#[test]
fn party_keypair_derivation_is_deterministic() {
    let party: TypedUsize<KeygenPartyId> = TypedUsize::from_usize(3);
    let srk = dummy_secret_recovery_key(party);
    assert_eq!(&srk[..8], &[0, 0, 0, 0, 0, 0, 0, 3]);
    assert_eq!(&srk[8..], &[0u8; 56][..]);

    let nonce = vec![1u8, 2, 3];
    let kp1 = recover_party_keypair(party, &srk, &nonce).unwrap();
    let kp2 = recover_party_keypair(party, &srk, &nonce).unwrap();
    assert_eq!(kp1.ek, kp2.ek);
    assert_eq!(kp1.dk, kp2.dk);
    let kp3 = recover_party_keypair_unsafe(party, &srk, &nonce).unwrap();
    assert_eq!(kp1.ek, kp3.ek);

    // a different nonce yields different material
    let kp4 = recover_party_keypair(party, &srk, &vec![9u8]).unwrap();
    assert_ne!(kp1.dk, kp4.dk);

    let data = create_party_keypair_and_zksetup(party, &srk, &nonce).unwrap();
    assert_eq!(data.encryption_keypair.ek, kp1.ek);
    let data2 = create_party_keypair_and_zksetup_unsafe(party, &srk, &nonce).unwrap();
    assert_eq!(data.zk_setup, data2.zk_setup);
    assert_ne!(data.zk_setup, data.encryption_keypair_proof);
}

#[test]
fn random_scalars_are_canonical_and_distinct() {
    let a = SecretScalar::random_with_thread_rng();
    let b = SecretScalar::random_with_thread_rng();
    assert!(a != b);
    assert_eq!(a.to_bytes().len(), 32);
}
