//! Polynomial secret sharing: splitting, reconstruction, thresholds.

use tofn::k256_serde::SecretScalar;
use tofn::ss::{reconstruct, Share, Ss};

fn scalar_of_byte(b: u8) -> SecretScalar {
    let mut bytes = [0u8; 32];
    bytes[31] = b;
    SecretScalar::from_bytes(bytes).unwrap()
}

#[test]
fn split_and_reconstruct_from_threshold_plus_one() {
    let secret = scalar_of_byte(42);
    let ss = Ss::new_byok(2, secret.clone()).unwrap();
    let shares = ss.shares(5).unwrap();
    assert_eq!(shares.len(), 5);

    // any threshold + 1 = 3 shares determine the secret
    let subset: Vec<Share> = vec![shares[0].clone(), shares[2].clone(), shares[4].clone()];
    let recovered = reconstruct(&subset).unwrap();
    assert!(recovered == secret);

    let other: Vec<Share> = vec![shares[1].clone(), shares[2].clone(), shares[3].clone()];
    let recovered = reconstruct(&other).unwrap();
    assert!(recovered == secret);
}

#[test]
fn threshold_many_shares_do_not_reconstruct() {
    let secret = scalar_of_byte(42);
    let ss = Ss::new_byok(2, secret.clone()).unwrap();
    let shares = ss.shares(5).unwrap();
    // only threshold = 2 shares: interpolation of the wrong degree misses
    let subset: Vec<Share> = vec![shares[0].clone(), shares[1].clone()];
    let recovered = reconstruct(&subset).unwrap();
    assert!(recovered != secret);
}

#[test]
fn share_count_must_exceed_threshold() {
    let ss = Ss::new_byok(3, scalar_of_byte(7)).unwrap();
    assert!(ss.shares(3).is_err());
    assert!(ss.shares(2).is_err());
    assert!(ss.shares(4).is_ok());
}

#[test]
fn byok_pins_the_secret() {
    let secret = scalar_of_byte(9);
    let ss = Ss::new_byok(0, secret.clone()).unwrap();
    assert_eq!(ss.get_threshold(), 0);
    assert!(*ss.get_secret() == secret);
    // a degree-zero polynomial hands every share the secret itself
    let shares = ss.shares(3).unwrap();
    for share in &shares {
        assert!(*share.get_scalar() == secret);
    }
}

#[test]
fn reconstruct_rejects_duplicate_indices() {
    let ss = Ss::new_byok(1, scalar_of_byte(3)).unwrap();
    let shares = ss.shares(3).unwrap();
    let dup: Vec<Share> = vec![shares[0].clone(), shares[0].clone()];
    assert!(reconstruct(&dup).is_err());
}

#[test]
fn fresh_sharing_reconstructs_too() {
    let ss = Ss::new(1).unwrap();
    let secret = ss.get_secret().clone();
    let shares = ss.shares(4).unwrap();
    let subset: Vec<Share> = vec![shares[3].clone(), shares[1].clone()];
    let recovered = reconstruct(&subset).unwrap();
    assert!(recovered == secret);
}
