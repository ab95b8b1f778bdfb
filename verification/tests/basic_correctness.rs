//! End-to-end: establish weighted key shares, run a full signing session
//! over the driver, and verify the assembled signature.

use tofn::collections::{Subset, TypedUsize, VecMap};
use tofn::curve::ecdsa_verify;
use tofn::driver::{execute_protocol, nobody_done};
use tofn::keygen::{initialize_honest_parties, KeygenPartyId, KeygenShareId};
use tofn::k256_serde::SecretScalar;
use tofn::api::to_recoverable_signature;
use tofn::party_share_counts::PartyShareCounts;
use tofn::sdk::Protocol;
use tofn::sign::{new_sign, MessageDigest, SignProtocol, SignShareId};

fn fixed_secret() -> SecretScalar {
    let mut bytes = [0u8; 32];
    bytes[0] = 0x0b;
    bytes[31] = 0xad;
    SecretScalar::from_bytes(bytes).unwrap()
}

fn run_sign(
    party_share_counts: &PartyShareCounts<KeygenPartyId>,
    key_shares: &VecMap<KeygenShareId, tofn::keygen::SecretKeyShare>,
    sign_parties: &Subset<KeygenPartyId>,
    digest: &MessageDigest,
) -> Vec<[u8; 64]> {
    let keygen_share_ids = party_share_counts
        .share_id_subset::<KeygenShareId>(sign_parties)
        .unwrap();
    let mut sign_shares: Vec<SignProtocol> = Vec::new();
    for id in &keygen_share_ids {
        let key_share = key_shares.get(*id).unwrap();
        sign_shares.push(
            new_sign(key_share.group(), key_share.share(), sign_parties, digest).unwrap(),
        );
    }
    let parties: VecMap<SignShareId, SignProtocol> = VecMap::from_vec(sign_shares);
    assert!(nobody_done(&parties));
    let outputs = execute_protocol(parties).unwrap().into_vec();
    let mut signatures = Vec::new();
    for output in outputs {
        match output {
            Protocol::NotDone(_) => panic!("sign share not done yet"),
            Protocol::Done(result) => match result {
                Ok(sig) => signatures.push(sig),
                Err(_) => panic!("sign share finished with error"),
            },
        }
    }
    signatures
}

#[test]
fn basic_correctness() {
    let party_share_counts = PartyShareCounts::from_vec(vec![1, 2, 3, 4]).unwrap(); // 10 total shares
    let threshold = 5;
    let key_shares =
        initialize_honest_parties(&party_share_counts, threshold, fixed_secret()).unwrap();
    assert_eq!(key_shares.len(), 10);

    let sign_parties = {
        let mut sign_parties = Subset::with_max_size(party_share_counts.party_count());
        sign_parties.add(TypedUsize::from_usize(0)).unwrap();
        sign_parties.add(TypedUsize::from_usize(1)).unwrap();
        sign_parties.add(TypedUsize::from_usize(3)).unwrap();
        sign_parties
    };
    let msg_to_sign = MessageDigest::from_array([42u8; 32]);
    let signatures = run_sign(&party_share_counts, &key_shares, &sign_parties, &msg_to_sign);
    assert_eq!(signatures.len(), 7); // share weight 1 + 2 + 4

    // every signer assembled the same signature
    for sig in &signatures {
        assert_eq!(sig, &signatures[0]);
    }

    // the signature verifies against the group public key
    let pubkey = key_shares
        .get(TypedUsize::from_usize(0))
        .unwrap()
        .group()
        .encoded_pubkey();
    let sig = signatures[0];
    let mut r = [0u8; 32];
    let mut s = [0u8; 32];
    r.copy_from_slice(&sig[..32]);
    s.copy_from_slice(&sig[32..]);
    assert!(ecdsa_verify(&pubkey, &[42u8; 32], &r, &s));

    // a corrupted signature or a wrong digest must not verify
    let mut bad_s = s;
    bad_s[31] ^= 1;
    assert!(!ecdsa_verify(&pubkey, &[42u8; 32], &r, &bad_s));
    assert!(!ecdsa_verify(&pubkey, &[43u8; 32], &r, &s));

    // a recovery identifier exists for the signature
    let recoverable = to_recoverable_signature(&pubkey, &vec![42u8; 32], &sig).unwrap();
    assert!(recoverable.recovery_id <= 1);
    assert_eq!(&recoverable.signature[..32], &sig[..32]);

    // identical seeds and digest: a second run reproduces the signature
    let key_shares_again =
        initialize_honest_parties(&party_share_counts, threshold, fixed_secret()).unwrap();
    let signatures_again = run_sign(
        &party_share_counts,
        &key_shares_again,
        &sign_parties,
        &msg_to_sign,
    );
    assert_eq!(signatures_again[0], sig);
}

#[test]
fn underweight_signer_subset_is_rejected() {
    let party_share_counts = PartyShareCounts::from_vec(vec![1, 2, 3, 4]).unwrap();
    let threshold = 5;
    let key_shares =
        initialize_honest_parties(&party_share_counts, threshold, fixed_secret()).unwrap();

    // parties {1, 2} carry share weight 2 + 3 = 5, not above the threshold
    let sign_parties = {
        let mut sign_parties = Subset::with_max_size(party_share_counts.party_count());
        sign_parties.add(TypedUsize::from_usize(1)).unwrap();
        sign_parties.add(TypedUsize::from_usize(2)).unwrap();
        sign_parties
    };
    let digest = MessageDigest::from_array([42u8; 32]);
    let key_share = key_shares.get(TypedUsize::from_usize(1)).unwrap();
    assert!(new_sign(key_share.group(), key_share.share(), &sign_parties, &digest).is_err());
}

#[test]
fn ceygen_splits_one_share_per_party() {
    let key = {
        let mut bytes = [0u8; 32];
        bytes[31] = 3;
        bytes.to_vec()
    };
    let (counts, shares) = tofn::keygen::ceygen(4, 2, &key).unwrap();
    assert_eq!(counts.party_count(), 4);
    assert_eq!(counts.total_share_count(), 4);
    assert_eq!(shares.len(), 4);

    // rejected parameters
    assert!(tofn::keygen::ceygen(4, 4, &key).is_err()); // threshold not below parties
    assert!(tofn::keygen::ceygen(3, 1, &vec![0u8; 32]).is_err()); // zero key
    assert!(tofn::keygen::ceygen(3, 1, &vec![1u8; 31]).is_err()); // short key
}
