//! Wire framing and the engine's structural fault handling.

use tofn::collections::{Subset, TypedUsize};
use tofn::keygen::initialize_honest_parties;
use tofn::keygen::KeygenPartyId;
use tofn::k256_serde::SecretScalar;
use tofn::party_share_counts::PartyShareCounts;
use tofn::sdk::{Fault, Protocol};
use tofn::sign::{new_sign, MessageDigest, SignProtocol};
use tofn::wire::{decode, encode, MsgKind};
use tofn::MAX_MSG_LEN;

#[test]
fn wire_round_trip() {
    let payload: Vec<u8> = vec![1, 2, 3, 4, 5];
    let encoded = encode(MsgKind::P2p, 7, 300, &payload).unwrap();
    let decoded = decode(&encoded).unwrap();
    assert_eq!(decoded.kind, MsgKind::P2p);
    assert_eq!(decoded.from, 7);
    assert_eq!(decoded.to, 300);
    assert_eq!(decoded.payload, payload);

    let empty: Vec<u8> = Vec::new();
    let encoded = encode(MsgKind::Bcast, 0, 0, &empty).unwrap();
    let decoded = decode(&encoded).unwrap();
    assert_eq!(decoded.kind, MsgKind::Bcast);
    assert_eq!(decoded.from, 0);
    assert_eq!(decoded.payload.len(), 0);
}

#[test]
fn wire_rejects_garbage() {
    // too short for a header
    assert!(decode(&vec![0, 1, 2]).is_none());
    // unknown kind byte
    assert!(decode(&vec![9, 0, 0, 0, 0, 1]).is_none());
    // index out of the encodable range
    assert!(encode(MsgKind::Bcast, 70000, 0, &Vec::new()).is_err());
}

/// Two parties with one share each, ready to run a signing session.
fn two_signers() -> Vec<SignProtocol> {
    let counts = PartyShareCounts::from_vec(vec![1, 1]).unwrap();
    let mut secret = [0u8; 32];
    secret[31] = 17;
    let key = SecretScalar::from_bytes(secret).unwrap();
    let key_shares = initialize_honest_parties(&counts, 0, key).unwrap();
    let mut sel: Subset<KeygenPartyId> = Subset::with_max_size(2);
    sel.add(TypedUsize::from_usize(0)).unwrap();
    sel.add(TypedUsize::from_usize(1)).unwrap();
    let digest = MessageDigest::from_array([42u8; 32]);
    let mut out = Vec::new();
    for i in 0..2usize {
        let share = key_shares.get(TypedUsize::from_usize(i)).unwrap();
        out.push(new_sign(share.group(), share.share(), &sel, &digest).unwrap());
    }
    out
}

#[test]
fn oversized_message_accuses_sender_only() {
    let mut signers = two_signers();
    let mut round = match signers.remove(0) {
        Protocol::NotDone(round) => round,
        Protocol::Done(_) => panic!("signer terminated before any round"),
    };
    let p2ps_before = round.p2ps_out().as_ref().map(|p| p.clone_vec().len());
    assert!(round.expecting_more_msgs_this_round());

    let oversized: Vec<u8> = vec![0u8; MAX_MSG_LEN + 1];
    round
        .msg_in(TypedUsize::from_usize(1), &oversized)
        .unwrap();

    // the receiver still stands in its round with its outputs intact
    assert!(round.bcast_out().is_none());
    let p2ps_after = round.p2ps_out().as_ref().map(|p| p.clone_vec().len());
    assert_eq!(p2ps_before, p2ps_after);
    assert!(round.expecting_more_msgs_this_round());

    // advancing surfaces the accusation of the sender
    match round.execute_next_round().unwrap() {
        Protocol::Done(Err(faulters)) => {
            assert!(faulters.get(TypedUsize::from_usize(1)).unwrap().is_some());
        }
        _ => panic!("expected a terminal accusation"),
    }
}

#[test]
fn duplicate_message_accuses_sender() {
    let mut signers = two_signers();
    let sender_round = match signers.remove(1) {
        Protocol::NotDone(round) => round,
        Protocol::Done(_) => panic!("signer terminated before any round"),
    };
    let msg = sender_round.p2ps_out().as_ref().unwrap().clone_vec().remove(0);
    let mut round = match signers.remove(0) {
        Protocol::NotDone(round) => round,
        Protocol::Done(_) => panic!("signer terminated before any round"),
    };
    round.msg_in(TypedUsize::from_usize(1), &msg).unwrap();
    round.msg_in(TypedUsize::from_usize(1), &msg).unwrap();
    match round.execute_next_round().unwrap() {
        Protocol::Done(Err(faulters)) => {
            assert!(matches!(
                faulters.get(TypedUsize::from_usize(1)).unwrap(),
                Some(Fault::CorruptedMessage)
            ));
            assert!(faulters.get(TypedUsize::from_usize(0)).unwrap().is_none());
        }
        _ => panic!("expected a terminal accusation"),
    }
}

#[test]
fn undecodable_message_accuses_sender() {
    let mut signers = two_signers();
    let mut round = match signers.remove(0) {
        Protocol::NotDone(round) => round,
        Protocol::Done(_) => panic!("signer terminated before any round"),
    };
    round
        .msg_in(TypedUsize::from_usize(1), &vec![3u8, 0u8])
        .unwrap();
    match round.execute_next_round().unwrap() {
        Protocol::Done(Err(faulters)) => {
            assert!(faulters.get(TypedUsize::from_usize(1)).unwrap().is_some());
        }
        _ => panic!("expected a terminal accusation"),
    }
}

#[test]
fn unknown_party_is_a_fatal_error() {
    let mut signers = two_signers();
    let mut round = match signers.remove(0) {
        Protocol::NotDone(round) => round,
        Protocol::Done(_) => panic!("signer terminated before any round"),
    };
    assert!(round.msg_in(TypedUsize::from_usize(5), &vec![0u8; 6]).is_err());
}
