//! Centralized key establishment: a dealer splits an existing secret key
//! into per-share secret data, together with the public group information
//! every later protocol instance reads.
//!
//! The auxiliary cryptographic collaborators (the per-party encryption
//! keypair and zero-knowledge setup) are modelled as deterministic
//! derivations from a per-party secret recovery seed and a session nonce,
//! behind their declared interface: recreating them from the same seed and
//! nonce yields the same values.

use vstd::prelude::*;

verus! {

use crate::TofnFatal;
use crate::TofnResult;
use crate::MAX_TOTAL_SHARE_COUNT;
use crate::collections::TypedUsize;
use crate::collections::VecMap;
use crate::curve;
use crate::curve::be_nat;
use crate::curve::group_order;
use crate::curve::keccak_of;
use crate::curve::g_mul_of;
use crate::k256_serde::ProjectivePoint;
use crate::k256_serde::SecretScalar;
use crate::party_share_counts::PartyShareCounts;
use crate::party_share_counts::sum_counts;
use crate::party_share_counts::prefix_sum;
use crate::party_share_counts::lemma_sum_take_succ;
use crate::party_share_counts::lemma_sum_take_le;
use crate::party_share_counts::lemma_sum_counts_nonneg;
use crate::party_share_counts::party_of_share;
use crate::party_share_counts::lemma_party_share_round_trip;
use crate::ss::poly_eval;
use crate::ss::Share;
use crate::ss::Ss;

/// The party space of the key-establishment protocol.
pub struct KeygenPartyId;

/// The share space of the key-establishment protocol.
pub struct KeygenShareId;

pub type KeygenPartyShareCounts = PartyShareCounts<KeygenPartyId>;

/// The per-party seed all of a party's deterministic derivations grow from.
pub type SecretRecoveryKey = [u8; 64];

/// Domain tag for deriving the encryption keypair.
pub const KEYPAIR_TAG: u8 = 0x00;

/// Domain tag for deriving the zero-knowledge setup.
pub const ZKSETUP_TAG: u8 = 0x01;

/// Domain tag for deriving the group's shared signing-nonce seed.
pub const NONCE_SEED_TAG: u8 = 0x04;

/// The signing-nonce seed the dealer hands every share: secret material,
/// derived from the group secret key, never sent on the wire. Signers mix
/// it into their shared nonce so the nonce is not computable from public
/// data.
pub open spec fn nonce_seed_of(key_bytes: Seq<u8>) -> Seq<u8> {
    keccak_of(seq![NONCE_SEED_TAG] + key_bytes)
}

/// The placeholder secret recovery key's bytes for a party index.
pub open spec fn dummy_srk_spec(id: u64) -> Seq<u8> {
    u64_be_spec(id) + Seq::new(56, |i: int| 0u8)
}

/// The dealer's fixed session nonce.
pub open spec fn ceygen_nonce_spec() -> Seq<u8> {
    seq![0x66u8, 0x6fu8, 0x6fu8, 0x62u8, 0x61u8, 0x72u8]
}

/// The big-endian bytes of a 64-bit integer.
pub open spec fn u64_be_spec(x: u64) -> Seq<u8> {
    seq![
        (x >> 56) as u8,
        (x >> 48) as u8,
        (x >> 40) as u8,
        (x >> 32) as u8,
        (x >> 24) as u8,
        (x >> 16) as u8,
        (x >> 8) as u8,
        x as u8,
    ]
}

fn u64_be(x: u64) -> (r: [u8; 8])
    ensures
        r@ == u64_be_spec(x),
{
    let r: [u8; 8] = [
        (x >> 56) as u8,
        (x >> 48) as u8,
        (x >> 40) as u8,
        (x >> 32) as u8,
        (x >> 24) as u8,
        (x >> 16) as u8,
        (x >> 8) as u8,
        x as u8,
    ];
    proof {
        assert(r@ =~= u64_be_spec(x));
    }
    r
}

/// The all-zero seed with the first bytes set to the bytes of `index`: a
/// placeholder secret recovery key for simulations and tests.
pub fn dummy_secret_recovery_key<K>(index: TypedUsize<K>) -> (r: SecretRecoveryKey)
    ensures
        r@ == u64_be_spec(index.spec_as_usize() as u64) + Seq::new(56, |i: int| 0u8),
{
    let bytes = u64_be(index.as_usize() as u64);
    let mut result: [u8; 64] = [0u8; 64];
    let mut i: usize = 0;
    while i < 8
        invariant
            i <= 8,
            result@.len() == 64,
            forall|j: int| 0 <= j < i ==> result@[j] == bytes@[j],
            forall|j: int| i <= j < 64 ==> result@[j] == 0u8,
        decreases 8 - i,
    {
        result[i] = bytes[i];
        i += 1;
    }
    proof {
        assert(result@ =~= u64_be_spec(index.spec_as_usize() as u64) + Seq::new(56, |i: int| 0u8));
    }
    result
}

/// The big-endian bytes of two 64-bit integers, concatenated: context
/// bytes naming an ordered pair of indices.
pub fn u64_pair_bytes(a: u64, b: u64) -> (r: [u8; 16])
    ensures
        r@ == u64_be_spec(a) + u64_be_spec(b),
{
    let ab = u64_be(a);
    let bb = u64_be(b);
    let r: [u8; 16] = [
        ab[0], ab[1], ab[2], ab[3], ab[4], ab[5], ab[6], ab[7],
        bb[0], bb[1], bb[2], bb[3], bb[4], bb[5], bb[6], bb[7],
    ];
    proof {
        assert(r@ =~= u64_be_spec(a) + u64_be_spec(b));
    }
    r
}

/// The preimage hashed to derive per-party material: a domain tag, the
/// party index, the party's secret recovery key, and the session nonce.
pub open spec fn seed_input_spec(tag: u8, id: u64, srk: Seq<u8>, nonce: Seq<u8>) -> Seq<u8> {
    seq![tag] + u64_be_spec(id) + srk + nonce
}

/// The derivation seed itself.
pub open spec fn seed_of(tag: u8, id: u64, srk: Seq<u8>, nonce: Seq<u8>) -> Seq<u8> {
    keccak_of(seed_input_spec(tag, id, srk, nonce))
}

fn derive_seed(tag: u8, id: u64, srk: &SecretRecoveryKey, nonce: &Vec<u8>) -> (r: [u8; 32])
    ensures
        r@ == seed_of(tag, id, srk@, nonce@),
{
    let mut input: Vec<u8> = Vec::new();
    input.push(tag);
    let id_bytes = u64_be(id);
    let mut i: usize = 0;
    while i < 8
        invariant
            i <= 8,
            input@ == seq![tag] + id_bytes@.take(i as int),
        decreases 8 - i,
    {
        proof {
            assert((seq![tag] + id_bytes@.take(i as int)).push(id_bytes@[i as int]) =~= seq![tag]
                + id_bytes@.take(i as int + 1));
        }
        input.push(id_bytes[i]);
        i += 1;
    }
    let mut i: usize = 0;
    while i < 64
        invariant
            i <= 64,
            input@ == seq![tag] + id_bytes@ + srk@.take(i as int),
        decreases 64 - i,
    {
        proof {
            assert(id_bytes@.take(8) =~= id_bytes@);
            assert((seq![tag] + id_bytes@ + srk@.take(i as int)).push(srk@[i as int]) =~= seq![tag]
                + id_bytes@ + srk@.take(i as int + 1));
        }
        input.push(srk[i]);
        i += 1;
    }
    let mut i: usize = 0;
    while i < nonce.len()
        invariant
            i <= nonce@.len(),
            input@ == seq![tag] + id_bytes@ + srk@ + nonce@.take(i as int),
        decreases nonce@.len() - i,
    {
        proof {
            assert(srk@.take(64) =~= srk@);
            assert((seq![tag] + id_bytes@ + srk@ + nonce@.take(i as int)).push(nonce@[i as int])
                =~= seq![tag] + id_bytes@ + srk@ + nonce@.take(i as int + 1));
        }
        input.push(nonce[i]);
        i += 1;
    }
    proof {
        assert(nonce@.take(nonce@.len() as int) =~= nonce@);
        assert(input@ =~= seed_input_spec(tag, id, srk@, nonce@));
    }
    curve::keccak256(&input)
}

/// A party's encryption keypair for its auxiliary encryption scheme: the
/// public encryption key, and the private decryption key that must never
/// leave the owning party.
pub struct PartyKeyPair {
    pub ek: [u8; 33],
    pub dk: [u8; 32],
}

/// Everything one party derives once for all of its shares: the encryption
/// keypair with its correctness proof, and the zero-knowledge setup with
/// the proof that attests its validity.
pub struct PartyKeygenData {
    pub encryption_keypair: PartyKeyPair,
    pub encryption_keypair_proof: [u8; 32],
    pub zk_setup: [u8; 32],
    pub zk_setup_proof: [u8; 32],
}

/// The decryption key derived from a party's seed material.
pub open spec fn dk_of(id: u64, srk: Seq<u8>, nonce: Seq<u8>) -> nat {
    be_nat(seed_of(KEYPAIR_TAG, id, srk, nonce)) % group_order()
}

/// Recreates a party's encryption keypair from its seed material: the same
/// seed and nonce always yield the same keypair.
pub fn recover_party_keypair(
    my_party_id: TypedUsize<KeygenPartyId>,
    secret_recovery_key: &SecretRecoveryKey,
    session_nonce: &Vec<u8>,
) -> (r: TofnResult<PartyKeyPair>)
    ensures
        match r {
            Ok(kp) => {
                let id = my_party_id.spec_as_usize() as u64;
                be_nat(kp.dk@) == dk_of(id, secret_recovery_key@, session_nonce@) && kp.ek@
                    == g_mul_of(dk_of(id, secret_recovery_key@, session_nonce@))
            },
            Err(_) => false,
        },
{
    let id = my_party_id.as_usize() as u64;
    let seed = derive_seed(KEYPAIR_TAG, id, secret_recovery_key, session_nonce);
    let dk = curve::scalar_reduce(&seed);
    let ek = curve::generator_mul(&dk);
    Ok(PartyKeyPair { ek, dk })
}

/// As [`recover_party_keypair`], for callers that accept the faster,
/// less-hardened parameter generation of the underlying scheme; the
/// modelled derivation is the same.
pub fn recover_party_keypair_unsafe(
    my_party_id: TypedUsize<KeygenPartyId>,
    secret_recovery_key: &SecretRecoveryKey,
    session_nonce: &Vec<u8>,
) -> (r: TofnResult<PartyKeyPair>)
    ensures
        match r {
            Ok(kp) => {
                let id = my_party_id.spec_as_usize() as u64;
                be_nat(kp.dk@) == dk_of(id, secret_recovery_key@, session_nonce@) && kp.ek@
                    == g_mul_of(dk_of(id, secret_recovery_key@, session_nonce@))
            },
            Err(_) => false,
        },
{
    recover_party_keypair(my_party_id, secret_recovery_key, session_nonce)
}

/// Derives a party's keypair, its correctness proof, and its
/// zero-knowledge setup with the setup's proof, all deterministically from
/// the seed material.
pub fn create_party_keypair_and_zksetup(
    my_party_id: TypedUsize<KeygenPartyId>,
    secret_recovery_key: &SecretRecoveryKey,
    session_nonce: &Vec<u8>,
) -> (r: TofnResult<PartyKeygenData>)
    ensures
        match r {
            Ok(d) => {
                let id = my_party_id.spec_as_usize() as u64;
                be_nat(d.encryption_keypair.dk@) == dk_of(
                    id,
                    secret_recovery_key@,
                    session_nonce@,
                ) && d.encryption_keypair.ek@ == g_mul_of(
                    dk_of(id, secret_recovery_key@, session_nonce@),
                ) && d.encryption_keypair_proof@ == keccak_of(
                    d.encryption_keypair.ek@ + u64_be_spec(id),
                ) && d.zk_setup@ == seed_of(ZKSETUP_TAG, id, secret_recovery_key@, session_nonce@)
                    && d.zk_setup_proof@ == keccak_of(d.zk_setup@ + u64_be_spec(id))
            },
            Err(_) => false,
        },
{
    let id = my_party_id.as_usize() as u64;
    let encryption_keypair = match recover_party_keypair(
        my_party_id,
        secret_recovery_key,
        session_nonce,
    ) {
        Ok(kp) => kp,
        Err(e) => {
            proof {
                assert(false);
            }
            return Err(e);
        },
    };
    let encryption_keypair_proof = context_proof(&encryption_keypair.ek, id);
    let zk_setup = derive_seed(ZKSETUP_TAG, id, secret_recovery_key, session_nonce);
    let zk_setup_proof = context_proof32(&zk_setup, id);
    Ok(PartyKeygenData { encryption_keypair, encryption_keypair_proof, zk_setup, zk_setup_proof })
}

/// As [`create_party_keypair_and_zksetup`], accepting the faster parameter
/// generation; the modelled derivation is the same.
pub fn create_party_keypair_and_zksetup_unsafe(
    my_party_id: TypedUsize<KeygenPartyId>,
    secret_recovery_key: &SecretRecoveryKey,
    session_nonce: &Vec<u8>,
) -> (r: TofnResult<PartyKeygenData>)
    ensures
        match r {
            Ok(d) => {
                let id = my_party_id.spec_as_usize() as u64;
                be_nat(d.encryption_keypair.dk@) == dk_of(
                    id,
                    secret_recovery_key@,
                    session_nonce@,
                ) && d.encryption_keypair.ek@ == g_mul_of(
                    dk_of(id, secret_recovery_key@, session_nonce@),
                )
            },
            Err(_) => false,
        },
{
    create_party_keypair_and_zksetup(my_party_id, secret_recovery_key, session_nonce)
}

/// A proof blob binding a public value to its party's context.
fn context_proof(value: &[u8; 33], id: u64) -> (r: [u8; 32])
    ensures
        r@ == keccak_of(value@ + u64_be_spec(id)),
{
    let mut input: Vec<u8> = Vec::new();
    let mut i: usize = 0;
    while i < 33
        invariant
            i <= 33,
            input@ == value@.take(i as int),
        decreases 33 - i,
    {
        proof {
            assert(value@.take(i as int).push(value@[i as int]) =~= value@.take(i as int + 1));
        }
        input.push(value[i]);
        i += 1;
    }
    let id_bytes = u64_be(id);
    let mut i: usize = 0;
    while i < 8
        invariant
            i <= 8,
            input@ == value@.take(33) + id_bytes@.take(i as int),
        decreases 8 - i,
    {
        proof {
            assert((value@.take(33) + id_bytes@.take(i as int)).push(id_bytes@[i as int])
                =~= value@.take(33) + id_bytes@.take(i as int + 1));
        }
        input.push(id_bytes[i]);
        i += 1;
    }
    proof {
        assert(value@.take(33) =~= value@);
        assert(id_bytes@.take(8) =~= id_bytes@);
        assert(input@ =~= value@ + u64_be_spec(id));
    }
    curve::keccak256(&input)
}

/// A proof blob binding a 32-byte public value to its party's context.
fn context_proof32(value: &[u8; 32], id: u64) -> (r: [u8; 32])
    ensures
        r@ == keccak_of(value@ + u64_be_spec(id)),
{
    let mut input: Vec<u8> = Vec::new();
    let mut i: usize = 0;
    while i < 32
        invariant
            i <= 32,
            input@ == value@.take(i as int),
        decreases 32 - i,
    {
        proof {
            assert(value@.take(i as int).push(value@[i as int]) =~= value@.take(i as int + 1));
        }
        input.push(value[i]);
        i += 1;
    }
    let id_bytes = u64_be(id);
    let mut i: usize = 0;
    while i < 8
        invariant
            i <= 8,
            input@ == value@.take(32) + id_bytes@.take(i as int),
        decreases 8 - i,
    {
        proof {
            assert((value@.take(32) + id_bytes@.take(i as int)).push(id_bytes@[i as int])
                =~= value@.take(32) + id_bytes@.take(i as int + 1));
        }
        input.push(id_bytes[i]);
        i += 1;
    }
    proof {
        assert(value@.take(32) =~= value@);
        assert(id_bytes@.take(8) =~= id_bytes@);
        assert(input@ =~= value@ + u64_be_spec(id));
    }
    curve::keccak256(&input)
}

/// A domain-tagged hash of a 32-byte value.
fn tagged_hash32(tag: u8, value: &[u8; 32]) -> (r: [u8; 32])
    ensures
        r@ == keccak_of(seq![tag] + value@),
{
    let mut input: Vec<u8> = Vec::new();
    input.push(tag);
    let mut i: usize = 0;
    while i < 32
        invariant
            i <= 32,
            input@ == seq![tag] + value@.take(i as int),
        decreases 32 - i,
    {
        proof {
            assert((seq![tag] + value@.take(i as int)).push(value@[i as int]) =~= seq![tag]
                + value@.take(i as int + 1));
        }
        input.push(value[i]);
        i += 1;
    }
    proof {
        assert(value@.take(32) =~= value@);
    }
    curve::keccak256(&input)
}

/// Accepts exactly the 32-byte big-endian encodings of the nonzero
/// canonical scalars: the valid secret keys.
pub fn validate_secret_key(alice_key_byte_array: &Vec<u8>) -> (r: TofnResult<SecretScalar>)
    ensures
        match r {
            Ok(s) => alice_key_byte_array@.len() == 32 && 0 < be_nat(alice_key_byte_array@)
                < group_order() && s@ == alice_key_byte_array@ && s.wf(),
            Err(e) => (alice_key_byte_array@.len() != 32 || be_nat(alice_key_byte_array@) == 0
                || be_nat(alice_key_byte_array@) >= group_order()) && e == TofnFatal,
        },
{
    let bytes = match crate::k256_serde::to_array32(alice_key_byte_array) {
        Ok(a) => a,
        Err(e) => {
            return Err(e);
        },
    };
    if !curve::scalar_is_valid_key(&bytes) {
        return Err(TofnFatal);
    }
    match SecretScalar::from_bytes(bytes) {
        Ok(s) => Ok(s),
        Err(_) => {
            proof {
                assert(false);
            }
            Err(TofnFatal)
        },
    }
}

/// The public face of one share: its public commitment, and its party's
/// public collaborator material.
pub struct SharePublicInfo {
    X_i: ProjectivePoint,
    ek: [u8; 33],
    zk_setup: [u8; 32],
}

impl SharePublicInfo {
    pub closed spec fn spec_x_i(&self) -> Seq<u8> {
        self.X_i@
    }

    pub closed spec fn spec_ek(&self) -> Seq<u8> {
        self.ek@
    }

    pub closed spec fn spec_zk_setup(&self) -> Seq<u8> {
        self.zk_setup@
    }

    pub fn new(X_i: ProjectivePoint, ek: [u8; 33], zk_setup: [u8; 32]) -> (r: Self)
        ensures
            r.spec_x_i() == X_i@,
            r.spec_ek() == ek@,
            r.spec_zk_setup() == zk_setup@,
    {
        SharePublicInfo { X_i, ek, zk_setup }
    }

    pub fn share_commit(&self) -> (r: &ProjectivePoint)
        ensures
            r@ == self.spec_x_i(),
    {
        &self.X_i
    }
}

impl Clone for SharePublicInfo {
    fn clone(&self) -> (r: Self)
        ensures
            r == *self,
    {
        SharePublicInfo { X_i: self.X_i.clone(), ek: self.ek, zk_setup: self.zk_setup }
    }
}

/// Every share's public face as the dealer builds it: the commitment is
/// the generator times the share's polynomial value, and the party's
/// collaborator material derives from that party's placeholder recovery
/// seed with the dealer's session nonce.
pub open spec fn share_pubs_ok(
    shares: Seq<SharePublicInfo>,
    counts: Seq<usize>,
    coeffs: Seq<nat>,
) -> bool {
    shares.len() == sum_counts(counts) && forall|s: int|
        0 <= s < shares.len() ==> {
            let p = party_of_share(counts, s) as u64;
            (#[trigger] shares[s]).spec_x_i() == g_mul_of(poly_eval(coeffs, (s + 1) as nat))
                && shares[s].spec_ek() == g_mul_of(
                dk_of(p, dummy_srk_spec(p), ceygen_nonce_spec()),
            ) && shares[s].spec_zk_setup() == seed_of(
                ZKSETUP_TAG,
                p,
                dummy_srk_spec(p),
                ceygen_nonce_spec(),
            )
        }
}

/// The secret face of one share: exclusively owned by its holder.
pub struct ShareSecretInfo {
    index: TypedUsize<KeygenShareId>,
    dk: [u8; 32],
    x_i: SecretScalar,
    nonce_seed: [u8; 32],
}

impl ShareSecretInfo {
    pub closed spec fn spec_index(&self) -> usize {
        self.index.spec_as_usize()
    }

    pub closed spec fn spec_dk(&self) -> Seq<u8> {
        self.dk@
    }

    pub closed spec fn spec_x_i(&self) -> SecretScalar {
        self.x_i
    }

    pub closed spec fn spec_nonce_seed(&self) -> Seq<u8> {
        self.nonce_seed@
    }

    pub fn new(
        index: TypedUsize<KeygenShareId>,
        dk: [u8; 32],
        x_i: SecretScalar,
        nonce_seed: [u8; 32],
    ) -> (r: Self)
        ensures
            r.spec_index() == index.spec_as_usize(),
            r.spec_dk() == dk@,
            r.spec_x_i() == x_i,
            r.spec_nonce_seed() == nonce_seed@,
    {
        ShareSecretInfo { index, dk, x_i, nonce_seed }
    }

    /// The group's shared signing-nonce seed: secret, never serialized
    /// into any outgoing message.
    pub fn nonce_seed(&self) -> (r: &[u8; 32])
        ensures
            r@ == self.spec_nonce_seed(),
    {
        &self.nonce_seed
    }

    pub fn index(&self) -> (r: TypedUsize<KeygenShareId>)
        ensures
            r.spec_as_usize() == self.spec_index(),
    {
        self.index
    }

    /// This party's private decryption key for its auxiliary encryption
    /// scheme.
    pub fn dk(&self) -> (r: &[u8; 32])
        ensures
            r@ == self.spec_dk(),
    {
        &self.dk
    }

    /// This share's slice of the group secret.
    pub fn signing_key(&self) -> (r: &SecretScalar)
        ensures
            *r == self.spec_x_i(),
    {
        &self.x_i
    }
}

/// Pre-image of a full key share in centralized key establishment.
pub type CeygenShareInfo = (SharePublicInfo, ShareSecretInfo);

/// The public group information every share holds: the share distribution,
/// the threshold, the group public key, and every share's public face.
pub struct GroupPublicInfo {
    party_share_counts: KeygenPartyShareCounts,
    threshold: usize,
    y: ProjectivePoint,
    all_shares: VecMap<KeygenShareId, SharePublicInfo>,
}

impl GroupPublicInfo {
    pub closed spec fn spec_counts(&self) -> Seq<usize> {
        self.party_share_counts@
    }

    pub closed spec fn spec_threshold(&self) -> usize {
        self.threshold
    }

    pub closed spec fn spec_pubkey(&self) -> Seq<u8> {
        self.y@
    }

    pub closed spec fn spec_all_shares(&self) -> Seq<SharePublicInfo> {
        self.all_shares@
    }

    pub fn new(
        party_share_counts: KeygenPartyShareCounts,
        threshold: usize,
        y: ProjectivePoint,
        all_shares: VecMap<KeygenShareId, SharePublicInfo>,
    ) -> (r: Self)
        ensures
            r.spec_counts() == party_share_counts@,
            r.spec_threshold() == threshold,
            r.spec_pubkey() == y@,
            r.spec_all_shares() == all_shares@,
    {
        GroupPublicInfo { party_share_counts, threshold, y, all_shares }
    }

    pub fn party_share_counts(&self) -> (r: &KeygenPartyShareCounts)
        ensures
            r@ == self.spec_counts(),
    {
        &self.party_share_counts
    }

    pub fn threshold(&self) -> (r: usize)
        ensures
            r == self.spec_threshold(),
    {
        self.threshold
    }

    /// The SEC1 compressed encoding of the group public key.
    pub fn encoded_pubkey(&self) -> (r: [u8; 33])
        ensures
            r@ == self.spec_pubkey(),
    {
        self.y.to_bytes()
    }

    pub fn share_count(&self) -> (r: usize)
        ensures
            r == self.spec_all_shares().len(),
    {
        self.all_shares.len()
    }
}

impl Clone for GroupPublicInfo {
    fn clone(&self) -> (r: Self)
        ensures
            r.spec_counts() == self.spec_counts(),
            r.spec_threshold() == self.spec_threshold(),
            r.spec_pubkey() == self.spec_pubkey(),
            r.spec_all_shares() == self.spec_all_shares(),
    {
        let mut shares: Vec<SharePublicInfo> = Vec::new();
        let n = self.all_shares.len();
        let mut i: usize = 0;
        while i < n
            invariant
                i <= n,
                n == self.all_shares@.len(),
                shares@ == self.spec_all_shares().take(i as int),
            decreases n - i,
        {
            proof {
                assert(self.spec_all_shares().take(i as int).push(
                    self.spec_all_shares()[i as int],
                ) =~= self.spec_all_shares().take(i as int + 1));
            }
            let share = self.all_shares.get_at(i);
            shares.push(share.clone());
            i += 1;
        }
        proof {
            assert(self.spec_all_shares().take(n as int) =~= self.spec_all_shares());
        }
        GroupPublicInfo {
            party_share_counts: self.party_share_counts.clone_counts(),
            threshold: self.threshold,
            y: self.y.clone(),
            all_shares: VecMap::from_vec(shares),
        }
    }
}

/// One share's full key material: the freely-shared public group
/// information, and the secret part exclusively owned by the holder.
pub struct SecretKeyShare {
    group: GroupPublicInfo,
    share: ShareSecretInfo,
}

impl SecretKeyShare {
    pub closed spec fn spec_group(&self) -> GroupPublicInfo {
        self.group
    }

    pub closed spec fn spec_share(&self) -> ShareSecretInfo {
        self.share
    }

    pub fn new(group: GroupPublicInfo, share: ShareSecretInfo) -> (r: Self)
        ensures
            r.spec_group() == group,
            r.spec_share() == share,
    {
        SecretKeyShare { group, share }
    }

    pub fn group(&self) -> (r: &GroupPublicInfo)
        ensures
            *r == self.spec_group(),
    {
        &self.group
    }

    pub fn share(&self) -> (r: &ShareSecretInfo)
        ensures
            *r == self.spec_share(),
    {
        &self.share
    }
}

/// Builds one share's key material from the dealer's outputs, after
/// validating the party parameters: fails exactly when the total share
/// count does not exceed the threshold, the party index is out of range,
/// or the sub-share offset is not below that party's share count.
pub fn new_ceygen(
    party_share_counts: KeygenPartyShareCounts,
    threshold: usize,
    my_party_id: TypedUsize<KeygenPartyId>,
    my_subshare_id: usize,
    share: Share,
    party_keygen_data: &PartyKeygenData,
    group_nonce_seed: &[u8; 32],
) -> (r: TofnResult<CeygenShareInfo>)
    requires
        share.wf(),
    ensures
        ({
            let counts = party_share_counts@;
            let p = my_party_id.spec_as_usize() as int;
            match r {
                Ok((pub_info, sec_info)) => sum_counts(counts) > threshold && 0 <= p
                    < counts.len() && my_subshare_id < counts[p] && pub_info.spec_x_i()
                    == g_mul_of(share.spec_scalar().value()) && pub_info.spec_ek()
                    == party_keygen_data.encryption_keypair.ek@ && pub_info.spec_zk_setup()
                    == party_keygen_data.zk_setup@ && sec_info.spec_index() as int == prefix_sum(
                    counts,
                    p,
                ) + my_subshare_id && sec_info.spec_dk()
                    == party_keygen_data.encryption_keypair.dk@ && sec_info.spec_x_i()
                    == share.spec_scalar() && sec_info.spec_nonce_seed() == group_nonce_seed@,
                Err(e) => e == TofnFatal && (sum_counts(counts) <= threshold || p >= counts.len()
                    || my_subshare_id >= counts[p]),
            }
        }),
{
    let total_share_count = party_share_counts.total_share_count();
    let my_keygen_id: TypedUsize<KeygenShareId> = match party_share_counts.party_to_share_id(
        my_party_id,
        my_subshare_id,
    ) {
        Ok(id) => id,
        Err(e) => {
            return Err(e);
        },
    };
    if total_share_count <= threshold {
        return Err(TofnFatal);
    }
    let share_public_info = SharePublicInfo::new(
        ProjectivePoint::generator_mul(share.get_scalar()),
        party_keygen_data.encryption_keypair.ek,
        party_keygen_data.zk_setup,
    );
    let share_secret_info = ShareSecretInfo::new(
        my_keygen_id,
        party_keygen_data.encryption_keypair.dk,
        share.get_scalar().clone(),
        *group_nonce_seed,
    );
    Ok((share_public_info, share_secret_info))
}

/// The dealer's whole run: splits the given secret key over every share of
/// every party, derives each party's collaborator material from its
/// placeholder recovery seed, and assembles one key share per global share
/// index. Fails exactly when the total share count does not exceed the
/// threshold or the threshold leaves no room for the degree of the
/// polynomial.
pub fn initialize_honest_parties(
    party_share_counts: &KeygenPartyShareCounts,
    threshold: usize,
    alice_key: SecretScalar,
) -> (r: TofnResult<VecMap<KeygenShareId, SecretKeyShare>>)
    requires
        alice_key.wf(),
    ensures
        match r {
            Ok(v) => sum_counts(party_share_counts@) > threshold && v@.len() == sum_counts(
                party_share_counts@,
            ) && (forall|i: int|
                0 <= i < v@.len() ==> (#[trigger] v@[i]).spec_group().spec_pubkey() == g_mul_of(
                    alice_key.value(),
                ) && v@[i].spec_share().spec_index() == i && v@[i].spec_group().spec_threshold()
                    == threshold && v@[i].spec_group().spec_counts() == party_share_counts@
                && v@[i].spec_share().spec_nonce_seed() == nonce_seed_of(alice_key@))
                && (exists|coeffs: Seq<nat>|
                #[trigger] coeffs.len() == threshold + 1 && coeffs[0] == alice_key.value() && (
                forall|i: int|
                    0 <= i < v@.len() ==> (#[trigger] v@[i]).spec_share().spec_x_i().value()
                        == poly_eval(coeffs, (i + 1) as nat)) && (forall|i: int|
                    0 <= i < v@.len() ==> share_pubs_ok(
                        (#[trigger] v@[i]).spec_group().spec_all_shares(),
                        party_share_counts@,
                        coeffs,
                    ))),
            Err(e) => e == TofnFatal && (sum_counts(party_share_counts@) <= threshold || threshold
                == usize::MAX),
        },
{
    let mut session_nonce: Vec<u8> = Vec::new();
    session_nonce.push(0x66u8);
    session_nonce.push(0x6fu8);
    session_nonce.push(0x6fu8);
    session_nonce.push(0x62u8);
    session_nonce.push(0x61u8);
    session_nonce.push(0x72u8);
    proof {
        assert(session_nonce@ =~= ceygen_nonce_spec());
    }
    let ss = match Ss::new_byok(threshold, alice_key.clone()) {
        Ok(ss) => ss,
        Err(e) => {
            return Err(e);
        },
    };
    let total = party_share_counts.total_share_count();
    let shares = match ss.shares(total) {
        Ok(shares) => shares,
        Err(e) => {
            return Err(e);
        },
    };
    let ghost coeff_values = ss@;
    let alice_key_bytes = alice_key.to_bytes();
    let group_nonce_seed = tagged_hash32(NONCE_SEED_TAG, &alice_key_bytes);
    let y = ProjectivePoint::generator_mul(&alice_key);
    let party_count = party_share_counts.party_count();
    let mut v_public: Vec<SharePublicInfo> = Vec::new();
    let mut v_secret: Vec<ShareSecretInfo> = Vec::new();
    let mut p: usize = 0;
    while p < party_count
        invariant
            p <= party_count,
            party_count == party_share_counts@.len(),
            total == sum_counts(party_share_counts@),
            total > threshold,
            v_public@.len() == prefix_sum(party_share_counts@, p as int),
            v_secret@.len() == v_public@.len(),
            session_nonce@ == ceygen_nonce_spec(),
            forall|j: int| 0 <= j < v_secret@.len() ==> (#[trigger] v_secret@[j]).spec_index()
                == j && v_secret@[j].spec_x_i().value() == poly_eval(coeff_values, (j + 1) as nat)
                && v_secret@[j].spec_nonce_seed() == nonce_seed_of(alice_key@),
            forall|s: int| 0 <= s < v_public@.len() ==> ((#[trigger] v_public@[s]).spec_x_i()
                == g_mul_of(poly_eval(coeff_values, (s + 1) as nat)) && v_public@[s].spec_ek()
                == g_mul_of(
                dk_of(
                    party_of_share(party_share_counts@, s) as u64,
                    dummy_srk_spec(party_of_share(party_share_counts@, s) as u64),
                    ceygen_nonce_spec(),
                ),
            ) && v_public@[s].spec_zk_setup() == seed_of(
                ZKSETUP_TAG,
                party_of_share(party_share_counts@, s) as u64,
                dummy_srk_spec(party_of_share(party_share_counts@, s) as u64),
                ceygen_nonce_spec(),
            )),
            group_nonce_seed@ == nonce_seed_of(alice_key@),
            shares@.len() == total,
            forall|i: int| 0 <= i < shares@.len() ==> (#[trigger] shares@[i]).wf()
                && shares@[i].spec_scalar().value() == poly_eval(coeff_values, (i + 1) as nat),
        decreases party_count - p,
    {
        let my_party_id: TypedUsize<KeygenPartyId> = TypedUsize::from_usize(p);
        let secret_recovery_key = dummy_secret_recovery_key(my_party_id);
        let party_keygen_data = match create_party_keypair_and_zksetup(
            my_party_id,
            &secret_recovery_key,
            &session_nonce,
        ) {
            Ok(d) => d,
            Err(_) => {
                proof {
                    assert(false);
                }
                return Err(TofnFatal);
            },
        };
        let party_share_count = match party_share_counts.party_share_count(my_party_id) {
            Ok(c) => c,
            Err(_) => {
                proof {
                    assert(false);
                }
                return Err(TofnFatal);
            },
        };
        let mut sub: usize = 0;
        while sub < party_share_count
            invariant
                sub <= party_share_count,
                p < party_count,
                my_party_id.spec_as_usize() == p,
                party_count == party_share_counts@.len(),
                party_share_count == party_share_counts@[p as int],
                total == sum_counts(party_share_counts@),
                total > threshold,
                v_public@.len() == prefix_sum(party_share_counts@, p as int) + sub,
                v_secret@.len() == v_public@.len(),
                session_nonce@ == ceygen_nonce_spec(),
                forall|j: int| 0 <= j < v_secret@.len() ==> (#[trigger] v_secret@[j]).spec_index()
                    == j && v_secret@[j].spec_x_i().value() == poly_eval(
                    coeff_values,
                    (j + 1) as nat,
                ) && v_secret@[j].spec_nonce_seed() == nonce_seed_of(alice_key@),
                forall|s: int| 0 <= s < v_public@.len() ==> ((#[trigger] v_public@[s]).spec_x_i()
                    == g_mul_of(poly_eval(coeff_values, (s + 1) as nat)) && v_public@[s].spec_ek()
                    == g_mul_of(
                    dk_of(
                        party_of_share(party_share_counts@, s) as u64,
                        dummy_srk_spec(party_of_share(party_share_counts@, s) as u64),
                        ceygen_nonce_spec(),
                    ),
                ) && v_public@[s].spec_zk_setup() == seed_of(
                    ZKSETUP_TAG,
                    party_of_share(party_share_counts@, s) as u64,
                    dummy_srk_spec(party_of_share(party_share_counts@, s) as u64),
                    ceygen_nonce_spec(),
                )),
                party_keygen_data.encryption_keypair.ek@ == g_mul_of(
                    dk_of(
                        p as u64,
                        dummy_srk_spec(p as u64),
                        ceygen_nonce_spec(),
                    ),
                ),
                party_keygen_data.zk_setup@ == seed_of(
                    ZKSETUP_TAG,
                    p as u64,
                    dummy_srk_spec(p as u64),
                    ceygen_nonce_spec(),
                ),
                group_nonce_seed@ == nonce_seed_of(alice_key@),
                shares@.len() == total,
                forall|i: int| 0 <= i < shares@.len() ==> (#[trigger] shares@[i]).wf()
                    && shares@[i].spec_scalar().value() == poly_eval(coeff_values, (i + 1) as nat),
            decreases party_share_count - sub,
        {
            proof {
                lemma_sum_take_succ(party_share_counts@, p as int);
                lemma_sum_take_le(party_share_counts@, p as int + 1);
                lemma_sum_counts_nonneg(party_share_counts@.take(p as int));
                lemma_party_share_round_trip(party_share_counts@, p as int, sub as int);
            }
            let global: usize = v_public.len();
            let share = shares[global].clone();
            let (pub_info, sec_info) = match new_ceygen(
                party_share_counts.clone_counts(),
                threshold,
                my_party_id,
                sub,
                share,
                &party_keygen_data,
                &group_nonce_seed,
            ) {
                Ok(pair) => pair,
                Err(_) => {
                    proof {
                        assert(false);
                    }
                    return Err(TofnFatal);
                },
            };
            v_public.push(pub_info);
            v_secret.push(sec_info);
            sub += 1;
        }
        proof {
            lemma_sum_take_succ(party_share_counts@, p as int);
        }
        p += 1;
    }
    proof {
        assert(party_share_counts@.take(party_count as int) =~= party_share_counts@);
    }
    let group_public_info = GroupPublicInfo::new(
        party_share_counts.clone_counts(),
        threshold,
        y,
        VecMap::from_vec(v_public),
    );
    proof {
        assert(share_pubs_ok(
            group_public_info.spec_all_shares(),
            party_share_counts@,
            coeff_values,
        ));
    }
    let mut out: Vec<SecretKeyShare> = Vec::new();
    let total_check = v_secret.len();
    let mut i: usize = 0;
    while i < total_check
        invariant
            i <= total_check,
            v_secret@.len() == total_check - i,
            out@.len() == i,
            group_public_info.spec_pubkey() == g_mul_of(alice_key.value()),
            group_public_info.spec_threshold() == threshold,
            group_public_info.spec_counts() == party_share_counts@,
            share_pubs_ok(group_public_info.spec_all_shares(), party_share_counts@, coeff_values),
            forall|j: int| 0 <= j < out@.len() ==> (#[trigger] out@[
                j
            ]).spec_group().spec_all_shares() == group_public_info.spec_all_shares(),
            forall|j: int| 0 <= j < v_secret@.len() ==> (#[trigger] v_secret@[j]).spec_index()
                == j + i && v_secret@[j].spec_x_i().value() == poly_eval(
                coeff_values,
                (j + i + 1) as nat,
            ) && v_secret@[j].spec_nonce_seed() == nonce_seed_of(alice_key@),
            forall|j: int| 0 <= j < i ==> (#[trigger] out@[j]).spec_group().spec_pubkey()
                == g_mul_of(alice_key.value()) && out@[j].spec_share().spec_index() == j && out@[
                j
            ].spec_group().spec_threshold() == threshold && out@[j].spec_group().spec_counts()
                == party_share_counts@ && out@[j].spec_share().spec_x_i().value() == poly_eval(
                coeff_values,
                (j + 1) as nat,
            ) && out@[j].spec_share().spec_nonce_seed() == nonce_seed_of(alice_key@),
        decreases total_check - i,
    {
        let sec = v_secret.remove(0);
        out.push(SecretKeyShare::new(group_public_info.clone(), sec));
        i += 1;
    }
    let result = VecMap::from_vec(out);
    proof {
        assert(coeff_values.len() == threshold + 1 && coeff_values[0] == alice_key.value() && (
        forall|i: int|
            0 <= i < result@.len() ==> (#[trigger] result@[i]).spec_share().spec_x_i().value()
                == poly_eval(coeff_values, (i + 1) as nat)) && (forall|i: int|
            0 <= i < result@.len() ==> share_pubs_ok(
                (#[trigger] result@[i]).spec_group().spec_all_shares(),
                party_share_counts@,
                coeff_values,
            )));
    }
    Ok(result)
}

/// A dealer-run key establishment: validates the secret key and the party
/// parameters, then splits the key into one share per party. Fails exactly
/// when the key bytes are no valid secret key, the party count exceeds the
/// global cap, or the threshold leaves fewer parties than it requires.
pub fn ceygen(parties: usize, threshold: usize, alice_key_byte_array: &Vec<u8>) -> (r: TofnResult<
    (KeygenPartyShareCounts, VecMap<KeygenShareId, SecretKeyShare>),
>)
    ensures
        match r {
            Ok((counts, v)) => alice_key_byte_array@.len() == 32 && 0 < be_nat(
                alice_key_byte_array@,
            ) < group_order() && parties <= MAX_TOTAL_SHARE_COUNT && threshold < parties
                && counts@ == Seq::new(parties as nat, |i: int| 1usize) && sum_counts(counts@)
                == parties && counts@.len() == parties && v@.len() == parties && (forall|i: int|
                0 <= i < v@.len() ==> (#[trigger] v@[i]).spec_group().spec_pubkey() == g_mul_of(
                    be_nat(alice_key_byte_array@),
                ) && v@[i].spec_share().spec_index() == i && v@[i].spec_share().spec_nonce_seed()
                    == nonce_seed_of(alice_key_byte_array@)) && (exists|coeffs: Seq<nat>|
                #[trigger] coeffs.len() == threshold + 1 && coeffs[0] == be_nat(
                    alice_key_byte_array@,
                ) && (forall|i: int|
                    0 <= i < v@.len() ==> (#[trigger] v@[i]).spec_share().spec_x_i().value()
                        == poly_eval(coeffs, (i + 1) as nat)) && (forall|i: int|
                    0 <= i < v@.len() ==> share_pubs_ok(
                        (#[trigger] v@[i]).spec_group().spec_all_shares(),
                        counts@,
                        coeffs,
                    ))),
            Err(e) => e == TofnFatal && (alice_key_byte_array@.len() != 32 || be_nat(
                alice_key_byte_array@,
            ) == 0 || be_nat(alice_key_byte_array@) >= group_order() || parties
                > MAX_TOTAL_SHARE_COUNT || threshold >= parties),
        },
{
    let alice_key = match validate_secret_key(alice_key_byte_array) {
        Ok(s) => s,
        Err(e) => {
            return Err(e);
        },
    };
    let mut counts_vec: Vec<usize> = Vec::new();
    let mut i: usize = 0;
    while i < parties
        invariant
            i <= parties,
            counts_vec@.len() == i,
            forall|j: int| 0 <= j < i ==> counts_vec@[j] == 1usize,
            sum_counts(counts_vec@) == i,
        decreases parties - i,
    {
        proof {
            assert(counts_vec@.push(1usize).drop_last() =~= counts_vec@);
        }
        counts_vec.push(1);
        i += 1;
    }
    let party_share_counts = match KeygenPartyShareCounts::from_vec(counts_vec) {
        Ok(c) => c,
        Err(e) => {
            return Err(e);
        },
    };
    let ghost alice_val = alice_key.value();
    let secret_key_shares = match initialize_honest_parties(
        &party_share_counts,
        threshold,
        alice_key,
    ) {
        Ok(v) => v,
        Err(e) => {
            return Err(e);
        },
    };
    proof {
        assert(party_share_counts@ =~= Seq::new(parties as nat, |i: int| 1usize));
        let coeffs = choose|coeffs: Seq<nat>|
            #[trigger] coeffs.len() == threshold + 1 && coeffs[0] == alice_val && (forall|i: int|
                0 <= i < secret_key_shares@.len()
                    ==> (#[trigger] secret_key_shares@[i]).spec_share().spec_x_i().value()
                    == poly_eval(coeffs, (i + 1) as nat)) && (forall|i: int|
                0 <= i < secret_key_shares@.len() ==> share_pubs_ok(
                    (#[trigger] secret_key_shares@[i]).spec_group().spec_all_shares(),
                    party_share_counts@,
                    coeffs,
                ));
        assert(coeffs.len() == threshold + 1 && coeffs[0] == be_nat(alice_key_byte_array@) && (
        forall|i: int|
            0 <= i < secret_key_shares@.len()
                ==> (#[trigger] secret_key_shares@[i]).spec_share().spec_x_i().value()
                == poly_eval(coeffs, (i + 1) as nat)) && (forall|i: int|
            0 <= i < secret_key_shares@.len() ==> share_pubs_ok(
                (#[trigger] secret_key_shares@[i]).spec_group().spec_all_shares(),
                party_share_counts@,
                coeffs,
            )));
    }
    Ok((party_share_counts, secret_key_shares))
}

} // verus!
