//! The signing protocol instance: the selected shares jointly assemble an
//! ECDSA signature over their Shamir shares of the group key.
//!
//! Round 1 sends every other signer a pairwise blinding mask derived
//! deterministically from this share's secret material. Round 2 broadcasts
//! the masked partial signature scalar; the masks cancel in the sum, which
//! every signer normalizes into the final signature. Given identical
//! per-party secrets and the same digest, every run produces the same
//! signature.
//!
//! The shared signing nonce is derived from the dealer's secret nonce seed
//! together with the digest, so it is not computable from the public
//! transcript. Every signer holds the seed; keeping the nonce secret from
//! coalitions of signers below the threshold needs the full
//! threshold-signing round mathematics, which stays a collaborator
//! contract for the adopting team.

use vstd::prelude::*;

verus! {

use core::marker::PhantomData;
use crate::TofnFatal;
use crate::TofnResult;
use crate::MAX_MSG_LEN;
use crate::collections::TypedUsize;
use crate::collections::VecMap;
use crate::collections::HoleVecMap;
use crate::collections::FillVecMap;
use crate::collections::Subset;
use crate::curve;
use crate::curve::be_nat;
use crate::curve::group_order;
use crate::keygen::KeygenPartyId;
use crate::keygen::KeygenShareId;
use crate::keygen::GroupPublicInfo;
use crate::keygen::ShareSecretInfo;
use crate::keygen::u64_be_spec;
use crate::curve::keccak_of;
use crate::curve::g_mul_of;
use crate::party_share_counts::PartyShareCounts;
use crate::party_share_counts::selected_shares;
use crate::party_share_counts::selected_weight;
use crate::party_share_counts::sum_counts;
use crate::party_share_counts::lemma_selected_weight_le_sum;
use crate::party_share_counts::lemma_selected_weight_len;
use crate::party_share_counts::lemma_selected_shares_in_range;
use crate::ss::num_prod;
use crate::ss::den_prod;
use crate::ss::inv_mod;
use crate::ss::lagrange_coeff;
use crate::ss::lemma_inv_mod_witness;
use crate::sdk::Executer;
use crate::sdk::Fault;
use crate::sdk::Protocol;
use crate::sdk::ProtocolBuilder;
use crate::sdk::Round;
use crate::sdk::RoundBuilder;
use crate::sdk::RoundInfo;
use crate::wire;
use crate::wire::MsgKind;

/// The share space of one signing session.
pub struct SignShareId;

/// The party space of one signing session.
pub struct SignPartyId;

/// The parties chosen to take part in signing.
pub type SignParties = Subset<KeygenPartyId>;

/// Domain tag for deriving the shared signing nonce.
pub const SIGN_TAG: u8 = 0x02;

/// Domain tag for deriving the pairwise blinding masks.
pub const MASK_TAG: u8 = 0x03;

/// The x-coordinates the selected shares were evaluated at: each selected
/// global share index plus one.
pub open spec fn sign_xs(counts: Seq<usize>, flags: Seq<bool>) -> Seq<nat> {
    selected_shares(counts, flags, counts.len() as int).map_values(|e: int| (e + 1) as nat)
}

/// The shared signing nonce: the hash of the secret seed and the digest,
/// reduced into the scalar field.
pub open spec fn nonce_of(seed: Seq<u8>, digest: Seq<u8>) -> nat {
    be_nat(keccak_of(seq![SIGN_TAG] + seed + digest)) % group_order()
}

/// The signature's first scalar: the x-coordinate bytes of the nonce point,
/// reduced into the scalar field.
pub open spec fn r_scalar_of(seed: Seq<u8>, digest: Seq<u8>) -> nat {
    be_nat(g_mul_of(nonce_of(seed, digest)).skip(1)) % group_order()
}

/// The sum, modulo the group order, of the first `n` buffered partials.
pub open spec fn partials_sum(slots: Seq<Option<Vec<u8>>>, n: int) -> nat
    decreases n,
{
    if n <= 0 {
        0
    } else {
        (partials_sum(slots, n - 1) + be_nat(slots[n - 1].unwrap()@)) % group_order()
    }
}

/// The masked round-1 partial: a start value plus every buffered mask from
/// the senders other than this share, summed left to right modulo the
/// group order.
pub open spec fn r1_masked(t0: nat, slots: Seq<Option<Vec<u8>>>, skip_idx: int, n: int) -> nat
    decreases n,
{
    if n <= 0 {
        t0
    } else if n - 1 == skip_idx {
        r1_masked(t0, slots, skip_idx, n - 1)
    } else {
        (r1_masked(t0, slots, skip_idx, n - 1) + be_nat(slots[n - 1].unwrap()@)) % group_order()
    }
}

/// The preimage of the pairwise blinding mask one share sends another.
pub open spec fn mask_preimage(x_bytes: Seq<u8>, digest: Seq<u8>, from: u64, to: u64) -> Seq<u8> {
    seq![MASK_TAG] + x_bytes + digest + u64_be_spec(from) + u64_be_spec(to)
}

/// The mask value itself.
pub open spec fn mask_of(x_bytes: Seq<u8>, digest: Seq<u8>, from: u64, to: u64) -> nat {
    be_nat(keccak_of(mask_preimage(x_bytes, digest, from, to))) % group_order()
}

/// The sum of the masks sign share `me` sends to the sign shares before
/// `n`, modulo the group order.
pub open spec fn mask_balance_of(x_bytes: Seq<u8>, digest: Seq<u8>, me: int, n: int) -> nat
    decreases n,
{
    if n <= 0 {
        0
    } else if n - 1 == me {
        mask_balance_of(x_bytes, digest, me, n - 1)
    } else {
        (mask_balance_of(x_bytes, digest, me, n - 1) + mask_of(
            x_bytes,
            digest,
            me as u64,
            (n - 1) as u64,
        )) % group_order()
    }
}

/// Sign share `me`'s unmasked partial: its Lagrange-weighted share of the
/// key, scaled by the signature's first scalar and the nonce inverse, with
/// the message term carried by the first sign share.
pub open spec fn t_i_of(
    seed: Seq<u8>,
    x_bytes: Seq<u8>,
    xs: Seq<nat>,
    me: int,
    digest: Seq<u8>,
) -> nat {
    let kinv = inv_mod(nonce_of(seed, digest));
    let r = r_scalar_of(seed, digest);
    let u = (lagrange_coeff(xs, me) * be_nat(x_bytes)) % group_order();
    let base = (kinv * ((r * u) % group_order())) % group_order();
    if me == 0 {
        (base + (kinv * (be_nat(digest) % group_order())) % group_order()) % group_order()
    } else {
        base
    }
}

/// The low-s normalization of a scalar value.
pub open spec fn low_s(v: nat) -> nat {
    if v > group_order() / 2 {
        (group_order() - v) as nat
    } else {
        v
    }
}

/// A 32-byte message digest, the only form of message the signer accepts.
pub struct MessageDigest {
    bytes: [u8; 32],
}

impl MessageDigest {
    pub closed spec fn view(&self) -> Seq<u8> {
        self.bytes@
    }

    pub fn from_array(bytes: [u8; 32]) -> (r: Self)
        ensures
            r@ == bytes@,
    {
        MessageDigest { bytes }
    }

    /// Accepts exactly the 32-byte buffers.
    pub fn from_slice(bytes: &Vec<u8>) -> (r: TofnResult<Self>)
        ensures
            match r {
                Ok(d) => bytes@.len() == 32 && d@ == bytes@,
                Err(e) => bytes@.len() != 32 && e == TofnFatal,
            },
    {
        match crate::k256_serde::to_array32(bytes) {
            Ok(a) => Ok(MessageDigest { bytes: a }),
            Err(e) => Err(e),
        }
    }

    pub fn as_array(&self) -> (r: &[u8; 32])
        ensures
            r@ == self@,
    {
        &self.bytes
    }
}

impl Clone for MessageDigest {
    fn clone(&self) -> (r: Self)
        ensures
            r == *self,
    {
        MessageDigest { bytes: self.bytes }
    }
}

/// The round-2 broadcast: this signer's masked partial signature scalar.
pub struct Bcast {
    pub partial: [u8; 32],
}

impl Bcast {
    /// The wire payload: the scalar bytes themselves.
    pub fn to_payload(&self) -> (r: Vec<u8>)
        ensures
            r@ == self.partial@,
    {
        let mut out: Vec<u8> = Vec::new();
        let mut j: usize = 0;
        while j < 32
            invariant
                j <= 32,
                out@ == self.partial@.take(j as int),
            decreases 32 - j,
        {
            proof {
                assert(self.partial@.take(j as int).push(self.partial@[j as int])
                    =~= self.partial@.take(j as int + 1));
            }
            out.push(self.partial[j]);
            j += 1;
        }
        proof {
            assert(self.partial@.take(32) =~= self.partial@);
        }
        out
    }

    /// Reads a payload back; `None` when it is no canonical scalar.
    pub fn from_payload(payload: &Vec<u8>) -> (r: Option<Self>)
        ensures
            match r {
                Some(b) => payload@.len() == 32 && b.partial@ == payload@ && be_nat(b.partial@)
                    < group_order(),
                None => payload@.len() != 32 || be_nat(payload@) >= group_order(),
            },
    {
        match parse_scalar(payload) {
            Some(partial) => Some(Bcast { partial }),
            None => None,
        }
    }
}

/// State carried into round 1: the unmasked partial, the sum of the masks
/// this signer sent, and the signature's first scalar.
pub struct R1State {
    t_i: [u8; 32],
    mask_balance: [u8; 32],
    r_scalar: [u8; 32],
}

impl R1State {
    pub closed spec fn spec_t_i(&self) -> Seq<u8> {
        self.t_i@
    }

    pub closed spec fn spec_mask_balance(&self) -> Seq<u8> {
        self.mask_balance@
    }

    pub closed spec fn spec_r_scalar(&self) -> Seq<u8> {
        self.r_scalar@
    }
}

/// State carried into round 2: the signature's first scalar.
pub struct R2State {
    r_scalar: [u8; 32],
}

/// The signing executer: which round this share is in.
pub enum SignExec {
    R1(R1State),
    R2(R2State),
}

/// A running signing instance.
pub type SignProtocol = Protocol<[u8; 64], SignShareId, SignPartyId, SignExec>;

impl Executer<[u8; 64], SignShareId, SignPartyId> for SignExec {
    open spec fn rounds_left(&self) -> nat {
        match self {
            SignExec::R1(_) => 2,
            SignExec::R2(_) => 1,
        }
    }

    open spec fn expects_bcasts(&self) -> bool {
        self is R2
    }

    open spec fn expects_p2ps(&self) -> bool {
        self is R1
    }

    fn execute(
        self,
        info: &RoundInfo<SignShareId, SignPartyId>,
        bcasts_in: FillVecMap<SignShareId, Vec<u8>>,
        p2ps_in: FillVecMap<SignShareId, Vec<u8>>,
    ) -> (r: TofnResult<ProtocolBuilder<[u8; 64], SignShareId, SignPartyId, Self>>) {
        match self {
            SignExec::R1(state) => execute_r1(state, info, p2ps_in),
            SignExec::R2(state) => execute_r2(state, info, bcasts_in),
        }
    }
}

/// Reads one buffered 32-byte scalar payload; `None` when the sender's
/// bytes are no canonical scalar.
fn parse_scalar(payload: &Vec<u8>) -> (r: Option<[u8; 32]>)
    ensures
        match r {
            Some(s) => payload@.len() == 32 && s@ == payload@ && be_nat(s@) < group_order(),
            None => payload@.len() != 32 || be_nat(payload@) >= group_order(),
        },
{
    let a = match crate::k256_serde::to_array32(payload) {
        Ok(a) => a,
        Err(_) => {
            return None;
        },
    };
    if curve::scalar_is_canonical(&a) {
        Some(a)
    } else {
        None
    }
}

/// Round 1: applies this signer's outgoing masks and every received mask
/// to the partial, and broadcasts the result. A sender whose mask is no
/// canonical scalar is accused; semantic checks happen here, at
/// round-advance time.
fn execute_r1(
    state: R1State,
    info: &RoundInfo<SignShareId, SignPartyId>,
    p2ps_in: FillVecMap<SignShareId, Vec<u8>>,
) -> (r: TofnResult<ProtocolBuilder<[u8; 64], SignShareId, SignPartyId, SignExec>>)
    requires
        p2ps_in.wf(),
        p2ps_in@.len() == sum_counts(info.counts()),
        p2ps_in.is_full(),
    ensures
        match r {
            Ok(pb) => match pb {
                // the broadcast carries the masked partial: the unmasked
                // partial less the masks this share sent, plus every
                // received mask
                ProtocolBuilder::NotDone(b) => b.executer.rounds_left() == 1 && b.expect_bcasts
                    == b.executer.expects_bcasts() && b.expect_p2ps == b.executer.expects_p2ps()
                    && b.p2ps_out is None && b.bcast_out is Some && (exists|pb_bytes: Seq<u8>|
                    b.bcast_out.unwrap()@ == wire::encode_spec(
                        MsgKind::Bcast,
                        info.my_id(),
                        0,
                        pb_bytes,
                    ) && pb_bytes.len() == 32 && #[trigger] be_nat(pb_bytes) == r1_masked(
                        (((be_nat(state.t_i@) + group_order() - be_nat(state.mask_balance@)) % (
                        group_order() as int)) as nat),
                        p2ps_in@,
                        info.my_id() as int,
                        sum_counts(info.counts()),
                    )),
                ProtocolBuilder::Done(out) => match out {
                    Ok(_) => false,
                    Err(faulters) => faulters.wf() && faulters.spec_some_count() > 0,
                },
            },
            Err(_) => true,
        },
{
    if !curve::scalar_is_canonical(&state.t_i) || !curve::scalar_is_canonical(
        &state.mask_balance,
    ) {
        return Err(TofnFatal);
    }
    let total = info.total_share_count();
    let my_id = info.my_share_id().as_usize();
    let mut acc = curve::scalar_sub(&state.t_i, &state.mask_balance);
    let ghost t0 = be_nat(acc@);
    let mut faulters: FillVecMap<SignPartyId, Fault> = FillVecMap::with_size(
        info.party_share_counts().party_count(),
    );
    let mut i: usize = 0;
    while i < total
        invariant
            i <= total,
            total == sum_counts(info.counts()),
            my_id == info.my_id(),
            my_id < total,
            p2ps_in.wf(),
            p2ps_in@.len() == total,
            p2ps_in.is_full(),
            faulters.wf(),
            faulters@.len() == info.counts().len(),
            be_nat(acc@) < group_order(),
            faulters.spec_some_count() == 0 ==> be_nat(acc@) == r1_masked(
                t0,
                p2ps_in@,
                my_id as int,
                i as int,
            ),
        decreases total - i,
    {
        if i != my_id {
            let slot = match p2ps_in.get(TypedUsize::from_usize(i)) {
                Ok(s) => s,
                Err(_) => {
                    proof {
                        assert(false);
                    }
                    return Err(TofnFatal);
                },
            };
            let payload = match slot {
                Some(p) => p,
                None => {
                    proof {
                        assert(false);
                    }
                    return Err(TofnFatal);
                },
            };
            match parse_scalar(payload) {
                Some(mask) => {
                    acc = curve::scalar_add(&acc, &mask);
                },
                None => {
                    let party = match info.party_share_counts().share_to_party_id::<
                        SignShareId,
                    >(TypedUsize::from_usize(i)) {
                        Ok(p) => p,
                        Err(_) => {
                            return Err(TofnFatal);
                        },
                    };
                    match faulters.set(party, Fault::CorruptedMessage) {
                        Ok(()) => {},
                        Err(_) => {
                            return Err(TofnFatal);
                        },
                    }
                },
            }
        }
        i += 1;
    }
    if faulters.some_count() != 0 {
        return Ok(ProtocolBuilder::Done(Err(faulters)));
    }
    let partial = Bcast { partial: acc }.to_payload();
    proof {
        assert(be_nat(partial@) == r1_masked(t0, p2ps_in@, my_id as int, total as int));
    }
    let bcast = match wire::encode(MsgKind::Bcast, my_id, 0, &partial) {
        Ok(b) => b,
        Err(_) => {
            proof {
                assert(false);
            }
            return Err(TofnFatal);
        },
    };
    Ok(
        ProtocolBuilder::NotDone(
            RoundBuilder {
                executer: SignExec::R2(R2State { r_scalar: state.r_scalar }),
                bcast_out: Some(bcast),
                p2ps_out: None,
                expect_bcasts: true,
                expect_p2ps: false,
                phantom: PhantomData,
            },
        ),
    )
}

/// Round 2: sums every signer's masked partial, normalizes the sum into
/// low-s form, and terminates with the assembled signature. A sender whose
/// partial is no canonical scalar is accused.
fn execute_r2(
    state: R2State,
    info: &RoundInfo<SignShareId, SignPartyId>,
    bcasts_in: FillVecMap<SignShareId, Vec<u8>>,
) -> (r: TofnResult<ProtocolBuilder<[u8; 64], SignShareId, SignPartyId, SignExec>>)
    requires
        bcasts_in.wf(),
        bcasts_in@.len() == sum_counts(info.counts()),
        bcasts_in.is_full(),
    ensures
        match r {
            Ok(pb) => match pb {
                ProtocolBuilder::NotDone(_) => false,
                ProtocolBuilder::Done(out) => match out {
                    // the assembled signature: this round's first scalar,
                    // then the low-s normalized sum of every buffered
                    // partial
                    Ok(sig) => sig@.len() == 64 && sig@.take(32) == state.r_scalar@ && be_nat(
                        sig@.skip(32),
                    ) == low_s(partials_sum(bcasts_in@, sum_counts(info.counts()))),
                    Err(faulters) => faulters.wf() && faulters.spec_some_count() > 0,
                },
            },
            Err(_) => true,
        },
{
    if !curve::scalar_is_canonical(&state.r_scalar) {
        return Err(TofnFatal);
    }
    let total = info.total_share_count();
    let mut acc = curve::scalar_from_u64(0);
    let mut faulters: FillVecMap<SignPartyId, Fault> = FillVecMap::with_size(
        info.party_share_counts().party_count(),
    );
    let mut i: usize = 0;
    while i < total
        invariant
            i <= total,
            total == sum_counts(info.counts()),
            bcasts_in.wf(),
            bcasts_in@.len() == total,
            bcasts_in.is_full(),
            faulters.wf(),
            faulters@.len() == info.counts().len(),
            be_nat(acc@) < group_order(),
            faulters.spec_some_count() == 0 ==> be_nat(acc@) == partials_sum(
                bcasts_in@,
                i as int,
            ),
        decreases total - i,
    {
        let slot = match bcasts_in.get(TypedUsize::from_usize(i)) {
            Ok(s) => s,
            Err(_) => {
                proof {
                    assert(false);
                }
                return Err(TofnFatal);
            },
        };
        let payload = match slot {
            Some(p) => p,
            None => {
                proof {
                    assert(false);
                }
                return Err(TofnFatal);
            },
        };
        match Bcast::from_payload(payload) {
            Some(bcast) => {
                acc = curve::scalar_add(&acc, &bcast.partial);
            },
            None => {
                let party = match info.party_share_counts().share_to_party_id::<SignShareId>(
                    TypedUsize::from_usize(i),
                ) {
                    Ok(p) => p,
                    Err(_) => {
                        return Err(TofnFatal);
                    },
                };
                match faulters.set(party, Fault::CorruptedMessage) {
                    Ok(()) => {},
                    Err(_) => {
                        return Err(TofnFatal);
                    },
                }
            },
        }
        i += 1;
    }
    if faulters.some_count() != 0 {
        return Ok(ProtocolBuilder::Done(Err(faulters)));
    }
    let is_high = curve::scalar_is_high(&acc);
    let s_scalar = if is_high {
        curve::scalar_negate(&acc)
    } else {
        acc
    };
    proof {
        if is_high {
            vstd::arithmetic::div_mod::lemma_small_mod(
                (group_order() - be_nat(acc@)) as nat,
                group_order(),
            );
        }
        assert(be_nat(s_scalar@) == low_s(partials_sum(bcasts_in@, total as int)));
    }
    if curve::scalar_is_zero(&state.r_scalar) || curve::scalar_is_zero(&s_scalar) {
        return Err(TofnFatal);
    }
    let mut signature: [u8; 64] = [0u8; 64];
    let mut j: usize = 0;
    while j < 32
        invariant
            j <= 32,
            signature@.len() == 64,
            forall|q: int| 0 <= q < j ==> signature@[q] == state.r_scalar@[q],
            forall|q: int| 0 <= q < j ==> signature@[q + 32] == s_scalar@[q],
        decreases 32 - j,
    {
        signature[j] = state.r_scalar[j];
        signature[j + 32] = s_scalar[j];
        j += 1;
    }
    proof {
        assert(signature@.take(32) =~= state.r_scalar@);
        assert(signature@.skip(32) =~= s_scalar@);
    }
    Ok(ProtocolBuilder::Done(Ok(signature)))
}

/// Appends the bytes of `src` to `dst`.
fn append_bytes(dst: &mut Vec<u8>, src: &[u8; 32])
    ensures
        final(dst)@ == old(dst)@ + src@,
{
    let mut i: usize = 0;
    while i < 32
        invariant
            i <= 32,
            dst@ == old(dst)@ + src@.take(i as int),
        decreases 32 - i,
    {
        proof {
            assert((old(dst)@ + src@.take(i as int)).push(src@[i as int]) =~= old(dst)@ + src@.take(
                i as int + 1,
            ));
        }
        dst.push(src[i]);
        i += 1;
    }
    proof {
        assert(src@.take(32) =~= src@);
    }
}

/// Starts a signing instance for one share of the selected parties.
///
/// A selection whose combined share weight does not exceed the threshold
/// is rejected here, before any round executes. On success the instance
/// stands in its first round with its pairwise masks ready to send.
pub fn new_sign(
    group: &GroupPublicInfo,
    share: &ShareSecretInfo,
    sign_parties: &SignParties,
    msg_to_sign: &MessageDigest,
) -> (r: TofnResult<SignProtocol>)
    requires
        share.spec_x_i().wf(),
    ensures
        selected_weight(group.spec_counts(), sign_parties@, group.spec_counts().len() as int)
            <= group.spec_threshold() ==> r is Err,
        r is Ok ==> selected_weight(
            group.spec_counts(),
            sign_parties@,
            group.spec_counts().len() as int,
        ) > group.spec_threshold() && r.unwrap().wf() && !r.unwrap().is_done(),
        // on success the first round's state is pinned: the signature's
        // first scalar, the outgoing mask balance, and the unmasked partial
        // are the named functions of this share's secrets and position
        r is Ok ==> (r.unwrap() matches Protocol::NotDone(round) && (exists|me: int|
            0 <= me < selected_shares(
                group.spec_counts(),
                sign_parties@,
                group.spec_counts().len() as int,
            ).len() && #[trigger] selected_shares(
                group.spec_counts(),
                sign_parties@,
                group.spec_counts().len() as int,
            )[me] == share.spec_index() as int && (round.spec_exec() matches SignExec::R1(st)
                && be_nat(st.spec_r_scalar()) == r_scalar_of(
                share.spec_nonce_seed(),
                msg_to_sign@,
            ) && be_nat(st.spec_mask_balance()) == mask_balance_of(
                share.spec_x_i()@,
                msg_to_sign@,
                me,
                selected_shares(
                    group.spec_counts(),
                    sign_parties@,
                    group.spec_counts().len() as int,
                ).len() as int,
            ) && be_nat(st.spec_t_i()) == t_i_of(
                share.spec_nonce_seed(),
                share.spec_x_i()@,
                sign_xs(group.spec_counts(), sign_parties@),
                me,
                msg_to_sign@,
            )))),
        // failure is owed an exhibited cause: a selection built for another
        // party count, an underweight selection, a share outside the
        // selection, or a vanishing derived scalar
        r is Err ==> sign_parties@.len() != group.spec_counts().len() || selected_weight(
            group.spec_counts(),
            sign_parties@,
            group.spec_counts().len() as int,
        ) <= group.spec_threshold() || !selected_shares(
            group.spec_counts(),
            sign_parties@,
            group.spec_counts().len() as int,
        ).contains(share.spec_index() as int) || nonce_of(share.spec_nonce_seed(), msg_to_sign@)
            == 0 || r_scalar_of(share.spec_nonce_seed(), msg_to_sign@) == 0 || (exists|j: int|
            0 <= j < sign_xs(group.spec_counts(), sign_parties@).len() && #[trigger] den_prod(
                sign_xs(group.spec_counts(), sign_parties@),
                j,
                sign_xs(group.spec_counts(), sign_parties@).len() as int,
            ) == 0),
{
    let ghost counts = group.spec_counts();
    let ghost flags = sign_parties@;
    let ghost sel = selected_shares(counts, flags, counts.len() as int);
    let ghost xs = sign_xs(counts, flags);
    let party_count = group.party_share_counts().party_count();
    let group_total = group.party_share_counts().total_share_count();
    let weight = match group.party_share_counts().subset_weight(sign_parties) {
        Ok(w) => w,
        Err(e) => {
            return Err(e);
        },
    };
    if weight <= group.threshold() {
        return Err(TofnFatal);
    }
    let all_keygen_ids: Vec<TypedUsize<KeygenShareId>> = match group.party_share_counts()
        .share_id_subset(sign_parties) {
        Ok(v) => v,
        Err(e) => {
            return Err(e);
        },
    };
    let n_sign = all_keygen_ids.len();
    proof {
        assert(all_keygen_ids@.map_values(
            |t: TypedUsize<KeygenShareId>| t.spec_as_usize() as int,
        ).len() == sel.len());
        lemma_selected_shares_in_range(counts, flags, counts.len() as int);
        assert(counts.take(counts.len() as int) =~= counts);
        assert(forall|q: int| 0 <= q < n_sign
            ==> (#[trigger] all_keygen_ids@[q]).spec_as_usize() < group_total) by {
            assert(forall|q: int| 0 <= q < n_sign ==> all_keygen_ids@.map_values(
                |t: TypedUsize<KeygenShareId>| t.spec_as_usize() as int,
            )[q] == (#[trigger] all_keygen_ids@[q]).spec_as_usize() as int);
        };
    }
    // the sign share space: one share per selected keygen share
    let mut my_sign_id: usize = 0;
    let mut found = false;
    let mut j: usize = 0;
    while j < n_sign
        invariant
            j <= n_sign,
            n_sign == all_keygen_ids@.len(),
            found ==> my_sign_id < n_sign && all_keygen_ids@[
                my_sign_id as int
            ].spec_as_usize() == share.spec_index(),
            !found ==> forall|jj: int| 0 <= jj < j ==> (#[trigger] all_keygen_ids@[
                jj
            ]).spec_as_usize() != share.spec_index(),
        decreases n_sign - j,
    {
        if all_keygen_ids[j].as_usize() == share.index().as_usize() {
            my_sign_id = j;
            found = true;
        }
        j += 1;
    }
    if !found {
        proof {
            if sel.contains(share.spec_index() as int) {
                let q = choose|q: int| 0 <= q < sel.len() && sel[q] == share.spec_index() as int;
                assert(all_keygen_ids@.map_values(
                    |t: TypedUsize<KeygenShareId>| t.spec_as_usize() as int,
                )[q] == sel[q]);
                assert(all_keygen_ids@[q].spec_as_usize() == share.spec_index());
                assert(false);
            }
        }
        return Err(TofnFatal);
    }
    proof {
        assert(all_keygen_ids@.map_values(
            |t: TypedUsize<KeygenShareId>| t.spec_as_usize() as int,
        )[my_sign_id as int] == sel[my_sign_id as int]);
        assert(share.spec_index() < group_total);
    }
    // the share counts of the selected parties, renumbered densely
    let mut sel_counts: Vec<usize> = Vec::new();
    let mut p: usize = 0;
    while p < party_count
        invariant
            p <= party_count,
            party_count == group.spec_counts().len(),
            sign_parties@.len() == group.spec_counts().len(),
            sum_counts(sel_counts@) == selected_weight(group.spec_counts(), sign_parties@, p as int),
            forall|q: int| 0 <= q < sel_counts@.len() ==> 1 <= #[trigger] sel_counts@[q]
                <= crate::MAX_PARTY_SHARE_COUNT,
        decreases party_count - p,
    {
        if sign_parties.is_member(TypedUsize::from_usize(p)) {
            let c = match group.party_share_counts().party_share_count(TypedUsize::from_usize(p)) {
                Ok(c) => c,
                Err(_) => {
                    proof {
                        assert(false);
                    }
                    return Err(TofnFatal);
                },
            };
            proof {
                assert(sel_counts@.push(c).drop_last() =~= sel_counts@);
                assert(group.spec_counts()[p as int] == c);
            }
            sel_counts.push(c);
        }
        p += 1;
    }
    proof {
        lemma_selected_weight_le_sum(group.spec_counts(), sign_parties@, party_count as int);
        assert(group.spec_counts().take(party_count as int) =~= group.spec_counts());
        assert(sum_counts(sel_counts@) <= group_total);
    }
    let sign_counts: PartyShareCounts<SignPartyId> = match PartyShareCounts::from_vec(sel_counts) {
        Ok(c) => c,
        Err(_) => {
            proof {
                assert(false);
            }
            return Err(TofnFatal);
        },
    };
    let sign_total = sign_counts.total_share_count();
    proof {
        lemma_selected_weight_len(counts, flags, counts.len() as int);
        assert(sel.len() == weight);
        assert(n_sign == weight);
        assert(sign_total == weight);
    }
    let info: RoundInfo<SignShareId, SignPartyId> = match RoundInfo::new(
        sign_counts,
        TypedUsize::from_usize(my_sign_id),
        MAX_MSG_LEN,
    ) {
        Ok(info) => info,
        Err(_) => {
            proof {
                assert(false);
            }
            return Err(TofnFatal);
        },
    };
    // Lagrange coefficient of this share over the selected share indices,
    // evaluated at zero
    proof {
        assert(xs.len() == sel.len());
        assert(forall|q: int| 0 <= q < n_sign ==> #[trigger] xs[q] == (all_keygen_ids@[
            q
        ].spec_as_usize() + 1) as nat) by {
            assert(forall|q: int| 0 <= q < n_sign ==> #[trigger] xs[q] == (sel[q] + 1) as nat);
            assert(forall|q: int| 0 <= q < n_sign ==> #[trigger] sel[q] == all_keygen_ids@.map_values(
                |t: TypedUsize<KeygenShareId>| t.spec_as_usize() as int,
            )[q]);
        };
        assert(forall|q: int| 0 <= q < n_sign ==> #[trigger] xs[q] < group_order()) by {
            assert(forall|q: int| 0 <= q < n_sign ==> (#[trigger] all_keygen_ids@[
                q
            ]).spec_as_usize() < group_total);
        };
    }
    let mut num = curve::scalar_from_u64(1);
    let mut den = curve::scalar_from_u64(1);
    let my_index = share.index().as_usize();
    let my_x = curve::scalar_from_u64((my_index as u64) + 1);
    proof {
        assert(be_nat(my_x@) == xs[my_sign_id as int]);
    }
    let mut k_idx: usize = 0;
    while k_idx < n_sign
        invariant
            k_idx <= n_sign,
            n_sign == all_keygen_ids@.len(),
            n_sign <= crate::MAX_TOTAL_SHARE_COUNT,
            group_total <= crate::MAX_TOTAL_SHARE_COUNT,
            my_sign_id < n_sign,
            xs == sign_xs(counts, flags),
            xs.len() == n_sign,
            forall|q: int| 0 <= q < n_sign ==> #[trigger] xs[q] == (all_keygen_ids@[
                q
            ].spec_as_usize() + 1) as nat,
            forall|q: int| 0 <= q < n_sign ==> (#[trigger] all_keygen_ids@[q]).spec_as_usize()
                < group_total,
            be_nat(my_x@) == xs[my_sign_id as int],
            be_nat(num@) == num_prod(xs, my_sign_id as int, k_idx as int),
            be_nat(den@) == den_prod(xs, my_sign_id as int, k_idx as int),
            be_nat(num@) < group_order(),
            be_nat(den@) < group_order(),
            be_nat(my_x@) < group_order(),
        decreases n_sign - k_idx,
    {
        if k_idx != my_sign_id {
            let k_index = all_keygen_ids[k_idx].as_usize();
            let xk = curve::scalar_from_u64((k_index as u64) + 1);
            proof {
                assert(be_nat(xk@) == xs[k_idx as int]);
            }
            num = curve::scalar_mul(&num, &xk);
            let diff = curve::scalar_sub(&xk, &my_x);
            den = curve::scalar_mul(&den, &diff);
        }
        k_idx += 1;
    }
    if curve::scalar_is_zero(&den) {
        proof {
            assert(den_prod(xs, my_sign_id as int, xs.len() as int) == 0);
        }
        return Err(TofnFatal);
    }
    let den_inv = curve::scalar_invert(&den);
    proof {
        lemma_inv_mod_witness(be_nat(den@), be_nat(den_inv@));
    }
    let lambda = curve::scalar_mul(&num, &den_inv);
    proof {
        assert(be_nat(lambda@) == lagrange_coeff(xs, my_sign_id as int));
    }
    // the shared deterministic nonce, its inverse, and the signature's
    // first scalar
    let digest = msg_to_sign.as_array();
    let mut nonce_input: Vec<u8> = Vec::new();
    nonce_input.push(SIGN_TAG);
    append_bytes(&mut nonce_input, share.nonce_seed());
    append_bytes(&mut nonce_input, digest);
    proof {
        assert(nonce_input@ =~= seq![SIGN_TAG] + share.spec_nonce_seed() + msg_to_sign@);
    }
    let k_scalar = curve::scalar_reduce(&curve::keccak256(&nonce_input));
    proof {
        assert(be_nat(k_scalar@) == nonce_of(share.spec_nonce_seed(), msg_to_sign@));
    }
    if curve::scalar_is_zero(&k_scalar) {
        return Err(TofnFatal);
    }
    let k_inv = curve::scalar_invert(&k_scalar);
    proof {
        lemma_inv_mod_witness(be_nat(k_scalar@), be_nat(k_inv@));
        assert(be_nat(k_inv@) == inv_mod(nonce_of(share.spec_nonce_seed(), msg_to_sign@)));
    }
    let big_r = curve::generator_mul(&k_scalar);
    let mut r_x: Vec<u8> = Vec::new();
    let mut rx_i: usize = 1;
    while rx_i < 33
        invariant
            1 <= rx_i <= 33,
            big_r@.len() == 33,
            r_x@ == big_r@.subrange(1, rx_i as int),
        decreases 33 - rx_i,
    {
        proof {
            assert(big_r@.subrange(1, rx_i as int).push(big_r@[rx_i as int]) =~= big_r@.subrange(
                1,
                rx_i as int + 1,
            ));
        }
        r_x.push(big_r[rx_i]);
        rx_i += 1;
    }
    proof {
        assert(big_r@.subrange(1, 33) =~= big_r@.skip(1));
    }
    let r_x_arr = match crate::k256_serde::to_array32(&r_x) {
        Ok(a) => a,
        Err(_) => {
            proof {
                assert(false);
            }
            return Err(TofnFatal);
        },
    };
    let r_scalar = curve::scalar_reduce(&r_x_arr);
    proof {
        assert(be_nat(r_scalar@) == r_scalar_of(share.spec_nonce_seed(), msg_to_sign@));
    }
    if curve::scalar_is_zero(&r_scalar) {
        return Err(TofnFatal);
    }
    // this share's unmasked partial: k_inv * (r * lambda * x_i), plus the
    // message term carried by the first sign share
    let u = curve::scalar_mul(&lambda, share.signing_key().as_bytes());
    let mut t_i = curve::scalar_mul(&k_inv, &curve::scalar_mul(&r_scalar, &u));
    if my_sign_id == 0 {
        let m = curve::scalar_reduce(digest);
        t_i = curve::scalar_add(&t_i, &curve::scalar_mul(&k_inv, &m));
    }
    proof {
        assert(be_nat(t_i@) == t_i_of(
            share.spec_nonce_seed(),
            share.spec_x_i()@,
            xs,
            my_sign_id as int,
            msg_to_sign@,
        ));
    }
    // pairwise blinding masks for every other sign share
    let mut mask_balance = curve::scalar_from_u64(0);
    let mut p2p_msgs: Vec<Vec<u8>> = Vec::new();
    let mut to: usize = 0;
    while to < n_sign
        invariant
            to <= n_sign,
            my_sign_id < n_sign,
            n_sign <= crate::MAX_TOTAL_SHARE_COUNT,
            p2p_msgs@.len() == if to <= my_sign_id {
                to as int
            } else {
                to - 1
            },
            share.spec_x_i().wf(),
            digest@ == msg_to_sign@,
            be_nat(mask_balance@) == mask_balance_of(
                share.spec_x_i()@,
                msg_to_sign@,
                my_sign_id as int,
                to as int,
            ),
            be_nat(mask_balance@) < group_order(),
        decreases n_sign - to,
    {
        if to != my_sign_id {
            let mut mask_input: Vec<u8> = Vec::new();
            mask_input.push(MASK_TAG);
            append_bytes(&mut mask_input, share.signing_key().as_bytes());
            append_bytes(&mut mask_input, digest);
            let to_bytes = crate::keygen::u64_pair_bytes(my_sign_id as u64, to as u64);
            let ghost prefix = mask_input@;
            let mut tb: usize = 0;
            while tb < 16
                invariant
                    tb <= 16,
                    to_bytes@.len() == 16,
                    mask_input@ == prefix + to_bytes@.take(tb as int),
                decreases 16 - tb,
            {
                proof {
                    assert((prefix + to_bytes@.take(tb as int)).push(to_bytes@[tb as int])
                        =~= prefix + to_bytes@.take(tb as int + 1));
                }
                mask_input.push(to_bytes[tb]);
                tb += 1;
            }
            proof {
                assert(to_bytes@.take(16) =~= to_bytes@);
                assert(mask_input@ =~= mask_preimage(
                    share.spec_x_i()@,
                    msg_to_sign@,
                    my_sign_id as u64,
                    to as u64,
                ));
            }
            let mask = curve::scalar_reduce(&curve::keccak256(&mask_input));
            mask_balance = curve::scalar_add(&mask_balance, &mask);
            let mut payload: Vec<u8> = Vec::new();
            append_bytes(&mut payload, &mask);
            let msg = match wire::encode(MsgKind::P2p, my_sign_id, to, &payload) {
                Ok(m) => m,
                Err(_) => {
                    proof {
                        assert(false);
                    }
                    return Err(TofnFatal);
                },
            };
            p2p_msgs.push(msg);
        }
        to += 1;
    }
    let p2ps_vecmap: VecMap<SignShareId, Vec<u8>> = VecMap::from_vec(p2p_msgs);
    let p2ps_out: HoleVecMap<SignShareId, Vec<u8>> = match HoleVecMap::from_vecmap(
        p2ps_vecmap,
        TypedUsize::from_usize(my_sign_id),
    ) {
        Ok(h) => h,
        Err(_) => {
            proof {
                assert(false);
            }
            return Err(TofnFatal);
        },
    };
    let executer = SignExec::R1(R1State { t_i, mask_balance, r_scalar });
    let round = match Round::new(info, executer, None, Some(p2ps_out), false, true) {
        Ok(round) => round,
        Err(_) => {
            proof {
                assert(false);
            }
            return Err(TofnFatal);
        },
    };
    Ok(Protocol::NotDone(round))
}

} // verus!
