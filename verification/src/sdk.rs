//! The round-based protocol engine: the generic state machine every
//! protocol instance implements.
//!
//! A running instance is either [`Protocol::NotDone`], holding the current
//! round, or [`Protocol::Done`], holding the final output or a non-empty
//! accusation set. A round buffers incoming messages by sender; delivery
//! order within a round is irrelevant, and the round computes only once the
//! full expected set is present. Structural faults (oversized, undecodable,
//! duplicate) are detected at ingestion time and accuse the sender without
//! touching any other state; semantic faults surface when the round
//! advances.

use vstd::prelude::*;

verus! {

use core::marker::PhantomData;
use crate::TofnFatal;
use crate::TofnResult;
use crate::BytesVec;
use crate::collections::TypedUsize;
use crate::collections::FillVecMap;
use crate::collections::HoleVecMap;
use crate::party_share_counts::PartyShareCounts;
use crate::party_share_counts::sum_counts;
use crate::party_share_counts::party_of_share;
use crate::party_share_counts::lemma_share_in_party_range;
use crate::wire;
use crate::wire::MsgKind;

/// What a remote party is accused of.
#[derive(Clone, Copy, PartialEq, Eq, Structural, Debug)]
pub enum Fault {
    /// The party failed to deliver a message the round required.
    MissingMessage,
    /// The party delivered an oversized, undecodable, misattributed or
    /// duplicate message.
    CorruptedMessage,
}

/// The accusation set a protocol terminates with: one optional fault per
/// party.
pub type ProtocolFaulters<P> = FillVecMap<P, Fault>;

/// The terminal outcome: the final output, or a non-empty accusation set.
pub type ProtocolOutput<F, P> = Result<F, ProtocolFaulters<P>>;

/// The immutable identity of one running share: who it is, how the shares
/// are distributed over parties, and the size bound on incoming messages.
pub struct RoundInfo<K, P> {
    party_share_counts: PartyShareCounts<P>,
    total_share_count: usize,
    my_share_id: TypedUsize<K>,
    max_msg_in_len: usize,
}

impl<K, P> RoundInfo<K, P> {
    pub closed spec fn counts(&self) -> Seq<usize> {
        self.party_share_counts@
    }

    pub closed spec fn total(&self) -> usize {
        self.total_share_count
    }

    pub closed spec fn my_id(&self) -> usize {
        self.my_share_id.spec_as_usize()
    }

    pub closed spec fn max_len(&self) -> usize {
        self.max_msg_in_len
    }

    #[verifier::type_invariant]
    spec fn type_inv(self) -> bool {
        self.total_share_count == sum_counts(self.party_share_counts@)
        && self.my_share_id.spec_as_usize() < self.total_share_count
    }

    /// Fails exactly when the share index does not lie below the total
    /// share count.
    pub fn new(
        party_share_counts: PartyShareCounts<P>,
        my_share_id: TypedUsize<K>,
        max_msg_in_len: usize,
    ) -> (r: TofnResult<Self>)
        ensures
            match r {
                Ok(info) => info.counts() == party_share_counts@ && info.total() == sum_counts(
                    party_share_counts@,
                ) && info.my_id() == my_share_id.spec_as_usize() && info.my_id() < info.total()
                    && info.max_len() == max_msg_in_len,
                Err(e) => my_share_id.spec_as_usize() >= sum_counts(party_share_counts@) && e
                    == TofnFatal,
            },
    {
        let total_share_count = party_share_counts.total_share_count();
        if my_share_id.as_usize() >= total_share_count {
            return Err(TofnFatal);
        }
        Ok(RoundInfo { party_share_counts, total_share_count, my_share_id, max_msg_in_len })
    }

    pub fn party_share_counts(&self) -> (r: &PartyShareCounts<P>)
        ensures
            r@ == self.counts(),
    {
        &self.party_share_counts
    }

    pub fn my_share_id(&self) -> (r: TypedUsize<K>)
        ensures
            r.spec_as_usize() == self.my_id(),
    {
        self.my_share_id
    }

    pub fn total_share_count(&self) -> (r: usize)
        ensures
            r == self.total(),
            self.total() == sum_counts(self.counts()),
            self.my_id() < self.total(),
            r <= crate::MAX_TOTAL_SHARE_COUNT,
    {
        proof {
            use_type_invariant(self);
        }
        let bound = self.party_share_counts.total_share_count();
        proof {
            assert(bound == self.total_share_count);
        }
        self.total_share_count
    }

    pub fn max_msg_in_len(&self) -> (r: usize)
        ensures
            r == self.max_len(),
    {
        self.max_msg_in_len
    }
}

impl<K, P> Clone for RoundInfo<K, P> {
    fn clone(&self) -> (r: Self)
        ensures
            r.counts() == self.counts(),
            r.total() == self.total(),
            r.my_id() == self.my_id(),
            r.max_len() == self.max_len(),
    {
        proof {
            use_type_invariant(self);
        }
        let total = self.party_share_counts.total_share_count();
        RoundInfo {
            party_share_counts: self.party_share_counts.clone_counts(),
            total_share_count: total,
            my_share_id: self.my_share_id,
            max_msg_in_len: self.max_msg_in_len,
        }
    }
}

/// The behaviour one protocol round contributes to the engine: how many
/// rounds can still follow, which inbound message kinds the round expects,
/// and the computation that consumes the buffered inputs.
pub trait Executer<F, K, P>: Sized {
    /// An upper bound on how many more rounds this instance can run:
    /// strictly decreasing across [`Executer::execute`], which is what makes
    /// every protocol run terminate.
    spec fn rounds_left(&self) -> nat;

    /// Whether this round expects one broadcast from every share.
    spec fn expects_bcasts(&self) -> bool;

    /// Whether this round expects one peer-to-peer message from every other
    /// share.
    spec fn expects_p2ps(&self) -> bool;

    /// Runs the round's computation over the buffered inputs, producing the
    /// makings of the next round or the terminal outcome.
    fn execute(
        self,
        info: &RoundInfo<K, P>,
        bcasts_in: FillVecMap<K, BytesVec>,
        p2ps_in: FillVecMap<K, BytesVec>,
    ) -> (r: TofnResult<ProtocolBuilder<F, K, P, Self>>)
        requires
            self.rounds_left() >= 1,
            bcasts_in.wf(),
            p2ps_in.wf(),
            bcasts_in@.len() == if self.expects_bcasts() {
                sum_counts(info.counts())
            } else {
                0
            },
            p2ps_in@.len() == if self.expects_p2ps() {
                sum_counts(info.counts())
            } else {
                0
            },
            bcasts_in.is_full(),
            p2ps_in.is_full(),
        ensures
            match r {
                Ok(pb) => match pb {
                    ProtocolBuilder::NotDone(b) => b.executer.rounds_left() < self.rounds_left()
                        && b.executer.rounds_left() >= 1 && b.expect_bcasts
                        == b.executer.expects_bcasts() && b.expect_p2ps
                        == b.executer.expects_p2ps(),
                    ProtocolBuilder::Done(out) => match out {
                        Ok(_) => true,
                        Err(faulters) => faulters.wf() && faulters.spec_some_count() > 0,
                    },
                },
                Err(_) => true,
            },
    ;
}

/// What an executer hands back for the next round: its executer, its
/// outgoing messages, and which inbound kinds it will expect. The engine
/// builds the round proper from these.
pub struct RoundBuilder<F, K, P, E> {
    pub executer: E,
    pub bcast_out: Option<BytesVec>,
    pub p2ps_out: Option<HoleVecMap<K, BytesVec>>,
    pub expect_bcasts: bool,
    pub expect_p2ps: bool,
    pub phantom: PhantomData<(F, P)>,
}

/// What an executer hands back: the makings of the next round, or the
/// terminal outcome.
pub enum ProtocolBuilder<F, K, P, E> {
    NotDone(RoundBuilder<F, K, P, E>),
    Done(ProtocolOutput<F, P>),
}

/// A protocol instance in progress: the current round's state.
pub struct Round<F, K, P, E> {
    info: RoundInfo<K, P>,
    executer: E,
    bcast_out: Option<BytesVec>,
    p2ps_out: Option<HoleVecMap<K, BytesVec>>,
    bcasts_in: FillVecMap<K, BytesVec>,
    p2ps_in: FillVecMap<K, BytesVec>,
    faulters: FillVecMap<P, Fault>,
    phantom: PhantomData<F>,
}

/// A protocol instance: in progress, or terminated with an output or a
/// non-empty accusation set.
pub enum Protocol<F, K, P, E> {
    NotDone(Round<F, K, P, E>),
    Done(ProtocolOutput<F, P>),
}

impl<F, K, P, E: Executer<F, K, P>> Protocol<F, K, P, E> {
    pub open spec fn is_done(&self) -> bool {
        self is Done
    }

    /// The termination measure: zero once done, otherwise what the current
    /// round reports.
    pub open spec fn rounds_left(&self) -> nat {
        match self {
            Protocol::NotDone(round) => round.spec_exec().rounds_left(),
            Protocol::Done(_) => 0,
        }
    }

    pub open spec fn wf(&self) -> bool {
        match self {
            Protocol::NotDone(round) => round.wf(),
            Protocol::Done(out) => match out {
                Ok(_) => true,
                Err(faulters) => faulters.wf() && faulters.spec_some_count() > 0,
            },
        }
    }
}

impl<F, K, P, E: Executer<F, K, P>> Round<F, K, P, E> {
    pub closed spec fn spec_info(&self) -> RoundInfo<K, P> {
        self.info
    }

    pub closed spec fn spec_exec(&self) -> E {
        self.executer
    }

    pub closed spec fn spec_bcast_out(&self) -> Option<BytesVec> {
        self.bcast_out
    }

    pub closed spec fn spec_p2ps_out(&self) -> Option<HoleVecMap<K, BytesVec>> {
        self.p2ps_out
    }

    pub closed spec fn spec_bcasts_in(&self) -> Seq<Option<BytesVec>> {
        self.bcasts_in@
    }

    pub closed spec fn spec_p2ps_in(&self) -> Seq<Option<BytesVec>> {
        self.p2ps_in@
    }

    pub closed spec fn spec_faulters(&self) -> Seq<Option<Fault>> {
        self.faulters@
    }

    pub closed spec fn spec_faulter_count(&self) -> usize {
        self.faulters.spec_some_count()
    }

    pub closed spec fn wf(&self) -> bool {
        let info = self.spec_info();
        self.bcasts_in.wf()
        && self.p2ps_in.wf()
        && self.faulters.wf()
        && self.spec_exec().rounds_left() >= 1
        && info.total() == sum_counts(info.counts())
        && info.my_id() < info.total()
        && self.spec_bcasts_in().len() == (if self.spec_exec().expects_bcasts() {
            info.total() as int
        } else {
            0
        })
        && self.spec_p2ps_in().len() == (if self.spec_exec().expects_p2ps() {
            info.total() as int
        } else {
            0
        })
        && (self.spec_exec().expects_p2ps() ==> self.spec_p2ps_in()[info.my_id() as int] is Some)
        && self.spec_faulters().len() == info.counts().len()
    }

    /// Builds the round. The outgoing per-recipient map, when present, must
    /// have this share's own index as its hole and one slot per other
    /// share; construction fails exactly when it does not.
    pub fn new(
        info: RoundInfo<K, P>,
        executer: E,
        bcast_out: Option<BytesVec>,
        p2ps_out: Option<HoleVecMap<K, BytesVec>>,
        expect_bcasts: bool,
        expect_p2ps: bool,
    ) -> (r: TofnResult<Self>)
        requires
            executer.rounds_left() >= 1,
            expect_bcasts == executer.expects_bcasts(),
            expect_p2ps == executer.expects_p2ps(),
        ensures
            match r {
                Ok(round) => {
                    round.wf()
                    && round.spec_info().counts() == info.counts()
                    && round.spec_info().total() == info.total()
                    && round.spec_info().my_id() == info.my_id()
                    && round.spec_info().max_len() == info.max_len()
                    && round.spec_exec() == executer
                    && round.spec_bcast_out() == bcast_out
                    && round.spec_p2ps_out() == p2ps_out
                    && round.spec_faulter_count() == 0
                    && (match p2ps_out {
                        Some(p2ps) => p2ps.spec_hole() == info.my_id() && p2ps@.len() + 1
                            == info.total(),
                        None => true,
                    })
                },
                Err(e) => e == TofnFatal && (match p2ps_out {
                    Some(p2ps) => p2ps.spec_hole() != info.my_id() || p2ps@.len() + 1
                        != info.total(),
                    None => false,
                }),
            },
    {
        proof {
            use_type_invariant(&info);
        }
        match &p2ps_out {
            Some(p2ps) => {
                if p2ps.hole_index() != info.my_share_id().as_usize() {
                    return Err(TofnFatal);
                }
                if p2ps.len() != info.total_share_count() - 1 {
                    return Err(TofnFatal);
                }
            },
            None => {},
        }
        let total = info.total_share_count();
        let bcasts_in: FillVecMap<K, BytesVec> = if expect_bcasts {
            FillVecMap::with_size(total)
        } else {
            FillVecMap::with_size(0)
        };
        let mut p2ps_in: FillVecMap<K, BytesVec> = if expect_p2ps {
            FillVecMap::with_size(total)
        } else {
            FillVecMap::with_size(0)
        };
        if expect_p2ps {
            // a share sends itself no peer-to-peer message: its own slot
            // holds an empty placeholder from the start
            let me = info.my_share_id();
            match p2ps_in.set(me, Vec::new()) {
                Ok(()) => {},
                Err(_) => {
                    proof {
                        assert(false);
                    }
                    return Err(TofnFatal);
                },
            }
        }
        let faulters: FillVecMap<P, Fault> = FillVecMap::with_size(
            info.party_share_counts().party_count(),
        );
        Ok(
            Round {
                info,
                executer,
                bcast_out,
                p2ps_out,
                bcasts_in,
                p2ps_in,
                faulters,
                phantom: PhantomData,
            },
        )
    }

    pub fn info(&self) -> (r: &RoundInfo<K, P>)
        ensures
            *r == self.spec_info(),
    {
        &self.info
    }

    pub fn bcast_out(&self) -> (r: &Option<BytesVec>)
        ensures
            *r == self.spec_bcast_out(),
    {
        &self.bcast_out
    }

    pub fn p2ps_out(&self) -> (r: &Option<HoleVecMap<K, BytesVec>>)
        ensures
            *r == self.spec_p2ps_out(),
    {
        &self.p2ps_out
    }

    /// True until every message this round requires has been buffered.
    pub closed spec fn spec_expecting_more(&self) -> bool {
        !(self.bcasts_in.is_full() && self.p2ps_in.is_full())
    }

    pub fn expecting_more_msgs_this_round(&self) -> (r: bool)
        requires
            self.wf(),
        ensures
            r == self.spec_expecting_more(),
    {
        !(self.bcasts_in.is_full_exec() && self.p2ps_in.is_full_exec())
    }

    /// Everything of this round other than the accusation set is as it was.
    pub open spec fn same_but_faulters(self, other: Self) -> bool {
        other.spec_info() == self.spec_info()
        && other.spec_exec() == self.spec_exec()
        && other.spec_bcast_out() == self.spec_bcast_out()
        && other.spec_p2ps_out() == self.spec_p2ps_out()
        && other.spec_bcasts_in() == self.spec_bcasts_in()
        && other.spec_p2ps_in() == self.spec_p2ps_in()
    }

    /// The sender's party was accused of a corrupted message; nothing else
    /// moved.
    pub open spec fn accused(self, other: Self, party: int) -> bool {
        self.same_but_faulters(other)
        && other.spec_faulters() == self.spec_faulters().update(
            party,
            Some(Fault::CorruptedMessage),
        )
    }

    /// Nothing at all moved.
    pub open spec fn unchanged_state(self, other: Self) -> bool {
        self.same_but_faulters(other) && other.spec_faulters() == self.spec_faulters()
    }

    /// One inbound buffer gained exactly the slot `at`, holding `payload`.
    pub open spec fn slot_filled(
        old_slots: Seq<Option<BytesVec>>,
        new_slots: Seq<Option<BytesVec>>,
        at: int,
        payload: Seq<u8>,
    ) -> bool {
        new_slots.len() == old_slots.len()
        && old_slots[at] is None
        && new_slots[at] is Some
        && new_slots[at].unwrap()@ == payload
        && (forall|i: int| 0 <= i < old_slots.len() && i != at ==> new_slots[i] == old_slots[i])
    }

    /// Buffers an incoming message from the given party.
    ///
    /// Fails only on a locally-fatal misuse: a party index out of range.
    /// Everything a remote sender can get wrong — an oversized message, one
    /// that does not decode, a forged sender share, an unexpected kind, a
    /// duplicate — accuses that sender and corrupts no other state.
    pub fn msg_in(&mut self, from: TypedUsize<P>, bytes: &Vec<u8>) -> (r: TofnResult<()>)
        requires
            old(self).wf(),
        ensures
            final(self).wf(),
            match r {
                Ok(()) => {
                    let info = old(self).spec_info();
                    let f = from.spec_as_usize() as int;
                    from.spec_as_usize() < info.counts().len()
                    && if bytes@.len() > info.max_len() {
                        old(self).accused(*final(self), f)
                    } else {
                        match wire::decode_spec(bytes@) {
                            None => old(self).accused(*final(self), f),
                            Some((kind, mfrom, mto)) => {
                                let payload = wire::decode_payload_spec(bytes@);
                                if mfrom >= info.total() || party_of_share(
                                    info.counts(),
                                    mfrom as int,
                                ) != f {
                                    old(self).accused(*final(self), f)
                                } else if kind is Bcast {
                                    if !old(self).spec_exec().expects_bcasts() || old(
                                        self,
                                    ).spec_bcasts_in()[mfrom as int] is Some {
                                        old(self).accused(*final(self), f)
                                    } else {
                                        old(self).same_but_p2ps_and_faulters(*final(self))
                                        && Self::slot_filled(
                                            old(self).spec_bcasts_in(),
                                            final(self).spec_bcasts_in(),
                                            mfrom as int,
                                            payload,
                                        )
                                    }
                                } else {
                                    if !old(self).spec_exec().expects_p2ps() {
                                        old(self).accused(*final(self), f)
                                    } else if mto != info.my_id() {
                                        old(self).unchanged_state(*final(self))
                                    } else if old(self).spec_p2ps_in()[mfrom as int] is Some {
                                        old(self).accused(*final(self), f)
                                    } else {
                                        old(self).same_but_bcasts_and_faulters(*final(self))
                                        && Self::slot_filled(
                                            old(self).spec_p2ps_in(),
                                            final(self).spec_p2ps_in(),
                                            mfrom as int,
                                            payload,
                                        )
                                    }
                                }
                            },
                        }
                    }
                },
                Err(e) => e == TofnFatal && from.spec_as_usize() >= old(
                    self,
                ).spec_info().counts().len() && old(self).unchanged_state(*final(self)),
            },
    {
        proof {
            use_type_invariant(&self.info);
        }
        let party_count = self.info.party_share_counts().party_count();
        if from.as_usize() >= party_count {
            return Err(TofnFatal);
        }
        if bytes.len() > self.info.max_msg_in_len() {
            return self.accuse(from);
        }
        let msg = match wire::decode(bytes) {
            Some(m) => m,
            None => {
                return self.accuse(from);
            },
        };
        let total = self.info.total_share_count();
        if msg.from >= total {
            return self.accuse(from);
        }
        proof {
            lemma_share_in_party_range(self.info.counts(), msg.from as int);
        }
        let claimed = match self.info.party_share_counts().share_to_party_id::<K>(
            TypedUsize::from_usize(msg.from),
        ) {
            Ok(p) => p,
            Err(_) => {
                proof {
                    assert(false);
                }
                return Err(TofnFatal);
            },
        };
        if claimed.as_usize() != from.as_usize() {
            return self.accuse(from);
        }
        match msg.kind {
            MsgKind::Bcast => {
                if self.bcasts_in.size() == 0 {
                    return self.accuse(from);
                }
                let dup = match self.bcasts_in.is_none(TypedUsize::from_usize(msg.from)) {
                    Ok(vacant) => !vacant,
                    Err(_) => {
                        proof {
                            assert(false);
                        }
                        return Err(TofnFatal);
                    },
                };
                if dup {
                    return self.accuse(from);
                }
                match self.bcasts_in.set(TypedUsize::from_usize(msg.from), msg.payload) {
                    Ok(()) => Ok(()),
                    Err(_) => {
                        proof {
                            assert(false);
                        }
                        Err(TofnFatal)
                    },
                }
            },
            MsgKind::P2p => {
                if self.p2ps_in.size() == 0 {
                    return self.accuse(from);
                }
                if msg.to != self.info.my_share_id().as_usize() {
                    return Ok(());
                }
                let dup = match self.p2ps_in.is_none(TypedUsize::from_usize(msg.from)) {
                    Ok(vacant) => !vacant,
                    Err(_) => {
                        proof {
                            assert(false);
                        }
                        return Err(TofnFatal);
                    },
                };
                if dup {
                    return self.accuse(from);
                }
                match self.p2ps_in.set(TypedUsize::from_usize(msg.from), msg.payload) {
                    Ok(()) => Ok(()),
                    Err(_) => {
                        proof {
                            assert(false);
                        }
                        Err(TofnFatal)
                    },
                }
            },
        }
    }

    /// Everything but the peer-to-peer buffer and the accusation set is as
    /// it was.
    pub open spec fn same_but_p2ps_and_faulters(self, other: Self) -> bool {
        other.spec_info() == self.spec_info()
        && other.spec_exec() == self.spec_exec()
        && other.spec_bcast_out() == self.spec_bcast_out()
        && other.spec_p2ps_out() == self.spec_p2ps_out()
        && other.spec_p2ps_in() == self.spec_p2ps_in()
        && other.spec_faulters() == self.spec_faulters()
    }

    /// Everything but the broadcast buffer and the accusation set is as it
    /// was.
    pub open spec fn same_but_bcasts_and_faulters(self, other: Self) -> bool {
        other.spec_info() == self.spec_info()
        && other.spec_exec() == self.spec_exec()
        && other.spec_bcast_out() == self.spec_bcast_out()
        && other.spec_p2ps_out() == self.spec_p2ps_out()
        && other.spec_bcasts_in() == self.spec_bcasts_in()
        && other.spec_faulters() == self.spec_faulters()
    }

    /// Whether party `q` owns a required message slot still vacant in this
    /// round's buffers.
    pub open spec fn missing_party(&self, q: int) -> bool {
        (exists|s: int|
            0 <= s < self.spec_bcasts_in().len() && self.spec_bcasts_in()[s] is None
                && party_of_share(self.spec_info().counts(), s) == q) || (exists|s: int|
            0 <= s < self.spec_p2ps_in().len() && self.spec_p2ps_in()[s] is None
                && party_of_share(self.spec_info().counts(), s) == q)
    }

    /// The accusation set the round terminates with when messages are
    /// missing: the prior accusations, with `MissingMessage` overlaid on
    /// exactly the parties owning vacant required slots.
    pub open spec fn overlaid_faulters(&self, f: Seq<Option<Fault>>) -> bool {
        f.len() == self.spec_faulters().len() && forall|q: int|
            0 <= q < f.len() ==> f[q] == if self.missing_party(q) {
                Some(Fault::MissingMessage)
            } else {
                self.spec_faulters()[q]
            }
    }

    /// Consumes the round and advances: accuses the parties whose required
    /// messages are still missing, terminates with the accusation set when
    /// any party stands accused, and otherwise runs the round's computation
    /// over the buffered inputs. The rounds-left measure strictly
    /// decreases, so every protocol run terminates.
    pub fn execute_next_round(self) -> (r: TofnResult<Protocol<F, K, P, E>>)
        requires
            self.wf(),
        ensures
            match r {
                Ok(p) => p.wf() && p.rounds_left() < self.spec_exec().rounds_left(),
                Err(_) => true,
            },
            self.spec_faulter_count() > 0 || self.spec_expecting_more() ==> (r matches Ok(p) && (
            p matches Protocol::Done(out) && (out matches Err(f) && f.wf()
                && self.overlaid_faulters(f@)))),
    {
        let mut round = self;
        proof {
            use_type_invariant(&round.info);
        }
        let ghost orig = round;
        let total = round.info.total_share_count();
        if round.bcasts_in.size() > 0 {
            let mut i: usize = 0;
            while i < total
                invariant
                    i <= total,
                    round.wf(),
                    total == round.spec_info().total(),
                    round.spec_exec().rounds_left() == orig.spec_exec().rounds_left(),
                    round.spec_bcasts_in().len() == total,
                    round.spec_bcasts_in() == orig.spec_bcasts_in(),
                    round.spec_p2ps_in() == orig.spec_p2ps_in(),
                    round.spec_info() == orig.spec_info(),
                    round.spec_exec() == orig.spec_exec(),
                    round.spec_faulters().len() == orig.spec_faulters().len(),
                    round.spec_faulter_count() >= orig.spec_faulter_count(),
                    forall|q: int| 0 <= q < round.spec_faulters().len()
                        ==> round.spec_faulters()[q] == if (exists|s: int|
                        0 <= s < i && orig.spec_bcasts_in()[s] is None && party_of_share(
                            orig.spec_info().counts(),
                            s,
                        ) == q) {
                            Some(Fault::MissingMessage)
                        } else {
                            orig.spec_faulters()[q]
                        },
                decreases total - i,
            {
                let ghost pre = round.spec_faulters();
                let vacant = match round.bcasts_in.is_none(TypedUsize::from_usize(i)) {
                    Ok(v) => v,
                    Err(_) => {
                        proof {
                            assert(false);
                        }
                        return Err(TofnFatal);
                    },
                };
                if vacant {
                    proof {
                        lemma_share_in_party_range(round.info.counts(), i as int);
                    }
                    let party = match round.info.party_share_counts().share_to_party_id::<K>(
                        TypedUsize::from_usize(i),
                    ) {
                        Ok(p) => p,
                        Err(_) => {
                            proof {
                                assert(false);
                            }
                            return Err(TofnFatal);
                        },
                    };
                    match round.faulters.set(party, Fault::MissingMessage) {
                        Ok(()) => {},
                        Err(_) => {
                            proof {
                                assert(false);
                            }
                            return Err(TofnFatal);
                        },
                    }
                    proof {
                        assert forall|q: int| 0 <= q < round.spec_faulters().len()
                            implies round.spec_faulters()[q] == if (exists|s: int|
                            0 <= s < i + 1 && orig.spec_bcasts_in()[s] is None && party_of_share(
                                orig.spec_info().counts(),
                                s,
                            ) == q) {
                                Some(Fault::MissingMessage)
                            } else {
                                orig.spec_faulters()[q]
                            } by {
                            if q == party.spec_as_usize() as int {
                                assert(orig.spec_bcasts_in()[i as int] is None && party_of_share(
                                    orig.spec_info().counts(),
                                    i as int,
                                ) == q);
                            } else {
                                assert(round.spec_faulters()[q] == pre[q]);
                                if exists|s: int|
                                    0 <= s < i + 1 && orig.spec_bcasts_in()[s] is None
                                        && party_of_share(orig.spec_info().counts(), s) == q {
                                    let s = choose|s: int|
                                        0 <= s < i + 1 && orig.spec_bcasts_in()[s] is None
                                            && party_of_share(orig.spec_info().counts(), s) == q;
                                    assert(s < i);
                                }
                            }
                        };
                    }
                } else {
                    proof {
                        assert forall|q: int| 0 <= q < round.spec_faulters().len()
                            implies round.spec_faulters()[q] == if (exists|s: int|
                            0 <= s < i + 1 && orig.spec_bcasts_in()[s] is None && party_of_share(
                                orig.spec_info().counts(),
                                s,
                            ) == q) {
                                Some(Fault::MissingMessage)
                            } else {
                                orig.spec_faulters()[q]
                            } by {
                            if exists|s: int|
                                0 <= s < i + 1 && orig.spec_bcasts_in()[s] is None
                                    && party_of_share(orig.spec_info().counts(), s) == q {
                                let s = choose|s: int|
                                    0 <= s < i + 1 && orig.spec_bcasts_in()[s] is None
                                        && party_of_share(orig.spec_info().counts(), s) == q;
                                assert(s < i);
                            }
                        };
                    }
                }
                i += 1;
            }
        }
        if round.p2ps_in.size() > 0 {
            let mut i: usize = 0;
            while i < total
                invariant
                    i <= total,
                    round.wf(),
                    total == round.spec_info().total(),
                    round.spec_exec().rounds_left() == orig.spec_exec().rounds_left(),
                    round.spec_p2ps_in().len() == total,
                    round.spec_bcasts_in() == orig.spec_bcasts_in(),
                    round.spec_p2ps_in() == orig.spec_p2ps_in(),
                    round.spec_info() == orig.spec_info(),
                    round.spec_exec() == orig.spec_exec(),
                    round.spec_faulters().len() == orig.spec_faulters().len(),
                    round.spec_faulter_count() >= orig.spec_faulter_count(),
                    forall|q: int| 0 <= q < round.spec_faulters().len()
                        ==> round.spec_faulters()[q] == if (exists|s: int|
                        0 <= s < orig.spec_bcasts_in().len() && orig.spec_bcasts_in()[s] is None
                            && party_of_share(orig.spec_info().counts(), s) == q) || (exists|
                        s: int|
                        0 <= s < i && orig.spec_p2ps_in()[s] is None && party_of_share(
                            orig.spec_info().counts(),
                            s,
                        ) == q) {
                            Some(Fault::MissingMessage)
                        } else {
                            orig.spec_faulters()[q]
                        },
                decreases total - i,
            {
                let ghost pre = round.spec_faulters();
                let vacant = match round.p2ps_in.is_none(TypedUsize::from_usize(i)) {
                    Ok(v) => v,
                    Err(_) => {
                        proof {
                            assert(false);
                        }
                        return Err(TofnFatal);
                    },
                };
                if vacant {
                    proof {
                        lemma_share_in_party_range(round.info.counts(), i as int);
                    }
                    let party = match round.info.party_share_counts().share_to_party_id::<K>(
                        TypedUsize::from_usize(i),
                    ) {
                        Ok(p) => p,
                        Err(_) => {
                            proof {
                                assert(false);
                            }
                            return Err(TofnFatal);
                        },
                    };
                    match round.faulters.set(party, Fault::MissingMessage) {
                        Ok(()) => {},
                        Err(_) => {
                            proof {
                                assert(false);
                            }
                            return Err(TofnFatal);
                        },
                    }
                    proof {
                        assert forall|q: int| 0 <= q < round.spec_faulters().len()
                            implies round.spec_faulters()[q] == if (exists|s: int|
                            0 <= s < orig.spec_bcasts_in().len() && orig.spec_bcasts_in()[
                                s
                            ] is None && party_of_share(orig.spec_info().counts(), s) == q) || (
                            exists|s: int|
                            0 <= s < i + 1 && orig.spec_p2ps_in()[s] is None && party_of_share(
                                orig.spec_info().counts(),
                                s,
                            ) == q) {
                                Some(Fault::MissingMessage)
                            } else {
                                orig.spec_faulters()[q]
                            } by {
                            if q == party.spec_as_usize() as int {
                                assert(orig.spec_p2ps_in()[i as int] is None && party_of_share(
                                    orig.spec_info().counts(),
                                    i as int,
                                ) == q);
                            } else {
                                assert(round.spec_faulters()[q] == pre[q]);
                                if exists|s: int|
                                    0 <= s < i + 1 && orig.spec_p2ps_in()[s] is None
                                        && party_of_share(orig.spec_info().counts(), s) == q {
                                    let s = choose|s: int|
                                        0 <= s < i + 1 && orig.spec_p2ps_in()[s] is None
                                            && party_of_share(orig.spec_info().counts(), s) == q;
                                    assert(s < i);
                                }
                            }
                        };
                    }
                } else {
                    proof {
                        assert forall|q: int| 0 <= q < round.spec_faulters().len()
                            implies round.spec_faulters()[q] == if (exists|s: int|
                            0 <= s < orig.spec_bcasts_in().len() && orig.spec_bcasts_in()[
                                s
                            ] is None && party_of_share(orig.spec_info().counts(), s) == q) || (
                            exists|s: int|
                            0 <= s < i + 1 && orig.spec_p2ps_in()[s] is None && party_of_share(
                                orig.spec_info().counts(),
                                s,
                            ) == q) {
                                Some(Fault::MissingMessage)
                            } else {
                                orig.spec_faulters()[q]
                            } by {
                            if exists|s: int|
                                0 <= s < i + 1 && orig.spec_p2ps_in()[s] is None
                                    && party_of_share(orig.spec_info().counts(), s) == q {
                                let s = choose|s: int|
                                    0 <= s < i + 1 && orig.spec_p2ps_in()[s] is None
                                        && party_of_share(orig.spec_info().counts(), s) == q;
                                assert(s < i);
                            }
                        };
                    }
                }
                i += 1;
            }
        }
        proof {
            assert(orig.overlaid_faulters(round.spec_faulters())) by {
                assert forall|q: int| 0 <= q < round.spec_faulters().len()
                    implies round.spec_faulters()[q] == if orig.missing_party(q) {
                    Some(Fault::MissingMessage)
                } else {
                    orig.spec_faulters()[q]
                } by {}
            };
            if orig.spec_faulter_count() > 0 || orig.spec_expecting_more() {
                if orig.spec_expecting_more() {
                    if !(forall|s: int|
                        0 <= s < orig.spec_bcasts_in().len() ==> orig.spec_bcasts_in()[
                        s
                    ] is Some) {
                        let s = choose|s: int|
                            0 <= s < orig.spec_bcasts_in().len() && !(orig.spec_bcasts_in()[
                            s
                        ] is Some);
                        lemma_share_in_party_range(orig.spec_info().counts(), s);
                        let q = party_of_share(orig.spec_info().counts(), s);
                        assert(round.spec_faulters()[q] is Some);
                        FillVecMap::<P, Fault>::lemma_count_pos(round.spec_faulters(), q);
                    } else {
                        let s = choose|s: int|
                            0 <= s < orig.spec_p2ps_in().len() && !(orig.spec_p2ps_in()[
                            s
                        ] is Some);
                        lemma_share_in_party_range(orig.spec_info().counts(), s);
                        let q = party_of_share(orig.spec_info().counts(), s);
                        assert(round.spec_faulters()[q] is Some);
                        FillVecMap::<P, Fault>::lemma_count_pos(round.spec_faulters(), q);
                    }
                }
                assert(round.spec_faulter_count() > 0);
            }
        }
        if round.faulters.some_count() != 0 {
            return Ok(Protocol::Done(Err(round.faulters)));
        }
        proof {
            assert(!(orig.spec_faulter_count() > 0 || orig.spec_expecting_more()));
        }
        let Round { info, executer, bcasts_in, p2ps_in, .. } = round;
        let pb = match executer.execute(&info, bcasts_in, p2ps_in) {
            Ok(pb) => pb,
            Err(e) => {
                return Err(e);
            },
        };
        match pb {
            ProtocolBuilder::NotDone(b) => {
                let next = match Round::new(
                    info,
                    b.executer,
                    b.bcast_out,
                    b.p2ps_out,
                    b.expect_bcasts,
                    b.expect_p2ps,
                ) {
                    Ok(next) => next,
                    Err(e) => {
                        return Err(e);
                    },
                };
                Ok(Protocol::NotDone(next))
            },
            ProtocolBuilder::Done(out) => Ok(Protocol::Done(out)),
        }
    }

    /// Accuses the given party of a corrupted message.
    fn accuse(&mut self, from: TypedUsize<P>) -> (r: TofnResult<()>)
        requires
            old(self).wf(),
            from.spec_as_usize() < old(self).spec_info().counts().len(),
        ensures
            final(self).wf(),
            r == TofnResult::<()>::Ok(()),
            old(self).accused(*final(self), from.spec_as_usize() as int),
    {
        match self.faulters.set(from, Fault::CorruptedMessage) {
            Ok(()) => Ok(()),
            Err(_) => {
                proof {
                    assert(false);
                }
                Err(TofnFatal)
            },
        }
    }
}

} // verus!
