//! The reference orchestrator: runs one round-object per party in
//! lock-step, cross-delivering every broadcast and per-recipient message,
//! then advancing every party, until some party terminates. Its
//! cross-delivery algorithm is the normative definition of a completed
//! round; any transport delivering the same bytes with the same per-round
//! completeness behaves identically.

use vstd::prelude::*;

verus! {

use crate::TofnFatal;
use crate::TofnResult;
use crate::BytesVec;
use crate::collections::TypedUsize;
use crate::collections::VecMap;
use crate::sdk::Executer;
use crate::sdk::Protocol;
use crate::sdk::Round;

/// A plain copy of a byte string.
fn clone_bytes(v: &BytesVec) -> (r: BytesVec)
    ensures
        r@ == v@,
{
    let mut out: Vec<u8> = Vec::new();
    let mut i: usize = 0;
    while i < v.len()
        invariant
            i <= v@.len(),
            out@ == v@.take(i as int),
        decreases v@.len() - i,
    {
        proof {
            assert(v@.take(i as int).push(v@[i as int]) =~= v@.take(i as int + 1));
        }
        out.push(v[i]);
        i += 1;
    }
    proof {
        assert(v@.take(v@.len() as int) =~= v@);
    }
    out
}

/// True exactly when no party has terminated yet. Under honest execution
/// all parties terminate in the same round, so a mix of terminated and
/// running parties signals a fault or defect; the driver stops as soon as
/// anyone terminates and leaves that disagreement visible to its caller.
pub fn nobody_done<F, K, P, E: Executer<F, K, P>>(parties: &VecMap<K, Protocol<F, K, P, E>>) -> (r:
    bool)
    ensures
        r == (forall|i: int| 0 <= i < parties@.len() ==> !(#[trigger] parties@[i]).is_done()),
{
    let n = parties.len();
    let mut i: usize = 0;
    while i < n
        invariant
            i <= n,
            n == parties@.len(),
            forall|j: int| 0 <= j < i ==> !(#[trigger] parties@[j]).is_done(),
        decreases n - i,
    {
        let party = match parties.get(TypedUsize::from_usize(i)) {
            Ok(p) => p,
            Err(_) => {
                proof {
                    assert(false);
                }
                return false;
            },
        };
        match party {
            Protocol::Done(_) => {
                return false;
            },
            Protocol::NotDone(_) => {},
        }
        i += 1;
    }
    true
}

/// One lock-step round: collects every party's outgoing broadcast and
/// per-recipient messages, delivers all of them to every party, then
/// advances every party. Every advanced party's rounds-left measure
/// strictly decreases.
fn next_round<F, K, P, E: Executer<F, K, P>>(parties: VecMap<K, Protocol<F, K, P, E>>) -> (r:
    TofnResult<VecMap<K, Protocol<F, K, P, E>>>)
    requires
        forall|i: int| 0 <= i < parties@.len() ==> (#[trigger] parties@[i]).wf(),
        forall|i: int| 0 <= i < parties@.len() ==> !(#[trigger] parties@[i]).is_done(),
    ensures
        match r {
            Ok(v) => v@.len() == parties@.len() && forall|i: int|
                0 <= i < v@.len() ==> (#[trigger] v@[i]).wf() && v@[i].rounds_left()
                    < parties@[i].rounds_left(),
            Err(_) => true,
        },
{
    let ghost orig = parties@;
    let mut rounds: Vec<Round<F, K, P, E>> = Vec::new();
    let mut vec = parties.into_vec();
    let n = vec.len();
    proof {
        assert(orig.subrange(0, n as int) =~= orig);
    }
    // extract the running round of every party
    let mut i: usize = 0;
    while i < n
        invariant
            i <= n,
            n == orig.len(),
            vec@ == orig.subrange(i as int, n as int),
            rounds@.len() == i,
            forall|j: int| 0 <= j < orig.len() ==> (#[trigger] orig[j]).wf() && !orig[
                j
            ].is_done(),
            forall|j: int| 0 <= j < i ==> (#[trigger] rounds@[j]).wf() && orig[j].rounds_left()
                == rounds@[j].spec_exec().rounds_left(),
        decreases n - i,
    {
        let party = vec.remove(0);
        proof {
            assert(party == orig[i as int]);
            assert(orig.subrange(i as int, n as int).remove(0) =~= orig.subrange(
                i as int + 1,
                n as int,
            ));
        }
        match party {
            Protocol::NotDone(round) => {
                rounds.push(round);
            },
            Protocol::Done(_) => {
                proof {
                    assert(orig[i as int].is_done());
                    assert(false);
                }
                return Err(TofnFatal);
            },
        }
        i += 1;
    }
    // collect every party's outgoing broadcast and per-recipient messages
    let mut bcasts: Vec<Option<BytesVec>> = Vec::new();
    let mut i: usize = 0;
    while i < n
        invariant
            i <= n,
            n == orig.len(),
            rounds@.len() == n,
            bcasts@.len() == i,
            forall|j: int| 0 <= j < n ==> (#[trigger] rounds@[j]).wf() && orig[j].rounds_left()
                == rounds@[j].spec_exec().rounds_left(),
        decreases n - i,
    {
        let bcast = match rounds[i].bcast_out() {
            Some(bytes) => Some(clone_bytes(bytes)),
            None => None,
        };
        bcasts.push(bcast);
        i += 1;
    }
    let mut all_p2ps: Vec<Vec<BytesVec>> = Vec::new();
    let mut i: usize = 0;
    while i < n
        invariant
            i <= n,
            n == orig.len(),
            rounds@.len() == n,
            all_p2ps@.len() == i,
            forall|j: int| 0 <= j < n ==> (#[trigger] rounds@[j]).wf() && orig[j].rounds_left()
                == rounds@[j].spec_exec().rounds_left(),
        decreases n - i,
    {
        let p2ps = match rounds[i].p2ps_out() {
            Some(p2ps) => p2ps.clone_vec(),
            None => Vec::new(),
        };
        all_p2ps.push(p2ps);
        i += 1;
    }
    // deliver everything to every party
    let mut delivered: Vec<Round<F, K, P, E>> = Vec::new();
    let mut to: usize = 0;
    while to < n
        invariant
            to <= n,
            n == orig.len(),
            bcasts@.len() == n,
            all_p2ps@.len() == n,
            rounds@.len() == n - to,
            delivered@.len() == to,
            forall|j: int| 0 <= j < rounds@.len() ==> (#[trigger] rounds@[j]).wf() && orig[j
                + to].rounds_left() == rounds@[j].spec_exec().rounds_left(),
            forall|j: int| 0 <= j < to ==> (#[trigger] delivered@[j]).wf() && orig[
                j
            ].rounds_left() == delivered@[j].spec_exec().rounds_left(),
        decreases n - to,
    {
        let mut receiver = rounds.remove(0);
        let mut from: usize = 0;
        while from < n
            invariant
                from <= n,
                n == orig.len(),
                to < n,
                bcasts@.len() == n,
                all_p2ps@.len() == n,
                receiver.wf(),
                receiver.spec_exec().rounds_left() == orig[to as int].rounds_left(),
            decreases n - from,
        {
            let from_party = match receiver.info().party_share_counts().share_to_party_id::<K>(
                TypedUsize::from_usize(from),
            ) {
                Ok(p) => p,
                Err(_) => {
                    return Err(TofnFatal);
                },
            };
            proof {
                crate::party_share_counts::lemma_share_in_party_range(
                    receiver.spec_info().counts(),
                    from as int,
                );
            }
            match &bcasts[from] {
                Some(bytes) => {
                    let copy = clone_bytes(bytes);
                    match receiver.msg_in(from_party, &copy) {
                        Ok(()) => {},
                        Err(_) => {
                            proof {
                                assert(false);
                            }
                            return Err(TofnFatal);
                        },
                    }
                },
                None => {},
            }
            let mut m: usize = 0;
            let p2p_count = all_p2ps[from].len();
            while m < p2p_count
                invariant
                    m <= p2p_count,
                    n == orig.len(),
                    to < n,
                    from < n,
                    all_p2ps@.len() == n,
                    p2p_count == all_p2ps@[from as int]@.len(),
                    receiver.wf(),
                    receiver.spec_exec().rounds_left() == orig[to as int].rounds_left(),
                    from_party.spec_as_usize() < receiver.spec_info().counts().len(),
                decreases p2p_count - m,
            {
                let copy = clone_bytes(&all_p2ps[from][m]);
                match receiver.msg_in(from_party, &copy) {
                    Ok(()) => {},
                    Err(_) => {
                        proof {
                            assert(false);
                        }
                        return Err(TofnFatal);
                    },
                }
                m += 1;
            }
            from += 1;
        }
        delivered.push(receiver);
        to += 1;
    }
    let mut rounds = delivered;
    // advance every party
    let mut out: Vec<Protocol<F, K, P, E>> = Vec::new();
    let mut i: usize = 0;
    while i < n
        invariant
            i <= n,
            n == orig.len(),
            rounds@.len() == n - i,
            out@.len() == i,
            forall|j: int| 0 <= j < rounds@.len() ==> (#[trigger] rounds@[j]).wf() && orig[j
                + i].rounds_left() == rounds@[j].spec_exec().rounds_left(),
            forall|j: int| 0 <= j < i ==> (#[trigger] out@[j]).wf() && out@[j].rounds_left()
                < orig[j].rounds_left(),
        decreases n - i,
    {
        let round = rounds.remove(0);
        let next = match round.execute_next_round() {
            Ok(p) => p,
            Err(e) => {
                return Err(e);
            },
        };
        out.push(next);
        i += 1;
    }
    Ok(VecMap::from_vec(out))
}

/// Runs every party to completion by repeated lock-step rounds. The
/// rounds-left measure of the first party strictly decreases every
/// iteration, so this always terminates; it stops as soon as any party has
/// terminated.
pub fn execute_protocol<F, K, P, E: Executer<F, K, P>>(
    parties: VecMap<K, Protocol<F, K, P, E>>,
) -> (r: TofnResult<VecMap<K, Protocol<F, K, P, E>>>)
    requires
        parties@.len() >= 1,
        forall|i: int| 0 <= i < parties@.len() ==> (#[trigger] parties@[i]).wf(),
    ensures
        match r {
            Ok(v) => v@.len() == parties@.len() && (forall|i: int|
                0 <= i < v@.len() ==> (#[trigger] v@[i]).wf()) && (exists|i: int|
                0 <= i < v@.len() && (#[trigger] v@[i]).is_done()),
            Err(_) => true,
        },
        (exists|i: int| 0 <= i < parties@.len() && (#[trigger] parties@[i]).is_done())
            ==> (r matches Ok(v) && v@ == parties@),
{
    let ghost len = parties@.len();
    let mut current = parties;
    if !nobody_done(&current) {
        return Ok(current);
    }
    while nobody_done(&current)
        invariant
            current@.len() == len,
            len >= 1,
            parties@.len() == len,
            forall|i: int| 0 <= i < current@.len() ==> (#[trigger] current@[i]).wf(),
            forall|i: int| 0 <= i < parties@.len() ==> !(#[trigger] parties@[i]).is_done(),
        decreases current@[0].rounds_left(),
    {
        current = match next_round(current) {
            Ok(v) => v,
            Err(e) => {
                return Err(e);
            },
        };
    }
    Ok(current)
}

} // verus!
