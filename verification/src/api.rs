//! Conveniences around an assembled signature: recovering the recovery
//! identifier for chains that want one, and deriving the address form of a
//! verifying key.

use vstd::prelude::*;

verus! {

use crate::curve;
use crate::curve::be_nat;
use crate::curve::group_order;
use crate::curve::ecdsa_verify_of;
use crate::curve::recover_of;
use crate::curve::keccak_of;
use crate::curve::point_uncompressed_of;
use crate::curve::sec1_valid_of;
use crate::TofnFatal;
use crate::TofnResult;

/// A signature in low-s form together with the recovery identifier that
/// picks the signing key out of the curve's candidates.
pub struct RecoverableSignature {
    pub signature: [u8; 64],
    pub recovery_id: u8,
}

/// The first or second 32-byte half of a 64-byte buffer.
fn split_half(sig: &[u8; 64], second: bool) -> (r: [u8; 32])
    ensures
        !second ==> r@ == sig@.take(32),
        second ==> r@ == sig@.skip(32),
{
    let mut out: [u8; 32] = [0u8; 32];
    let offset: usize = if second {
        32
    } else {
        0
    };
    let mut i: usize = 0;
    while i < 32
        invariant
            i <= 32,
            out@.len() == 32,
            offset == if second { 32int } else { 0int },
            forall|j: int| 0 <= j < i ==> out@[j] == sig@[j + offset],
        decreases 32 - i,
    {
        out[i] = sig[offset + i];
        i += 1;
    }
    proof {
        if second {
            assert(out@ =~= sig@.skip(32));
        } else {
            assert(out@ =~= sig@.take(32));
        }
    }
    out
}

/// Finds the recovery identifier under which the given verifying key is
/// recovered from the signature, trying both candidates, and returns the
/// signature normalized into low-s form alongside it. `None` when the
/// message is not 32 bytes, the scalars are out of range, or neither
/// candidate both recovers and verifies under the key.
pub fn to_recoverable_signature(
    verifying_key: &[u8; 33],
    message: &Vec<u8>,
    signature: &[u8; 64],
) -> (r: Option<RecoverableSignature>)
    ensures
        message@.len() != 32 ==> r is None,
        r is Some ==> {
            let rs = r.unwrap();
            rs.recovery_id <= 1 && be_nat(rs.signature@.skip(32)) <= group_order() / 2 && recover_of(
                message@,
                rs.signature@.take(32),
                rs.signature@.skip(32),
                rs.recovery_id,
            ) == Some(verifying_key@) && ecdsa_verify_of(
                verifying_key@,
                message@,
                rs.signature@.take(32),
                rs.signature@.skip(32),
            ) && rs.signature@.take(32) == signature@.take(32) && (rs.signature@.skip(32)
                == signature@.skip(32) || be_nat(rs.signature@.skip(32)) + be_nat(
                signature@.skip(32),
            ) == group_order())
        },
        // completeness: a refusal exhibits its cause — a wrong-length
        // message, out-of-range scalars, or no recovery id that both
        // recovers the key and verifies under it for the normalized s
        r is None ==> message@.len() != 32 || !(0 < be_nat(signature@.take(32)) < group_order()
            && 0 < be_nat(signature@.skip(32)) < group_order()) || (forall|id: u8, s2: Seq<u8>|
            !(id <= 1 && s2.len() == 32 && be_nat(s2) <= group_order() / 2 && (be_nat(s2)
                == be_nat(signature@.skip(32)) || be_nat(s2) + be_nat(signature@.skip(32))
                == group_order())) || !(#[trigger] recover_of(
                message@,
                signature@.take(32),
                s2,
                id,
            ) == Some(verifying_key@) && ecdsa_verify_of(
                verifying_key@,
                message@,
                signature@.take(32),
                s2,
            ))),
{
    let digest = match crate::k256_serde::to_array32(message) {
        Ok(a) => a,
        Err(_) => {
            return None;
        },
    };
    let r_scalar = split_half(signature, false);
    let s_scalar = split_half(signature, true);
    if !curve::scalars_form_signature(&r_scalar, &s_scalar) {
        return None;
    }
    // normalize into low-s form
    let was_high = curve::scalar_is_high(&s_scalar);
    let s_low = if was_high {
        curve::scalar_negate(&s_scalar)
    } else {
        s_scalar
    };
    proof {
        if was_high {
            vstd::arithmetic::div_mod::lemma_small_mod(
                (group_order() - be_nat(s_scalar@)) as nat,
                group_order(),
            );
        }
        assert(be_nat(s_low@) <= group_order() / 2);
        assert(s_low@ == s_scalar@ || be_nat(s_low@) + be_nat(s_scalar@) == group_order());
    }
    let mut out_sig: [u8; 64] = [0u8; 64];
    let mut i: usize = 0;
    while i < 32
        invariant
            i <= 32,
            out_sig@.len() == 64,
            forall|j: int| 0 <= j < i ==> out_sig@[j] == r_scalar@[j],
            forall|j: int| 0 <= j < i ==> out_sig@[j + 32] == s_low@[j],
        decreases 32 - i,
    {
        out_sig[i] = r_scalar[i];
        out_sig[i + 32] = s_low[i];
        i += 1;
    }
    proof {
        assert(out_sig@.take(32) =~= r_scalar@);
        assert(out_sig@.skip(32) =~= s_low@);
    }
    let mut recovery_id: u8 = 0;
    while recovery_id <= 1
        invariant
            recovery_id <= 2,
            out_sig@.take(32) == r_scalar@,
            out_sig@.skip(32) == s_low@,
            r_scalar@ == signature@.take(32),
            s_scalar@ == signature@.skip(32),
            0 < be_nat(s_scalar@) < group_order(),
            s_low@ == signature@.skip(32) || be_nat(s_low@) + be_nat(signature@.skip(32))
                == group_order(),
            be_nat(s_low@) == be_nat(s_scalar@) || be_nat(s_low@) + be_nat(s_scalar@)
                == group_order(),
            digest@ == message@,
            message@.len() == 32,
            be_nat(s_low@) <= group_order() / 2,
            forall|id: u8| id < recovery_id ==> !(#[trigger] recover_of(
                message@,
                signature@.take(32),
                s_low@,
                id,
            ) == Some(verifying_key@) && ecdsa_verify_of(
                verifying_key@,
                message@,
                signature@.take(32),
                s_low@,
            )),
        decreases 2 - recovery_id,
    {
        let recovered = curve::ecdsa_recover(&digest, &r_scalar, &s_low, recovery_id);
        match recovered {
            Some(candidate) => {
                let mut same = true;
                let mut k: usize = 0;
                while k < 33
                    invariant
                        k <= 33,
                        same == (forall|j: int| 0 <= j < k ==> candidate@[j] == verifying_key@[j]),
                    decreases 33 - k,
                {
                    if candidate[k] != verifying_key[k] {
                        same = false;
                    }
                    k += 1;
                }
                proof {
                    if same {
                        assert(candidate@ =~= verifying_key@);
                    } else {
                        assert(candidate@ != verifying_key@) by {
                            if candidate@ == verifying_key@ {
                                assert(forall|j: int| 0 <= j < 33
                                    ==> candidate@[j] == verifying_key@[j]);
                            }
                        };
                    }
                }
                if same {
                    if curve::ecdsa_verify(verifying_key, &digest, &r_scalar, &s_low) {
                        return Some(RecoverableSignature { signature: out_sig, recovery_id });
                    }
                }
            },
            None => {},
        }
        recovery_id += 1;
    }
    proof {
        assert forall|id: u8, s2: Seq<u8>|
            id <= 1 && s2.len() == 32 && be_nat(s2) <= group_order() / 2 && (be_nat(s2) == be_nat(
                signature@.skip(32),
            ) || be_nat(s2) + be_nat(signature@.skip(32)) == group_order()) implies !(
        #[trigger] recover_of(message@, signature@.take(32), s2, id) == Some(verifying_key@)
            && ecdsa_verify_of(verifying_key@, message@, signature@.take(32), s2)) by {
            assert(be_nat(s2) == be_nat(s_low@));
            crate::curve::lemma_be_nat_injective(s2, s_low@);
            assert(s2 == s_low@);
        };
    }
    None
}

/// The address form of a verifying key: the last twenty bytes of the
/// Keccak-256 hash of the key's uncompressed encoding without its leading
/// tag byte. Fails exactly when the bytes are no valid curve point.
pub fn derive_ethereum_address(vkey: &[u8; 33]) -> (r: TofnResult<[u8; 20]>)
    ensures
        match r {
            Ok(a) => sec1_valid_of(vkey@) && a@ == keccak_of(
                point_uncompressed_of(vkey@).skip(1),
            ).skip(12),
            Err(e) => !sec1_valid_of(vkey@) && e == TofnFatal,
        },
{
    let uncompressed = match curve::point_uncompress(vkey) {
        Some(u) => u,
        None => {
            return Err(TofnFatal);
        },
    };
    let mut body: Vec<u8> = Vec::new();
    let mut i: usize = 1;
    while i < 65
        invariant
            1 <= i <= 65,
            body@ == uncompressed@.subrange(1, i as int),
        decreases 65 - i,
    {
        proof {
            assert(uncompressed@.subrange(1, i as int).push(uncompressed@[i as int])
                =~= uncompressed@.subrange(1, i as int + 1));
        }
        body.push(uncompressed[i]);
        i += 1;
    }
    proof {
        assert(uncompressed@.subrange(1, 65) =~= uncompressed@.skip(1));
    }
    let hash = curve::keccak256(&body);
    let mut out: [u8; 20] = [0u8; 20];
    let mut i: usize = 0;
    while i < 20
        invariant
            i <= 20,
            out@.len() == 20,
            hash@.len() == 32,
            forall|j: int| 0 <= j < i ==> out@[j] == hash@[j + 12],
        decreases 20 - i,
    {
        out[i] = hash[i + 12];
        i += 1;
    }
    proof {
        assert(out@ =~= hash@.skip(12));
    }
    Ok(out)
}

} // verus!
