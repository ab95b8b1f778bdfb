//! Scalar and curve-point values as the rest of the library sees them: a
//! scalar as its canonical 32-byte big-endian encoding, a point as its SEC1
//! compressed 33-byte encoding.

use vstd::prelude::*;

verus! {

use crate::TofnFatal;
use crate::TofnResult;
use crate::curve::be_nat;
use crate::curve::group_order;
use crate::curve::g_mul_of;
use crate::curve::sec1_valid_of;
use crate::curve::sec1_compress_of;
use crate::curve;

/// A scalar value held as secret data: this share's slice of the key.
#[derive(PartialEq, Eq)]
pub struct SecretScalar {
    bytes: [u8; 32],
}

impl SecretScalar {
    /// The big-endian bytes of the scalar, for specifications.
    pub closed spec fn view(&self) -> Seq<u8> {
        self.bytes@
    }

    /// The numeric value of the scalar.
    pub open spec fn value(&self) -> nat {
        be_nat(self@)
    }

    /// Canonical: the value lies below the group order.
    pub open spec fn wf(&self) -> bool {
        self.value() < group_order()
    }

    /// Accepts exactly the canonical encodings.
    pub fn from_bytes(bytes: [u8; 32]) -> (r: TofnResult<Self>)
        ensures
            match r {
                Ok(s) => be_nat(bytes@) < group_order() && s@ == bytes@ && s.wf(),
                Err(e) => be_nat(bytes@) >= group_order() && e == TofnFatal,
            },
    {
        if curve::scalar_is_canonical(&bytes) {
            Ok(SecretScalar { bytes })
        } else {
            Err(TofnFatal)
        }
    }

    /// A fresh uniformly random scalar from the thread RNG.
    pub fn random_with_thread_rng() -> (r: Self)
        ensures
            r.wf(),
    {
        SecretScalar { bytes: curve::scalar_random() }
    }

    pub fn to_bytes(&self) -> (r: [u8; 32])
        ensures
            r@ == self@,
    {
        self.bytes
    }

    pub fn as_bytes(&self) -> (r: &[u8; 32])
        ensures
            r@ == self@,
    {
        &self.bytes
    }
}

impl Clone for SecretScalar {
    fn clone(&self) -> (r: Self)
        ensures
            r == *self,
    {
        SecretScalar { bytes: self.bytes }
    }
}

/// A point on the secp256k1 curve, held in SEC1 compressed encoding.
#[derive(PartialEq, Eq)]
pub struct ProjectivePoint {
    bytes: [u8; 33],
}

impl ProjectivePoint {
    /// The SEC1 compressed bytes of the point, for specifications.
    pub closed spec fn view(&self) -> Seq<u8> {
        self.bytes@
    }

    /// The generator multiplied by a scalar: the public point that belongs
    /// to a secret value.
    pub fn generator_mul(s: &SecretScalar) -> (r: Self)
        requires
            s.wf(),
        ensures
            r@ == g_mul_of(s.value()),
    {
        ProjectivePoint { bytes: curve::generator_mul(s.as_bytes()) }
    }

    /// Returns the SEC1-encoded compressed curve point.
    pub fn to_bytes(&self) -> (r: [u8; 33])
        ensures
            r@ == self@,
    {
        self.bytes
    }

    pub fn as_bytes(&self) -> (r: &[u8; 33])
        ensures
            r@ == self@,
    {
        &self.bytes
    }

    /// Decode from a SEC1-encoded curve point, compressed or not; the stored
    /// encoding is the compressed one.
    pub fn from_bytes(bytes: &Vec<u8>) -> (r: Option<Self>)
        ensures
            r is Some <==> sec1_valid_of(bytes@),
            r is Some ==> r.unwrap()@ == sec1_compress_of(bytes@),
    {
        match curve::point_decode(bytes) {
            Some(b) => Some(ProjectivePoint { bytes: b }),
            None => None,
        }
    }

    pub fn from_array(bytes: [u8; 33]) -> (r: Self)
        ensures
            r@ == bytes@,
    {
        ProjectivePoint { bytes }
    }
}

impl Clone for ProjectivePoint {
    fn clone(&self) -> (r: Self)
        ensures
            r == *self,
    {
        ProjectivePoint { bytes: self.bytes }
    }
}

/// The compressed encoding of a point, as a standalone helper.
pub fn point_to_bytes(p: &ProjectivePoint) -> (r: [u8; 33])
    ensures
        r@ == p@,
{
    p.to_bytes()
}

/// Copies an exactly-32-byte buffer into a fixed-size array.
pub fn to_array32(g: &Vec<u8>) -> (r: TofnResult<[u8; 32]>)
    ensures
        match r {
            Ok(a) => g@.len() == 32 && a@ == g@,
            Err(e) => g@.len() != 32 && e == TofnFatal,
        },
{
    if g.len() != 32 {
        return Err(TofnFatal);
    }
    let mut a: [u8; 32] = [0u8; 32];
    let mut i: usize = 0;
    while i < 32
        invariant
            i <= 32,
            g@.len() == 32,
            a@.len() == 32,
            forall|j: int| 0 <= j < i ==> a@[j] == g@[j],
        decreases 32 - i,
    {
        a[i] = g[i];
        i += 1;
    }
    proof {
        assert(a@ =~= g@);
    }
    Ok(a)
}

/// Copies an exactly-33-byte buffer into a fixed-size array.
pub fn to_array33(g: &Vec<u8>) -> (r: TofnResult<[u8; 33]>)
    ensures
        match r {
            Ok(a) => g@.len() == 33 && a@ == g@,
            Err(e) => g@.len() != 33 && e == TofnFatal,
        },
{
    if g.len() != 33 {
        return Err(TofnFatal);
    }
    let mut a: [u8; 33] = [0u8; 33];
    let mut i: usize = 0;
    while i < 33
        invariant
            i <= 33,
            g@.len() == 33,
            a@.len() == 33,
            forall|j: int| 0 <= j < i ==> a@[j] == g@[j],
        decreases 33 - i,
    {
        a[i] = g[i];
        i += 1;
    }
    proof {
        assert(a@ =~= g@);
    }
    Ok(a)
}

} // verus!
