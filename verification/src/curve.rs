//! The secp256k1 scalar field and curve group, behind a small trusted layer.
//!
//! Scalars cross this boundary as canonical 32-byte big-endian encodings and
//! curve points as SEC1 compressed 33-byte encodings, so that every contract
//! can speak of their numeric value through [`be_nat`]. All field arithmetic
//! is delegated to k256; the wrappers here state its documented behaviour:
//! arithmetic modulo the group order on canonical encodings.

use vstd::prelude::*;

verus! {

use k256::elliptic_curve::PrimeField;
use k256::elliptic_curve::group::GroupEncoding;
use k256::elliptic_curve::ops::Reduce;
use k256::elliptic_curve::sec1::FromEncodedPoint;
use k256::elliptic_curve::sec1::ToEncodedPoint;
use k256::elliptic_curve::DecompressPoint;
use k256::elliptic_curve::IsHigh;
use k256::AffinePoint;
use k256::ProjectivePoint;
use k256::PublicKey;
use k256::Scalar;
use k256::U256;
use k256::elliptic_curve::Field;
use ecdsa::hazmat::VerifyPrimitive;
use sha3::Digest;

/// The value of a big-endian byte string.
pub open spec fn be_nat(s: Seq<u8>) -> nat
    decreases s.len(),
{
    if s.len() == 0 {
        0
    } else {
        be_nat(s.drop_last()) * 256 + s.last() as nat
    }
}

/// Two equal-length big-endian byte strings with the same value are the
/// same bytes: the encoding is injective.
pub proof fn lemma_be_nat_injective(a: Seq<u8>, b: Seq<u8>)
    requires
        a.len() == b.len(),
        be_nat(a) == be_nat(b),
    ensures
        a == b,
    decreases a.len(),
{
    if a.len() > 0 {
        assert(be_nat(a) == be_nat(a.drop_last()) * 256 + a.last());
        assert(be_nat(b) == be_nat(b.drop_last()) * 256 + b.last());
        vstd::arithmetic::div_mod::lemma_fundamental_div_mod_converse(
            be_nat(a) as int,
            256,
            be_nat(a.drop_last()) as int,
            a.last() as int,
        );
        vstd::arithmetic::div_mod::lemma_fundamental_div_mod_converse(
            be_nat(b) as int,
            256,
            be_nat(b.drop_last()) as int,
            b.last() as int,
        );
        assert(a.last() == b.last());
        assert(be_nat(a.drop_last()) == be_nat(b.drop_last()));
        lemma_be_nat_injective(a.drop_last(), b.drop_last());
        assert forall|i: int| 0 <= i < a.len() implies a[i] == b[i] by {
            if i < a.len() - 1 {
                assert(a[i] == a.drop_last()[i]);
                assert(b[i] == b.drop_last()[i]);
            } else {
                assert(a[i] == a.last());
                assert(b[i] == b.last());
            }
        };
        assert(a =~= b);
    } else {
        assert(a =~= b);
    }
}

/// The order of the secp256k1 group: scalars are the integers modulo this
/// prime.
pub open spec fn group_order() -> nat {
    0xfffffffffffffffffffffffffffffffebaaedce6af48a03bbfd25e8cd0364141nat
}

/// What Keccak-256 returns: a function of the input bytes alone.
pub uninterp spec fn keccak_of(data: Seq<u8>) -> Seq<u8>;

/// The SEC1 compressed encoding of the curve generator multiplied by the
/// given scalar value: a function of the scalar alone.
pub uninterp spec fn g_mul_of(scalar: nat) -> Seq<u8>;

/// Whether the given bytes are a SEC1 encoding of a point on the curve.
pub uninterp spec fn sec1_valid_of(bytes: Seq<u8>) -> bool;

/// The compressed re-encoding of a valid SEC1-encoded point.
pub uninterp spec fn sec1_compress_of(bytes: Seq<u8>) -> Seq<u8>;

/// The uncompressed 65-byte SEC1 encoding of a valid compressed point.
pub uninterp spec fn point_uncompressed_of(compressed: Seq<u8>) -> Seq<u8>;

/// What ECDSA verification returns for a public key, message digest and
/// signature scalars: a function of its arguments alone.
pub uninterp spec fn ecdsa_verify_of(pk: Seq<u8>, digest: Seq<u8>, r: Seq<u8>, s: Seq<u8>) -> bool;

/// What public-key recovery returns for a digest, signature scalars and a
/// recovery identifier: a function of its arguments alone.
pub uninterp spec fn recover_of(digest: Seq<u8>, r: Seq<u8>, s: Seq<u8>, recid: u8) -> Option<
    Seq<u8>,
>;

/// Relies on k256's `Scalar::add`: addition modulo the group order on
/// canonical big-endian encodings.
#[verifier::external_body]
pub fn scalar_add(a: &[u8; 32], b: &[u8; 32]) -> (r: [u8; 32])
    requires
        be_nat(a@) < group_order(),
        be_nat(b@) < group_order(),
    ensures
        be_nat(r@) == (be_nat(a@) + be_nat(b@)) % group_order(),
        be_nat(r@) < group_order(),
{
    let x = k256::Scalar::from_repr((*a).into()).unwrap();
    let y = k256::Scalar::from_repr((*b).into()).unwrap();
    (x + y).to_bytes().into()
}

/// Relies on k256's `Scalar::sub`: subtraction modulo the group order.
#[verifier::external_body]
pub fn scalar_sub(a: &[u8; 32], b: &[u8; 32]) -> (r: [u8; 32])
    requires
        be_nat(a@) < group_order(),
        be_nat(b@) < group_order(),
    ensures
        be_nat(r@) as int == (be_nat(a@) + group_order() - be_nat(b@)) % (group_order() as int),
        be_nat(r@) < group_order(),
{
    let x = k256::Scalar::from_repr((*a).into()).unwrap();
    let y = k256::Scalar::from_repr((*b).into()).unwrap();
    (x - y).to_bytes().into()
}

/// Relies on k256's `Scalar::mul`: multiplication modulo the group order.
#[verifier::external_body]
pub fn scalar_mul(a: &[u8; 32], b: &[u8; 32]) -> (r: [u8; 32])
    requires
        be_nat(a@) < group_order(),
        be_nat(b@) < group_order(),
    ensures
        be_nat(r@) == (be_nat(a@) * be_nat(b@)) % group_order(),
        be_nat(r@) < group_order(),
{
    let x = k256::Scalar::from_repr((*a).into()).unwrap();
    let y = k256::Scalar::from_repr((*b).into()).unwrap();
    (x * y).to_bytes().into()
}

/// Relies on k256's `Scalar::negate`: additive inverse modulo the group
/// order.
#[verifier::external_body]
pub fn scalar_negate(a: &[u8; 32]) -> (r: [u8; 32])
    requires
        be_nat(a@) < group_order(),
    ensures
        be_nat(r@) as int == (group_order() - be_nat(a@)) % (group_order() as int),
        be_nat(r@) < group_order(),
{
    let x = k256::Scalar::from_repr((*a).into()).unwrap();
    x.negate().to_bytes().into()
}

/// Relies on k256's `Scalar::invert`: the multiplicative inverse modulo the
/// group order of a nonzero scalar.
#[verifier::external_body]
pub fn scalar_invert(a: &[u8; 32]) -> (r: [u8; 32])
    requires
        0 < be_nat(a@) < group_order(),
    ensures
        be_nat(r@) < group_order(),
        (be_nat(r@) * be_nat(a@)) % group_order() == 1,
{
    let x = k256::Scalar::from_repr((*a).into()).unwrap();
    x.invert().unwrap().to_bytes().into()
}

/// Relies on k256's `Reduce<U256>` for `Scalar`: reduction of a 256-bit
/// big-endian integer modulo the group order.
#[verifier::external_body]
pub fn scalar_reduce(b: &[u8; 32]) -> (r: [u8; 32])
    ensures
        be_nat(r@) == be_nat(b@) % group_order(),
        be_nat(r@) < group_order(),
{
    let x = <k256::Scalar as Reduce<k256::U256>>::from_be_bytes_reduced((*b).into());
    x.to_bytes().into()
}

/// Relies on k256's `From<u64>` for `Scalar`: embedding of a small integer.
#[verifier::external_body]
pub fn scalar_from_u64(x: u64) -> (r: [u8; 32])
    ensures
        be_nat(r@) == x,
        be_nat(r@) < group_order(),
{
    k256::Scalar::from(x).to_bytes().into()
}

/// Relies on k256's `IsHigh` for `Scalar`: whether the value exceeds half
/// the group order.
#[verifier::external_body]
pub fn scalar_is_high(a: &[u8; 32]) -> (r: bool)
    requires
        be_nat(a@) < group_order(),
    ensures
        r == (be_nat(a@) > group_order() / 2),
{
    let x = k256::Scalar::from_repr((*a).into()).unwrap();
    x.is_high().into()
}

/// Relies on k256's `Field::random` with the thread RNG. Nothing is promised
/// of the value beyond canonicity.
#[verifier::external_body]
pub fn scalar_random() -> (r: [u8; 32])
    ensures
        be_nat(r@) < group_order(),
{
    k256::Scalar::random(rand::thread_rng()).to_bytes().into()
}

/// Relies on k256's `Scalar::is_zero` on a canonical encoding.
#[verifier::external_body]
pub fn scalar_is_zero(b: &[u8; 32]) -> (r: bool)
    requires
        be_nat(b@) < group_order(),
    ensures
        r == (be_nat(b@) == 0),
{
    let x = k256::Scalar::from_repr((*b).into()).unwrap();
    x.is_zero().into()
}

/// Relies on k256's `Scalar::from_repr`: accepts exactly the canonical
/// encodings, the values below the group order.
#[verifier::external_body]
pub fn scalar_is_canonical(b: &[u8; 32]) -> (r: bool)
    ensures
        r == (be_nat(b@) < group_order()),
{
    k256::Scalar::from_repr((*b).into()).is_some().into()
}

/// Relies on k256's `SecretKey::from_be_bytes`: accepts exactly the nonzero
/// canonical scalars.
#[verifier::external_body]
pub fn scalar_is_valid_key(b: &[u8; 32]) -> (r: bool)
    ensures
        r == (0 < be_nat(b@) < group_order()),
{
    k256::SecretKey::from_be_bytes(b.as_slice()).is_ok()
}

/// Relies on k256's `ProjectivePoint::GENERATOR` scalar multiplication and
/// the compressed `GroupEncoding`. A nonzero scalar yields a non-identity
/// point, whose compressed encoding is itself a valid SEC1 encoding that
/// re-encodes to itself.
#[verifier::external_body]
pub fn generator_mul(s: &[u8; 32]) -> (r: [u8; 33])
    requires
        be_nat(s@) < group_order(),
    ensures
        r@ == g_mul_of(be_nat(s@)),
        be_nat(s@) != 0 ==> sec1_valid_of(r@) && sec1_compress_of(r@) == r@,
{
    let x = k256::Scalar::from_repr((*s).into()).unwrap();
    let p = k256::ProjectivePoint::GENERATOR * x;
    p.to_affine().to_bytes().as_slice().try_into().unwrap()
}

/// Relies on k256's `EncodedPoint::from_bytes` plus
/// `ProjectivePoint::from_encoded_point`: succeeds exactly on SEC1 encodings
/// of curve points, and re-encodes them compressed. Any encoding longer
/// than the one-byte identity yields a non-identity point, so its
/// compressed re-encoding is itself valid and re-encodes to itself.
#[verifier::external_body]
pub fn point_decode(b: &Vec<u8>) -> (r: Option<[u8; 33]>)
    ensures
        r is Some <==> sec1_valid_of(b@),
        r is Some ==> r.unwrap()@ == sec1_compress_of(b@),
        r is Some && b@.len() > 1 ==> sec1_valid_of(r.unwrap()@) && sec1_compress_of(r.unwrap()@)
            == r.unwrap()@,
{
    let ep = k256::EncodedPoint::from_bytes(b.as_slice()).ok()?;
    let p: Option<k256::ProjectivePoint> = k256::ProjectivePoint::from_encoded_point(&ep).into();
    let p = p?;
    Some(p.to_affine().to_bytes().as_slice().try_into().unwrap())
}

/// Relies on k256's `ToEncodedPoint` with compression off: the 65-byte
/// uncompressed form of a compressed point encoding.
#[verifier::external_body]
pub fn point_uncompress(p: &[u8; 33]) -> (r: Option<[u8; 65]>)
    ensures
        r is Some <==> sec1_valid_of(p@),
        r is Some ==> r.unwrap()@ == point_uncompressed_of(p@),
{
    let ep = k256::EncodedPoint::from_bytes(p.as_slice()).ok()?;
    let a: Option<k256::AffinePoint> = k256::AffinePoint::from_encoded_point(&ep).into();
    let a = a?;
    Some(a.to_encoded_point(false).as_bytes().try_into().unwrap())
}

/// Relies on sha3's `Keccak256`: a function of the input bytes alone.
#[verifier::external_body]
pub fn keccak256(data: &Vec<u8>) -> (r: [u8; 32])
    ensures
        r@ == keccak_of(data@),
{
    let h = sha3::Keccak256::digest(data.as_slice());
    h.as_slice().try_into().unwrap()
}

/// Relies on ecdsa's `VerifyPrimitive::verify_prehashed` for k256: whether
/// the signature `(r, s)` verifies for the public key and prehashed digest.
/// Returns `false` for bytes that are no valid key or signature.
#[verifier::external_body]
pub fn ecdsa_verify(pk: &[u8; 33], digest: &[u8; 32], r: &[u8; 32], s: &[u8; 32]) -> (ok: bool)
    ensures
        ok == ecdsa_verify_of(pk@, digest@, r@, s@),
{
    let ep = match k256::EncodedPoint::from_bytes(pk.as_slice()) {
        Ok(ep) => ep,
        Err(_) => return false,
    };
    let a: Option<k256::AffinePoint> = k256::AffinePoint::from_encoded_point(&ep).into();
    let a = match a {
        Some(a) => a,
        None => return false,
    };
    let sig = match k256::ecdsa::Signature::from_scalars(*r, *s) {
        Ok(sig) => sig,
        Err(_) => return false,
    };
    let z = <k256::Scalar as Reduce<k256::U256>>::from_be_bytes_reduced((*digest).into());
    a.verify_prehashed(z, &sig).is_ok()
}

/// Relies on the public-key recovery of k256's recoverable signatures:
/// the same `R = decompress(r, parity)`, `pk = (s/r)·R − (z/r)·G` equation
/// as `recoverable::Signature::recover_verify_key_from_digest_bytes`, but
/// closed off through `PublicKey::from_affine`, which rejects the group
/// identity that the library's own conversion would panic on. `None`
/// exactly where that library call fails or panics.
#[verifier::external_body]
pub fn ecdsa_recover(digest: &[u8; 32], r: &[u8; 32], s: &[u8; 32], recid: u8) -> (vk: Option<
    [u8; 33],
>)
    requires
        recid <= 1,
    ensures
        vk is Some <==> recover_of(digest@, r@, s@, recid) is Some,
        vk is Some ==> vk.unwrap()@ == recover_of(digest@, r@, s@, recid).unwrap(),
{
    k256::ecdsa::Signature::from_scalars(*r, *s).ok()?;
    let rs = Scalar::from_repr((*r).into()).unwrap();
    let ss = Scalar::from_repr((*s).into()).unwrap();
    let z = <Scalar as Reduce<U256>>::from_be_bytes_reduced((*digest).into());
    let pt: Option<AffinePoint> = AffinePoint::decompress(&rs.to_bytes(), recid.into()).into();
    let r_inv = rs.invert().unwrap();
    let pk = ProjectivePoint::from(pt?) * (r_inv * ss) - ProjectivePoint::GENERATOR * (r_inv * z);
    let key = PublicKey::from_affine(pk.to_affine()).ok()?;
    Some(key.to_encoded_point(true).as_bytes().try_into().unwrap())
}

/// Relies on ecdsa's `Signature::from_scalars`: whether `(r, s)` form a
/// valid signature encoding, both scalars nonzero and canonical.
#[verifier::external_body]
pub fn scalars_form_signature(r: &[u8; 32], s: &[u8; 32]) -> (ok: bool)
    ensures
        ok == (0 < be_nat(r@) < group_order() && 0 < be_nat(s@) < group_order()),
{
    k256::ecdsa::Signature::from_scalars(*r, *s).is_ok()
}

} // verus!
