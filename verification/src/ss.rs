//! Polynomial secret sharing over the secp256k1 scalar field.
//!
//! A secret is split by choosing a random polynomial of degree `t` whose
//! constant term is the secret, and evaluating it at the nonzero indices
//! `1 ..= n`. Any `t + 1` shares determine the secret by Lagrange
//! interpolation at zero; `t` or fewer are independent of it.

use vstd::prelude::*;

verus! {

use crate::TofnFatal;
use crate::TofnResult;
use crate::curve::be_nat;
use crate::curve::group_order;
use crate::curve;
use crate::k256_serde::SecretScalar;
use vstd::arithmetic::div_mod::lemma_add_mod_noop;
use vstd::arithmetic::div_mod::lemma_small_mod;
use vstd::arithmetic::div_mod::lemma_mod_twice;
use vstd::arithmetic::div_mod::lemma_mul_mod_noop_left;
use vstd::arithmetic::div_mod::lemma_mul_mod_noop_right;
use vstd::arithmetic::mul::lemma_mul_is_associative;
use vstd::arithmetic::mul::lemma_mul_is_commutative;

/// The value at `x` of the polynomial with the given coefficients, constant
/// term first, over the scalar field.
pub open spec fn poly_eval(coeffs: Seq<nat>, x: nat) -> nat
    decreases coeffs.len(),
{
    if coeffs.len() == 0 {
        0
    } else {
        (coeffs[0] + x * poly_eval(coeffs.drop_first(), x)) % group_order()
    }
}

/// One unit of a split secret: a share index and the polynomial value there.
pub struct Share {
    index: usize,
    scalar: SecretScalar,
}

impl Share {
    pub closed spec fn spec_index(&self) -> usize {
        self.index
    }

    pub closed spec fn spec_scalar(&self) -> SecretScalar {
        self.scalar
    }

    pub open spec fn wf(&self) -> bool {
        self.spec_scalar().wf()
    }

    pub fn new(index: usize, scalar: SecretScalar) -> (r: Self)
        ensures
            r.spec_index() == index,
            r.spec_scalar() == scalar,
    {
        Share { index, scalar }
    }

    pub fn get_index(&self) -> (r: usize)
        ensures
            r == self.spec_index(),
    {
        self.index
    }

    pub fn get_scalar(&self) -> (r: &SecretScalar)
        ensures
            *r == self.spec_scalar(),
    {
        &self.scalar
    }
}

impl Clone for Share {
    fn clone(&self) -> (r: Self)
        ensures
            r == *self,
    {
        Share { index: self.index, scalar: self.scalar.clone() }
    }
}

/// A sharing polynomial: `coeffs[0]` is the secret, the degree is the
/// threshold.
pub struct Ss {
    coeffs: Vec<SecretScalar>,
}

impl Ss {
    /// The coefficient values, constant term first.
    pub closed spec fn view(&self) -> Seq<nat> {
        self.coeffs@.map_values(|c: SecretScalar| be_nat(c@))
    }

    pub open spec fn wf(&self) -> bool {
        forall|i: int| 0 <= i < self@.len() ==> #[trigger] self@[i] < group_order()
    }

    /// The threshold: the degree of the polynomial.
    pub open spec fn spec_threshold(&self) -> int {
        self@.len() - 1
    }

    /// The secret being shared.
    pub open spec fn spec_secret(&self) -> nat {
        self@[0]
    }

    /// A fresh random secret, shared with the given threshold.
    pub fn new(threshold: usize) -> (r: TofnResult<Self>)
        ensures
            match r {
                Ok(ss) => threshold < usize::MAX && ss@.len() == threshold + 1 && ss.wf(),
                Err(e) => threshold == usize::MAX && e == TofnFatal,
            },
    {
        if threshold == usize::MAX {
            return Err(TofnFatal);
        }
        Self::with_constant_term(threshold, SecretScalar::random_with_thread_rng())
    }

    /// Redistribution mode: shares an already-existing secret.
    pub fn new_byok(threshold: usize, secret: SecretScalar) -> (r: TofnResult<Self>)
        requires
            secret.wf(),
        ensures
            match r {
                Ok(ss) => threshold < usize::MAX && ss@.len() == threshold + 1 && ss.wf()
                    && ss.spec_secret() == secret.value(),
                Err(e) => threshold == usize::MAX && e == TofnFatal,
            },
    {
        if threshold == usize::MAX {
            return Err(TofnFatal);
        }
        Self::with_constant_term(threshold, secret)
    }

    fn with_constant_term(threshold: usize, secret: SecretScalar) -> (r: TofnResult<Self>)
        requires
            secret.wf(),
            threshold < usize::MAX,
        ensures
            match r {
                Ok(ss) => ss@.len() == threshold + 1 && ss.wf() && ss.spec_secret()
                    == secret.value(),
                Err(e) => false,
            },
    {
        let ghost f = |c: SecretScalar| be_nat(c@);
        let mut coeffs: Vec<SecretScalar> = Vec::new();
        let ghost secret_snapshot = secret;
        coeffs.push(secret);
        let mut i: usize = 0;
        while i < threshold
            invariant
                coeffs@.len() == i + 1,
                i <= threshold,
                coeffs@[0] == secret_snapshot,
                secret_snapshot.wf(),
                forall|j: int| 0 <= j < coeffs@.len() ==> (#[trigger] coeffs@[j]).wf(),
            decreases threshold - i,
        {
            coeffs.push(SecretScalar::random_with_thread_rng());
            i += 1;
        }
        let r = Ss { coeffs };
        proof {
            assert(r@.len() == threshold + 1);
            assert(forall|j: int| 0 <= j < r@.len() ==> #[trigger] r@[j] < group_order()) by {
                assert(forall|j: int| 0 <= j < r.coeffs@.len()
                    ==> #[trigger] r@[j] == be_nat(r.coeffs@[j]@));
            };
            assert(r.spec_secret() == be_nat(secret_snapshot@));
        }
        Ok(r)
    }

    pub fn get_threshold(&self) -> (r: usize)
        requires
            self@.len() >= 1,
        ensures
            r == self.spec_threshold(),
    {
        self.coeffs.len() - 1
    }

    pub fn get_secret(&self) -> (r: &SecretScalar)
        requires
            self@.len() >= 1,
        ensures
            be_nat(r@) == self.spec_secret(),
    {
        &self.coeffs[0]
    }

    /// Horner evaluation of the polynomial at `x`.
    fn eval(&self, x: &[u8; 32]) -> (r: [u8; 32])
        requires
            self.wf(),
            be_nat(x@) < group_order(),
        ensures
            be_nat(r@) == poly_eval(self@, be_nat(x@)),
            be_nat(r@) < group_order(),
    {
        let mut acc: [u8; 32] = curve::scalar_from_u64(0);
        let mut j: usize = self.coeffs.len();
        while j > 0
            invariant
                j <= self.coeffs@.len(),
                self.wf(),
                be_nat(x@) < group_order(),
                be_nat(acc@) == poly_eval(self@.skip(j as int), be_nat(x@)),
                be_nat(acc@) < group_order(),
            decreases j,
        {
            j = j - 1;
            let prod = curve::scalar_mul(x, &acc);
            proof {
                assert(be_nat(self.coeffs@[j as int]@) == self@[j as int]);
                assert(self@[j as int] < group_order());
            }
            let next = curve::scalar_add(self.coeffs[j].as_bytes(), &prod);
            proof {
                let p = group_order() as int;
                let c = self@[j as int] as int;
                let y = (be_nat(x@) * poly_eval(self@.skip(j as int + 1), be_nat(x@))) as int;
                lemma_add_mod_noop(c, y % p, p);
                lemma_mod_twice(y, p);
                lemma_small_mod(self@[j as int], group_order());
                assert(self@.skip(j as int).drop_first() =~= self@.skip(j as int + 1));
                assert(self@.skip(j as int)[0] == self@[j as int]);
                assert(be_nat(next@) as int == (c + y) % p);
            }
            acc = next;
        }
        proof {
            assert(self@.skip(0) =~= self@);
        }
        acc
    }

    /// Evaluates the polynomial at the `n` distinct nonzero indices
    /// `1 ..= n`, producing one share per index; fails exactly when `n` does
    /// not exceed the threshold.
    pub fn shares(&self, n: usize) -> (r: TofnResult<Vec<Share>>)
        requires
            self.wf(),
            self@.len() >= 1,
            n < usize::MAX,
        ensures
            match r {
                Ok(v) => n > self.spec_threshold() && v@.len() == n && forall|i: int|
                    0 <= i < n ==> (#[trigger] v@[i]).spec_index() == i
                        && v@[i].spec_scalar().value() == poly_eval(self@, (i + 1) as nat)
                        && v@[i].wf(),
                Err(e) => n <= self.spec_threshold() && e == TofnFatal,
            },
    {
        if n < self.coeffs.len() {
            return Err(TofnFatal);
        }
        let mut out: Vec<Share> = Vec::new();
        let mut i: usize = 0;
        while i < n
            invariant
                i <= n,
                n < usize::MAX,
                self.wf(),
                self@.len() >= 1,
                out@.len() == i,
                forall|k: int| 0 <= k < i ==> (#[trigger] out@[k]).spec_index() == k
                    && out@[k].spec_scalar().value() == poly_eval(self@, (k + 1) as nat)
                    && out@[k].wf(),
            decreases n - i,
        {
            let x = curve::scalar_from_u64((i as u64) + 1);
            let y = self.eval(&x);
            let scalar = match SecretScalar::from_bytes(y) {
                Ok(s) => s,
                Err(_) => {
                    proof {
                        assert(false);
                    }
                    return Err(TofnFatal);
                },
            };
            out.push(Share { index: i, scalar });
            i += 1;
        }
        Ok(out)
    }
}

/// The multiplicative inverse of `a` modulo the group order, where one
/// exists.
pub open spec fn inv_mod(a: nat) -> nat {
    choose|b: nat| b < group_order() && #[trigger] ((a * b) % group_order()) == 1
}

/// A multiplicative inverse modulo the group order is unique.
pub proof fn lemma_inv_unique(a: nat, b: nat, c: nat)
    requires
        b < group_order(),
        c < group_order(),
        (a * b) % group_order() == 1,
        (a * c) % group_order() == 1,
    ensures
        b == c,
{
    let p = group_order() as int;
    let ai = a as int;
    let bi = b as int;
    let ci = c as int;
    lemma_small_mod(b, group_order());
    lemma_small_mod(c, group_order());
    lemma_mul_mod_noop_right(bi, ai * ci, p);
    assert((bi * ((ai * ci) % p)) % p == (bi * (ai * ci)) % p);
    assert((bi * 1) % p == (bi * (ai * ci)) % p);
    lemma_mul_is_associative(bi, ai, ci);
    lemma_mul_is_commutative(bi, ai);
    assert(bi * (ai * ci) == (ai * bi) * ci);
    lemma_mul_mod_noop_left(ai * bi, ci, p);
    assert(((ai * bi) * ci) % p == (((ai * bi) % p) * ci) % p);
    assert((((ai * bi) % p) * ci) % p == (1 * ci) % p);
    assert(bi % p == ci % p);
}

/// Whoever knows some inverse of `a` knows the inverse of `a`.
pub proof fn lemma_inv_mod_witness(a: nat, b: nat)
    requires
        b < group_order(),
        (a * b) % group_order() == 1,
    ensures
        inv_mod(a) == b,
{
    assert(exists|c: nat| c < group_order() && #[trigger] ((a * c) % group_order()) == 1) by {
        assert(b < group_order() && (a * b) % group_order() == 1);
    };
    let c = inv_mod(a);
    lemma_inv_unique(a, b, c);
}

/// The x-coordinates at which the shares were evaluated: share index plus
/// one.
pub open spec fn xs_of(shares: Seq<Share>) -> Seq<nat> {
    shares.map_values(|sh: Share| (sh.spec_index() + 1) as nat)
}

/// The share values.
pub open spec fn ys_of(shares: Seq<Share>) -> Seq<nat> {
    shares.map_values(|sh: Share| sh.spec_scalar().value())
}

/// Product, modulo the group order, of the first `k` x-coordinates other
/// than `xs[j]`: the numerator of the Lagrange basis value at zero.
pub open spec fn num_prod(xs: Seq<nat>, j: int, k: int) -> nat
    decreases k,
{
    if k <= 0 {
        1
    } else if k - 1 == j {
        num_prod(xs, j, k - 1)
    } else {
        (num_prod(xs, j, k - 1) * xs[k - 1]) % group_order()
    }
}

/// Product, modulo the group order, of the differences `xs[k] - xs[j]` over
/// the first `k` coordinates other than `xs[j]`: the denominator of the
/// Lagrange basis value at zero.
pub open spec fn den_prod(xs: Seq<nat>, j: int, k: int) -> nat
    decreases k,
{
    if k <= 0 {
        1
    } else if k - 1 == j {
        den_prod(xs, j, k - 1)
    } else {
        (den_prod(xs, j, k - 1) * (((xs[k - 1] + group_order() - xs[j]) % (
        group_order() as int)) as nat)) % group_order()
    }
}

/// The Lagrange basis value at zero for point `j` of the x-coordinates.
pub open spec fn lagrange_coeff(xs: Seq<nat>, j: int) -> nat {
    (num_prod(xs, j, xs.len() as int) * inv_mod(den_prod(xs, j, xs.len() as int)))
        % group_order()
}

/// The interpolated value at zero of the first `n` points: the weighted sum
/// of the share values by their Lagrange basis values.
pub open spec fn lagrange_at_zero(xs: Seq<nat>, ys: Seq<nat>, n: int) -> nat
    decreases n,
{
    if n <= 0 {
        0
    } else {
        (lagrange_at_zero(xs, ys, n - 1) + (ys[n - 1] * lagrange_coeff(xs, n - 1))
            % group_order()) % group_order()
    }
}

/// Reconstruction inverts splitting for a degree-zero sharing: with one
/// share of a constant polynomial, interpolation at zero yields exactly
/// the secret, whatever index the share was evaluated at.
pub proof fn lemma_reconstruct_constant(secret: nat, x: nat)
    requires
        secret < group_order(),
    ensures
        lagrange_at_zero(seq![x], seq![poly_eval(seq![secret], x)], 1) == secret,
{
    let p = group_order();
    let xs: Seq<nat> = seq![x];
    let tail = poly_eval(seq![secret].drop_first(), x);
    assert(tail == 0);
    assert(x as int * 0int == 0int) by (nonlinear_arith);
    lemma_small_mod(secret, p);
    assert(poly_eval(seq![secret], x) == (secret + x * tail) % p);
    assert(poly_eval(seq![secret], x) == secret);
    assert(num_prod(xs, 0, 0) == 1);
    assert(num_prod(xs, 0, 1) == num_prod(xs, 0, 0));
    assert(den_prod(xs, 0, 0) == 1);
    assert(den_prod(xs, 0, 1) == den_prod(xs, 0, 0));
    assert((1nat * 1nat) % p == 1) by {
        lemma_small_mod(1nat, p);
    };
    lemma_inv_mod_witness(1nat, 1nat);
    lemma_small_mod(1nat, p);
    assert(lagrange_coeff(xs, 0) == 1);
    assert((secret * 1nat) % p == secret) by {
        lemma_small_mod(secret, p);
    };
    assert(lagrange_at_zero(xs, seq![secret], 0) == 0);
    assert(lagrange_at_zero(xs, seq![secret], 1) == (lagrange_at_zero(xs, seq![secret], 0) + (
    seq![secret][0] * lagrange_coeff(xs, 0)) % p) % p);
    lemma_small_mod(secret, p);
}

/// Reconstructs the shared secret from the given shares by Lagrange
/// interpolation at zero. With shares at `t + 1` or more distinct indices of
/// a degree-`t` sharing this is exactly the secret. Fails exactly when two
/// shares carry the same index, or when some denominator product vanishes,
/// which distinct in-range indices never produce.
pub fn reconstruct(shares: &Vec<Share>) -> (r: TofnResult<SecretScalar>)
    requires
        forall|i: int| 0 <= i < shares@.len() ==> (#[trigger] shares@[i]).wf(),
        forall|i: int| 0 <= i < shares@.len()
            ==> (#[trigger] shares@[i]).spec_index() < usize::MAX,
    ensures
        match r {
            Ok(s) => s.wf() && s.value() == lagrange_at_zero(
                xs_of(shares@),
                ys_of(shares@),
                shares@.len() as int,
            ) && (forall|a: int, b: int|
                0 <= a < b < shares@.len() ==> (#[trigger] shares@[a]).spec_index() != (
                #[trigger] shares@[b]).spec_index()),
            Err(e) => e == TofnFatal && ((exists|a: int, b: int|
                0 <= a < b < shares@.len() && (#[trigger] shares@[a]).spec_index() == (
                #[trigger] shares@[b]).spec_index()) || (exists|j: int|
                0 <= j < shares@.len() && #[trigger] den_prod(
                    xs_of(shares@),
                    j,
                    shares@.len() as int,
                ) == 0)),
        },
{
    let ghost xs = xs_of(shares@);
    let ghost ys = ys_of(shares@);
    let n = shares.len();
    // reject duplicate share indices
    let mut a: usize = 0;
    while a < n
        invariant
            n == shares@.len(),
            a <= n,
            forall|x: int, y: int| 0 <= x < y < n && x < a
                ==> (#[trigger] shares@[x]).spec_index() != (#[trigger] shares@[y]).spec_index(),
        decreases n - a,
    {
        let mut b: usize = a + 1;
        while b < n
            invariant
                n == shares@.len(),
                a < n,
                a < b <= n,
                forall|y: int| a < y < b
                    ==> (#[trigger] shares@[y]).spec_index() != shares@[a as int].spec_index(),
            decreases n - b,
        {
            if shares[a].get_index() == shares[b].get_index() {
                return Err(TofnFatal);
            }
            b += 1;
        }
        a += 1;
    }
    let mut acc: [u8; 32] = curve::scalar_from_u64(0);
    let mut j: usize = 0;
    while j < n
        invariant
            n == shares@.len(),
            j <= n,
            xs == xs_of(shares@),
            ys == ys_of(shares@),
            forall|i: int| 0 <= i < shares@.len() ==> (#[trigger] shares@[i]).wf(),
            forall|i: int| 0 <= i < shares@.len()
                ==> (#[trigger] shares@[i]).spec_index() < usize::MAX,
            be_nat(acc@) == lagrange_at_zero(xs, ys, j as int),
            be_nat(acc@) < group_order(),
        decreases n - j,
    {
        let xj = curve::scalar_from_u64((shares[j].get_index() as u64) + 1);
        proof {
            assert(xs[j as int] == (shares@[j as int].spec_index() + 1) as nat);
        }
        let mut num: [u8; 32] = curve::scalar_from_u64(1);
        let mut den: [u8; 32] = curve::scalar_from_u64(1);
        let mut k: usize = 0;
        while k < n
            invariant
                n == shares@.len(),
                j < n,
                k <= n,
                xs == xs_of(shares@),
                forall|i: int| 0 <= i < shares@.len()
                    ==> (#[trigger] shares@[i]).spec_index() < usize::MAX,
                be_nat(xj@) == xs[j as int],
                be_nat(xj@) < group_order(),
                be_nat(num@) == num_prod(xs, j as int, k as int),
                be_nat(num@) < group_order(),
                be_nat(den@) == den_prod(xs, j as int, k as int),
                be_nat(den@) < group_order(),
            decreases n - k,
        {
            if k != j {
                let xk = curve::scalar_from_u64((shares[k].get_index() as u64) + 1);
                proof {
                    assert(xs[k as int] == (shares@[k as int].spec_index() + 1) as nat);
                }
                num = curve::scalar_mul(&num, &xk);
                let diff = curve::scalar_sub(&xk, &xj);
                den = curve::scalar_mul(&den, &diff);
            }
            k += 1;
        }
        if curve::scalar_is_zero(&den) {
            return Err(TofnFatal);
        }
        let den_inv = curve::scalar_invert(&den);
        proof {
            lemma_inv_mod_witness(be_nat(den@), be_nat(den_inv@));
        }
        let coeff = curve::scalar_mul(&num, &den_inv);
        let term = curve::scalar_mul(shares[j].get_scalar().as_bytes(), &coeff);
        proof {
            assert(ys[j as int] == shares@[j as int].spec_scalar().value());
        }
        acc = curve::scalar_add(&acc, &term);
        j += 1;
    }
    match SecretScalar::from_bytes(acc) {
        Ok(s) => Ok(s),
        Err(_) => {
            proof {
                assert(false);
            }
            Err(TofnFatal)
        },
    }
}

} // verus!
