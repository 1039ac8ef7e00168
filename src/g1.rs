//! The G1 group of BN254: points of `y^2 = x^3 + 3` over the base field,
//! kept in affine form with the point at infinity encoded as `(0, 0)`.
use vstd::prelude::*;
use crate::field::{fq_add, fq_inv, fq_mul, fq_neg, fq_sub, lemma_fq_neg_mul, lemma_fq_neg_neg, lemma_moduli_large, p, Fq, Fr};
use vstd::arithmetic::div_mod::lemma_small_mod;
use ark_bn254::{Fq as ArkFq, Fr as ArkFr, G1Affine as ArkG1};
use ark_ec::AffineRepr;
use ark_ff::{BigInt, PrimeField};

verus! {

/// The mathematical value of a G1 point.
pub struct AffineG1 {
    pub x: int,
    pub y: int,
    pub infinity: bool,
}

pub open spec fn g1_identity() -> AffineG1 {
    AffineG1 { x: 0, y: 0, infinity: true }
}

/// The standard generator `(1, 2)`.
pub open spec fn g1_generator_spec() -> AffineG1 {
    AffineG1 { x: 1, y: 2, infinity: false }
}

pub open spec fn g1_on_curve(x: int, y: int) -> bool {
    fq_mul(y, y) == fq_add(fq_mul(x, fq_mul(x, x)), 3)
}

/// The identity as `(0, 0)`, or a point with canonical coordinates on the curve.
pub open spec fn g1_valid(a: AffineG1) -> bool {
    if a.infinity {
        a.x == 0 && a.y == 0
    } else {
        0 <= a.x < p() && 0 <= a.y < p() && g1_on_curve(a.x, a.y)
    }
}

pub open spec fn g1_negation(a: AffineG1) -> AffineG1 {
    if a.infinity {
        a
    } else {
        AffineG1 { x: a.x, y: fq_neg(a.y), infinity: false }
    }
}

/// The chord-and-tangent group law.
pub open spec fn g1_sum(a: AffineG1, b: AffineG1) -> AffineG1 {
    if a.infinity {
        b
    } else if b.infinity {
        a
    } else if a.x == b.x && fq_add(a.y, b.y) == 0 {
        g1_identity()
    } else {
        let l = if a.x == b.x {
            fq_mul(fq_mul(3, fq_mul(a.x, a.x)), fq_inv(fq_mul(2, a.y)))
        } else {
            fq_mul(fq_sub(b.y, a.y), fq_inv(fq_sub(b.x, a.x)))
        };
        let x3 = fq_sub(fq_sub(fq_mul(l, l), a.x), b.x);
        let y3 = fq_sub(fq_mul(l, fq_sub(a.x, x3)), a.y);
        AffineG1 { x: x3, y: y3, infinity: false }
    }
}

/// `n` copies of `a` added together.
pub open spec fn g1_multiple(a: AffineG1, n: nat) -> AffineG1
    decreases n,
{
    if n == 0 {
        g1_identity()
    } else {
        g1_sum(g1_multiple(a, (n - 1) as nat), a)
    }
}

/// Coordinates that name no point of G1.
#[derive(Clone, Copy, Debug, PartialEq, Eq)]
pub struct CurveViolation;

/// A point of G1 in affine form.
#[derive(Clone, Copy, Debug, PartialEq, Eq)]
pub struct G1Point {
    pub x: Fq,
    pub y: Fq,
    pub infinity: bool,
}

impl View for G1Point {
    type V = AffineG1;

    open spec fn view(&self) -> AffineG1 {
        AffineG1 { x: self.x@ as int, y: self.y@ as int, infinity: self.infinity }
    }
}

/// Relies on ark_bn254's `G1Affine::generator`, the point `(1, 2)`.
#[verifier::external_body]
fn ark_generator() -> (r: G1Point)
    ensures
        r@ == g1_generator_spec(),
{
    let g = ArkG1::generator();
    let c = |f: ArkFq| Fq { limbs: f.into_bigint().0 };
    G1Point { x: c(g.x), y: c(g.y), infinity: g.infinity }
}

/// Relies on ark_ec's `Affine::is_on_curve`, which tests `y^2 == x^3 + 3`.
#[verifier::external_body]
fn ark_is_on_curve(x: &Fq, y: &Fq) -> (r: bool)
    requires
        x.wf(),
        y.wf(),
    ensures
        r == g1_on_curve(x@ as int, y@ as int),
{
    ArkG1::new_unchecked(ArkFq::from(BigInt(x.limbs)), ArkFq::from(BigInt(y.limbs))).is_on_curve()
}

/// Relies on `Neg` for ark_ec's `Affine`: `(x, -y)`, and the identity unchanged.
#[verifier::external_body]
fn ark_negate(a: &G1Point) -> (r: G1Point)
    requires
        a.wf(),
    ensures
        r@ == g1_negation(a@),
{
    let f = |l: [u64; 4]| ArkFq::from(BigInt(l));
    let n = -ArkG1 { x: f(a.x.limbs), y: f(a.y.limbs), infinity: a.infinity };
    let c = |f: ArkFq| Fq { limbs: f.into_bigint().0 };
    G1Point { x: c(n.x), y: c(n.y), infinity: n.infinity }
}

/// Relies on `Add` for ark_ec's `Affine` (the group law, here computed in
/// projective form) and on its normalisation back to affine form.
#[verifier::external_body]
fn ark_add(a: &G1Point, b: &G1Point) -> (r: G1Point)
    requires
        a.wf(),
        b.wf(),
    ensures
        r@ == g1_sum(a@, b@),
        r.wf(),
{
    let f = |l: [u64; 4]| ArkFq::from(BigInt(l));
    let s: ArkG1 = (ArkG1 { x: f(a.x.limbs), y: f(a.y.limbs), infinity: a.infinity } + ArkG1 {
        x: f(b.x.limbs),
        y: f(b.y.limbs),
        infinity: b.infinity,
    }).into();
    let c = |f: ArkFq| Fq { limbs: f.into_bigint().0 };
    G1Point { x: c(s.x), y: c(s.y), infinity: s.infinity }
}

/// Relies on `Mul<Fr>` for ark_ec's `Affine` (double-and-add over the bits of
/// the scalar) and on its normalisation back to affine form.
#[verifier::external_body]
fn ark_scalar_mul(a: &G1Point, k: &Fr) -> (r: G1Point)
    requires
        a.wf(),
        k.wf(),
    ensures
        r@ == g1_multiple(a@, k@),
        r.wf(),
{
    let f = |l: [u64; 4]| ArkFq::from(BigInt(l));
    let p = ArkG1 { x: f(a.x.limbs), y: f(a.y.limbs), infinity: a.infinity };
    let m: ArkG1 = (p * ArkFr::from(BigInt(k.limbs))).into();
    let c = |f: ArkFq| Fq { limbs: f.into_bigint().0 };
    G1Point { x: c(m.x), y: c(m.y), infinity: m.infinity }
}

impl G1Point {
    pub open spec fn wf(&self) -> bool {
        self.x.wf() && self.y.wf() && g1_valid(self@)
    }

    /// The fixed generator of G1.
    pub fn generator() -> (r: G1Point)
        ensures
            r.wf(),
            r@ == g1_generator_spec(),
    {
        let g = ark_generator();
        proof {
            lemma_moduli_large();
            lemma_small_mod(1, p() as nat);
            lemma_small_mod(4, p() as nat);
        }
        assert(g1_on_curve(1, 2));
        g
    }

    /// The point at infinity, written `(0, 0)`.
    pub fn identity() -> (r: G1Point)
        ensures
            r.wf(),
            r@ == g1_identity(),
    {
        G1Point { x: Fq::zero(), y: Fq::zero(), infinity: true }
    }

    pub fn is_identity(&self) -> (r: bool)
        ensures
            r == self@.infinity,
    {
        self.infinity
    }

    /// Builds a point from coordinates that come from outside, checking them
    /// first: `(0, 0)` is the identity, any other pair must lie on the curve.
    pub fn from_coordinates(x: Fq, y: Fq) -> (r: Result<G1Point, CurveViolation>)
        requires
            x.wf(),
            y.wf(),
        ensures
            r is Ok <==> (x@ == 0 && y@ == 0) || g1_on_curve(x@ as int, y@ as int),
            r matches Ok(q) ==> q.wf() && q@ == (if x@ == 0 && y@ == 0 {
                g1_identity()
            } else {
                AffineG1 { x: x@ as int, y: y@ as int, infinity: false }
            }),
    {
        if x.is_zero() && y.is_zero() {
            Ok(G1Point::identity())
        } else if ark_is_on_curve(&x, &y) {
            Ok(G1Point { x, y, infinity: false })
        } else {
            Err(CurveViolation)
        }
    }

    /// The point with its y-coordinate negated; the identity stays itself.
    pub fn negate(&self) -> (r: G1Point)
        requires
            self.wf(),
        ensures
            r.wf(),
            r@ == g1_negation(self@),
    {
        let r = ark_negate(self);
        proof {
            lemma_fq_neg_mul(self@.y, self@.y);
        }
        r
    }

    /// The group law.
    pub fn add(&self, other: &G1Point) -> (r: G1Point)
        requires
            self.wf(),
            other.wf(),
        ensures
            r.wf(),
            r@ == g1_sum(self@, other@),
    {
        ark_add(self, other)
    }

    /// `scalar` copies of the point added together. A zero scalar gives the
    /// identity whatever the point, without consulting the arithmetic backend.
    pub fn scalar_mul(&self, scalar: Fr) -> (r: G1Point)
        requires
            self.wf(),
            scalar.wf(),
        ensures
            r.wf(),
            r@ == g1_multiple(self@, scalar@),
            scalar@ == 0 ==> r@ == g1_identity(),
    {
        if scalar.is_zero() {
            G1Point::identity()
        } else {
            ark_scalar_mul(self, &scalar)
        }
    }
}

/// The generator of G1.
pub fn g1_generator() -> (r: G1Point)
    ensures
        r.wf(),
        r@ == g1_generator_spec(),
{
    G1Point::generator()
}

/// The negation of `p`.
pub fn g1_negate(p: G1Point) -> (r: G1Point)
    requires
        p.wf(),
    ensures
        r.wf(),
        r@ == g1_negation(p@),
{
    p.negate()
}

/// The sum of `p1` and `p2`.
pub fn g1_add(p1: G1Point, p2: G1Point) -> (r: G1Point)
    requires
        p1.wf(),
        p2.wf(),
    ensures
        r.wf(),
        r@ == g1_sum(p1@, p2@),
{
    p1.add(&p2)
}

/// `s` times `p`, the identity when `s` is zero.
pub fn g1_scalar_mul(p: G1Point, s: Fr) -> (r: G1Point)
    requires
        p.wf(),
        s.wf(),
    ensures
        r.wf(),
        r@ == g1_multiple(p@, s@),
{
    p.scalar_mul(s)
}

/// Multiplying by a scalar is adding the point that many times: one copy
/// more is one addition more, one copy is the point, two is the point doubled.
pub proof fn lemma_scalar_mul_is_repeated_addition(a: AffineG1, n: nat)
    requires
        g1_valid(a),
    ensures
        g1_multiple(a, n + 1) == g1_sum(g1_multiple(a, n), a),
        g1_multiple(a, 1) == a,
        g1_multiple(a, 2) == g1_sum(a, a),
{
    reveal_with_fuel(g1_multiple, 3);
}

/// Multiplying any point by zero gives the identity.
pub proof fn lemma_scalar_mul_by_zero(a: AffineG1)
    ensures
        g1_multiple(a, 0) == g1_identity(),
{
}

/// Negation undoes itself, and a point plus its negation is the identity.
pub proof fn lemma_negate_cancels(a: AffineG1)
    requires
        g1_valid(a),
    ensures
        g1_negation(g1_negation(a)) == a,
        g1_sum(a, g1_negation(a)) == g1_identity(),
{
    if !a.infinity {
        lemma_fq_neg_neg(a.y);
    }
}

/// Any multiple of the identity is the identity.
pub proof fn lemma_identity_multiple(n: nat)
    ensures
        g1_multiple(g1_identity(), n) == g1_identity(),
    decreases n,
{
    if n > 0 {
        lemma_identity_multiple((n - 1) as nat);
    }
}

} // verus!
