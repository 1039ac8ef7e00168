//! The G2 group of BN254: points of the sextic twist `y^2 = x^3 + 3/(9+u)`
//! over `Fq2 = Fq[u]/(u^2+1)`, in affine form.
//!
//! Each `Fq2` coordinate is `c0 + c1*u`. The EVM ABI writes such a pair as
//! `[c1, c0]` (imaginary part first); `from_external_coordinates` and
//! `to_external_coordinates` are the only places where that order is turned.
use vstd::prelude::*;
use crate::field::{fq_add, fq_mul, fq_neg, fq_sub, lemma_fq_neg_mul, limbs_value, p, Fq};
use ark_bn254::{Fq as ArkFq, Fq2 as ArkFq2, G2Affine as ArkG2};
use ark_ec::AffineRepr;
use ark_ff::{BigInt, PrimeField};

verus! {

/// The mathematical value of a G2 point: `x = x0 + x1*u`, `y = y0 + y1*u`.
pub struct AffineG2 {
    pub x0: int,
    pub x1: int,
    pub y0: int,
    pub y1: int,
    pub infinity: bool,
}

pub open spec fn fq2_mul_re(a0: int, a1: int, b0: int, b1: int) -> int {
    fq_sub(fq_mul(a0, b0), fq_mul(a1, b1))
}

pub open spec fn fq2_mul_im(a0: int, a1: int, b0: int, b1: int) -> int {
    fq_add(fq_mul(a0, b1), fq_mul(a1, b0))
}

/// The twist's constant `b' = 3/(9+u)`, real part.
pub open spec fn g2_b0() -> int {
    limbs_value([0x3267e6dc24a138e5, 0xb5b4c5e559dbefa3, 0x81be18991be06ac3, 0x2b149d40ceb8aaae])
        as int
}

/// The twist's constant `b' = 3/(9+u)`, imaginary part.
pub open spec fn g2_b1() -> int {
    limbs_value([0xe4a2bd0685c315d2, 0xa74fa084e52d1852, 0xcd2cafadeed8fdf4, 0x9713b03af0fed4])
        as int
}

/// `y^2 == x^3 + b'` in `Fq2`.
pub open spec fn g2_on_curve(x0: int, x1: int, y0: int, y1: int) -> bool {
    let xx0 = fq2_mul_re(x0, x1, x0, x1);
    let xx1 = fq2_mul_im(x0, x1, x0, x1);
    fq2_mul_re(y0, y1, y0, y1) == fq_add(fq2_mul_re(xx0, xx1, x0, x1), g2_b0())
        && fq2_mul_im(y0, y1, y0, y1) == fq_add(fq2_mul_im(xx0, xx1, x0, x1), g2_b1())
}

/// Whether a point of the twist lies in the subgroup of prime order `r`.
pub uninterp spec fn g2_in_subgroup_of(a: AffineG2) -> bool;

pub open spec fn g2_identity() -> AffineG2 {
    AffineG2 { x0: 0, x1: 0, y0: 0, y1: 0, infinity: true }
}

/// The standard generator of G2.
pub open spec fn g2_generator_spec() -> AffineG2 {
    AffineG2 {
        x0: limbs_value(
            [0x46debd5cd992f6ed, 0x674322d4f75edadd, 0x426a00665e5c4479, 0x1800deef121f1e76],
        ) as int,
        x1: limbs_value(
            [0x97e485b7aef312c2, 0xf1aa493335a9e712, 0x7260bfb731fb5d25, 0x198e9393920d483a],
        ) as int,
        y0: limbs_value(
            [0x4ce6cc0166fa7daa, 0xe3d1e7690c43d37b, 0x4aab71808dcb408f, 0x12c85ea5db8c6deb],
        ) as int,
        y1: limbs_value(
            [0x55acdadcd122975b, 0xbc4b313370b38ef3, 0xec9e99ad690c3395, 0x90689d0585ff075],
        ) as int,
        infinity: false,
    }
}

/// The identity as all zeros, or a point with canonical coordinates on the
/// twist and in the prime-order subgroup.
pub open spec fn g2_valid(a: AffineG2) -> bool {
    if a.infinity {
        a.x0 == 0 && a.x1 == 0 && a.y0 == 0 && a.y1 == 0
    } else {
        &&& 0 <= a.x0 < p()
        &&& 0 <= a.x1 < p()
        &&& 0 <= a.y0 < p()
        &&& 0 <= a.y1 < p()
        &&& g2_on_curve(a.x0, a.x1, a.y0, a.y1)
        &&& g2_in_subgroup_of(a)
    }
}

pub open spec fn g2_negation(a: AffineG2) -> AffineG2 {
    if a.infinity {
        a
    } else {
        AffineG2 { x0: a.x0, x1: a.x1, y0: fq_neg(a.y0), y1: fq_neg(a.y1), infinity: false }
    }
}

/// An element `c0 + c1*u` of the quadratic extension.
#[derive(Clone, Copy, Debug, PartialEq, Eq)]
pub struct Fq2 {
    pub c0: Fq,
    pub c1: Fq,
}

/// A point of G2 in affine form.
#[derive(Clone, Copy, Debug, PartialEq, Eq)]
pub struct G2Point {
    pub x: Fq2,
    pub y: Fq2,
    pub infinity: bool,
}

impl View for G2Point {
    type V = AffineG2;

    open spec fn view(&self) -> AffineG2 {
        AffineG2 {
            x0: self.x.c0@ as int,
            x1: self.x.c1@ as int,
            y0: self.y.c0@ as int,
            y1: self.y.c1@ as int,
            infinity: self.infinity,
        }
    }
}

/// Relies on ark_bn254's `G2Affine::generator`, the standard generator, which
/// lies on the twist and in the prime-order subgroup.
#[verifier::external_body]
fn ark_generator() -> (r: G2Point)
    ensures
        r@ == g2_generator_spec(),
        r.wf(),
{
    let g = ArkG2::generator();
    let c = |f: ArkFq| Fq { limbs: f.into_bigint().0 };
    G2Point {
        x: Fq2 { c0: c(g.x.c0), c1: c(g.x.c1) },
        y: Fq2 { c0: c(g.y.c0), c1: c(g.y.c1) },
        infinity: g.infinity,
    }
}

/// Relies on ark_ec's `Affine::is_on_curve`, which tests `y^2 == x^3 + b'`.
#[verifier::external_body]
fn ark_is_on_curve(x: &Fq2, y: &Fq2) -> (r: bool)
    requires
        x.c0.wf(),
        x.c1.wf(),
        y.c0.wf(),
        y.c1.wf(),
    ensures
        r == g2_on_curve(x.c0@ as int, x.c1@ as int, y.c0@ as int, y.c1@ as int),
{
    let f = |l: [u64; 4]| ArkFq::from(BigInt(l));
    let x2 = ArkFq2::new(f(x.c0.limbs), f(x.c1.limbs));
    ArkG2::new_unchecked(x2, ArkFq2::new(f(y.c0.limbs), f(y.c1.limbs))).is_on_curve()
}

/// Relies on ark_ec's `Affine::is_in_correct_subgroup_assuming_on_curve`.
#[verifier::external_body]
fn ark_in_subgroup(x: &Fq2, y: &Fq2) -> (r: bool)
    requires
        x.c0.wf(),
        x.c1.wf(),
        y.c0.wf(),
        y.c1.wf(),
        g2_on_curve(x.c0@ as int, x.c1@ as int, y.c0@ as int, y.c1@ as int),
    ensures
        r == g2_in_subgroup_of(
            AffineG2 {
                x0: x.c0@ as int,
                x1: x.c1@ as int,
                y0: y.c0@ as int,
                y1: y.c1@ as int,
                infinity: false,
            },
        ),
{
    let f = |l: [u64; 4]| ArkFq::from(BigInt(l));
    let x2 = ArkFq2::new(f(x.c0.limbs), f(x.c1.limbs));
    let p = ArkG2::new_unchecked(x2, ArkFq2::new(f(y.c0.limbs), f(y.c1.limbs)));
    p.is_in_correct_subgroup_assuming_on_curve()
}

/// Relies on `Neg` for ark_ec's `Affine`: `(x, -y)`, and the identity
/// unchanged; the negation of a subgroup point stays in the subgroup.
#[verifier::external_body]
fn ark_negate(a: &G2Point) -> (r: G2Point)
    requires
        a.wf(),
    ensures
        r@ == g2_negation(a@),
        !r.infinity ==> g2_in_subgroup_of(r@),
{
    let f = |l: [u64; 4]| ArkFq::from(BigInt(l));
    let y = ArkFq2::new(f(a.y.c0.limbs), f(a.y.c1.limbs));
    let n = -ArkG2 { x: ArkFq2::new(f(a.x.c0.limbs), f(a.x.c1.limbs)), y, infinity: a.infinity };
    let c = |f: ArkFq| Fq { limbs: f.into_bigint().0 };
    let (x, y) = (Fq2 { c0: c(n.x.c0), c1: c(n.x.c1) }, Fq2 { c0: c(n.y.c0), c1: c(n.y.c1) });
    G2Point { x, y, infinity: n.infinity }
}

impl G2Point {
    pub open spec fn wf(&self) -> bool {
        &&& self.x.c0.wf()
        &&& self.x.c1.wf()
        &&& self.y.c0.wf()
        &&& self.y.c1.wf()
        &&& g2_valid(self@)
    }

    /// The fixed generator of G2.
    pub fn generator() -> (r: G2Point)
        ensures
            r.wf(),
            r@ == g2_generator_spec(),
    {
        ark_generator()
    }

    /// The point at infinity, all coordinates zero.
    pub fn identity() -> (r: G2Point)
        ensures
            r.wf(),
            r@ == g2_identity(),
    {
        let z = Fq2 { c0: Fq::zero(), c1: Fq::zero() };
        G2Point { x: z, y: z, infinity: true }
    }

    /// Builds a point from coordinates in the EVM's order, each pair written
    /// `[imaginary, real]`. All zeros is the identity; anything else must lie
    /// on the twist and in the prime-order subgroup.
    pub fn from_external_coordinates(x: [Fq; 2], y: [Fq; 2]) -> (r: Result<
        G2Point,
        crate::g1::CurveViolation,
    >)
        requires
            x[0].wf(),
            x[1].wf(),
            y[0].wf(),
            y[1].wf(),
        ensures
            ({
                let a = AffineG2 {
                    x0: x[1]@ as int,
                    x1: x[0]@ as int,
                    y0: y[1]@ as int,
                    y1: y[0]@ as int,
                    infinity: false,
                };
                let zero = x[0]@ == 0 && x[1]@ == 0 && y[0]@ == 0 && y[1]@ == 0;
                &&& r is Ok <==> zero || g2_valid(a)
                &&& r matches Ok(q) ==> q.wf() && q@ == (if zero {
                    g2_identity()
                } else {
                    a
                })
            }),
    {
        let xs = Fq2 { c0: x[1], c1: x[0] };
        let ys = Fq2 { c0: y[1], c1: y[0] };
        if x[0].is_zero() && x[1].is_zero() && y[0].is_zero() && y[1].is_zero() {
            Ok(G2Point::identity())
        } else if ark_is_on_curve(&xs, &ys) && ark_in_subgroup(&xs, &ys) {
            Ok(G2Point { x: xs, y: ys, infinity: false })
        } else {
            Err(crate::g1::CurveViolation)
        }
    }

    /// The coordinates in the EVM's order, each pair `[imaginary, real]`;
    /// the identity is all zeros.
    pub fn to_external_coordinates(&self) -> (r: ([Fq; 2], [Fq; 2]))
        ensures
            r.0[0] == self.x.c1,
            r.0[1] == self.x.c0,
            r.1[0] == self.y.c1,
            r.1[1] == self.y.c0,
    {
        ([self.x.c1, self.x.c0], [self.y.c1, self.y.c0])
    }

    /// The point with its y-coordinate negated; the identity stays itself.
    pub fn negate(&self) -> (r: G2Point)
        requires
            self.wf(),
        ensures
            r.wf(),
            r@ == g2_negation(self@),
    {
        let r = ark_negate(self);
        proof {
            let a = self@;
            lemma_fq_neg_mul(a.y0, a.y0);
            lemma_fq_neg_mul(a.y1, a.y1);
            lemma_fq_neg_mul(a.y0, a.y1);
            lemma_fq_neg_mul(a.y1, a.y0);
        }
        r
    }
}

/// The generator of G2.
pub fn g2_generator() -> (r: G2Point)
    ensures
        r.wf(),
        r@ == g2_generator_spec(),
{
    G2Point::generator()
}

/// The negation of `p`.
pub fn g2_negate(p: G2Point) -> (r: G2Point)
    requires
        p.wf(),
    ensures
        r.wf(),
        r@ == g2_negation(p@),
{
    p.negate()
}

} // verus!
