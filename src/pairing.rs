//! The pairing check `e(a1, a2) * e(b1, b2) == 1`, the usual way to test
//! `e(a1, a2) == e(-b1, b2)` without an inversion in the target group.
use vstd::prelude::*;
use crate::field::Fq;
use crate::g1::{AffineG1, G1Point};
use crate::g2::{AffineG2, G2Point};
use ark_bn254::{Bn254, Fq as ArkFq, Fq2 as ArkFq2, G1Affine as ArkG1, G2Affine as ArkG2};
use ark_ec::pairing::Pairing;
use ark_ff::{BigInt, Zero};

verus! {

/// Whether the product of the pairings `e(a1, a2)` and `e(b1, b2)` is the
/// identity of the target group.
pub uninterp spec fn pairing_product_is_one(
    a1: AffineG1,
    a2: AffineG2,
    b1: AffineG1,
    b2: AffineG2,
) -> bool;

/// Relies on ark_ec's `Pairing::multi_pairing` for `Bn254`, the product of the
/// pairings of the two pairs (a product, so the same for either order of the
/// pairs), and on `PairingOutput::is_zero`, which tests it against the
/// target group's identity.
#[verifier::external_body]
fn ark_pairing_product_is_one(a1: &G1Point, a2: &G2Point, b1: &G1Point, b2: &G2Point) -> (r:
    bool)
    requires
        a1.wf(),
        a2.wf(),
        b1.wf(),
        b2.wf(),
    ensures
        r == pairing_product_is_one(a1@, a2@, b1@, b2@),
        r == pairing_product_is_one(b1@, b2@, a1@, a2@),
{
    let f = |q: &Fq| ArkFq::from(BigInt(q.limbs));
    let g1 = |p: &G1Point| ArkG1 { x: f(&p.x), y: f(&p.y), infinity: p.infinity };
    let h = |q: &crate::g2::Fq2| ArkFq2::new(f(&q.c0), f(&q.c1));
    let g2 = |p: &G2Point| ArkG2 { x: h(&p.x), y: h(&p.y), infinity: p.infinity };
    Bn254::multi_pairing([g1(a1), g1(b1)], [g2(a2), g2(b2)]).is_zero()
}

/// `true` iff `e(a1, a2) * e(b1, b2)` is the identity of the target group.
/// The answer does not depend on which pair comes first.
pub fn pairing_check(a1: G1Point, a2: G2Point, b1: G1Point, b2: G2Point) -> (r: bool)
    requires
        a1.wf(),
        a2.wf(),
        b1.wf(),
        b2.wf(),
    ensures
        r == pairing_product_is_one(a1@, a2@, b1@, b2@),
        r == pairing_product_is_one(b1@, b2@, a1@, a2@),
{
    ark_pairing_product_is_one(&a1, &a2, &b1, &b2)
}

} // verus!
