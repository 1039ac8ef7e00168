//! Key-store records, requests and responses, with every number written as a
//! decimal string.
use vstd::prelude::*;
use crate::field::{Fq, Fr, ParseError};
use crate::g1::{g1_identity, g1_on_curve, AffineG1, CurveViolation};
use crate::g2::{g2_identity, g2_valid, AffineG2};

verus! {

/// One decimal coordinate of a stored or requested point.
#[derive(Clone, Copy, Debug, PartialEq, Eq)]
pub enum Coordinate {
    X,
    Y,
    XA,
    XB,
    YA,
    YB,
}

/// The first coordinate that does not parse, or coordinates that name no
/// point of the group.
#[derive(Clone, Copy, Debug, PartialEq, Eq)]
pub enum PointError {
    Parse(Coordinate),
    Curve,
}

/// A stored identity: its address, its private scalar and its public keys.
#[derive(Debug, Clone)]
pub struct KeyPair {
    pub eoa_address: String,
    pub private_key: String,
    pub public_key_g1: G1Point,
    pub public_key_g2: G2Point,
}

/// Asks for a stored identity's scalar times the point `(hash_x, hash_y)`.
#[derive(Debug, Clone)]
pub struct ScalarMulRequest {
    pub eoa_address: String,
    pub hash_x: String,
    pub hash_y: String,
}

/// The product, with the identity's public keys.
#[derive(Debug, Clone)]
pub struct ScalarMulResponse {
    pub g1: G1Point,
    pub g2: G2Point,
    pub signature: G1Point,
}

/// Asks a stored identity to sign the message point `(point_x, point_y)`.
#[derive(Debug, Clone)]
pub struct SignRequest {
    pub eoa_address: String,
    pub point_x: String,
    pub point_y: String,
}

/// A G1 point as two decimal strings.
#[derive(Debug, Clone)]
pub struct G1Point {
    pub x: String,
    pub y: String,
}

/// A G2 point as four decimal strings in the EVM's order: each pair is
/// `[imaginary, real]`, so `x = x_b + x_a*u` and `y = y_b + y_a*u`.
#[derive(Debug, Clone)]
pub struct G2Point {
    pub x_a: String,
    pub x_b: String,
    pub y_a: String,
    pub y_b: String,
}

/// The signature, with the signer's public G1 and G2 keys.
#[derive(Debug, Clone)]
pub struct SignResponse {
    pub product: G1Point,
    pub signer_g1: G1Point,
    pub signer_g2: G2Point,
}

/// The G2 point that four decoded coordinates in the EVM's order name, the
/// pairs turned to `(real, imaginary)`.
pub open spec fn g2_from_external(xa: nat, xb: nat, ya: nat, yb: nat) -> AffineG2 {
    AffineG2 { x0: xb as int, x1: xa as int, y0: yb as int, y1: ya as int, infinity: false }
}

/// Copies a string; the copy holds the same characters.
pub fn copy_string(s: &String) -> (r: String)
    ensures
        r@ == s@,
{
    s.clone()
}

impl G1Point {
    /// A copy holding the same strings.
    pub fn copied(&self) -> (r: G1Point)
        ensures
            r.x@ == self.x@,
            r.y@ == self.y@,
    {
        G1Point { x: copy_string(&self.x), y: copy_string(&self.y) }
    }

    /// Parses both coordinates and checks the point: `(0, 0)` is the identity,
    /// anything else must lie on the curve.
    pub fn to_g1_point(&self) -> (r: Result<crate::g1::G1Point, PointError>)
        ensures
            ({
                let x = Fq::from_decimal_spec(self.x@);
                let y = Fq::from_decimal_spec(self.y@);
                &&& x is None ==> r == Err::<crate::g1::G1Point, _>(
                    PointError::Parse(Coordinate::X),
                )
                &&& x is Some && y is None ==> r == Err::<crate::g1::G1Point, _>(
                    PointError::Parse(Coordinate::Y),
                )
                &&& x matches Some(xv) ==> y matches Some(yv) ==> {
                    &&& r is Ok <==> (xv == 0 && yv == 0) || g1_on_curve(xv as int, yv as int)
                    &&& r is Err ==> r == Err::<crate::g1::G1Point, _>(PointError::Curve)
                    &&& r matches Ok(q) ==> q.wf() && q@ == (if xv == 0 && yv == 0 {
                        g1_identity()
                    } else {
                        AffineG1 { x: xv as int, y: yv as int, infinity: false }
                    })
                }
            }),
    {
        let x = match Fq::from_decimal(self.x.as_str()) {
            Ok(v) => v,
            Err(_) => return Err(PointError::Parse(Coordinate::X)),
        };
        let y = match Fq::from_decimal(self.y.as_str()) {
            Ok(v) => v,
            Err(_) => return Err(PointError::Parse(Coordinate::Y)),
        };
        match crate::g1::G1Point::from_coordinates(x, y) {
            Ok(q) => Ok(q),
            Err(CurveViolation) => Err(PointError::Curve),
        }
    }
}

impl G2Point {
    /// A copy holding the same strings.
    pub fn copied(&self) -> (r: G2Point)
        ensures
            r.x_a@ == self.x_a@,
            r.x_b@ == self.x_b@,
            r.y_a@ == self.y_a@,
            r.y_b@ == self.y_b@,
    {
        G2Point {
            x_a: copy_string(&self.x_a),
            x_b: copy_string(&self.x_b),
            y_a: copy_string(&self.y_a),
            y_b: copy_string(&self.y_b),
        }
    }

    /// Parses the four coordinates and checks the point through the one
    /// constructor that takes coordinates in the EVM's order, which turns each
    /// pair to `(real, imaginary)`. All zeros is the identity; anything else
    /// must lie on the twist and in the prime-order subgroup.
    pub fn to_g2_point(&self) -> (r: Result<crate::g2::G2Point, PointError>)
        ensures
            ({
                let xa = Fq::from_decimal_spec(self.x_a@);
                let xb = Fq::from_decimal_spec(self.x_b@);
                let ya = Fq::from_decimal_spec(self.y_a@);
                let yb = Fq::from_decimal_spec(self.y_b@);
                &&& xa is None ==> r == Err::<crate::g2::G2Point, _>(
                    PointError::Parse(Coordinate::XA),
                )
                &&& xa is Some && xb is None ==> r == Err::<crate::g2::G2Point, _>(
                    PointError::Parse(Coordinate::XB),
                )
                &&& xa is Some && xb is Some && ya is None ==> r == Err::<crate::g2::G2Point, _>(
                    PointError::Parse(Coordinate::YA),
                )
                &&& xa is Some && xb is Some && ya is Some && yb is None ==> r == Err::<
                    crate::g2::G2Point,
                    _,
                >(PointError::Parse(Coordinate::YB))
                &&& xa is Some && xb is Some && ya is Some && yb is Some ==> {
                    let a = g2_from_external(xa->0, xb->0, ya->0, yb->0);
                    let zero = xa->0 == 0 && xb->0 == 0 && ya->0 == 0 && yb->0 == 0;
                    &&& r is Ok <==> zero || g2_valid(a)
                    &&& r is Err ==> r == Err::<crate::g2::G2Point, _>(PointError::Curve)
                    &&& r matches Ok(q) ==> q.wf() && q@ == (if zero {
                        g2_identity()
                    } else {
                        a
                    })
                }
            }),
    {
        let xa = match Fq::from_decimal(self.x_a.as_str()) {
            Ok(v) => v,
            Err(_) => return Err(PointError::Parse(Coordinate::XA)),
        };
        let xb = match Fq::from_decimal(self.x_b.as_str()) {
            Ok(v) => v,
            Err(_) => return Err(PointError::Parse(Coordinate::XB)),
        };
        let ya = match Fq::from_decimal(self.y_a.as_str()) {
            Ok(v) => v,
            Err(_) => return Err(PointError::Parse(Coordinate::YA)),
        };
        let yb = match Fq::from_decimal(self.y_b.as_str()) {
            Ok(v) => v,
            Err(_) => return Err(PointError::Parse(Coordinate::YB)),
        };
        match crate::g2::G2Point::from_external_coordinates([xa, xb], [ya, yb]) {
            Ok(q) => Ok(q),
            Err(CurveViolation) => Err(PointError::Curve),
        }
    }
}

impl KeyPair {
    /// The private scalar, read from its decimal string without reduction.
    pub fn to_private_key(&self) -> (r: Result<Fr, ParseError>)
        ensures
            r is Ok <==> Fr::from_decimal_spec(self.private_key@) is Some,
            r matches Ok(k) ==> k.wf() && Some(k@) == Fr::from_decimal_spec(self.private_key@),
    {
        Fr::from_decimal(self.private_key.as_str())
    }
}

} // verus!
