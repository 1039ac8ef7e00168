//! The request flows of the signing service, from plain request values to a
//! response or a categorised error. Each step that fails ends the request.
use vstd::prelude::*;
use crate::field::{decimal_value, digit_value, is_canonical_decimal, lemma_moduli_large, Fq, Fr};
use crate::g1::{g1_identity, g1_multiple, g1_on_curve, lemma_identity_multiple, AffineG1};
use crate::web::models::{
    G1Point,
    G2Point,
    KeyPair,
    ScalarMulRequest,
    ScalarMulResponse,
    SignRequest,
    SignResponse,
};
use crate::web::store::Store;

verus! {

/// Why a request produced no result.
#[derive(Clone, Copy, Debug, PartialEq, Eq)]
pub enum ServiceError {
    /// No key pair is stored under the address.
    NotFound,
    /// A coordinate of the message point is not a canonical decimal below `p`.
    BadRequest,
    /// The message point is neither `(0, 0)` nor on the curve.
    CurveViolation,
    /// The stored private key does not parse as a scalar.
    InternalFault,
}

/// The message point that two parsed coordinates name: `(0, 0)` is the identity.
pub open spec fn message_point(x: nat, y: nat) -> AffineG1 {
    if x == 0 && y == 0 {
        g1_identity()
    } else {
        AffineG1 { x: x as int, y: y as int, infinity: false }
    }
}

/// What a request to multiply `(x, y)` by the scalar stored under `eoa` comes
/// to, step by step: the identity is resolved, the point parsed and checked,
/// the private key read, and the product taken.
pub open spec fn sign_outcome(
    keys: Map<Seq<char>, KeyPair>,
    eoa: Seq<char>,
    x: Seq<char>,
    y: Seq<char>,
) -> Result<AffineG1, ServiceError> {
    if !keys.contains_key(eoa) {
        Err(ServiceError::NotFound)
    } else if Fq::from_decimal_spec(x) is None || Fq::from_decimal_spec(y) is None {
        Err(ServiceError::BadRequest)
    } else {
        let hx = Fq::from_decimal_spec(x)->0;
        let hy = Fq::from_decimal_spec(y)->0;
        if !((hx == 0 && hy == 0) || g1_on_curve(hx as int, hy as int)) {
            Err(ServiceError::CurveViolation)
        } else if Fr::from_decimal_spec(keys[eoa].private_key@) is None {
            Err(ServiceError::InternalFault)
        } else {
            Ok(g1_multiple(message_point(hx, hy), Fr::from_decimal_spec(keys[eoa].private_key@)->0))
        }
    }
}

/// The strings are the canonical decimals of the point's coordinates
/// (`"0"` and `"0"` for the identity).
pub open spec fn encodes_point(s: G1Point, a: AffineG1) -> bool {
    &&& is_canonical_decimal(s.x@)
    &&& is_canonical_decimal(s.y@)
    &&& decimal_value(s.x@) == a.x
    &&& decimal_value(s.y@) == a.y
}

pub open spec fn same_g1_strings(a: G1Point, b: G1Point) -> bool {
    a.x@ == b.x@ && a.y@ == b.y@
}

pub open spec fn same_g2_strings(a: G2Point, b: G2Point) -> bool {
    a.x_a@ == b.x_a@ && a.x_b@ == b.x_b@ && a.y_a@ == b.y_a@ && a.y_b@ == b.y_b@
}

/// Writes a point's coordinates as decimal strings.
pub fn encode_point(q: &crate::g1::G1Point) -> (r: G1Point)
    ensures
        encodes_point(r, q@),
{
    G1Point { x: q.x.to_decimal(), y: q.y.to_decimal() }
}

/// Resolves the identity, parses and checks the message point, reads the
/// private scalar and multiplies.
pub fn sign_message<'a>(store: &'a Store, eoa_address: &str, x: &str, y: &str) -> (r: Result<
    (crate::g1::G1Point, &'a KeyPair),
    ServiceError,
>)
    ensures
        match sign_outcome(store@, eoa_address@, x@, y@) {
            Err(e) => r == Err::<(crate::g1::G1Point, &KeyPair), _>(e),
            Ok(s) => r matches Ok((q, k)) && q.wf() && q@ == s && *k == store@[eoa_address@],
        },
{
    let key_pair = match store.get_key_pair(eoa_address) {
        Some(k) => k,
        None => return Err(ServiceError::NotFound),
    };
    let hx = match Fq::from_decimal(x) {
        Ok(v) => v,
        Err(_) => return Err(ServiceError::BadRequest),
    };
    let hy = match Fq::from_decimal(y) {
        Ok(v) => v,
        Err(_) => return Err(ServiceError::BadRequest),
    };
    let point = match crate::g1::G1Point::from_coordinates(hx, hy) {
        Ok(p) => p,
        Err(_) => return Err(ServiceError::CurveViolation),
    };
    let private_key = match key_pair.to_private_key() {
        Ok(k) => k,
        Err(_) => return Err(ServiceError::InternalFault),
    };
    assert(point@ == message_point(hx@, hy@));
    Ok((point.scalar_mul(private_key), key_pair))
}

/// Multiplies the message point by the identity's private scalar and returns
/// the product with the identity's public keys.
pub fn scalar_mul(store: &Store, req: &ScalarMulRequest) -> (r: Result<
    ScalarMulResponse,
    ServiceError,
>)
    ensures
        match sign_outcome(store@, req.eoa_address@, req.hash_x@, req.hash_y@) {
            Err(e) => r == Err::<ScalarMulResponse, _>(e),
            Ok(s) => r matches Ok(resp) && encodes_point(resp.signature, s) && same_g1_strings(
                resp.g1,
                store@[req.eoa_address@].public_key_g1,
            ) && same_g2_strings(resp.g2, store@[req.eoa_address@].public_key_g2),
        },
{
    match sign_message(store, req.eoa_address.as_str(), req.hash_x.as_str(), req.hash_y.as_str()) {
        Ok((q, key_pair)) => Ok(
            ScalarMulResponse {
                g1: key_pair.public_key_g1.copied(),
                g2: key_pair.public_key_g2.copied(),
                signature: encode_point(&q),
            },
        ),
        Err(e) => Err(e),
    }
}

/// Signs the message point with the identity's private scalar and returns the
/// signature with the signer's public G1 key.
pub fn sign(store: &Store, req: &SignRequest) -> (r: Result<SignResponse, ServiceError>)
    ensures
        match sign_outcome(store@, req.eoa_address@, req.point_x@, req.point_y@) {
            Err(e) => r == Err::<SignResponse, _>(e),
            Ok(s) => r matches Ok(resp) && encodes_point(resp.product, s) && same_g1_strings(
                resp.signer_g1,
                store@[req.eoa_address@].public_key_g1,
            ) && same_g2_strings(resp.signer_g2, store@[req.eoa_address@].public_key_g2),
        },
{
    match sign_message(
        store,
        req.eoa_address.as_str(),
        req.point_x.as_str(),
        req.point_y.as_str(),
    ) {
        Ok((q, key_pair)) => Ok(
            SignResponse {
                product: encode_point(&q),
                signer_g1: key_pair.public_key_g1.copied(),
                signer_g2: key_pair.public_key_g2.copied(),
            },
        ),
        Err(e) => Err(e),
    }
}

/// Signing the message point `(0, 0)` (the identity under the EVM's
/// convention) gives the identity, not a curve violation, for any stored
/// identity whose private key parses.
pub proof fn lemma_sign_identity_point(keys: Map<Seq<char>, KeyPair>, eoa: Seq<char>)
    requires
        keys.contains_key(eoa),
        Fr::from_decimal_spec(keys[eoa].private_key@) is Some,
    ensures
        sign_outcome(keys, eoa, seq!['0'], seq!['0']) == Ok::<AffineG1, ServiceError>(
            g1_identity(),
        ),
{
    let z = seq!['0'];
    assert(z.drop_last() =~= Seq::<char>::empty());
    assert(decimal_value(Seq::<char>::empty()) == 0);
    assert(z.last() == '0');
    assert(decimal_value(z) == decimal_value(z.drop_last()) * 10 + digit_value(z.last()));
    assert(decimal_value(z) == 0);
    lemma_moduli_large();
    assert(Fq::from_decimal_spec(z) == Some(0nat));
    lemma_identity_multiple(Fr::from_decimal_spec(keys[eoa].private_key@)->0);
}

} // verus!
