//! A Keccak-256 digest of a G1 point, over the big-endian encodings of its
//! affine coordinates. An identifier of the point, not a hash to the curve.
use vstd::prelude::*;
use crate::field::be_bytes;
use crate::g1::G1Point;
use sha3::{Digest, Keccak256};

verus! {

/// The Keccak-256 digest of a byte string.
pub uninterp spec fn keccak256_of(data: Seq<u8>) -> Seq<u8>;

/// Relies on sha3's `Keccak256` (through `Digest::digest`): a 32-byte digest
/// that depends on the input bytes alone.
#[verifier::external_body]
fn keccak256(data: &Vec<u8>) -> (r: [u8; 32])
    ensures
        r@ == keccak256_of(data@),
{
    Keccak256::digest(data.as_slice()).into()
}

/// The 64 bytes that are hashed for a point: `x` then `y`, each 32 bytes
/// big-endian. The identity has both coordinates zero.
pub open spec fn point_hash_input(p: G1Point) -> Seq<u8> {
    be_bytes(p.x@, 32) + be_bytes(p.y@, 32)
}

/// Keccak-256 of the big-endian x-coordinate followed by the big-endian
/// y-coordinate.
pub fn hash_g1_point(p: &G1Point) -> (r: [u8; 32])
    ensures
        r@ == keccak256_of(point_hash_input(*p)),
{
    let xb = p.x.to_be_bytes();
    let yb = p.y.to_be_bytes();
    let mut data: Vec<u8> = Vec::with_capacity(64);
    let mut i: usize = 0;
    while i < 32
        invariant
            i <= 32,
            xb@.len() == 32,
            data@ =~= xb@.subrange(0, i as int),
        decreases 32 - i,
    {
        data.push(xb[i]);
        i += 1;
    }
    let mut j: usize = 0;
    while j < 32
        invariant
            j <= 32,
            xb@.len() == 32,
            yb@.len() == 32,
            data@ =~= xb@ + yb@.subrange(0, j as int),
        decreases 32 - j,
    {
        data.push(yb[j]);
        j += 1;
    }
    assert(data@ =~= point_hash_input(*p));
    keccak256(&data)
}

/// The digest depends on the point's coordinates alone: two points with the
/// same coordinates hash to the same 32 bytes, in any call and any process.
pub proof fn lemma_hash_is_deterministic(p: G1Point, q: G1Point)
    requires
        p@ == q@,
    ensures
        keccak256_of(point_hash_input(p)) == keccak256_of(point_hash_input(q)),
{
}

} // verus!
