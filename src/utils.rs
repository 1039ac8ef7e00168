//! Byte encodings of field elements.
use vstd::prelude::*;
use crate::field::{be_bytes, Fr};

verus! {

/// The 32-byte big-endian encoding of a scalar, zero-padded on the left.
pub fn fr_to_be_bytes(f: &Fr) -> (r: [u8; 32])
    ensures
        r@ == be_bytes(f@, 32),
{
    f.to_be_bytes()
}

} // verus!
