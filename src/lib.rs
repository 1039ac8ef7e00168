//! BN254 curve operations, a pairing check and a signing service whose
//! numeric conventions match the EVM precompiles bit for bit: canonical
//! 32-byte big-endian field encodings, the point at infinity written `(0, 0)`,
//! and `Fq2` pairs written imaginary part first at the boundary.
pub mod field;
pub mod g1;
pub mod g2;
pub mod hash;
pub mod pairing;
pub mod utils;
pub mod web;

pub use field::{Fq, Fr, ParseError};
pub use g1::{g1_add, g1_generator, g1_negate, g1_scalar_mul, CurveViolation, G1Point};
pub use g2::{g2_generator, g2_negate, Fq2, G2Point};
pub use hash::hash_g1_point;
pub use pairing::pairing_check;
pub use utils::fr_to_be_bytes;
