//! Randomness for the sampling routines.
//!
//! The generator is caller-supplied, explicit state (no hidden process-wide
//! state): every sampling routine takes `&mut fastrand::Rng`.  Nothing is
//! assumed of a drawn value beyond its type; verified code narrows it to the
//! range it needs.

use crate::fixed::{Fx, SCALE};
use vstd::prelude::*;

verus! {

/// The caller-supplied pseudorandom generator (fastrand's WyRand state),
/// opaque to the verified code.
#[verifier::external_type_specification]
#[verifier::external_body]
pub struct ExRng(fastrand::Rng);

/// Relies on fastrand::Rng::u32 over the full (nonempty) range: returns a
/// 32-bit value; nothing is assumed about which.
#[verifier::external_body]
fn rng_u32(rng: &mut fastrand::Rng) -> u32 {
    rng.u32(..)
}

/// A fixed-point sample in `[0, 1)`: the low 16 bits of one draw.
pub fn random_unit(rng: &mut fastrand::Rng) -> (r: Fx)
    ensures
        0 <= r@ < SCALE,
{
    let bits = rng_u32(rng);
    let raw = bits % 65536;
    Fx::from_raw(raw as i64)
}

} // verus!
