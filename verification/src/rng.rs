//! The uniform random source the scattering models consume.

use vstd::prelude::*;

verus! {

/// A uniform random scalar in `[0, 1)`: a fixed-point value below the
/// scale.
///
/// Relies on `fastrand::i64`, which generates a random `i64` in the given
/// range (and panics only on an empty range; `0..65536` is not empty).
#[verifier::external_body]
pub fn random_unit_fraction() -> (r: i64)
    ensures
        0 <= r < 65536,
{
    fastrand::i64(0..65536)
}

} // verus!
