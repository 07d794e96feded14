//! Trusted boundary to the `rand` crate: a seedable generator for
//! reproducible runs, declared opaque, and a bounded draw. The simulation
//! logic takes every draw as a plain argument and is verified for all values
//! the contract admits.

use vstd::prelude::*;

verus! {

/// rand's standard generator, opaque to the verifier.
#[verifier::external_type_specification]
#[verifier::external_body]
pub struct ExStdRng(rand::rngs::StdRng);

/// Relies on rand::SeedableRng::seed_from_u64 for rand::rngs::StdRng: builds
/// a generator from a 64-bit seed. Nothing is assumed about the stream it
/// produces.
#[verifier::external_body]
pub fn seed_rng(seed: u64) -> rand::rngs::StdRng {
    <rand::rngs::StdRng as rand::SeedableRng>::seed_from_u64(seed)
}

/// Relies on rand::Rng::gen_range over a half-open i64 range: returns a
/// value in `[lo, hi)` and panics only on an empty range, which the
/// precondition rules out. Nothing else is assumed of the draw.
#[verifier::external_body]
pub fn draw_range(rng: &mut rand::rngs::StdRng, lo: i64, hi: i64) -> (d: i64)
    requires
        lo < hi,
    ensures
        lo <= d < hi,
{
    rand::Rng::gen_range(rng, lo..hi)
}

/// A position drawn uniformly from an axis-aligned rectangle, for a
/// randomized interceptor start.
pub fn random_position_in(
    rng: &mut rand::rngs::StdRng,
    x_lo: i64,
    x_hi: i64,
    y_lo: i64,
    y_hi: i64,
) -> (pos: (i64, i64))
    requires
        x_lo < x_hi,
        y_lo < y_hi,
    ensures
        x_lo <= pos.0 < x_hi,
        y_lo <= pos.1 < y_hi,
{
    let x = draw_range(rng, x_lo, x_hi);
    let y = draw_range(rng, y_lo, y_hi);
    (x, y)
}

} // verus!
