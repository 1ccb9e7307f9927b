//! An explicit, seedable sample source, so that rendering is reproducible.
//!
//! The underlying generator comes from the `rand` crate; everything the
//! renderer assumes of it is confined to the two trusted wrappers here.

use vstd::prelude::*;
use rand::Rng;
use rand::SeedableRng;
use crate::fixed::{SCALE, HALF_SCALE, tdiv, lemma_tdiv_exact, lemma_tdiv_weak};
use crate::position::{Position, is_unit, spec_len2, spec_len};

verus! {

/// The standard generator of the `rand` crate, declared so values of it can
/// be held and passed through verified code.
#[verifier::external_type_specification]
#[verifier::external_body]
pub struct ExStdRng(rand::rngs::StdRng);

/// Relies on rand's `StdRng::seed_from_u64` to build a generator
/// deterministically from a seed; nothing is assumed of the stream it
/// produces.
#[verifier::external_body]
fn rng_from_seed(seed: u64) -> rand::rngs::StdRng {
    rand::rngs::StdRng::seed_from_u64(seed)
}

/// Relies on rand's `Rng::gen_range` over an inclusive range: for a
/// nonempty range it returns a value within the bounds (and panics only on
/// an empty one, which the precondition excludes).
#[verifier::external_body]
fn rand_in_range(rng: &mut rand::rngs::StdRng, lo: i128, hi: i128) -> (r: i128)
    requires
        lo <= hi,
    ensures
        lo <= r <= hi,
{
    rng.gen_range(lo..=hi)
}

/// An owned, seedable sample source threaded through the render context.
pub struct Sampler {
    rng: rand::rngs::StdRng,
}

impl Sampler {
    /// A deterministic sampler for a seed.
    pub fn from_seed(seed: u64) -> Sampler {
        Sampler { rng: rng_from_seed(seed) }
    }

    /// A jitter offset drawn uniformly from `[-1/2, +1/2]`, in fixed-point
    /// units.
    pub fn jitter(&mut self) -> (r: i128)
        ensures
            -(HALF_SCALE as int) <= r <= HALF_SCALE as int,
    {
        rand_in_range(&mut self.rng, -HALF_SCALE, HALF_SCALE)
    }

    /// A unit vector drawn from the sphere surface: rejection sampling of
    /// cube-bounded points, keeping those whose length is close enough to
    /// normalize accurately. If every bounded attempt is rejected, an axis
    /// direction is returned so that a draw always succeeds.
    pub fn random_on_unit_sphere(&mut self) -> (r: Position)
        ensures
            is_unit(r),
    {
        let mut attempts: usize = 0;
        while attempts < 64
            invariant
                true,
            decreases 64 - attempts,
        {
            let x = rand_in_range(&mut self.rng, -SCALE, SCALE);
            let y = rand_in_range(&mut self.rng, -SCALE, SCALE);
            let z = rand_in_range(&mut self.rng, -SCALE, SCALE);
            let v = Position { x, y, z };
            let l2 = v.length_squared();
            if 250_000 <= l2 && l2 <= SCALE {
                let u = v.unit();
                proof {
                    lemma_tdiv_weak(v.x * (SCALE as int), spec_len(v));
                    lemma_tdiv_weak(v.y * (SCALE as int), spec_len(v));
                    lemma_tdiv_weak(v.z * (SCALE as int), spec_len(v));
                }
                if u.is_unit_len() {
                    return u;
                }
            }
            attempts = attempts + 1;
        }
        let fallback = Position { x: 0, y: 0, z: SCALE };
        proof {
            lemma_tdiv_exact(SCALE as int, SCALE as int);
            vstd::arithmetic::div_mod::lemma_div_of0(SCALE as int);
            assert(spec_len2(fallback) == SCALE as int);
        }
        fallback
    }
}

} // verus!
