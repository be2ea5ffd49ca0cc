//! Randomness for the tracer: a fast non-cryptographic generator held
//! by each worker, and samplers over it. Nothing is promised about the
//! drawn values beyond their ranges, so every consumer is verified for
//! every outcome.

use vstd::prelude::*;
use rand_xoshiro::rand_core::{Rng, SeedableRng};
use crate::fixed::{ONE, HALF};
use crate::vec3::{Vec3, dot_spec};

verus! {

#[verifier::external_type_specification]
#[verifier::external_body]
pub struct ExXoshiro256Plus(rand_xoshiro::Xoshiro256Plus);

/// A tracer-owned random number generator. Each worker holds its own;
/// state is never shared.
pub struct TracerRng {
    inner: rand_xoshiro::Xoshiro256Plus,
}

impl TracerRng {
    /// Relies on Xoshiro256Plus::seed_from_u64 to build a generator from
    /// a word of seed material.
    #[verifier::external_body]
    pub fn from_seed(seed: u64) -> (r: TracerRng) {
        TracerRng { inner: rand_xoshiro::Xoshiro256Plus::seed_from_u64(seed) }
    }

    /// Relies on Xoshiro256Plus::next_u64 through rand_core::Rng; the
    /// result is a fresh word, of which nothing further can be said.
    #[verifier::external_body]
    pub fn next_u64(&mut self) -> (r: u64) {
        self.inner.next_u64()
    }

    /// A fixed-point value in `[0, 1)`.
    pub fn next_unit(&mut self) -> (r: i64)
        ensures
            0 <= r < ONE,
    {
        let w: u64 = self.next_u64();
        (w % (ONE as u64)) as i64
    }

    /// A fixed-point value in `[lo, hi)`.
    pub fn gen_range(&mut self, lo: i64, hi: i64) -> (r: i64)
        requires
            lo < hi,
            hi - lo <= i64::MAX,
        ensures
            lo <= r < hi,
    {
        let w: u64 = self.next_u64();
        let span: u64 = (hi - lo) as u64;
        lo + (w % span) as i64
    }

    /// A vector drawn from the open unit ball by rejection; after a
    /// bounded number of tries a fixed interior point is returned, so
    /// the result always has squared length below one.
    pub fn rand_in_unit_sphere(&mut self) -> (v: Vec3)
        ensures
            dot_spec(v, v) < ONE,
            -ONE < v.x < ONE && -ONE < v.y < ONE && -ONE < v.z < ONE,
    {
        let mut tries: usize = 0;
        while tries < 64
            invariant
                tries <= 64,
            decreases 64 - tries,
        {
            let x: i64 = self.gen_range(-ONE + 1, ONE);
            let y: i64 = self.gen_range(-ONE + 1, ONE);
            let z: i64 = self.gen_range(-ONE + 1, ONE);
            let p = Vec3 { x, y, z };
            if p.square_length() < ONE {
                return p;
            }
            tries = tries + 1;
        }
        let p = Vec3 { x: HALF, y: 0, z: 0 };
        proof {
            crate::fixed::lemma_div_tz_abs((HALF as int) * (HALF as int), 65536);
        }
        assert(dot_spec(p, p) == crate::fixed::div_tz(32768int * 32768, 65536));
        p
    }

    /// A vector drawn from the open unit disk in the xy plane.
    pub fn rand_in_unit_disk(&mut self) -> (v: Vec3)
        ensures
            dot_spec(v, v) < ONE,
            -ONE < v.x < ONE && -ONE < v.y < ONE,
            v.z == 0,
    {
        let mut tries: usize = 0;
        while tries < 64
            invariant
                tries <= 64,
            decreases 64 - tries,
        {
            let x: i64 = self.gen_range(-ONE + 1, ONE);
            let y: i64 = self.gen_range(-ONE + 1, ONE);
            let p = Vec3 { x, y, z: 0 };
            if p.square_length() < ONE {
                return p;
            }
            tries = tries + 1;
        }
        let p = Vec3 { x: HALF, y: 0, z: 0 };
        proof {
            crate::fixed::lemma_div_tz_abs((HALF as int) * (HALF as int), 65536);
        }
        assert(dot_spec(p, p) == crate::fixed::div_tz(32768int * 32768, 65536));
        p
    }
}

} // verus!
