//! The explicit random source. Every stochastic operation of the tracer
//! draws from a `Prng` passed in by the caller, so whole renders are
//! reproducible from a seed and every contract can state the exact result as
//! a function of the generator state.

use vstd::prelude::*;
use crate::fx::FX_ONE;
use crate::vec3::{Vec3, vec_in, dot_spec, unit_of};

verus! {

/// A splitmix-style generator: one 64-bit word of state.
#[derive(Clone, Copy, PartialEq, Eq, Structural, Debug)]
pub struct Prng {
    pub state: u64,
}

/// 64-bit wrapping sum.
pub open spec fn wadd(x: u64, y: u64) -> u64 {
    if x + y > u64::MAX {
        (x + y - 0x1_0000_0000_0000_0000) as u64
    } else {
        (x + y) as u64
    }
}

/// 64-bit wrapping product.
pub open spec fn wmul(x: u64, y: u64) -> u64 {
    ((x as nat * y as nat) % 0x1_0000_0000_0000_0000nat) as u64
}

/// State after one draw.
pub open spec fn prng_next_state(s: u64) -> u64 {
    wadd(s, 0x9E3779B97F4A7C15)
}

/// Output word mixed out of a state.
pub open spec fn prng_output(s: u64) -> u64 {
    let z1 = wmul(s ^ (s >> 30u64), 0xBF58476D1CE4E5B9);
    let z2 = wmul(z1 ^ (z1 >> 27u64), 0x94D049BB133111EB);
    z2 ^ (z2 >> 31u64)
}

/// The fraction in `[0, FX_ONE)` drawn from an output word.
pub open spec fn unit_from(x: u64) -> int {
    x as int % (FX_ONE as int)
}

/// The offset in `[-FX_ONE, FX_ONE)` drawn from an output word.
pub open spec fn sym_from(x: u64) -> int {
    x as int % (2 * FX_ONE as int) - FX_ONE as int
}

impl Prng {
    pub fn from_seed(seed: u64) -> (r: Prng)
        ensures r.state == seed,
    {
        Prng { state: seed }
    }

    /// Advances the state and mixes out one word.
    pub fn next_u64(&mut self) -> (r: u64)
        ensures
            final(self).state == prng_next_state(old(self).state),
            r == prng_output(final(self).state),
    {
        self.state = self.state.wrapping_add(0x9E3779B97F4A7C15);
        let s = self.state;
        let z1 = (s ^ (s >> 30u64)).wrapping_mul(0xBF58476D1CE4E5B9);
        let z2 = (z1 ^ (z1 >> 27u64)).wrapping_mul(0x94D049BB133111EB);
        z2 ^ (z2 >> 31u64)
    }

    /// A fixed-point fraction uniform over `[0, 1)`.
    pub fn next_unit(&mut self) -> (r: i64)
        ensures
            final(self).state == prng_next_state(old(self).state),
            r == unit_from(prng_output(final(self).state)),
            0 <= r < FX_ONE,
    {
        let x = self.next_u64();
        (x % 65536) as i64
    }

    /// A fixed-point offset uniform over `[-1, 1)`.
    pub fn next_sym(&mut self) -> (r: i64)
        ensures
            final(self).state == prng_next_state(old(self).state),
            r == sym_from(prng_output(final(self).state)),
            -FX_ONE <= r < FX_ONE,
    {
        let x = self.next_u64();
        (x % 131072) as i64 - 65536
    }
}

/// Sampling attempts made before the rejection loop falls back to a fixed
/// interior point.
pub const SAMPLE_FUEL: u64 = 16;

/// Exact result (vector and final state) of the bounded rejection sampler:
/// draw three symmetric offsets; keep them if they land inside the unit
/// sphere but not degenerately close to its center, else retry.
pub open spec fn sphere_sample_spec(s: u64, fuel: nat) -> (Vec3, u64)
    decreases fuel
{
    if fuel == 0 {
        (Vec3 { x: 32768, y: 0, z: 0 }, s)
    } else {
        let s1 = prng_next_state(s);
        let x = sym_from(prng_output(s1)) as i64;
        let s2 = prng_next_state(s1);
        let y = sym_from(prng_output(s2)) as i64;
        let s3 = prng_next_state(s2);
        let z = sym_from(prng_output(s3)) as i64;
        let v = Vec3 { x, y, z };
        if 1 <= dot_spec(v, v) < FX_ONE as int {
            (v, s3)
        } else {
            sphere_sample_spec(s3, (fuel - 1) as nat)
        }
    }
}

/// Bounded rejection sampling of a point inside the unit sphere.
fn sample_in_unit_sphere(rng: &mut Prng, fuel: u64) -> (v: Vec3)
    ensures
        ({
            let sv = sphere_sample_spec(old(rng).state, fuel as nat);
            v == sv.0 && final(rng).state == sv.1
        }),
        vec_in(v, FX_ONE as int),
        1 <= dot_spec(v, v) < FX_ONE as int,
    decreases fuel,
{
    if fuel == 0 {
        proof {
            crate::vec3::lemma_fx_square_nonneg(0);
            assert(dot_spec(Vec3 { x: 32768, y: 0, z: 0 }, Vec3 { x: 32768, y: 0, z: 0 })
                == 16384);
        }
        return Vec3 { x: 32768, y: 0, z: 0 };
    }
    let x = rng.next_sym();
    let y = rng.next_sym();
    let z = rng.next_sym();
    let v = Vec3 { x, y, z };
    let ls = v.length_squared();
    if 1 <= ls && ls < FX_ONE {
        v
    } else {
        sample_in_unit_sphere(rng, fuel - 1)
    }
}

impl Vec3 {
    /// A point inside the unit sphere, drawn from the generator.
    pub fn random_in_unit_sphere(rng: &mut Prng) -> (v: Vec3)
        ensures
            ({
                let sv = sphere_sample_spec(old(rng).state, SAMPLE_FUEL as nat);
                v == sv.0 && final(rng).state == sv.1
            }),
            vec_in(v, FX_ONE as int),
            1 <= dot_spec(v, v) < FX_ONE as int,
    {
        sample_in_unit_sphere(rng, SAMPLE_FUEL)
    }

    /// A unit-length direction, drawn from the generator: a unit-sphere
    /// sample rescaled to unit length.
    pub fn random_unit_vector(rng: &mut Prng) -> (v: Vec3)
        ensures
            ({
                let sv = sphere_sample_spec(old(rng).state, SAMPLE_FUEL as nat);
                v == unit_of(sv.0) && final(rng).state == sv.1
            }),
    {
        let s = Vec3::random_in_unit_sphere(rng);
        s.unit_vector()
    }

    /// A unit-sphere sample flipped into the hemisphere of `normal`.
    pub fn random_in_hemisphere(normal: &Vec3, rng: &mut Prng) -> (v: Vec3)
        requires
            vec_in(*normal, 0x8_0000_0000),
        ensures
            ({
                let sv = sphere_sample_spec(old(rng).state, SAMPLE_FUEL as nat);
                final(rng).state == sv.1
                    && v == (if crate::vec3::dot_wide_spec(sv.0, *normal) > 0 {
                        sv.0
                    } else {
                        Vec3 { x: -sv.0.x as i64, y: -sv.0.y as i64, z: -sv.0.z as i64 }
                    })
            }),
    {
        let s = Vec3::random_in_unit_sphere(rng);
        if s.dot_wide(normal) > 0 {
            s
        } else {
            s.neg()
        }
    }
}

} // verus!
