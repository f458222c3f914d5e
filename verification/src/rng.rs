//! The randomness boundary: a seedable generator from the `rand`
//! crate, wrapped so that every draw comes with a proved range, and
//! verified rejection samplers built on top of it.

use vstd::prelude::*;
use crate::fx::SC;
use crate::vec3::{Vec3, v_len2, v_unit, lemma_len2_nonneg};

verus! {

#[verifier::external_type_specification]
#[verifier::external_body]
pub struct ExStdRng(rand::rngs::StdRng);

/// The random source a render worker owns. Deterministic for a fixed
/// seed, so seeded renders are reproducible.
pub type Rng = rand::rngs::StdRng;

/// Relies on rand's `SeedableRng::seed_from_u64`: builds a generator
/// from a 64-bit seed. Nothing is assumed about the stream it yields.
#[verifier::external_body]
pub fn rng_from_seed(seed: u64) -> Rng {
    <rand::rngs::StdRng as rand::SeedableRng>::seed_from_u64(seed)
}

/// Relies on rand's `Rng::gen_range`: a draw from a nonempty range
/// `0..bound` lies in that range (and the call cannot panic on it).
#[verifier::external_body]
pub fn rng_below(rng: &mut Rng, bound: u32) -> (r: u32)
    requires
        bound > 0,
    ensures
        r < bound,
{
    rand::Rng::gen_range(rng, 0..bound)
}

/// A uniform fixed-point draw from `[0, 1)`.
pub fn random_fx_unit(rng: &mut Rng) -> (r: i64)
    ensures
        0 <= r < SC,
{
    rng_below(rng, 65536) as i64
}

/// A uniform fixed-point draw from `[-1, 1]`.
pub fn random_fx_sym(rng: &mut Rng) -> (r: i64)
    ensures
        -SC <= r <= SC,
{
    let v = rng_below(rng, 131073);
    (v as i64) - 65536
}

/// How many rejection-sampling attempts are made before the sampler
/// falls back to a fixed admissible value. A draw is accepted with
/// probability over one half, so the fallback is vanishingly rare.
pub const SAMPLE_TRIES: u32 = 64;

/// A random point strictly inside the unit sphere, by rejection
/// (falling back to the center if every attempt is rejected).
pub fn random_in_unit_sphere(rng: &mut Rng) -> (r: Vec3)
    ensures
        r.wf(),
        v_len2(r) < SC,
{
    let mut k: u32 = 0;
    while k < SAMPLE_TRIES
        decreases SAMPLE_TRIES - k,
    {
        let x = random_fx_sym(rng);
        let y = random_fx_sym(rng);
        let z = random_fx_sym(rng);
        let p = Vec3::new(x, y, z);
        if p.length_squared() < SC {
            return p;
        }
        k = k + 1;
    }
    let o = Vec3::new(0, 0, 0);
    proof {
        lemma_len2_nonneg(o);
        crate::fx::lemma_fmul_zero(0);
    }
    o
}

/// A random unit-length direction: a rejection-sampled sphere point,
/// normalized (the rare zero vector is rejected as well; a fixed axis
/// direction stands in if every attempt fails).
pub fn random_unit_vector(rng: &mut Rng) -> (r: Vec3)
    ensures
        r.wf(),
        exists|p: Vec3| p.wf() && v_len2(p) > 0 && r == v_unit(p),
{
    let mut k: u32 = 0;
    while k < SAMPLE_TRIES
        decreases SAMPLE_TRIES - k,
    {
        let p = random_in_unit_sphere(rng);
        if p.length_squared() > 0 {
            let u = p.unit();
            proof {
                assert(p.wf() && v_len2(p) > 0 && u == v_unit(p));
            }
            return u;
        }
        k = k + 1;
    }
    let a = Vec3::new(0, SC, 0);
    proof {
        crate::fx::lemma_fmul_zero(0);
        crate::fx::lemma_fmul_one(SC as int);
        assert(v_len2(a) > 0);
    }
    let u = a.unit();
    proof {
        assert(a.wf() && v_len2(a) > 0 && u == v_unit(a));
    }
    u
}

/// A random point strictly inside the unit disk in the x-y plane
/// (falling back to the center if every attempt is rejected).
pub fn random_in_unit_disk(rng: &mut Rng) -> (r: Vec3)
    ensures
        r.wf(),
        v_len2(r) < SC,
        r.z == 0,
{
    let mut k: u32 = 0;
    while k < SAMPLE_TRIES
        decreases SAMPLE_TRIES - k,
    {
        let x = random_fx_sym(rng);
        let y = random_fx_sym(rng);
        let p = Vec3::new(x, y, 0);
        if p.length_squared() < SC {
            return p;
        }
        k = k + 1;
    }
    let o = Vec3::new(0, 0, 0);
    proof {
        lemma_len2_nonneg(o);
        crate::fx::lemma_fmul_zero(0);
    }
    o
}

} // verus!
