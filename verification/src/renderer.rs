//! The recursive radiance integrator: intersect, shade, recurse, terminate.
//! Colors are clamped to `[0, COLOR_MAX]` componentwise at every step, which
//! both rules out overflow and makes the truncation bound monotone: deepening
//! the recursion budget can only add light.

use vstd::prelude::*;
use crate::fx::{FX_ONE, T_INF, fx_mul, mul_fx, clamp_spec, clamp64};
use crate::vec3::{Vec3, Color, vec_in};
use crate::ray::{Ray, ray_wf};
use crate::material::{Material, emitted_spec, scatter_spec};
use crate::hit_record::{HitRecord, REC_POS_MAX, NRM_MAX};
use crate::hittable::{Hittable, hittable_wf, hittable_time_ok, hittable_hit_spec};
use crate::rng::Prng;

verus! {

/// Largest color component the integrator reports.
pub const COLOR_MAX: i64 = 0x80_0000_0000;

/// Shadow-acne epsilon: the lower ray-parameter bound of every scene query.
pub const T_EPS: i64 = 7;

/// A color clamped into `[0, COLOR_MAX]` componentwise.
pub open spec fn clamp_color(c: Color) -> Color {
    Vec3 {
        x: clamp_spec(c.x as int, 0, COLOR_MAX as int) as i64,
        y: clamp_spec(c.y as int, 0, COLOR_MAX as int) as i64,
        z: clamp_spec(c.z as int, 0, COLOR_MAX as int) as i64,
    }
}

/// One shaded component: emitted light plus the attenuated recursive
/// radiance, the attenuation clamped to `[0, 1]` and the result to the color
/// range.
pub open spec fn shade_comp(em: int, att: int, rc: int) -> int {
    clamp_spec(em + fx_mul(clamp_spec(att, 0, FX_ONE as int), rc), 0, COLOR_MAX as int)
}

/// Exact value of `ray_color`: black at an exhausted depth budget; the
/// background on a miss; on a hit, the emitted light plus, when the material
/// scatters and the scattered ray is usable, the attenuated radiance along
/// it.
pub open spec fn ray_color_spec(r: Ray, background: Color, world: Hittable, depth: int, s: u64)
    -> (Color, u64)
    decreases depth
{
    if depth <= 0 {
        (Vec3 { x: 0, y: 0, z: 0 }, s)
    } else {
        let h = hittable_hit_spec(world, r, T_EPS as int, T_INF as int, s);
        match h.0 {
            None => (clamp_color(background), h.1),
            Some(rec) => {
                let em = clamp_color(emitted_spec(rec.mat, rec.p));
                let sc = scatter_spec(rec.mat, r, rec, h.1);
                match sc.0 {
                    None => (em, sc.1),
                    Some(sr) => {
                        if !ray_wf(sr.1) {
                            (em, sc.1)
                        } else {
                            let rc = ray_color_spec(sr.1, background, world, depth - 1, sc.1);
                            (Vec3 {
                                x: shade_comp(em.x as int, sr.0.x as int, rc.0.x as int) as i64,
                                y: shade_comp(em.y as int, sr.0.y as int, rc.0.y as int) as i64,
                                z: shade_comp(em.z as int, sr.0.z as int, rc.0.z as int) as i64,
                            }, rc.1)
                        }
                    },
                }
            },
        }
    }
}

/// Radiance arriving along a ray: queries the world from the shadow-acne
/// epsilon outward, then adds the surface's emission and the attenuated
/// radiance of the scattered ray, until the depth budget is exhausted.
#[verifier::rlimit(100)]
pub fn ray_color(r: &Ray, background: &Color, world: &Hittable, depth: i32, rng: &mut Prng)
    -> (c: Color)
    requires
        hittable_wf(*world),
        hittable_time_ok(*world, r.time as int),
        ray_wf(*r),
    ensures
        ({
            let h = ray_color_spec(*r, *background, *world, depth as int, old(rng).state);
            c == h.0 && final(rng).state == h.1
        }),
        vec_in(c, COLOR_MAX as int),
        0 <= c.x && 0 <= c.y && 0 <= c.z,
    decreases depth,
{
    if depth <= 0 {
        return Vec3 { x: 0, y: 0, z: 0 };
    }
    let res = world.hit(r, T_EPS, T_INF, rng);
    let rec = match res {
        None => {
            return Vec3 {
                x: clamp64(background.x, 0, COLOR_MAX),
                y: clamp64(background.y, 0, COLOR_MAX),
                z: clamp64(background.z, 0, COLOR_MAX),
            };
        },
        Some(rec) => rec,
    };
    let em0 = rec.get_mat().emitted(rec.u(), rec.v(), rec.p());
    let em = Vec3 {
        x: clamp64(em0.x, 0, COLOR_MAX),
        y: clamp64(em0.y, 0, COLOR_MAX),
        z: clamp64(em0.z, 0, COLOR_MAX),
    };
    let sc = rec.get_mat().scatter(r, &rec, rng);
    match sc {
        None => em,
        Some((att, scat)) => {
            let usable = -0x2000_0000 <= scat.orig.x && scat.orig.x <= 0x2000_0000
                && -0x2000_0000 <= scat.orig.y && scat.orig.y <= 0x2000_0000
                && -0x2000_0000 <= scat.orig.z && scat.orig.z <= 0x2000_0000
                && -0x2000_0000 <= scat.dir.x && scat.dir.x <= 0x2000_0000
                && -0x2000_0000 <= scat.dir.y && scat.dir.y <= 0x2000_0000
                && -0x2000_0000 <= scat.dir.z && scat.dir.z <= 0x2000_0000
                && scat.direction().dot_wide(&scat.direction()) >= 1;
            if !usable {
                return em;
            }
            let rc = ray_color(&scat, background, world, depth - 1, rng);
            Vec3 {
                x: shade_comp_fx(em.x, att.x, rc.x),
                y: shade_comp_fx(em.y, att.y, rc.y),
                z: shade_comp_fx(em.z, att.z, rc.z),
            }
        },
    }
}

/// One shaded component, exactly `shade_comp`.
fn shade_comp_fx(em: i64, att: i64, rc: i64) -> (r: i64)
    requires
        0 <= em <= COLOR_MAX,
        0 <= rc <= COLOR_MAX,
    ensures
        r == shade_comp(em as int, att as int, rc as int),
        0 <= r <= COLOR_MAX,
{
    let a = clamp64(att, 0, FX_ONE);
    proof {
        crate::fx::lemma_fx_mul_nonneg_bounded(rc as int, a as int, COLOR_MAX as int);
    }
    let m = mul_fx(rc, a);
    proof {
        assert(fx_mul(rc as int, a as int) == fx_mul(a as int, rc as int)) by (nonlinear_arith);
    }
    clamp64(em + m, 0, COLOR_MAX)
}

/// Law: with an exhausted depth budget the integrator returns black for
/// every ray, every scene and every sampler state.
pub proof fn lemma_zero_depth_black(r: Ray, background: Color, world: Hittable, s: u64)
    ensures
        ray_color_spec(r, background, world, 0, s).0 == (Vec3 { x: 0, y: 0, z: 0 }),
{
}

/// Law: the integrator's radiance is componentwise nonnegative and within
/// the color range, at every depth.
pub proof fn lemma_radiance_in_range(
    r: Ray, background: Color, world: Hittable, depth: int, s: u64,
)
    ensures
        ({
            let c = ray_color_spec(r, background, world, depth, s).0;
            0 <= c.x <= COLOR_MAX && 0 <= c.y <= COLOR_MAX && 0 <= c.z <= COLOR_MAX
        }),
    decreases (if depth < 0 { 0int } else { depth }),
{
    if depth <= 0 {
    } else {
        let h = hittable_hit_spec(world, r, T_EPS as int, T_INF as int, s);
        match h.0 {
            None => {},
            Some(rec) => {
                let sc = scatter_spec(rec.mat, r, rec, h.1);
                match sc.0 {
                    None => {},
                    Some(sr) => {
                        if ray_wf(sr.1) {
                            lemma_radiance_in_range(sr.1, background, world, depth - 1, sc.1);
                        }
                    },
                }
            },
        }
    }
}

/// A shaded component grows monotonically with the recursive radiance.
proof fn lemma_shade_monotone(em: int, att: int, rc1: int, rc2: int)
    requires
        0 <= rc1 <= rc2,
    ensures
        shade_comp(em, att, rc1) <= shade_comp(em, att, rc2),
{
    let a = clamp_spec(att, 0, FX_ONE as int);
    assert(a * rc1 <= a * rc2) by (nonlinear_arith)
        requires 0 <= a, rc1 <= rc2;
    vstd::arithmetic::div_mod::lemma_div_is_ordered(a * rc1, a * rc2, FX_ONE as int);
}

/// Law: the truncation bound is monotone. For any ray, scene and sampler
/// state, raising the depth budget by one can only increase (or hold) the
/// returned radiance, componentwise; in particular going from a zero budget
/// (black) to one can only add light.
pub proof fn lemma_radiance_monotone_in_depth(
    r: Ray, background: Color, world: Hittable, depth: int, s: u64,
)
    requires
        0 <= depth,
    ensures
        ({
            let c1 = ray_color_spec(r, background, world, depth, s).0;
            let c2 = ray_color_spec(r, background, world, depth + 1, s).0;
            c1.x <= c2.x && c1.y <= c2.y && c1.z <= c2.z
        }),
    decreases depth,
{
    lemma_radiance_in_range(r, background, world, depth, s);
    lemma_radiance_in_range(r, background, world, depth + 1, s);
    if depth == 0 {
    } else {
        let h = hittable_hit_spec(world, r, T_EPS as int, T_INF as int, s);
        match h.0 {
            None => {},
            Some(rec) => {
                let sc = scatter_spec(rec.mat, r, rec, h.1);
                match sc.0 {
                    None => {},
                    Some(sr) => {
                        if ray_wf(sr.1) {
                            lemma_radiance_monotone_in_depth(sr.1, background, world,
                                depth - 1, sc.1);
                            lemma_radiance_in_range(sr.1, background, world, depth - 1, sc.1);
                            let em = clamp_color(emitted_spec(rec.mat, rec.p));
                            let rc1 = ray_color_spec(sr.1, background, world, depth - 1, sc.1);
                            let rc2 = ray_color_spec(sr.1, background, world, depth, sc.1);
                            lemma_shade_monotone(em.x as int, sr.0.x as int, rc1.0.x as int,
                                rc2.0.x as int);
                            lemma_shade_monotone(em.y as int, sr.0.y as int, rc1.0.y as int,
                                rc2.0.y as int);
                            lemma_shade_monotone(em.z as int, sr.0.z as int, rc1.0.z as int,
                                rc2.0.z as int);
                        }
                    },
                }
            },
        }
    }
}

} // verus!
