//! The closed polymorphic contract over everything a ray can strike:
//! primitives, the box composite, geometric decorators, the volumetric
//! medium and the flat list aggregate. Dispatch is by pattern match; every
//! variant's `hit` is pinned down by a spec function that threads the
//! sampler state through, so the stochastic variant (the medium) is an exact
//! function of the generator state.

use vstd::prelude::*;
use crate::fx::{FX_ONE, T_INF, MUL_MAX, fx_mul, fx_div, neg_ln_fx_spec, neg_ln_fx, div_fx,
    div_floor, mul_fx, lemma_fx_div_nonneg_le, clamp64};
use crate::vec3::{Vec3, Point3, vec_in, dot_spec, dot_wide_spec, lemma_dot_spec_abs,
    lemma_mul_abs};
use crate::ray::{Ray, ray_wf, ray_at_wide_spec};
use crate::fx::clamp_spec;
use crate::aabb::{Aabb, aabb_wf, surrounding_spec, min_i64, max_i64};
use crate::material::Material;
use crate::hit_record::{HitRecord, hit_record_spec, rec_in_range, REC_POS_MAX, NRM_MAX};
use crate::sphere::{Sphere, SCENE_MAX, TIME_MAX, sphere_wf, sphere_hit_spec, sphere_bbox_spec};
use crate::rect::{XyRect, XzRect, YzRect, xy_rect_wf, xz_rect_wf, yz_rect_wf,
    xy_rect_hit_spec, xz_rect_hit_spec, yz_rect_hit_spec,
    xy_rect_bbox_spec, xz_rect_bbox_spec, yz_rect_bbox_spec};
use crate::rng::{Prng, prng_next_state, prng_output, unit_from};
use crate::texture::Texture;
use crate::material::Isotropic;
use crate::bvh::{BVH, bvh_wf, bvh_hit_spec, bvh_time_ok, bvh_span_ok};

verus! {

/// The six faces of an axis-aligned box.
#[derive(Clone, Copy, Debug)]
pub struct CubeSides {
    pub front: XyRect,
    pub back: XyRect,
    pub top: XzRect,
    pub bottom: XzRect,
    pub right: YzRect,
    pub left: YzRect,
}

/// An axis-aligned box built from six rectangles.
#[derive(Clone, Copy, Debug)]
pub struct Cube {
    pub cube_min: Point3,
    pub cube_max: Point3,
    pub sides: CubeSides,
}

/// Moves a child into the ray's space by offsetting the ray, and offsets the
/// returned hit point back.
pub struct Translate {
    pub ptr: Box<Hittable>,
    pub offset: Vec3,
}

/// Rotates rays into the child's local space about the y axis, and rotates
/// hit points and normals back; the world-space box is fixed at
/// construction.
pub struct RotateY {
    pub ptr: Box<Hittable>,
    pub sin_theta: i64,
    pub cos_theta: i64,
    pub bbox: Option<Aabb>,
}

/// Homogeneous participating medium inside a boundary: a ray crossing the
/// boundary scatters after an exponentially sampled free path, or passes
/// through.
pub struct ConstantMedium {
    pub boundary: Box<Hittable>,
    pub phase_function: Material,
    pub density: i64,
}

/// Everything a ray can strike.
pub enum Hittable {
    Sphere(Sphere),
    XyRect(XyRect),
    XzRect(XzRect),
    YzRect(YzRect),
    Cube(Cube),
    Translate(Translate),
    RotateY(RotateY),
    ConstantMedium(ConstantMedium),
    Bvh(Box<BVH>),
}

/// Unordered aggregate scanned linearly for the closest hit.
pub struct HittableList {
    pub list: Vec<Hittable>,
}

/// The cube's six faces agree with its corner points.
pub open spec fn cube_wf(c: Cube) -> bool {
    vec_in(c.cube_min, SCENE_MAX as int)
        && vec_in(c.cube_max, SCENE_MAX as int)
        && c.cube_min.x < c.cube_max.x
        && c.cube_min.y < c.cube_max.y
        && c.cube_min.z < c.cube_max.z
        && xy_rect_wf(c.sides.front) && xy_rect_wf(c.sides.back)
        && xz_rect_wf(c.sides.top) && xz_rect_wf(c.sides.bottom)
        && yz_rect_wf(c.sides.right) && yz_rect_wf(c.sides.left)
}

/// Structural well-formedness of an object tree: bounded geometry
/// everywhere.
pub open spec fn hittable_wf(obj: Hittable) -> bool
    decreases obj
{
    match obj {
        Hittable::Sphere(s) => sphere_wf(s),
        Hittable::XyRect(rect) => xy_rect_wf(rect),
        Hittable::XzRect(rect) => xz_rect_wf(rect),
        Hittable::YzRect(rect) => yz_rect_wf(rect),
        Hittable::Cube(c) => cube_wf(c),
        Hittable::Translate(t) => vec_in(t.offset, SCENE_MAX as int) && hittable_wf(*t.ptr),
        Hittable::RotateY(ry) => -FX_ONE <= ry.sin_theta <= FX_ONE
            && -FX_ONE <= ry.cos_theta <= FX_ONE
            && (match ry.bbox {
                Some(b) => aabb_wf(b)
                    && vec_in(b.minimum, 0x4000_0000)
                    && vec_in(b.maximum, 0x4000_0000),
                None => true,
            })
            && hittable_wf(*ry.ptr),
        Hittable::ConstantMedium(m) => 1 <= m.density <= MUL_MAX
            && hittable_wf(*m.boundary),
        Hittable::Bvh(b) => bvh_wf(*b),
    }
}

/// The ray's time lies within every moving sphere's keyframe interval.
pub open spec fn hittable_time_ok(obj: Hittable, time: int) -> bool
    decreases obj
{
    match obj {
        Hittable::Sphere(s) => s.is_static || (s.time0 <= time && time <= s.time1),
        Hittable::XyRect(_) => true,
        Hittable::XzRect(_) => true,
        Hittable::YzRect(_) => true,
        Hittable::Cube(_) => true,
        Hittable::Translate(t) => hittable_time_ok(*t.ptr, time),
        Hittable::RotateY(ry) => hittable_time_ok(*ry.ptr, time),
        Hittable::ConstantMedium(m) => hittable_time_ok(*m.boundary, time),
        Hittable::Bvh(b) => bvh_time_ok(*b, time),
    }
}

/// The query time span lies within every moving sphere's keyframe interval.
pub open spec fn hittable_span_ok(obj: Hittable, t0: int, t1: int) -> bool
    decreases obj
{
    match obj {
        Hittable::Sphere(s) => s.is_static || (s.time0 <= t0 && t0 <= t1 && t1 <= s.time1),
        Hittable::XyRect(_) => true,
        Hittable::XzRect(_) => true,
        Hittable::YzRect(_) => true,
        Hittable::Cube(_) => true,
        Hittable::Translate(t) => hittable_span_ok(*t.ptr, t0, t1),
        Hittable::RotateY(ry) => hittable_span_ok(*ry.ptr, t0, t1),
        Hittable::ConstantMedium(m) => hittable_span_ok(*m.boundary, t0, t1),
        Hittable::Bvh(b) => bvh_span_ok(*b, t0, t1),
    }
}

/// The shrunk upper bound after one closest-hit fold step.
pub open spec fn step_max(h: Option<HitRecord>, cur: int) -> int {
    match h {
        Some(rec) => rec.t as int,
        None => cur,
    }
}

/// The retained record after one fold step (a confirmed hit, found under the
/// shrunk bound, always replaces the previous best).
pub open spec fn step_best(prev: Option<HitRecord>, h: Option<HitRecord>) -> Option<HitRecord> {
    match h {
        Some(rec) => Some(rec),
        None => prev,
    }
}

/// Closest-of-six fold over the cube's faces, shrinking the upper bound to
/// each confirmed hit, exactly as the list aggregate would.
pub open spec fn cube_hit_spec(c: Cube, r: Ray, t0: int, t1: int) -> Option<HitRecord> {
    let h1 = xy_rect_hit_spec(c.sides.front, r, t0, t1);
    let m1 = step_max(h1, t1);
    let h2 = xy_rect_hit_spec(c.sides.back, r, t0, m1);
    let m2 = step_max(h2, m1);
    let b2 = step_best(h1, h2);
    let h3 = xz_rect_hit_spec(c.sides.top, r, t0, m2);
    let m3 = step_max(h3, m2);
    let b3 = step_best(b2, h3);
    let h4 = xz_rect_hit_spec(c.sides.bottom, r, t0, m3);
    let m4 = step_max(h4, m3);
    let b4 = step_best(b3, h4);
    let h5 = yz_rect_hit_spec(c.sides.right, r, t0, m4);
    let m5 = step_max(h5, m4);
    let b5 = step_best(b4, h5);
    let h6 = yz_rect_hit_spec(c.sides.left, r, t0, m5);
    step_best(b5, h6)
}

/// Exact value of `Translate::hit`'s ray motion: the origin shifted into the
/// child's space (clamped to the kernel's coordinate range).
pub open spec fn translate_ray(r: Ray, offset: Vec3) -> Ray {
    Ray {
        orig: Vec3 {
            x: clamp_spec(r.orig.x - offset.x, -0x2000_0000, 0x2000_0000) as i64,
            y: clamp_spec(r.orig.y - offset.y, -0x2000_0000, 0x2000_0000) as i64,
            z: clamp_spec(r.orig.z - offset.z, -0x2000_0000, 0x2000_0000) as i64,
        },
        dir: r.dir,
        time: r.time,
    }
}

/// A translated record: the hit point moved back by the offset (clamped to
/// the record range), re-oriented against the moved ray.
pub open spec fn translate_record(rec: HitRecord, moved: Ray, offset: Vec3) -> HitRecord {
    let p = Vec3 {
        x: clamp_spec(rec.p.x + offset.x, -REC_POS_MAX as int, REC_POS_MAX as int) as i64,
        y: clamp_spec(rec.p.y + offset.y, -REC_POS_MAX as int, REC_POS_MAX as int) as i64,
        z: clamp_spec(rec.p.z + offset.z, -REC_POS_MAX as int, REC_POS_MAX as int) as i64,
    };
    hit_record_spec(p, rec.t as int, rec.u as int, rec.v as int, moved, rec.normal, rec.mat)
}

/// Multiply-accumulate of two fixed-point products, clamped to
/// `[-bound, bound]`; the rotation decorator's coordinate arithmetic.
pub open spec fn mac2_spec(c1: int, a: int, c2: int, b: int, bound: int) -> int {
    clamp_spec(fx_mul(c1, a) + fx_mul(c2, b), -bound, bound)
}

/// Rotation about y by the inverse angle (applied to rays going into the
/// child's local space).
pub open spec fn rot_y_inv(v: Vec3, cos_t: int, sin_t: int, bound: int) -> Vec3 {
    Vec3 {
        x: mac2_spec(cos_t, v.x as int, -sin_t, v.z as int, bound) as i64,
        y: v.y,
        z: mac2_spec(sin_t, v.x as int, cos_t, v.z as int, bound) as i64,
    }
}

/// Rotation about y by the forward angle (applied to hit points and normals
/// coming back to world space).
pub open spec fn rot_y_fwd(v: Vec3, cos_t: int, sin_t: int, bound: int) -> Vec3 {
    Vec3 {
        x: mac2_spec(cos_t, v.x as int, sin_t, v.z as int, bound) as i64,
        y: v.y,
        z: mac2_spec(-sin_t, v.x as int, cos_t, v.z as int, bound) as i64,
    }
}

/// The smaller of two values.
pub open spec fn min2(a: int, b: int) -> int {
    if a <= b { a } else { b }
}

/// The larger of two values.
pub open spec fn max2(a: int, b: int) -> int {
    if a >= b { a } else { b }
}

/// The world-space box of a y-rotated box: the componentwise extremes of its
/// eight corners rotated forward about y. Only four (x, z) corner pairs are
/// distinct; y passes through unchanged.
pub open spec fn rotate_bbox_spec(b: Aabb, cos_t: int, sin_t: int) -> Aabb {
    let rx00 = mac2_spec(cos_t, b.minimum.x as int, sin_t, b.minimum.z as int, 0x4000_0000);
    let rx01 = mac2_spec(cos_t, b.minimum.x as int, sin_t, b.maximum.z as int, 0x4000_0000);
    let rx10 = mac2_spec(cos_t, b.maximum.x as int, sin_t, b.minimum.z as int, 0x4000_0000);
    let rx11 = mac2_spec(cos_t, b.maximum.x as int, sin_t, b.maximum.z as int, 0x4000_0000);
    let rz00 = mac2_spec(-sin_t, b.minimum.x as int, cos_t, b.minimum.z as int, 0x4000_0000);
    let rz01 = mac2_spec(-sin_t, b.minimum.x as int, cos_t, b.maximum.z as int, 0x4000_0000);
    let rz10 = mac2_spec(-sin_t, b.maximum.x as int, cos_t, b.minimum.z as int, 0x4000_0000);
    let rz11 = mac2_spec(-sin_t, b.maximum.x as int, cos_t, b.maximum.z as int, 0x4000_0000);
    Aabb {
        minimum: Vec3 {
            x: min2(min2(rx00, rx01), min2(rx10, rx11)) as i64,
            y: min2(b.minimum.y as int, b.maximum.y as int) as i64,
            z: min2(min2(rz00, rz01), min2(rz10, rz11)) as i64,
        },
        maximum: Vec3 {
            x: max2(max2(rx00, rx01), max2(rx10, rx11)) as i64,
            y: max2(b.minimum.y as int, b.maximum.y as int) as i64,
            z: max2(max2(rz00, rz01), max2(rz10, rz11)) as i64,
        },
    }
}

/// Exact hit of any object, threading the sampler state: the result and the
/// state left behind.
pub open spec fn hittable_hit_spec(obj: Hittable, r: Ray, t0: int, t1: int, s: u64)
    -> (Option<HitRecord>, u64)
    decreases obj
{
    match obj {
        Hittable::Sphere(sp) => (sphere_hit_spec(sp, r, t0, t1), s),
        Hittable::XyRect(rect) => (xy_rect_hit_spec(rect, r, t0, t1), s),
        Hittable::XzRect(rect) => (xz_rect_hit_spec(rect, r, t0, t1), s),
        Hittable::YzRect(rect) => (yz_rect_hit_spec(rect, r, t0, t1), s),
        Hittable::Cube(c) => (cube_hit_spec(c, r, t0, t1), s),
        Hittable::Translate(tr) => {
            let moved = translate_ray(r, tr.offset);
            let h = hittable_hit_spec(*tr.ptr, moved, t0, t1, s);
            match h.0 {
                None => (None, h.1),
                Some(rec) => (Some(translate_record(rec, moved, tr.offset)), h.1),
            }
        },
        Hittable::RotateY(ry) => {
            let local = Ray {
                orig: rot_y_inv(r.orig, ry.cos_theta as int, ry.sin_theta as int, 0x2000_0000),
                dir: rot_y_inv(r.dir, ry.cos_theta as int, ry.sin_theta as int, 0x2000_0000),
                time: r.time,
            };
            if dot_wide_spec(local.dir, local.dir) < 1 {
                (None, s)
            } else {
                let h = hittable_hit_spec(*ry.ptr, local, t0, t1, s);
                match h.0 {
                    None => (None, h.1),
                    Some(rec) => {
                        let p = rot_y_fwd(rec.p, ry.cos_theta as int, ry.sin_theta as int,
                            REC_POS_MAX as int);
                        let n = rot_y_fwd(rec.normal, ry.cos_theta as int, ry.sin_theta as int,
                            NRM_MAX as int);
                        (Some(HitRecord {
                            p,
                            normal: n,
                            mat: rec.mat,
                            t: rec.t,
                            u: rec.u,
                            v: rec.v,
                            front_face: rec.front_face,
                        }), h.1)
                    },
                }
            }
        },
        Hittable::ConstantMedium(m) => medium_hit_spec(m, r, t0, t1, s),
        Hittable::Bvh(b) => bvh_hit_spec(*b, r, t0, t1, s),
    }
}

/// Exact hit of the participating medium: find the boundary entry and exit,
/// clip them to the query interval, sample a free path from one draw, and
/// scatter inside the boundary or pass through.
pub open spec fn medium_hit_spec(m: ConstantMedium, r: Ray, t0: int, t1: int, s: u64)
    -> (Option<HitRecord>, u64)
    decreases m
{
    let h1 = hittable_hit_spec(*m.boundary, r, -T_INF as int, T_INF as int, s);
    match h1.0 {
        None => (None, h1.1),
        Some(rec1) => {
            let again = if rec1.t + 7 > T_INF { T_INF as int } else { rec1.t + 7 };
            let h2 = hittable_hit_spec(*m.boundary, r, again, T_INF as int, h1.1);
            match h2.0 {
                None => (None, h2.1),
                Some(rec2) => medium_scatter_spec(m, r, t0, t1, rec1.t as int, rec2.t as int,
                    h2.1),
            }
        },
    }
}

/// The medium's scattering decision once the boundary crossings are known:
/// clip the in-volume span to the query interval, draw one uniform sample,
/// turn it into an exponential free path, and scatter at that distance if it
/// falls inside the span.
pub open spec fn medium_scatter_spec(
    m: ConstantMedium, r: Ray, t0: int, t1: int, te: int, tx: int, s: u64,
) -> (Option<HitRecord>, u64) {
    let ta = if te < t0 { t0 } else { te };
    let tb = if tx > t1 { t1 } else { tx };
    if ta >= tb {
        (None, s)
    } else {
        let ta2 = if ta < 0 { 0 } else { ta };
        let s2 = prng_next_state(s);
        let u = unit_from(prng_output(s2)) + 1;
        let ray_len = crate::vec3::len_spec(r.dir);
        if ray_len < 1 || ta2 >= tb {
            (None, s2)
        } else {
            let span = clamp_spec(tb - ta2, 0, MUL_MAX as int);
            let dist_inside = fx_mul(span, ray_len);
            let hit_dist = fx_div(neg_ln_fx_spec(u), m.density as int);
            if hit_dist > dist_inside {
                (None, s2)
            } else {
                let t = ta2 + fx_div(hit_dist, ray_len);
                let tc = if t > tb { tb } else { t };
                let p = ray_at_wide_spec(r, tc);
                (Some(hit_record_spec(p, tc, 0, 0, r,
                    Vec3 { x: FX_ONE, y: 0, z: 0 }, m.phase_function)), s2)
            }
        }
    }
}

/// Bounding box of any object over a query time span; absent only when a
/// rotation was built over a boxless child.
pub open spec fn hittable_bbox_spec(obj: Hittable, t0: int, t1: int) -> Option<Aabb>
    decreases obj
{
    match obj {
        Hittable::Sphere(s) => Some(sphere_bbox_spec(s, t0, t1)),
        Hittable::XyRect(rect) => Some(xy_rect_bbox_spec(rect)),
        Hittable::XzRect(rect) => Some(xz_rect_bbox_spec(rect)),
        Hittable::YzRect(rect) => Some(yz_rect_bbox_spec(rect)),
        Hittable::Cube(c) => Some(Aabb { minimum: c.cube_min, maximum: c.cube_max }),
        Hittable::Translate(tr) => {
            match hittable_bbox_spec(*tr.ptr, t0, t1) {
                None => None,
                Some(b) => Some(Aabb {
                    minimum: Vec3 {
                        x: clamp_spec(b.minimum.x + tr.offset.x, -0x4000_0000, 0x4000_0000) as i64,
                        y: clamp_spec(b.minimum.y + tr.offset.y, -0x4000_0000, 0x4000_0000) as i64,
                        z: clamp_spec(b.minimum.z + tr.offset.z, -0x4000_0000, 0x4000_0000) as i64,
                    },
                    maximum: Vec3 {
                        x: clamp_spec(b.maximum.x + tr.offset.x, -0x4000_0000, 0x4000_0000) as i64,
                        y: clamp_spec(b.maximum.y + tr.offset.y, -0x4000_0000, 0x4000_0000) as i64,
                        z: clamp_spec(b.maximum.z + tr.offset.z, -0x4000_0000, 0x4000_0000) as i64,
                    },
                }),
            }
        },
        Hittable::RotateY(ry) => ry.bbox,
        Hittable::ConstantMedium(m) => hittable_bbox_spec(*m.boundary, t0, t1),
        Hittable::Bvh(b) => Some(b.bbox),
    }
}

/// A box both well-formed and within the slab test's coordinate range.
pub open spec fn bbox_ok(res: Option<Aabb>) -> bool {
    match res {
        Some(b) => aabb_wf(b)
            && vec_in(b.minimum, 0x4000_0000)
            && vec_in(b.maximum, 0x4000_0000),
        None => true,
    }
}

/// Exact multiply-accumulate `c1 * a + c2 * b` (fixed point), clamped.
fn mac2(c1: i64, a: i64, c2: i64, b: i64, bound: i64) -> (r: i64)
    requires
        -131072 <= c1 <= 131072,
        -131072 <= c2 <= 131072,
        -0x200_0000_0000 <= a <= 0x200_0000_0000,
        -0x200_0000_0000 <= b <= 0x200_0000_0000,
        0 < bound <= 0x200_0000_0000,
    ensures
        r == mac2_spec(c1 as int, a as int, c2 as int, b as int, bound as int),
        -bound <= r <= bound,
{
    proof {
        lemma_mul_abs(c1 as int, a as int, 131072, 0x200_0000_0000);
        lemma_mul_abs(c2 as int, b as int, 131072, 0x200_0000_0000);
    }
    let p1: i128 = (c1 as i128) * (a as i128);
    let p2: i128 = (c2 as i128) * (b as i128);
    let q1 = div_floor(p1, FX_ONE as i128);
    let q2 = div_floor(p2, FX_ONE as i128);
    proof {
        assert(-0x8_0000_0000_0000 <= q1 <= 0x8_0000_0000_0000) by (nonlinear_arith)
            requires
                (FX_ONE as int) * q1 <= p1 < (FX_ONE as int) * (q1 + 1),
                -0x8_0000_0000_0000_0000 <= p1 <= 0x8_0000_0000_0000_0000,
                FX_ONE == 65536;
        assert(-0x8_0000_0000_0000 <= q2 <= 0x8_0000_0000_0000) by (nonlinear_arith)
            requires
                (FX_ONE as int) * q2 <= p2 < (FX_ONE as int) * (q2 + 1),
                -0x8_0000_0000_0000_0000 <= p2 <= 0x8_0000_0000_0000_0000,
                FX_ONE == 65536;
    }
    let v: i128 = q1 + q2;
    if v < -(bound as i128) {
        -bound
    } else if v > bound as i128 {
        bound
    } else {
        v as i64
    }
}

impl Cube {
    /// Builds the six faces spanning the two corner points.
    pub fn new(p0: Point3, p1: Point3, mat: Material) -> (c: Cube)
        requires
            vec_in(p0, SCENE_MAX as int),
            vec_in(p1, SCENE_MAX as int),
            p0.x < p1.x,
            p0.y < p1.y,
            p0.z < p1.z,
        ensures
            c.cube_min == p0,
            c.cube_max == p1,
            cube_wf(c),
            c.sides.front == (XyRect { mp: mat, xs: (p0.x, p1.x), ys: (p0.y, p1.y), k: p1.z }),
            c.sides.back == (XyRect { mp: mat, xs: (p0.x, p1.x), ys: (p0.y, p1.y), k: p0.z }),
            c.sides.top == (XzRect { mp: mat, xs: (p0.x, p1.x), zs: (p0.z, p1.z), k: p1.y }),
            c.sides.bottom == (XzRect { mp: mat, xs: (p0.x, p1.x), zs: (p0.z, p1.z), k: p0.y }),
            c.sides.right == (YzRect { mp: mat, ys: (p0.y, p1.y), zs: (p0.z, p1.z), k: p1.x }),
            c.sides.left == (YzRect { mp: mat, ys: (p0.y, p1.y), zs: (p0.z, p1.z), k: p0.x }),
    {
        let sides = CubeSides {
            front: XyRect::new((p0.x, p1.x), (p0.y, p1.y), p1.z, mat),
            back: XyRect::new((p0.x, p1.x), (p0.y, p1.y), p0.z, mat),
            top: XzRect::new((p0.x, p1.x), (p0.z, p1.z), p1.y, mat),
            bottom: XzRect::new((p0.x, p1.x), (p0.z, p1.z), p0.y, mat),
            right: YzRect::new((p0.y, p1.y), (p0.z, p1.z), p1.x, mat),
            left: YzRect::new((p0.y, p1.y), (p0.z, p1.z), p0.x, mat),
        };
        Cube { cube_min: p0, cube_max: p1, sides }
    }

    /// Closest intersection with any of the six faces.
    pub fn hit(&self, r: &Ray, t_min: i64, t_max: i64) -> (res: Option<HitRecord>)
        requires
            cube_wf(*self),
            ray_wf(*r),
            -T_INF <= t_min <= T_INF,
            -T_INF <= t_max <= T_INF,
        ensures
            res == cube_hit_spec(*self, *r, t_min as int, t_max as int),
            rec_in_range(res, t_min as int, t_max as int),
    {
        let mut best: Option<HitRecord> = None;
        let mut cur: i64 = t_max;
        let h1 = self.sides.front.hit(r, t_min, cur);
        if let Some(rec) = h1 {
            cur = rec.t;
            best = Some(rec);
        }
        let h2 = self.sides.back.hit(r, t_min, cur);
        if let Some(rec) = h2 {
            cur = rec.t;
            best = Some(rec);
        }
        let h3 = self.sides.top.hit(r, t_min, cur);
        if let Some(rec) = h3 {
            cur = rec.t;
            best = Some(rec);
        }
        let h4 = self.sides.bottom.hit(r, t_min, cur);
        if let Some(rec) = h4 {
            cur = rec.t;
            best = Some(rec);
        }
        let h5 = self.sides.right.hit(r, t_min, cur);
        if let Some(rec) = h5 {
            cur = rec.t;
            best = Some(rec);
        }
        let h6 = self.sides.left.hit(r, t_min, cur);
        if let Some(rec) = h6 {
            best = Some(rec);
        }
        best
    }

    /// The box between the two corner points.
    pub fn bounding_box(&self, time0: i64, time1: i64) -> (res: Option<Aabb>)
        requires
            cube_wf(*self),
        ensures
            res == Some(Aabb { minimum: self.cube_min, maximum: self.cube_max }),
            bbox_ok(res),
    {
        Some(Aabb::new(self.cube_min, self.cube_max))
    }
}

impl Translate {
    pub fn new(ptr: Hittable, offset: Vec3) -> (t: Translate)
        requires
            vec_in(offset, SCENE_MAX as int),
        ensures
            *t.ptr == ptr,
            t.offset == offset,
    {
        Translate { ptr: Box::new(ptr), offset }
    }
}

impl RotateY {
    /// Wraps a child with a y-axis rotation given by its sine and cosine (in
    /// fixed point). The world-space box is computed here once and never
    /// recomputed: the child's box over `[time0, time1]` has its eight
    /// corners rotated forward and their componentwise extremes taken; it is
    /// absent exactly when the child has no box.
    pub fn new(p: Hittable, sin_theta: i64, cos_theta: i64, time0: i64, time1: i64)
        -> (ry: RotateY)
        requires
            -FX_ONE <= sin_theta <= FX_ONE,
            -FX_ONE <= cos_theta <= FX_ONE,
            hittable_wf(p),
            hittable_span_ok(p, time0 as int, time1 as int),
            -TIME_MAX <= time0 <= time1 <= TIME_MAX,
        ensures
            *ry.ptr == p,
            ry.sin_theta == sin_theta,
            ry.cos_theta == cos_theta,
            ry.bbox == (match hittable_bbox_spec(p, time0 as int, time1 as int) {
                None => None::<Aabb>,
                Some(cb) => Some(rotate_bbox_spec(cb, cos_theta as int, sin_theta as int)),
            }),
            hittable_wf(Hittable::RotateY(ry)),
    {
        let child_box = p.bounding_box(time0, time1);
        let bbox = match child_box {
            None => None,
            Some(b) => {
                let rx00 = mac2(cos_theta, b.minimum.x, sin_theta, b.minimum.z, 0x4000_0000);
                let rx01 = mac2(cos_theta, b.minimum.x, sin_theta, b.maximum.z, 0x4000_0000);
                let rx10 = mac2(cos_theta, b.maximum.x, sin_theta, b.minimum.z, 0x4000_0000);
                let rx11 = mac2(cos_theta, b.maximum.x, sin_theta, b.maximum.z, 0x4000_0000);
                let rz00 = mac2(-sin_theta, b.minimum.x, cos_theta, b.minimum.z, 0x4000_0000);
                let rz01 = mac2(-sin_theta, b.minimum.x, cos_theta, b.maximum.z, 0x4000_0000);
                let rz10 = mac2(-sin_theta, b.maximum.x, cos_theta, b.minimum.z, 0x4000_0000);
                let rz11 = mac2(-sin_theta, b.maximum.x, cos_theta, b.maximum.z, 0x4000_0000);
                let lo = Vec3 {
                    x: min_i64(min_i64(rx00, rx01), min_i64(rx10, rx11)),
                    y: min_i64(b.minimum.y, b.maximum.y),
                    z: min_i64(min_i64(rz00, rz01), min_i64(rz10, rz11)),
                };
                let hi = Vec3 {
                    x: max_i64(max_i64(rx00, rx01), max_i64(rx10, rx11)),
                    y: max_i64(b.minimum.y, b.maximum.y),
                    z: max_i64(max_i64(rz00, rz01), max_i64(rz10, rz11)),
                };
                Some(Aabb::new(lo, hi))
            },
        };
        RotateY { ptr: Box::new(p), sin_theta, cos_theta, bbox }
    }
}

impl ConstantMedium {
    pub fn new_from_texture(b: Hittable, d: i64, a: Texture) -> (m: ConstantMedium)
        requires
            1 <= d <= MUL_MAX,
        ensures
            *m.boundary == b,
            m.density == d,
            m.phase_function == Material::Isotropic(Isotropic { albedo: a }),
    {
        ConstantMedium {
            boundary: Box::new(b),
            phase_function: Material::Isotropic(Isotropic::new_from_texture(a)),
            density: d,
        }
    }

    pub fn new_from_color(b: Hittable, d: i64, c: crate::vec3::Color) -> (m: ConstantMedium)
        requires
            1 <= d <= MUL_MAX,
        ensures
            *m.boundary == b,
            m.density == d,
            m.phase_function == Material::Isotropic(Isotropic {
                albedo: Texture::Solid(crate::texture::SolidColor { color_value: c }),
            }),
    {
        ConstantMedium {
            boundary: Box::new(b),
            phase_function: Material::Isotropic(Isotropic::new_from_color(c)),
            density: d,
        }
    }
}

impl Hittable {
    /// Closest intersection in `[t_min, t_max]`, drawing any needed samples
    /// from `rng`; exactly `hittable_hit_spec` of the starting state.
    pub fn hit(&self, r: &Ray, t_min: i64, t_max: i64, rng: &mut Prng)
        -> (res: Option<HitRecord>)
        requires
            hittable_wf(*self),
            hittable_time_ok(*self, r.time as int),
            ray_wf(*r),
            -T_INF <= t_min <= T_INF,
            -T_INF <= t_max <= T_INF,
        ensures
            ({
                let h = hittable_hit_spec(*self, *r, t_min as int, t_max as int, old(rng).state);
                res == h.0 && final(rng).state == h.1
            }),
            rec_in_range(res, t_min as int, t_max as int),
        decreases *self, 0int,
    {
        match self {
            Hittable::Sphere(sp) => sp.hit(r, t_min, t_max),
            Hittable::XyRect(rect) => rect.hit(r, t_min, t_max),
            Hittable::XzRect(rect) => rect.hit(r, t_min, t_max),
            Hittable::YzRect(rect) => rect.hit(r, t_min, t_max),
            Hittable::Cube(c) => c.hit(r, t_min, t_max),
            Hittable::Translate(tr) => hit_translate(tr, r, t_min, t_max, rng),
            Hittable::RotateY(ry) => hit_rotate(ry, r, t_min, t_max, rng),
            Hittable::ConstantMedium(m) => hit_medium(m, r, t_min, t_max, rng),
            Hittable::Bvh(b) => b.hit(r, t_min, t_max, rng),
        }
    }

    /// Bounding box over a time span; absent only for a rotation built over
    /// a boxless child.
    pub fn bounding_box(&self, time0: i64, time1: i64) -> (res: Option<Aabb>)
        requires
            hittable_wf(*self),
            hittable_span_ok(*self, time0 as int, time1 as int),
            -TIME_MAX <= time0 <= time1 <= TIME_MAX,
        ensures
            res == hittable_bbox_spec(*self, time0 as int, time1 as int),
            bbox_ok(res),
        decreases *self,
    {
        proof {
            reveal_with_fuel(hittable_bbox_spec, 3);
        }
        match self {
            Hittable::Sphere(sp) => {
                let r1 = sp.bounding_box(time0, time1);
                proof { assert(bbox_ok(r1)); }
                r1
            },
            Hittable::XyRect(rect) => {
                let r1 = rect.bounding_box(time0, time1);
                proof { assert(bbox_ok(r1)); }
                r1
            },
            Hittable::XzRect(rect) => {
                let r1 = rect.bounding_box(time0, time1);
                proof { assert(bbox_ok(r1)); }
                r1
            },
            Hittable::YzRect(rect) => {
                let r1 = rect.bounding_box(time0, time1);
                proof { assert(bbox_ok(r1)); }
                r1
            },
            Hittable::Cube(c) => {
                let r1 = c.bounding_box(time0, time1);
                proof { assert(bbox_ok(r1)); }
                r1
            },
            Hittable::Translate(tr) => {
                match tr.ptr.bounding_box(time0, time1) {
                    None => None,
                    Some(b) => {
                        let bb = Aabb {
                            minimum: Vec3 {
                                x: clamp64(b.minimum.x + tr.offset.x, -0x4000_0000, 0x4000_0000),
                                y: clamp64(b.minimum.y + tr.offset.y, -0x4000_0000, 0x4000_0000),
                                z: clamp64(b.minimum.z + tr.offset.z, -0x4000_0000, 0x4000_0000),
                            },
                            maximum: Vec3 {
                                x: clamp64(b.maximum.x + tr.offset.x, -0x4000_0000, 0x4000_0000),
                                y: clamp64(b.maximum.y + tr.offset.y, -0x4000_0000, 0x4000_0000),
                                z: clamp64(b.maximum.z + tr.offset.z, -0x4000_0000, 0x4000_0000),
                            },
                        };
                        proof { assert(bbox_ok(Some(bb))); }
                        Some(bb)
                    },
                }
            },
            Hittable::RotateY(ry) => {
                proof {
                    assert(hittable_wf(*self));
                    assert(match ry.bbox {
                        Some(bb) => aabb_wf(bb)
                            && vec_in(bb.minimum, 0x4000_0000)
                            && vec_in(bb.maximum, 0x4000_0000),
                        None => true,
                    });
                }
                ry.bbox
            },
            Hittable::ConstantMedium(m) => {
                let r1 = m.boundary.bounding_box(time0, time1);
                proof { assert(bbox_ok(r1)); }
                r1
            },
            Hittable::Bvh(b) => {
                proof { assert(bvh_wf(**b)); }
                Some(b.bbox)
            },
        }
    }
}


/// The translate decorator's intersection: query the child with the ray
/// moved into its space, then move the hit point back and re-orient.
fn hit_translate(tr: &Translate, r: &Ray, t_min: i64, t_max: i64, rng: &mut Prng)
    -> (res: Option<HitRecord>)
    requires
        vec_in(tr.offset, SCENE_MAX as int),
        hittable_wf(*tr.ptr),
        hittable_time_ok(*tr.ptr, r.time as int),
        ray_wf(*r),
        -T_INF <= t_min <= T_INF,
        -T_INF <= t_max <= T_INF,
    ensures
        ({
            let moved = translate_ray(*r, tr.offset);
            let h = hittable_hit_spec(*tr.ptr, moved, t_min as int, t_max as int,
                old(rng).state);
            final(rng).state == h.1 && res == (match h.0 {
                None => None::<HitRecord>,
                Some(rec) => Some(translate_record(rec, moved, tr.offset)),
            })
        }),
        rec_in_range(res, t_min as int, t_max as int),
    decreases *tr.ptr, 1int,
{
    let moved = Ray {
        orig: Vec3 {
            x: clamp64(r.orig.x - tr.offset.x, -0x2000_0000, 0x2000_0000),
            y: clamp64(r.orig.y - tr.offset.y, -0x2000_0000, 0x2000_0000),
            z: clamp64(r.orig.z - tr.offset.z, -0x2000_0000, 0x2000_0000),
        },
        dir: r.dir,
        time: r.time,
    };
    let inner = tr.ptr.hit(&moved, t_min, t_max, rng);
    match inner {
        None => None,
        Some(rec) => {
            let p = Vec3 {
                x: clamp64(rec.p.x + tr.offset.x, -REC_POS_MAX, REC_POS_MAX),
                y: clamp64(rec.p.y + tr.offset.y, -REC_POS_MAX, REC_POS_MAX),
                z: clamp64(rec.p.z + tr.offset.z, -REC_POS_MAX, REC_POS_MAX),
            };
            Some(HitRecord::new(p, rec.t, rec.u, rec.v, &moved, &rec.normal, rec.mat))
        },
    }
}

/// The rotation decorator's intersection: rotate the ray into local space by
/// the inverse angle, delegate, then rotate the hit point and normal back by
/// the forward angle. A rotation that degenerates the direction is a miss.
fn hit_rotate(ry: &RotateY, r: &Ray, t_min: i64, t_max: i64, rng: &mut Prng)
    -> (res: Option<HitRecord>)
    requires
        -FX_ONE <= ry.sin_theta <= FX_ONE,
        -FX_ONE <= ry.cos_theta <= FX_ONE,
        hittable_wf(*ry.ptr),
        hittable_time_ok(*ry.ptr, r.time as int),
        ray_wf(*r),
        -T_INF <= t_min <= T_INF,
        -T_INF <= t_max <= T_INF,
    ensures
        ({
            let local = Ray {
                orig: rot_y_inv(r.orig, ry.cos_theta as int, ry.sin_theta as int, 0x2000_0000),
                dir: rot_y_inv(r.dir, ry.cos_theta as int, ry.sin_theta as int, 0x2000_0000),
                time: r.time,
            };
            if dot_wide_spec(local.dir, local.dir) < 1 {
                res == None::<HitRecord> && final(rng).state == old(rng).state
            } else {
                let h = hittable_hit_spec(*ry.ptr, local, t_min as int, t_max as int,
                    old(rng).state);
                final(rng).state == h.1 && res == (match h.0 {
                    None => None::<HitRecord>,
                    Some(rec) => Some(HitRecord {
                        p: rot_y_fwd(rec.p, ry.cos_theta as int, ry.sin_theta as int,
                            REC_POS_MAX as int),
                        normal: rot_y_fwd(rec.normal, ry.cos_theta as int,
                            ry.sin_theta as int, NRM_MAX as int),
                        mat: rec.mat,
                        t: rec.t,
                        u: rec.u,
                        v: rec.v,
                        front_face: rec.front_face,
                    }),
                })
            }
        }),
        rec_in_range(res, t_min as int, t_max as int),
    decreases *ry.ptr, 1int,
{
    let local = Ray {
        orig: Vec3 {
            x: mac2(ry.cos_theta, r.orig.x, -ry.sin_theta, r.orig.z, 0x2000_0000),
            y: r.orig.y,
            z: mac2(ry.sin_theta, r.orig.x, ry.cos_theta, r.orig.z, 0x2000_0000),
        },
        dir: Vec3 {
            x: mac2(ry.cos_theta, r.dir.x, -ry.sin_theta, r.dir.z, 0x2000_0000),
            y: r.dir.y,
            z: mac2(ry.sin_theta, r.dir.x, ry.cos_theta, r.dir.z, 0x2000_0000),
        },
        time: r.time,
    };
    let dd = local.dir.dot_wide(&local.dir);
    if dd < 1 {
        return None;
    }
    let inner = ry.ptr.hit(&local, t_min, t_max, rng);
    match inner {
        None => None,
        Some(rec) => {
            let p = Vec3 {
                x: mac2(ry.cos_theta, rec.p.x, ry.sin_theta, rec.p.z, REC_POS_MAX),
                y: rec.p.y,
                z: mac2(-ry.sin_theta, rec.p.x, ry.cos_theta, rec.p.z, REC_POS_MAX),
            };
            let n = Vec3 {
                x: mac2(ry.cos_theta, rec.normal.x, ry.sin_theta, rec.normal.z, NRM_MAX),
                y: rec.normal.y,
                z: mac2(-ry.sin_theta, rec.normal.x, ry.cos_theta, rec.normal.z, NRM_MAX),
            };
            Some(HitRecord {
                p,
                normal: n,
                mat: rec.mat,
                t: rec.t,
                u: rec.u,
                v: rec.v,
                front_face: rec.front_face,
            })
        },
    }
}

/// The medium's intersection: find the boundary entry and exit, clip to the
/// query interval, draw one free-path sample and scatter inside or pass
/// through.
#[verifier::rlimit(100)]
fn hit_medium(m: &ConstantMedium, r: &Ray, t_min: i64, t_max: i64, rng: &mut Prng)
    -> (res: Option<HitRecord>)
    requires
        1 <= m.density <= MUL_MAX,
        hittable_wf(*m.boundary),
        hittable_time_ok(*m.boundary, r.time as int),
        ray_wf(*r),
        -T_INF <= t_min <= T_INF,
        -T_INF <= t_max <= T_INF,
    ensures
        ({
            let h = medium_hit_spec(*m, *r, t_min as int, t_max as int, old(rng).state);
            res == h.0 && final(rng).state == h.1
        }),
        rec_in_range(res, t_min as int, t_max as int),
    decreases *m.boundary, 1int,
{
    proof {
        reveal_with_fuel(medium_hit_spec, 2);
    }
    let h1 = m.boundary.hit(r, -T_INF, T_INF, rng);
    let rec1 = match h1 {
        None => { return None; },
        Some(rec1) => rec1,
    };
    let again = min_i64(rec1.t + 7, T_INF);
    let h2 = m.boundary.hit(r, again, T_INF, rng);
    let rec2 = match h2 {
        None => { return None; },
        Some(rec2) => rec2,
    };
    let ta = max_i64(rec1.t, t_min);
    let tb = min_i64(rec2.t, t_max);
    if ta >= tb {
        return None;
    }
    let ta2 = max_i64(ta, 0);
    let u = rng.next_unit() + 1;
    let dvec = r.direction();
    proof {
        lemma_dot_spec_abs(dvec, dvec, 0x2000_0000, 0x2000_0000);
    }
    let ray_len = dvec.length();
    proof {
        assert(ray_len < 0x8000_0000) by (nonlinear_arith)
            requires
                0 <= ray_len,
                (ray_len as int) * (ray_len as int)
                    <= dot_spec(dvec, dvec) * (FX_ONE as int),
                dot_spec(dvec, dvec) <= 0xC00_0000_0003,
                FX_ONE == 65536;
    }
    if ray_len < 1 || ta2 >= tb {
        return None;
    }
    let span = clamp64(tb - ta2, 0, MUL_MAX);
    let dist_inside = mul_fx(span, ray_len);
    let nl = neg_ln_fx(u);
    proof {
        lemma_fx_div_nonneg_le(nl as int, m.density as int);
    }
    let hit_dist = div_fx(nl, m.density);
    if hit_dist > dist_inside {
        return None;
    }
    proof {
        lemma_fx_div_nonneg_le(hit_dist as int, ray_len as int);
    }
    let dt = div_fx(hit_dist, ray_len);
    let t = ta2 + dt;
    let tc = min_i64(t, tb);
    let p = r.at_wide(tc);
    let outward = Vec3 { x: FX_ONE, y: 0, z: 0 };
    Some(HitRecord::new(p, tc, 0, 0, r, &outward, m.phase_function))
}

/// Law: translation round trip. Wrapping a child in `Translate(offset)`
/// leaves the parametric distance, surface coordinates, material and sampler
/// state of the child's hit on the moved ray unchanged, misses exactly when
/// the child misses, and (whenever the reported point stays inside the
/// record range, so no clamp fires) un-translating the returned hit point by
/// subtracting the offset reproduces the child's hit point exactly. The
/// normal too is reproduced whenever it faces against the moved ray.
pub proof fn lemma_translate_round_trip(tr: Translate, r: Ray, t0: int, t1: int, s: u64)
    ensures
        ({
            let moved = translate_ray(r, tr.offset);
            let h = hittable_hit_spec(*tr.ptr, moved, t0, t1, s);
            let ht = hittable_hit_spec(Hittable::Translate(tr), r, t0, t1, s);
            ht.1 == h.1
            && (h.0 is None <==> ht.0 is None)
            && (match (h.0, ht.0) {
                (Some(rec), Some(rect)) => rect.t == rec.t
                    && rect.u == rec.u
                    && rect.v == rec.v
                    && rect.mat == rec.mat
                    && (vec_in(rec.p, REC_POS_MAX - SCENE_MAX as int)
                        && vec_in(tr.offset, SCENE_MAX as int) ==> {
                        &&& rect.p.x - tr.offset.x == rec.p.x
                        &&& rect.p.y - tr.offset.y == rec.p.y
                        &&& rect.p.z - tr.offset.z == rec.p.z
                    })
                    && (dot_wide_spec(moved.dir, rec.normal) < 0
                        ==> rect.normal == rec.normal),
                _ => true,
            })
        }),
{
    let moved = translate_ray(r, tr.offset);
    let h = hittable_hit_spec(*tr.ptr, moved, t0, t1, s);
    match h.0 {
        None => {},
        Some(rec) => {
            assert(hittable_hit_spec(Hittable::Translate(tr), r, t0, t1, s)
                == (Some(translate_record(rec, moved, tr.offset)), h.1));
        },
    }
}


/// One rotation step composed of two fixed-point products: the floor errors
/// of the inner coordinates and the outer products stay within six units at
/// the squared scale.
proof fn lemma_mac2_compose(p: int, r: int, q1: int, q2: int, u1: int, u2: int)
    requires
        -FX_ONE <= p <= FX_ONE,
        -FX_ONE <= r <= FX_ONE,
        (FX_ONE as int) * q1 <= u1 < (FX_ONE as int) * q1 + 2 * FX_ONE,
        (FX_ONE as int) * q2 <= u2 < (FX_ONE as int) * q2 + 2 * FX_ONE,
    ensures
        ({
            let w = fx_mul(p, q1) + fx_mul(r, q2);
            p * u1 + r * u2 - 6 * (FX_ONE as int) * (FX_ONE as int)
                < (FX_ONE as int) * (FX_ONE as int) * w
            && (FX_ONE as int) * (FX_ONE as int) * w <= p * u1 + r * u2
                + 4 * (FX_ONE as int) * (FX_ONE as int)
        }),
{
    let k = FX_ONE as int;
    crate::fx::lemma_fx_mul_bounds(p, q1);
    crate::fx::lemma_fx_mul_bounds(r, q2);
    assert(p * u1 - 2 * k * k <= p * (k * q1) <= p * u1 + 2 * k * k) by (nonlinear_arith)
        requires
            k * q1 <= u1 < k * q1 + 2 * k,
            -k <= p <= k,
            k == 65536;
    assert(r * u2 - 2 * k * k <= r * (k * q2) <= r * u2 + 2 * k * k) by (nonlinear_arith)
        requires
            k * q2 <= u2 < k * q2 + 2 * k,
            -k <= r <= k,
            k == 65536;
    let w = fx_mul(p, q1) + fx_mul(r, q2);
    assert(k * k * w == k * (k * fx_mul(p, q1)) + k * (k * fx_mul(r, q2))) by (nonlinear_arith)
        requires w == fx_mul(p, q1) + fx_mul(r, q2);
    assert(k * (k * fx_mul(p, q1)) <= p * (k * q1)
        && p * (k * q1) < k * (k * fx_mul(p, q1)) + k * k) by (nonlinear_arith)
        requires
            k * fx_mul(p, q1) <= p * q1 < k * fx_mul(p, q1) + k,
            k == 65536;
    assert(k * (k * fx_mul(r, q2)) <= r * (k * q2)
        && r * (k * q2) < k * (k * fx_mul(r, q2)) + k * k) by (nonlinear_arith)
        requires
            k * fx_mul(r, q2) <= r * q2 < k * fx_mul(r, q2) + k,
            k == 65536;
}

/// Law: opposite y-rotations cancel to within a stated fixed-point
/// tolerance. For a coordinate pair `(cos, sin)` within `e` of the unit
/// circle (at the squared raw scale) and a point with coordinates within
/// `bnd`, rotating by the angle and back — the coordinate maps the rotation
/// decorator applies — returns y exactly, and x and z to within
/// `6 + e * bnd / FX_ONE^2` raw units (stated below multiplied through by
/// `FX_ONE^2`). With an exact unit pair (`e == 0`) the round trip is exact
/// to six raw units, the accumulated floor rounding of four products.
pub proof fn lemma_rotate_round_trip(c: int, s_: int, v: Vec3, e: int, bnd: int)
    requires
        -FX_ONE <= c <= FX_ONE,
        -FX_ONE <= s_ <= FX_ONE,
        0 <= e <= (FX_ONE as int) * (FX_ONE as int),
        (FX_ONE as int) * (FX_ONE as int) - e <= c * c + s_ * s_,
        c * c + s_ * s_ <= (FX_ONE as int) * (FX_ONE as int) + e,
        0 < bnd <= 0xFFF_FFF0,
        vec_in(v, bnd),
    ensures
        ({
            let w = rot_y_inv(rot_y_inv(v, c, s_, 0x2000_0000), c, -s_, 0x2000_0000);
            let k2 = (FX_ONE as int) * (FX_ONE as int);
            w.y == v.y
            && -(6 * k2 + e * bnd) < k2 * (w.x - v.x)
            && k2 * (w.x - v.x) <= 6 * k2 + e * bnd
            && -(6 * k2 + e * bnd) < k2 * (w.z - v.z)
            && k2 * (w.z - v.z) <= 6 * k2 + e * bnd
        }),
{
    let k = FX_ONE as int;
    let k2 = k * k;
    let x = v.x as int;
    let z = v.z as int;
    // inner rotation: no clamp fires, and its coordinates are floor-exact
    crate::vec3::lemma_fx_mul_abs(c, x, k, bnd);
    crate::vec3::lemma_fx_mul_abs(-s_, z, k, bnd);
    crate::vec3::lemma_fx_mul_abs(s_, x, k, bnd);
    crate::vec3::lemma_fx_mul_abs(c, z, k, bnd);
    let a = rot_y_inv(v, c, s_, 0x2000_0000);
    assert(a.x == fx_mul(c, x) + fx_mul(-s_, z));
    assert(a.z == fx_mul(s_, x) + fx_mul(c, z));
    crate::fx::lemma_fx_mul_bounds(c, x);
    crate::fx::lemma_fx_mul_bounds(-s_, z);
    crate::fx::lemma_fx_mul_bounds(s_, x);
    crate::fx::lemma_fx_mul_bounds(c, z);
    let u1 = c * x - s_ * z;
    let u2 = s_ * x + c * z;
    assert(k * (a.x as int) <= u1 < k * (a.x as int) + 2 * k) by (nonlinear_arith)
        requires
            a.x == fx_mul(c, x) + fx_mul(-s_, z),
            k * fx_mul(c, x) <= c * x < k * fx_mul(c, x) + k,
            k * fx_mul(-s_, z) <= (-s_) * z < k * fx_mul(-s_, z) + k,
            u1 == c * x - s_ * z,
            k == 65536;
    assert(k * (a.z as int) <= u2 < k * (a.z as int) + 2 * k) by (nonlinear_arith)
        requires
            a.z == fx_mul(s_, x) + fx_mul(c, z),
            k * fx_mul(s_, x) <= s_ * x < k * fx_mul(s_, x) + k,
            k * fx_mul(c, z) <= c * z < k * fx_mul(c, z) + k,
            u2 == s_ * x + c * z,
            k == 65536;
    // outer rotation by the opposite angle
    lemma_mac2_compose(c, s_, a.x as int, a.z as int, u1, u2);
    lemma_mac2_compose(-s_, c, a.x as int, a.z as int, u1, u2);
    let wx0 = fx_mul(c, a.x as int) + fx_mul(s_, a.z as int);
    let wz0 = fx_mul(-s_, a.x as int) + fx_mul(c, a.z as int);
    assert(c * u1 + s_ * u2 == (c * c + s_ * s_) * x) by (nonlinear_arith)
        requires u1 == c * x - s_ * z, u2 == s_ * x + c * z;
    assert((-s_) * u1 + c * u2 == (c * c + s_ * s_) * z) by (nonlinear_arith)
        requires u1 == c * x - s_ * z, u2 == s_ * x + c * z;
    assert(k2 * x - e * bnd <= (c * c + s_ * s_) * x <= k2 * x + e * bnd) by (nonlinear_arith)
        requires
            k2 - e <= c * c + s_ * s_ <= k2 + e,
            -bnd <= x <= bnd,
            0 <= e,
            k2 == 65536 * 65536,
            k == 65536;
    assert(k2 * z - e * bnd <= (c * c + s_ * s_) * z <= k2 * z + e * bnd) by (nonlinear_arith)
        requires
            k2 - e <= c * c + s_ * s_ <= k2 + e,
            -bnd <= z <= bnd,
            0 <= e,
            k2 == 65536 * 65536,
            k == 65536;
    // the outer coordinates stay inside the clamp range
    assert(-0x2000_0000 <= wx0 <= 0x2000_0000) by (nonlinear_arith)
        requires
            k2 * x - e * bnd - 6 * k2 < k2 * wx0 <= k2 * x + e * bnd + 4 * k2,
            -bnd <= x <= bnd,
            0 <= e <= k2,
            0 < bnd <= 0xFFF_FFF0,
            k2 == 65536 * 65536;
    assert(-0x2000_0000 <= wz0 <= 0x2000_0000) by (nonlinear_arith)
        requires
            k2 * z - e * bnd - 6 * k2 < k2 * wz0 <= k2 * z + e * bnd + 4 * k2,
            -bnd <= z <= bnd,
            0 <= e <= k2,
            0 < bnd <= 0xFFF_FFF0,
            k2 == 65536 * 65536;
    let w = rot_y_inv(a, c, -s_, 0x2000_0000);
    assert(w.x == wx0 && w.z == wz0);
    assert(-(6 * k2 + e * bnd) < k2 * (w.x as int - x) <= 6 * k2 + e * bnd) by (nonlinear_arith)
        requires
            w.x == wx0,
            k2 * x - e * bnd - 6 * k2 < k2 * wx0 <= k2 * x + e * bnd + 4 * k2,
            0 <= e,
            0 < bnd,
            k2 == 65536 * 65536;
    assert(-(6 * k2 + e * bnd) < k2 * (w.z as int - z) <= 6 * k2 + e * bnd) by (nonlinear_arith)
        requires
            w.z == wz0,
            k2 * z - e * bnd - 6 * k2 < k2 * wz0 <= k2 * z + e * bnd + 4 * k2,
            0 <= e,
            0 < bnd,
            k2 == 65536 * 65536;
}

/// Left fold of the closest-hit scan: each object is queried with the upper
/// bound shrunk to the best hit so far, so a closer hit found later always
/// wins and a farther one cannot shadow it.
pub open spec fn scan_hit(
    objs: Seq<Hittable>, r: Ray, t0: int, cur_max: int, best: Option<HitRecord>, s: u64,
) -> (Option<HitRecord>, u64)
    decreases objs.len()
{
    if objs.len() == 0 {
        (best, s)
    } else {
        let h = hittable_hit_spec(objs[0], r, t0, cur_max, s);
        match h.0 {
            Some(rec) => scan_hit(objs.drop_first(), r, t0, rec.t as int, Some(rec), h.1),
            None => scan_hit(objs.drop_first(), r, t0, cur_max, best, h.1),
        }
    }
}

/// Every element is well-formed.
pub open spec fn list_wf(objs: Seq<Hittable>) -> bool {
    forall|i: int| 0 <= i < objs.len() ==> hittable_wf(#[trigger] objs[i])
}

/// Every element accepts the ray's time.
pub open spec fn list_time_ok(objs: Seq<Hittable>, time: int) -> bool {
    forall|i: int| 0 <= i < objs.len() ==> hittable_time_ok(#[trigger] objs[i], time)
}

/// Every element accepts the query time span.
pub open spec fn list_span_ok(objs: Seq<Hittable>, t0: int, t1: int) -> bool {
    forall|i: int| 0 <= i < objs.len() ==> hittable_span_ok(#[trigger] objs[i], t0, t1)
}

/// Fold of the children's boxes by repeated union, starting from `acc`.
pub open spec fn list_bbox_from(objs: Seq<Hittable>, t0: int, t1: int, acc: Aabb)
    -> Option<Aabb>
    decreases objs.len()
{
    if objs.len() == 0 {
        Some(acc)
    } else {
        match hittable_bbox_spec(objs[0], t0, t1) {
            None => None,
            Some(b) => list_bbox_from(objs.drop_first(), t0, t1, surrounding_spec(acc, b)),
        }
    }
}

/// Exact value of `HittableList::bounding_box`: none when empty or when any
/// child lacks a box, else the union of all children's boxes.
pub open spec fn list_bbox_spec(objs: Seq<Hittable>, t0: int, t1: int) -> Option<Aabb> {
    if objs.len() == 0 {
        None
    } else {
        match hittable_bbox_spec(objs[0], t0, t1) {
            None => None,
            Some(b) => list_bbox_from(objs.drop_first(), t0, t1, b),
        }
    }
}

impl HittableList {
    pub fn new() -> (l: HittableList)
        ensures l.list@.len() == 0,
    {
        HittableList { list: Vec::new() }
    }

    /// Appends one object to the aggregate.
    pub fn push(&mut self, x: Hittable)
        ensures
            final(self).list@ == old(self).list@.push(x),
    {
        self.list.push(x);
    }

    /// Linear scan for the closest hit: later children are queried under the
    /// shrunk upper bound, so the closest confirmed hit wins regardless of
    /// order.
    pub fn hit(&self, r: &Ray, t_min: i64, t_max: i64, rng: &mut Prng)
        -> (res: Option<HitRecord>)
        requires
            list_wf(self.list@),
            list_time_ok(self.list@, r.time as int),
            ray_wf(*r),
            -T_INF <= t_min <= T_INF,
            -T_INF <= t_max <= T_INF,
        ensures
            ({
                let h = scan_hit(self.list@, *r, t_min as int, t_max as int, None, old(rng).state);
                res == h.0 && final(rng).state == h.1
            }),
            rec_in_range(res, t_min as int, t_max as int),
    {
        let ghost s0 = rng.state;
        proof {
            assert(self.list@.skip(0) =~= self.list@);
        }
        let mut best: Option<HitRecord> = None;
        let mut cur: i64 = t_max;
        let n = self.list.len();
        let mut i: usize = 0;
        while i < n
            invariant
                n == self.list@.len(),
                0 <= i <= n,
                list_wf(self.list@),
                list_time_ok(self.list@, r.time as int),
                ray_wf(*r),
                -T_INF <= t_min <= T_INF,
                -T_INF <= t_max <= T_INF,
                -T_INF <= cur <= T_INF,
                rec_in_range(best, t_min as int, t_max as int),
                (match best {
                    Some(rec) => cur == rec.t,
                    None => cur == t_max,
                }),
                scan_hit(self.list@, *r, t_min as int, t_max as int, None, s0)
                    == scan_hit(self.list@.skip(i as int), *r, t_min as int, cur as int, best,
                        rng.state),
            decreases n - i,
        {
            proof {
                assert(self.list@.skip(i as int)[0] == self.list@[i as int]);
                assert(self.list@.skip(i as int).drop_first()
                    =~= self.list@.skip(i as int + 1));
            }
            let h = self.list[i].hit(r, t_min, cur, rng);
            if let Some(rec) = h {
                cur = rec.t;
                best = Some(rec);
            }
            i = i + 1;
        }
        proof {
            assert(self.list@.skip(n as int).len() == 0);
        }
        best
    }

    /// The union of all children's boxes; none when the list is empty or a
    /// child has no box.
    pub fn bounding_box(&self, time0: i64, time1: i64) -> (res: Option<Aabb>)
        requires
            list_wf(self.list@),
            list_span_ok(self.list@, time0 as int, time1 as int),
            -TIME_MAX <= time0 <= time1 <= TIME_MAX,
        ensures
            res == list_bbox_spec(self.list@, time0 as int, time1 as int),
            bbox_ok(res),
    {
        let n = self.list.len();
        if n == 0 {
            return None;
        }
        let first = self.list[0].bounding_box(time0, time1);
        let mut acc = match first {
            None => { return None; },
            Some(b) => b,
        };
        proof {
            assert(self.list@.drop_first() =~= self.list@.skip(1));
        }
        let mut i: usize = 1;
        while i < n
            invariant
                n == self.list@.len(),
                1 <= i <= n,
                list_wf(self.list@),
                list_span_ok(self.list@, time0 as int, time1 as int),
                -TIME_MAX <= time0 <= time1 <= TIME_MAX,
                aabb_wf(acc),
                vec_in(acc.minimum, 0x4000_0000),
                vec_in(acc.maximum, 0x4000_0000),
                list_bbox_spec(self.list@, time0 as int, time1 as int)
                    == list_bbox_from(self.list@.skip(i as int), time0 as int, time1 as int, acc),
            decreases n - i,
        {
            proof {
                assert(self.list@.skip(i as int)[0] == self.list@[i as int]);
                assert(self.list@.skip(i as int).drop_first()
                    =~= self.list@.skip(i as int + 1));
            }
            let hb = self.list[i].bounding_box(time0, time1);
            match hb {
                None => { return None; },
                Some(b) => {
                    acc = Aabb::surrounding_box(&acc, &b);
                },
            }
            i = i + 1;
        }
        proof {
            assert(self.list@.skip(n as int).len() == 0);
        }
        Some(acc)
    }
}

impl Default for HittableList {
    /// The empty aggregate.
    fn default() -> (l: HittableList)
        ensures l.list@.len() == 0,
    {
        HittableList::new()
    }
}

} // verus!
