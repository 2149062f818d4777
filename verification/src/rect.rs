//! Axis-aligned rectangles in the three coordinate planes. Intersection
//! solves for the exact plane-crossing parameter, rejects crossings outside
//! the query interval or the rectangle's 2D extent, and reports surface
//! coordinates as the linear fraction of each extent.

use vstd::prelude::*;
use crate::fx::{FX_ONE, T_INF, fx_div, div_fx, div_floor, lemma_fx_div_le_one};
use crate::vec3::{Vec3, vec_in, lemma_mul_abs};
use crate::ray::{Ray, ray_wf, ray_at_wide_spec};
use crate::aabb::{Aabb, aabb_wf};
use crate::material::Material;
use crate::hit_record::{HitRecord, hit_record_spec};
use crate::sphere::SCENE_MAX;

verus! {

/// Floor of the exact parameter at which the ray crosses the plane
/// `axis == k`, for a nonzero direction component.
pub open spec fn plane_t_spec(k: int, oa: int, da: int) -> int {
    if da > 0 {
        ((k - oa) * (FX_ONE as int)) / da
    } else {
        ((oa - k) * (FX_ONE as int)) / (-da)
    }
}

/// Floor of the plane-crossing parameter, computed exactly.
fn plane_t(k: i64, oa: i64, da: i64) -> (t: i64)
    requires
        da != 0,
        -SCENE_MAX <= k <= SCENE_MAX,
        -0x2000_0000 <= oa <= 0x2000_0000,
        -0x2000_0000 <= da <= 0x2000_0000,
    ensures
        t == plane_t_spec(k as int, oa as int, da as int),
        -0x2000_0000_0000_0000 <= t <= 0x2000_0000_0000_0000,
{
    proof {
        lemma_mul_abs((k - oa) as int, FX_ONE as int, 0x2800_0000, FX_ONE as int);
        lemma_mul_abs((oa - k) as int, FX_ONE as int, 0x2800_0000, FX_ONE as int);
    }
    let (num, den): (i128, i128) = if da > 0 {
        (((k - oa) as i128) * (FX_ONE as i128), da as i128)
    } else {
        (((oa - k) as i128) * (FX_ONE as i128), (-da) as i128)
    };
    let q = div_floor(num, den);
    proof {
        assert(-0x2000_0000_0000_0000 <= q <= 0x2000_0000_0000_0000) by (nonlinear_arith)
            requires
                den * q <= num < den * (q + 1),
                1 <= den,
                -0x2800_0000_0000 <= num <= 0x2800_0000_0000;
    }
    q as i64
}

/// The plane-crossing parameter when it exists and lies in `[t0, t1]`.
pub open spec fn rect_hit_t(k: int, oa: int, da: int, t0: int, t1: int) -> Option<int> {
    if da == 0 {
        None
    } else {
        let t = plane_t_spec(k, oa, da);
        if t0 <= t && t <= t1 {
            Some(t)
        } else {
            None
        }
    }
}

/// A rectangle in the `z == k` plane spanning `xs` by `ys`.
#[derive(Clone, Copy, Debug)]
pub struct XyRect {
    pub mp: Material,
    pub xs: (i64, i64),
    pub ys: (i64, i64),
    pub k: i64,
}

/// A rectangle in the `y == k` plane spanning `xs` by `zs`.
#[derive(Clone, Copy, Debug)]
pub struct XzRect {
    pub mp: Material,
    pub xs: (i64, i64),
    pub zs: (i64, i64),
    pub k: i64,
}

/// A rectangle in the `x == k` plane spanning `ys` by `zs`.
#[derive(Clone, Copy, Debug)]
pub struct YzRect {
    pub mp: Material,
    pub ys: (i64, i64),
    pub zs: (i64, i64),
    pub k: i64,
}

/// A bounded, nonempty extent pair.
pub open spec fn extent_wf(e: (i64, i64)) -> bool {
    -SCENE_MAX <= e.0 && e.0 < e.1 && e.1 <= SCENE_MAX
}

pub open spec fn xy_rect_wf(rect: XyRect) -> bool {
    extent_wf(rect.xs) && extent_wf(rect.ys) && -SCENE_MAX <= rect.k <= SCENE_MAX
}

pub open spec fn xz_rect_wf(rect: XzRect) -> bool {
    extent_wf(rect.xs) && extent_wf(rect.zs) && -SCENE_MAX <= rect.k <= SCENE_MAX
}

pub open spec fn yz_rect_wf(rect: YzRect) -> bool {
    extent_wf(rect.ys) && extent_wf(rect.zs) && -SCENE_MAX <= rect.k <= SCENE_MAX
}

/// Exact value of `XyRect::hit`.
pub open spec fn xy_rect_hit_spec(rect: XyRect, r: Ray, t0: int, t1: int) -> Option<HitRecord> {
    match rect_hit_t(rect.k as int, r.orig.z as int, r.dir.z as int, t0, t1) {
        None => None,
        Some(t) => {
            let p = ray_at_wide_spec(r, t);
            if p.x < rect.xs.0 || p.x > rect.xs.1 || p.y < rect.ys.0 || p.y > rect.ys.1 {
                None
            } else {
                let u = fx_div(p.x - rect.xs.0, rect.xs.1 - rect.xs.0);
                let v = fx_div(p.y - rect.ys.0, rect.ys.1 - rect.ys.0);
                Some(hit_record_spec(p, t, u, v, r,
                    Vec3 { x: 0, y: 0, z: FX_ONE }, rect.mp))
            }
        }
    }
}

/// Exact value of `XzRect::hit`.
pub open spec fn xz_rect_hit_spec(rect: XzRect, r: Ray, t0: int, t1: int) -> Option<HitRecord> {
    match rect_hit_t(rect.k as int, r.orig.y as int, r.dir.y as int, t0, t1) {
        None => None,
        Some(t) => {
            let p = ray_at_wide_spec(r, t);
            if p.x < rect.xs.0 || p.x > rect.xs.1 || p.z < rect.zs.0 || p.z > rect.zs.1 {
                None
            } else {
                let u = fx_div(p.x - rect.xs.0, rect.xs.1 - rect.xs.0);
                let v = fx_div(p.z - rect.zs.0, rect.zs.1 - rect.zs.0);
                Some(hit_record_spec(p, t, u, v, r,
                    Vec3 { x: 0, y: FX_ONE, z: 0 }, rect.mp))
            }
        }
    }
}

/// Exact value of `YzRect::hit`.
pub open spec fn yz_rect_hit_spec(rect: YzRect, r: Ray, t0: int, t1: int) -> Option<HitRecord> {
    match rect_hit_t(rect.k as int, r.orig.x as int, r.dir.x as int, t0, t1) {
        None => None,
        Some(t) => {
            let p = ray_at_wide_spec(r, t);
            if p.y < rect.ys.0 || p.y > rect.ys.1 || p.z < rect.zs.0 || p.z > rect.zs.1 {
                None
            } else {
                let u = fx_div(p.y - rect.ys.0, rect.ys.1 - rect.ys.0);
                let v = fx_div(p.z - rect.zs.0, rect.zs.1 - rect.zs.0);
                Some(hit_record_spec(p, t, u, v, r,
                    Vec3 { x: FX_ONE, y: 0, z: 0 }, rect.mp))
            }
        }
    }
}

/// Degenerate-thickness box of an `XyRect` (one raw unit each way along z).
pub open spec fn xy_rect_bbox_spec(rect: XyRect) -> Aabb {
    Aabb {
        minimum: Vec3 { x: rect.xs.0, y: rect.ys.0, z: (rect.k - 1) as i64 },
        maximum: Vec3 { x: rect.xs.1, y: rect.ys.1, z: (rect.k + 1) as i64 },
    }
}

pub open spec fn xz_rect_bbox_spec(rect: XzRect) -> Aabb {
    Aabb {
        minimum: Vec3 { x: rect.xs.0, y: (rect.k - 1) as i64, z: rect.zs.0 },
        maximum: Vec3 { x: rect.xs.1, y: (rect.k + 1) as i64, z: rect.zs.1 },
    }
}

pub open spec fn yz_rect_bbox_spec(rect: YzRect) -> Aabb {
    Aabb {
        minimum: Vec3 { x: (rect.k - 1) as i64, y: rect.ys.0, z: rect.zs.0 },
        maximum: Vec3 { x: (rect.k + 1) as i64, y: rect.ys.1, z: rect.zs.1 },
    }
}

impl XyRect {
    pub fn new(xs: (i64, i64), ys: (i64, i64), k: i64, mp: Material) -> (rect: XyRect)
        requires
            extent_wf(xs),
            extent_wf(ys),
            -SCENE_MAX <= k <= SCENE_MAX,
        ensures
            rect == (XyRect { mp, xs, ys, k }),
            xy_rect_wf(rect),
    {
        XyRect { mp, xs, ys, k }
    }

    /// Intersection with the rectangle in `[t_min, t_max]`.
    pub fn hit(&self, r: &Ray, t_min: i64, t_max: i64) -> (res: Option<HitRecord>)
        requires
            xy_rect_wf(*self),
            ray_wf(*r),
            -T_INF <= t_min <= T_INF,
            -T_INF <= t_max <= T_INF,
        ensures
            res == xy_rect_hit_spec(*self, *r, t_min as int, t_max as int),
            crate::hit_record::rec_in_range(res, t_min as int, t_max as int),
    {
        let d = r.direction();
        let o = r.origin();
        if d.z == 0 {
            return None;
        }
        let t = plane_t(self.k, o.z, d.z);
        if t < t_min || t > t_max {
            return None;
        }
        let p = r.at_wide(t);
        if p.x < self.xs.0 || p.x > self.xs.1 || p.y < self.ys.0 || p.y > self.ys.1 {
            return None;
        }
        proof {
            lemma_fx_div_le_one((p.x - self.xs.0) as int, (self.xs.1 - self.xs.0) as int);
            lemma_fx_div_le_one((p.y - self.ys.0) as int, (self.ys.1 - self.ys.0) as int);
        }
        let u = div_fx(p.x - self.xs.0, self.xs.1 - self.xs.0);
        let v = div_fx(p.y - self.ys.0, self.ys.1 - self.ys.0);
        let outward = Vec3 { x: 0, y: 0, z: FX_ONE };
        Some(HitRecord::new(p, t, u, v, r, &outward, self.mp))
    }

    /// The rectangle's slab-testable box, one raw unit thick along z.
    pub fn bounding_box(&self, time0: i64, time1: i64) -> (res: Option<Aabb>)
        requires
            xy_rect_wf(*self),
        ensures
            res == Some(xy_rect_bbox_spec(*self)),
            aabb_wf(xy_rect_bbox_spec(*self)),
            vec_in(xy_rect_bbox_spec(*self).minimum, 0x4000_0000),
            vec_in(xy_rect_bbox_spec(*self).maximum, 0x4000_0000),
    {
        Some(Aabb::new(
            Vec3 { x: self.xs.0, y: self.ys.0, z: self.k - 1 },
            Vec3 { x: self.xs.1, y: self.ys.1, z: self.k + 1 },
        ))
    }
}

impl XzRect {
    pub fn new(xs: (i64, i64), zs: (i64, i64), k: i64, mp: Material) -> (rect: XzRect)
        requires
            extent_wf(xs),
            extent_wf(zs),
            -SCENE_MAX <= k <= SCENE_MAX,
        ensures
            rect == (XzRect { mp, xs, zs, k }),
            xz_rect_wf(rect),
    {
        XzRect { mp, xs, zs, k }
    }

    /// Intersection with the rectangle in `[t_min, t_max]`.
    pub fn hit(&self, r: &Ray, t_min: i64, t_max: i64) -> (res: Option<HitRecord>)
        requires
            xz_rect_wf(*self),
            ray_wf(*r),
            -T_INF <= t_min <= T_INF,
            -T_INF <= t_max <= T_INF,
        ensures
            res == xz_rect_hit_spec(*self, *r, t_min as int, t_max as int),
            crate::hit_record::rec_in_range(res, t_min as int, t_max as int),
    {
        let d = r.direction();
        let o = r.origin();
        if d.y == 0 {
            return None;
        }
        let t = plane_t(self.k, o.y, d.y);
        if t < t_min || t > t_max {
            return None;
        }
        let p = r.at_wide(t);
        if p.x < self.xs.0 || p.x > self.xs.1 || p.z < self.zs.0 || p.z > self.zs.1 {
            return None;
        }
        proof {
            lemma_fx_div_le_one((p.x - self.xs.0) as int, (self.xs.1 - self.xs.0) as int);
            lemma_fx_div_le_one((p.z - self.zs.0) as int, (self.zs.1 - self.zs.0) as int);
        }
        let u = div_fx(p.x - self.xs.0, self.xs.1 - self.xs.0);
        let v = div_fx(p.z - self.zs.0, self.zs.1 - self.zs.0);
        let outward = Vec3 { x: 0, y: FX_ONE, z: 0 };
        Some(HitRecord::new(p, t, u, v, r, &outward, self.mp))
    }

    /// The rectangle's slab-testable box, one raw unit thick along y.
    pub fn bounding_box(&self, time0: i64, time1: i64) -> (res: Option<Aabb>)
        requires
            xz_rect_wf(*self),
        ensures
            res == Some(xz_rect_bbox_spec(*self)),
            aabb_wf(xz_rect_bbox_spec(*self)),
            vec_in(xz_rect_bbox_spec(*self).minimum, 0x4000_0000),
            vec_in(xz_rect_bbox_spec(*self).maximum, 0x4000_0000),
    {
        Some(Aabb::new(
            Vec3 { x: self.xs.0, y: self.k - 1, z: self.zs.0 },
            Vec3 { x: self.xs.1, y: self.k + 1, z: self.zs.1 },
        ))
    }
}

impl YzRect {
    pub fn new(ys: (i64, i64), zs: (i64, i64), k: i64, mp: Material) -> (rect: YzRect)
        requires
            extent_wf(ys),
            extent_wf(zs),
            -SCENE_MAX <= k <= SCENE_MAX,
        ensures
            rect == (YzRect { mp, ys, zs, k }),
            yz_rect_wf(rect),
    {
        YzRect { mp, ys, zs, k }
    }

    /// Intersection with the rectangle in `[t_min, t_max]`.
    pub fn hit(&self, r: &Ray, t_min: i64, t_max: i64) -> (res: Option<HitRecord>)
        requires
            yz_rect_wf(*self),
            ray_wf(*r),
            -T_INF <= t_min <= T_INF,
            -T_INF <= t_max <= T_INF,
        ensures
            res == yz_rect_hit_spec(*self, *r, t_min as int, t_max as int),
            crate::hit_record::rec_in_range(res, t_min as int, t_max as int),
    {
        let d = r.direction();
        let o = r.origin();
        if d.x == 0 {
            return None;
        }
        let t = plane_t(self.k, o.x, d.x);
        if t < t_min || t > t_max {
            return None;
        }
        let p = r.at_wide(t);
        if p.y < self.ys.0 || p.y > self.ys.1 || p.z < self.zs.0 || p.z > self.zs.1 {
            return None;
        }
        proof {
            lemma_fx_div_le_one((p.y - self.ys.0) as int, (self.ys.1 - self.ys.0) as int);
            lemma_fx_div_le_one((p.z - self.zs.0) as int, (self.zs.1 - self.zs.0) as int);
        }
        let u = div_fx(p.y - self.ys.0, self.ys.1 - self.ys.0);
        let v = div_fx(p.z - self.zs.0, self.zs.1 - self.zs.0);
        let outward = Vec3 { x: FX_ONE, y: 0, z: 0 };
        Some(HitRecord::new(p, t, u, v, r, &outward, self.mp))
    }

    /// The rectangle's slab-testable box, one raw unit thick along x.
    pub fn bounding_box(&self, time0: i64, time1: i64) -> (res: Option<Aabb>)
        requires
            yz_rect_wf(*self),
        ensures
            res == Some(yz_rect_bbox_spec(*self)),
            aabb_wf(yz_rect_bbox_spec(*self)),
            vec_in(yz_rect_bbox_spec(*self).minimum, 0x4000_0000),
            vec_in(yz_rect_bbox_spec(*self).maximum, 0x4000_0000),
    {
        Some(Aabb::new(
            Vec3 { x: self.k - 1, y: self.ys.0, z: self.zs.0 },
            Vec3 { x: self.k + 1, y: self.ys.1, z: self.zs.1 },
        ))
    }
}

} // verus!
