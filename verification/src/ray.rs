//! Rays: origin, direction and a time tag (for motion blur).

use vstd::prelude::*;
use crate::fx::{FX_ONE, MUL_MAX, fx_mul, mul_fx, clamp_spec};
use crate::vec3::{Vec3, Point3, vec_in, dot_wide_spec};

verus! {

/// Rays the geometry kernel accepts: bounded coordinates and a direction
/// that is not the zero vector.
pub open spec fn ray_wf(r: Ray) -> bool {
    vec_in(r.orig, 0x2000_0000)
        && vec_in(r.dir, 0x2000_0000)
        && dot_wide_spec(r.dir, r.dir) >= 1
}

/// A half-line `origin + t * direction`, tagged with a scene time.
#[derive(Clone, Copy, PartialEq, Eq, Structural, Debug)]
pub struct Ray {
    pub orig: Point3,
    pub dir: Vec3,
    pub time: i64,
}

/// Positions are clamped to this magnitude by the wide evaluator.
pub const POS_MAX: i64 = 0x100_0000_0000;

/// Exact position of a ray at parameter `t`, with each coordinate clamped to
/// `[-POS_MAX, POS_MAX]`; used where `t` can be large.
pub open spec fn ray_at_wide_spec(r: Ray, t: int) -> Vec3 {
    Vec3 {
        x: clamp_spec(r.orig.x + fx_mul(t, r.dir.x as int), -POS_MAX as int, POS_MAX as int) as i64,
        y: clamp_spec(r.orig.y + fx_mul(t, r.dir.y as int), -POS_MAX as int, POS_MAX as int) as i64,
        z: clamp_spec(r.orig.z + fx_mul(t, r.dir.z as int), -POS_MAX as int, POS_MAX as int) as i64,
    }
}

/// Exact position of a ray at fixed-point parameter `t`.
pub open spec fn ray_at_spec(r: Ray, t: int) -> Vec3 {
    Vec3 {
        x: (r.orig.x + fx_mul(t, r.dir.x as int)) as i64,
        y: (r.orig.y + fx_mul(t, r.dir.y as int)) as i64,
        z: (r.orig.z + fx_mul(t, r.dir.z as int)) as i64,
    }
}

impl Ray {
    pub fn new(orig: Point3, dir: Vec3, time: i64) -> (r: Ray)
        ensures r.orig == orig && r.dir == dir && r.time == time,
    {
        Ray { orig, dir, time }
    }

    /// The point at parameter `t` along the ray.
    pub fn at(&self, t: i64) -> (p: Point3)
        requires
            vec_in(self.orig, 0x40_0000_0000),
            vec_in(self.dir, 0x40_0000_0000),
            -MUL_MAX <= t <= MUL_MAX,
            -0x10_0000_0000_0000 <= fx_mul(t as int, self.dir.x as int) <= 0x10_0000_0000_0000,
            -0x10_0000_0000_0000 <= fx_mul(t as int, self.dir.y as int) <= 0x10_0000_0000_0000,
            -0x10_0000_0000_0000 <= fx_mul(t as int, self.dir.z as int) <= 0x10_0000_0000_0000,
        ensures
            p == ray_at_spec(*self, t as int),
    {
        Vec3 {
            x: self.orig.x + mul_fx(t, self.dir.x),
            y: self.orig.y + mul_fx(t, self.dir.y),
            z: self.orig.z + mul_fx(t, self.dir.z),
        }
    }

    /// The point at parameter `t`, for any `t`: coordinates are computed
    /// exactly in wide arithmetic, then clamped to `[-POS_MAX, POS_MAX]`.
    pub fn at_wide(&self, t: i64) -> (p: Point3)
        requires
            vec_in(self.orig, 0x4000_0000),
            vec_in(self.dir, 0x4000_0000),
        ensures
            p == ray_at_wide_spec(*self, t as int),
            vec_in(p, POS_MAX as int),
    {
        Vec3 {
            x: at_wide_comp(self.orig.x, self.dir.x, t),
            y: at_wide_comp(self.orig.y, self.dir.y, t),
            z: at_wide_comp(self.orig.z, self.dir.z, t),
        }
    }

    pub fn direction(&self) -> (d: Vec3)
        ensures d == self.dir,
    {
        self.dir
    }

    pub fn origin(&self) -> (o: Point3)
        ensures o == self.orig,
    {
        self.orig
    }

    pub fn time(&self) -> (t: i64)
        ensures t == self.time,
    {
        self.time
    }
}

/// One coordinate of `Ray::at_wide`.
fn at_wide_comp(oc: i64, dc: i64, t: i64) -> (r: i64)
    requires
        -0x4000_0000 <= oc <= 0x4000_0000,
        -0x4000_0000 <= dc <= 0x4000_0000,
    ensures
        r == clamp_spec(oc + fx_mul(t as int, dc as int), -POS_MAX as int, POS_MAX as int),
        -POS_MAX <= r <= POS_MAX,
{
    proof {
        crate::vec3::lemma_mul_abs(t as int, dc as int, 0x8000_0000_0000_0000, 0x4000_0000);
    }
    let p: i128 = (t as i128) * (dc as i128);
    let q = crate::fx::div_floor(p, FX_ONE as i128);
    let v: i128 = (oc as i128) + q;
    proof {
        assert(q == fx_mul(t as int, dc as int));
    }
    if v < -(POS_MAX as i128) {
        -POS_MAX
    } else if v > POS_MAX as i128 {
        POS_MAX
    } else {
        v as i64
    }
}

} // verus!
