//! Axis-aligned bounding boxes with an exact slab intersection test.
//!
//! The slab test works on exact rational ray parameters: for each axis with a
//! nonzero direction component the ray is inside the slab for `t` in
//! `[lo, hi]`, where `lo` and `hi` are fractions over the (positive) absolute
//! direction component. The box is hit on `(t_min, t_max)` exactly when every
//! lower bound is strictly below every upper bound; all comparisons are done
//! by cross-multiplication, so no rounding occurs anywhere in the test.

use vstd::prelude::*;
use crate::fx::{FX_ONE, T_INF};
use crate::ray::Ray;
use crate::vec3::{Vec3, Point3, vec_in, lemma_mul_abs};

verus! {

/// An axis-aligned box between two corner points.
#[derive(Clone, Copy, PartialEq, Eq, Structural, Debug)]
pub struct Aabb {
    pub minimum: Point3,
    pub maximum: Point3,
}

/// Both corners ordered on every axis.
pub open spec fn aabb_wf(b: Aabb) -> bool {
    b.minimum.x <= b.maximum.x && b.minimum.y <= b.maximum.y && b.minimum.z <= b.maximum.z
}

/// `outer` contains `inner` on every axis.
pub open spec fn contains_box(outer: Aabb, inner: Aabb) -> bool {
    outer.minimum.x <= inner.minimum.x && inner.maximum.x <= outer.maximum.x
        && outer.minimum.y <= inner.minimum.y && inner.maximum.y <= outer.maximum.y
        && outer.minimum.z <= inner.minimum.z && inner.maximum.z <= outer.maximum.z
}

/// Strict comparison of fractions with positive denominators:
/// `an / ad < bn / bd`.
pub open spec fn frac_lt_spec(an: int, ad: int, bn: int, bd: int) -> bool {
    an * bd < bn * ad
}

/// Numerator of the slab's lower ray-parameter bound on one axis (the
/// denominator is `axis_den(dc)`); the `FX_ONE` factor keeps the bound in
/// raw parameter units, comparable with `t_min` and `t_max`.
pub open spec fn axis_lo_num(minc: int, maxc: int, oc: int, dc: int) -> int {
    if dc > 0 { (minc - oc) * (FX_ONE as int) } else { (oc - maxc) * (FX_ONE as int) }
}

/// Numerator of the slab's upper ray-parameter bound on one axis.
pub open spec fn axis_hi_num(minc: int, maxc: int, oc: int, dc: int) -> int {
    if dc > 0 { (maxc - oc) * (FX_ONE as int) } else { (oc - minc) * (FX_ONE as int) }
}

/// Positive denominator of the slab bounds on one axis.
pub open spec fn axis_den(dc: int) -> int {
    if dc >= 0 { dc } else { -dc }
}

/// One axis' own slab interval is nonempty, begins before `t1` and ends
/// after `t0`.
pub open spec fn axis_ok(minc: int, maxc: int, oc: int, dc: int, t0: int, t1: int) -> bool {
    let ln = axis_lo_num(minc, maxc, oc, dc);
    let hn = axis_hi_num(minc, maxc, oc, dc);
    let dd = axis_den(dc);
    frac_lt_spec(ln, dd, hn, dd) && frac_lt_spec(ln, dd, t1, 1) && frac_lt_spec(t0, 1, hn, dd)
}

/// The lower bound of axis `a` lies strictly below the upper bound of
/// axis `b`.
pub open spec fn cross_ok(
    a_min: int, a_max: int, a_o: int, a_d: int,
    b_min: int, b_max: int, b_o: int, b_d: int,
) -> bool {
    frac_lt_spec(
        axis_lo_num(a_min, a_max, a_o, a_d), axis_den(a_d),
        axis_hi_num(b_min, b_max, b_o, b_d), axis_den(b_d),
    )
}

/// Exact value of the slab test: the ray parameters `t` in `(t0, t1)` at
/// which the ray is inside the box form a nonempty set. Axes with a zero
/// direction component constrain the origin instead.
pub open spec fn slab_hit(bmin: Vec3, bmax: Vec3, r: Ray, t0: int, t1: int) -> bool {
    let o = r.orig;
    let d = r.dir;
    t0 < t1
    && (d.x == 0 ==> bmin.x <= o.x <= bmax.x)
    && (d.y == 0 ==> bmin.y <= o.y <= bmax.y)
    && (d.z == 0 ==> bmin.z <= o.z <= bmax.z)
    && (d.x != 0 ==> axis_ok(bmin.x as int, bmax.x as int, o.x as int, d.x as int, t0, t1))
    && (d.y != 0 ==> axis_ok(bmin.y as int, bmax.y as int, o.y as int, d.y as int, t0, t1))
    && (d.z != 0 ==> axis_ok(bmin.z as int, bmax.z as int, o.z as int, d.z as int, t0, t1))
    && (d.x != 0 && d.y != 0 ==> cross_ok(
            bmin.x as int, bmax.x as int, o.x as int, d.x as int,
            bmin.y as int, bmax.y as int, o.y as int, d.y as int)
        && cross_ok(
            bmin.y as int, bmax.y as int, o.y as int, d.y as int,
            bmin.x as int, bmax.x as int, o.x as int, d.x as int))
    && (d.x != 0 && d.z != 0 ==> cross_ok(
            bmin.x as int, bmax.x as int, o.x as int, d.x as int,
            bmin.z as int, bmax.z as int, o.z as int, d.z as int)
        && cross_ok(
            bmin.z as int, bmax.z as int, o.z as int, d.z as int,
            bmin.x as int, bmax.x as int, o.x as int, d.x as int))
    && (d.y != 0 && d.z != 0 ==> cross_ok(
            bmin.y as int, bmax.y as int, o.y as int, d.y as int,
            bmin.z as int, bmax.z as int, o.z as int, d.z as int)
        && cross_ok(
            bmin.z as int, bmax.z as int, o.z as int, d.z as int,
            bmin.y as int, bmax.y as int, o.y as int, d.y as int))
}

/// Exact strict comparison of two fractions with positive denominators.
pub fn frac_lt(an: i64, ad: i64, bn: i64, bd: i64) -> (r: bool)
    requires
        0 < ad <= T_INF,
        0 < bd <= T_INF,
        -0x4000_0000_0000_0000 <= an <= 0x4000_0000_0000_0000,
        -0x4000_0000_0000_0000 <= bn <= 0x4000_0000_0000_0000,
    ensures
        r == frac_lt_spec(an as int, ad as int, bn as int, bd as int),
{
    proof {
        lemma_mul_abs(an as int, bd as int, 0x4000_0000_0000_0000, T_INF as int);
        lemma_mul_abs(bn as int, ad as int, 0x4000_0000_0000_0000, T_INF as int);
    }
    (an as i128) * (bd as i128) < (bn as i128) * (ad as i128)
}

/// Slab bound fractions of one axis, for a nonzero direction component:
/// lower and upper numerator, and the shared positive denominator.
fn axis_bounds(minc: i64, maxc: i64, oc: i64, dc: i64) -> (r: (i64, i64, i64))
    requires
        dc != 0,
        -0x4000_0000 <= minc <= 0x4000_0000,
        -0x4000_0000 <= maxc <= 0x4000_0000,
        -0x4000_0000 <= oc <= 0x4000_0000,
        -0x4000_0000 <= dc <= 0x4000_0000,
    ensures
        r.0 == axis_lo_num(minc as int, maxc as int, oc as int, dc as int),
        r.1 == axis_hi_num(minc as int, maxc as int, oc as int, dc as int),
        r.2 == axis_den(dc as int),
        0 < r.2 <= 0x4000_0000,
        -0x8000_0000_0000 <= r.0 <= 0x8000_0000_0000,
        -0x8000_0000_0000 <= r.1 <= 0x8000_0000_0000,
{
    if dc > 0 {
        ((minc - oc) * FX_ONE, (maxc - oc) * FX_ONE, dc)
    } else {
        ((oc - maxc) * FX_ONE, (oc - minc) * FX_ONE, -dc)
    }
}

impl Aabb {
    pub fn new(a: Point3, b: Point3) -> (r: Aabb)
        ensures r.minimum == a && r.maximum == b,
    {
        Aabb { minimum: a, maximum: b }
    }

    pub fn min(&self) -> (r: Point3)
        ensures r == self.minimum,
    {
        self.minimum
    }

    pub fn max(&self) -> (r: Point3)
        ensures r == self.maximum,
    {
        self.maximum
    }

    /// Exact slab test: true exactly when the rational ray parameters inside
    /// the box meet the open query interval `(t_min, t_max)`.
    pub fn hit(&self, r: &Ray, t_min: i64, t_max: i64) -> (res: bool)
        requires
            vec_in(self.minimum, 0x4000_0000),
            vec_in(self.maximum, 0x4000_0000),
            vec_in(r.orig, 0x4000_0000),
            vec_in(r.dir, 0x4000_0000),
            -T_INF <= t_min <= T_INF,
            -T_INF <= t_max <= T_INF,
        ensures
            res == slab_hit(self.minimum, self.maximum, *r, t_min as int, t_max as int),
    {
        let o = r.orig;
        let d = r.dir;
        if !(t_min < t_max) {
            return false;
        }
        if d.x == 0 && !(self.minimum.x <= o.x && o.x <= self.maximum.x) {
            return false;
        }
        if d.y == 0 && !(self.minimum.y <= o.y && o.y <= self.maximum.y) {
            return false;
        }
        if d.z == 0 && !(self.minimum.z <= o.z && o.z <= self.maximum.z) {
            return false;
        }
        let bx = if d.x != 0 {
            axis_bounds(self.minimum.x, self.maximum.x, o.x, d.x)
        } else {
            (0i64, 0i64, 1i64)
        };
        let by = if d.y != 0 {
            axis_bounds(self.minimum.y, self.maximum.y, o.y, d.y)
        } else {
            (0i64, 0i64, 1i64)
        };
        let bz = if d.z != 0 {
            axis_bounds(self.minimum.z, self.maximum.z, o.z, d.z)
        } else {
            (0i64, 0i64, 1i64)
        };
        if d.x != 0 {
            if !frac_lt(bx.0, bx.2, bx.1, bx.2) { return false; }
            if !frac_lt(bx.0, bx.2, t_max, 1) { return false; }
            if !frac_lt(t_min, 1, bx.1, bx.2) { return false; }
        }
        if d.y != 0 {
            if !frac_lt(by.0, by.2, by.1, by.2) { return false; }
            if !frac_lt(by.0, by.2, t_max, 1) { return false; }
            if !frac_lt(t_min, 1, by.1, by.2) { return false; }
        }
        if d.z != 0 {
            if !frac_lt(bz.0, bz.2, bz.1, bz.2) { return false; }
            if !frac_lt(bz.0, bz.2, t_max, 1) { return false; }
            if !frac_lt(t_min, 1, bz.1, bz.2) { return false; }
        }
        if d.x != 0 && d.y != 0 {
            if !frac_lt(bx.0, bx.2, by.1, by.2) { return false; }
            if !frac_lt(by.0, by.2, bx.1, bx.2) { return false; }
        }
        if d.x != 0 && d.z != 0 {
            if !frac_lt(bx.0, bx.2, bz.1, bz.2) { return false; }
            if !frac_lt(bz.0, bz.2, bx.1, bx.2) { return false; }
        }
        if d.y != 0 && d.z != 0 {
            if !frac_lt(by.0, by.2, bz.1, bz.2) { return false; }
            if !frac_lt(bz.0, bz.2, by.1, by.2) { return false; }
        }
        true
    }

    /// The componentwise union: minimum of minima, maximum of maxima.
    pub fn surrounding_box(a: &Aabb, b: &Aabb) -> (r: Aabb)
        ensures
            r == surrounding_spec(*a, *b),
    {
        Aabb {
            minimum: Vec3 {
                x: min_i64(a.minimum.x, b.minimum.x),
                y: min_i64(a.minimum.y, b.minimum.y),
                z: min_i64(a.minimum.z, b.minimum.z),
            },
            maximum: Vec3 {
                x: max_i64(a.maximum.x, b.maximum.x),
                y: max_i64(a.maximum.y, b.maximum.y),
                z: max_i64(a.maximum.z, b.maximum.z),
            },
        }
    }
}

/// Exact value of `Aabb::surrounding_box`.
pub open spec fn surrounding_spec(a: Aabb, b: Aabb) -> Aabb {
    Aabb {
        minimum: Vec3 {
            x: if a.minimum.x <= b.minimum.x { a.minimum.x } else { b.minimum.x },
            y: if a.minimum.y <= b.minimum.y { a.minimum.y } else { b.minimum.y },
            z: if a.minimum.z <= b.minimum.z { a.minimum.z } else { b.minimum.z },
        },
        maximum: Vec3 {
            x: if a.maximum.x >= b.maximum.x { a.maximum.x } else { b.maximum.x },
            y: if a.maximum.y >= b.maximum.y { a.maximum.y } else { b.maximum.y },
            z: if a.maximum.z >= b.maximum.z { a.maximum.z } else { b.maximum.z },
        },
    }
}

/// The smaller of two scalars.
pub fn min_i64(a: i64, b: i64) -> (r: i64)
    ensures r == if a <= b { a as int } else { b as int },
{
    if a <= b { a } else { b }
}

/// The larger of two scalars.
pub fn max_i64(a: i64, b: i64) -> (r: i64)
    ensures r == if a >= b { a as int } else { b as int },
{
    if a >= b { a } else { b }
}

/// Law: the surrounding box of any two well-formed boxes is well-formed and
/// contains both inputs entirely, whether they overlap, nest or are disjoint.
pub proof fn lemma_surrounding_box_contains(a: Aabb, b: Aabb)
    requires
        aabb_wf(a),
        aabb_wf(b),
    ensures
        aabb_wf(surrounding_spec(a, b)),
        contains_box(surrounding_spec(a, b), a),
        contains_box(surrounding_spec(a, b), b),
{
}

/// A fraction stays strictly below an upper bound when its numerator shrinks
/// (shared positive denominators).
proof fn lemma_frac_weaken_lo(an2: int, an1: int, ad: int, bn: int, bd: int)
    requires
        an2 <= an1,
        0 < ad,
        0 < bd,
        frac_lt_spec(an1, ad, bn, bd),
    ensures
        frac_lt_spec(an2, ad, bn, bd),
{
    assert(an2 * bd <= an1 * bd) by (nonlinear_arith)
        requires an2 <= an1, 0 < bd;
}

/// A fraction stays strictly above a lower bound when its numerator grows.
proof fn lemma_frac_weaken_hi(an: int, ad: int, bn1: int, bn2: int, bd: int)
    requires
        bn1 <= bn2,
        0 < ad,
        0 < bd,
        frac_lt_spec(an, ad, bn1, bd),
    ensures
        frac_lt_spec(an, ad, bn2, bd),
{
    assert(bn1 * ad <= bn2 * ad) by (nonlinear_arith)
        requires bn1 <= bn2, 0 < ad;
}

/// Law: the slab test is monotone in the box. A ray and interval that hit a
/// box also hit every box containing it; this is what lets a BVH node's
/// bounding box stand in for everything beneath it.
pub proof fn lemma_slab_hit_monotone(small: Aabb, big: Aabb, r: Ray, t0: int, t1: int)
    requires
        contains_box(big, small),
        slab_hit(small.minimum, small.maximum, r, t0, t1),
    ensures
        slab_hit(big.minimum, big.maximum, r, t0, t1),
{
    let o = r.orig;
    let d = r.dir;
    lemma_axis_weaken(small.minimum.x as int, small.maximum.x as int,
        big.minimum.x as int, big.maximum.x as int, o.x as int, d.x as int);
    lemma_axis_weaken(small.minimum.y as int, small.maximum.y as int,
        big.minimum.y as int, big.maximum.y as int, o.y as int, d.y as int);
    lemma_axis_weaken(small.minimum.z as int, small.maximum.z as int,
        big.minimum.z as int, big.maximum.z as int, o.z as int, d.z as int);
    let sx = (small.minimum.x as int, small.maximum.x as int);
    let sy = (small.minimum.y as int, small.maximum.y as int);
    let sz = (small.minimum.z as int, small.maximum.z as int);
    let bx = (big.minimum.x as int, big.maximum.x as int);
    let by = (big.minimum.y as int, big.maximum.y as int);
    let bz = (big.minimum.z as int, big.maximum.z as int);
    if d.x != 0 {
        lemma_axis_ok_weaken(sx.0, sx.1, bx.0, bx.1, o.x as int, d.x as int, t0, t1);
    }
    if d.y != 0 {
        lemma_axis_ok_weaken(sy.0, sy.1, by.0, by.1, o.y as int, d.y as int, t0, t1);
    }
    if d.z != 0 {
        lemma_axis_ok_weaken(sz.0, sz.1, bz.0, bz.1, o.z as int, d.z as int, t0, t1);
    }
    if d.x != 0 && d.y != 0 {
        lemma_cross_ok_weaken(sx.0, sx.1, bx.0, bx.1, o.x as int, d.x as int,
            sy.0, sy.1, by.0, by.1, o.y as int, d.y as int);
        lemma_cross_ok_weaken(sy.0, sy.1, by.0, by.1, o.y as int, d.y as int,
            sx.0, sx.1, bx.0, bx.1, o.x as int, d.x as int);
    }
    if d.x != 0 && d.z != 0 {
        lemma_cross_ok_weaken(sx.0, sx.1, bx.0, bx.1, o.x as int, d.x as int,
            sz.0, sz.1, bz.0, bz.1, o.z as int, d.z as int);
        lemma_cross_ok_weaken(sz.0, sz.1, bz.0, bz.1, o.z as int, d.z as int,
            sx.0, sx.1, bx.0, bx.1, o.x as int, d.x as int);
    }
    if d.y != 0 && d.z != 0 {
        lemma_cross_ok_weaken(sy.0, sy.1, by.0, by.1, o.y as int, d.y as int,
            sz.0, sz.1, bz.0, bz.1, o.z as int, d.z as int);
        lemma_cross_ok_weaken(sz.0, sz.1, bz.0, bz.1, o.z as int, d.z as int,
            sy.0, sy.1, by.0, by.1, o.y as int, d.y as int);
    }
}

/// Widening a slab moves its lower numerator down and upper numerator up.
proof fn lemma_axis_weaken(s_min: int, s_max: int, b_min: int, b_max: int, oc: int, dc: int)
    requires
        b_min <= s_min,
        s_max <= b_max,
    ensures
        axis_lo_num(b_min, b_max, oc, dc) <= axis_lo_num(s_min, s_max, oc, dc),
        axis_hi_num(s_min, s_max, oc, dc) <= axis_hi_num(b_min, b_max, oc, dc),
{
}

proof fn lemma_axis_ok_weaken(
    s_min: int, s_max: int, b_min: int, b_max: int, oc: int, dc: int, t0: int, t1: int,
)
    requires
        dc != 0,
        b_min <= s_min,
        s_max <= b_max,
        axis_ok(s_min, s_max, oc, dc, t0, t1),
    ensures
        axis_ok(b_min, b_max, oc, dc, t0, t1),
{
    let dd = axis_den(dc);
    lemma_axis_weaken(s_min, s_max, b_min, b_max, oc, dc);
    lemma_frac_weaken_lo(
        axis_lo_num(b_min, b_max, oc, dc), axis_lo_num(s_min, s_max, oc, dc), dd,
        axis_hi_num(s_min, s_max, oc, dc), dd);
    lemma_frac_weaken_hi(
        axis_lo_num(b_min, b_max, oc, dc), dd,
        axis_hi_num(s_min, s_max, oc, dc), axis_hi_num(b_min, b_max, oc, dc), dd);
    lemma_frac_weaken_lo(
        axis_lo_num(b_min, b_max, oc, dc), axis_lo_num(s_min, s_max, oc, dc), dd, t1, 1);
    lemma_frac_weaken_hi(
        t0, 1,
        axis_hi_num(s_min, s_max, oc, dc), axis_hi_num(b_min, b_max, oc, dc), dd);
}

proof fn lemma_cross_ok_weaken(
    a_smin: int, a_smax: int, a_bmin: int, a_bmax: int, a_o: int, a_d: int,
    b_smin: int, b_smax: int, b_bmin: int, b_bmax: int, b_o: int, b_d: int,
)
    requires
        a_d != 0,
        b_d != 0,
        a_bmin <= a_smin,
        a_smax <= a_bmax,
        b_bmin <= b_smin,
        b_smax <= b_bmax,
        cross_ok(a_smin, a_smax, a_o, a_d, b_smin, b_smax, b_o, b_d),
    ensures
        cross_ok(a_bmin, a_bmax, a_o, a_d, b_bmin, b_bmax, b_o, b_d),
{
    lemma_axis_weaken(a_smin, a_smax, a_bmin, a_bmax, a_o, a_d);
    lemma_axis_weaken(b_smin, b_smax, b_bmin, b_bmax, b_o, b_d);
    lemma_frac_weaken_lo(
        axis_lo_num(a_bmin, a_bmax, a_o, a_d), axis_lo_num(a_smin, a_smax, a_o, a_d),
        axis_den(a_d),
        axis_hi_num(b_smin, b_smax, b_o, b_d), axis_den(b_d));
    lemma_frac_weaken_hi(
        axis_lo_num(a_bmin, a_bmax, a_o, a_d), axis_den(a_d),
        axis_hi_num(b_smin, b_smax, b_o, b_d), axis_hi_num(b_bmin, b_bmax, b_o, b_d),
        axis_den(b_d));
}

} // verus!
