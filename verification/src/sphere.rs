//! Spheres, static or moving between two keyframe centers. Intersection
//! solves the quadratic `|O + tD - C|^2 = r^2` exactly in integers: the
//! discriminant decides the miss, and the returned parameter is the floor of
//! the nearer admissible root (the farther root is used only when the nearer
//! one falls outside the query interval).

use vstd::prelude::*;
use crate::fx::{FX_ONE, T_INF, fx_mul, fx_div, div_fx, div_floor, isqrt, sqrt_floor,
    lemma_sqrt_floor_agrees, lemma_fx_div_le_one};
use crate::vec3::{Vec3, Point3, vec_in, dot_wide_spec, lemma_dot_wide_abs, lemma_fx_mul_abs,
    lemma_mul_abs};
use crate::ray::{Ray, ray_wf, ray_at_wide_spec};
use crate::fx::clamp_spec;
use crate::aabb::{Aabb, surrounding_spec, aabb_wf};
use crate::material::Material;
use crate::hit_record::{HitRecord, hit_record_spec};

verus! {

/// Largest scene coordinate / radius / extent (raw units) accepted by the
/// primitive constructors.
pub const SCENE_MAX: i64 = 0x800_0000;

/// Largest keyframe time magnitude (raw units).
pub const TIME_MAX: i64 = 0x20_0000_0000;

/// A sphere; when not static the center moves linearly from `center0` at
/// `time0` to `center1` at `time1`.
#[derive(Clone, Copy, PartialEq, Eq, Structural, Debug)]
pub struct Sphere {
    pub center0: Point3,
    pub center1: Point3,
    pub time0: i64,
    pub time1: i64,
    pub radius: i64,
    pub mat: Material,
    pub is_static: bool,
}

/// Well-formed sphere: bounded geometry, positive radius, ordered keyframe
/// times when moving.
pub open spec fn sphere_wf(s: Sphere) -> bool {
    vec_in(s.center0, SCENE_MAX as int)
        && vec_in(s.center1, SCENE_MAX as int)
        && 1 <= s.radius <= SCENE_MAX
        && (s.is_static || (-TIME_MAX <= s.time0 && s.time0 < s.time1 && s.time1 <= TIME_MAX))
}

/// Exact center at a scene time: linear interpolation between the keyframes
/// for a moving sphere.
pub open spec fn sphere_center_spec(s: Sphere, time: int) -> Vec3 {
    if s.is_static {
        s.center0
    } else {
        let frac = fx_div(time - s.time0, s.time1 - s.time0);
        Vec3 {
            x: (s.center0.x + fx_mul(frac, s.center1.x - s.center0.x)) as i64,
            y: (s.center0.y + fx_mul(frac, s.center1.y - s.center0.y)) as i64,
            z: (s.center0.z + fx_mul(frac, s.center1.z - s.center0.z)) as i64,
        }
    }
}

/// Coefficients of the exact intersection quadratic
/// `a t^2 + 2 half_b t + c = 0` (in raw units): `a = |D|^2`,
/// `half_b = OC . D`, `c = |OC|^2 - r^2`.
pub open spec fn sphere_quad(s: Sphere, r: Ray) -> (int, int, int) {
    let cen = sphere_center_spec(s, r.time as int);
    let oc = Vec3 {
        x: (r.orig.x - cen.x) as i64,
        y: (r.orig.y - cen.y) as i64,
        z: (r.orig.z - cen.z) as i64,
    };
    (
        dot_wide_spec(r.dir, r.dir),
        dot_wide_spec(oc, r.dir),
        dot_wide_spec(oc, oc) - (s.radius as int) * (s.radius as int),
    )
}

/// Exact parameter returned by `Sphere::hit`: the floor of the nearer root
/// when it lies in `[t0, t1]`, else the floor of the farther root when that
/// lies in `[t0, t1]`, else none. A negative discriminant is a miss.
pub open spec fn sphere_hit_t(s: Sphere, r: Ray, t0: int, t1: int) -> Option<int> {
    let q = sphere_quad(s, r);
    let a = q.0;
    let hb = q.1;
    let c = q.2;
    let disc = hb * hb - a * c;
    if disc < 0 {
        None
    } else {
        let sq = sqrt_floor(disc);
        let near = ((FX_ONE as int) * (-hb - sq)) / a;
        if t0 <= near && near <= t1 {
            Some(near)
        } else {
            let far = ((FX_ONE as int) * (-hb + sq)) / a;
            if t0 <= far && far <= t1 {
                Some(far)
            } else {
                None
            }
        }
    }
}

/// One component of the outward normal: the centered offset divided by the
/// radius, clamped to twice unit length.
pub open spec fn normal_comp_spec(diff: int, radius: int) -> int {
    clamp_spec(fx_div(diff, radius), -2 * (FX_ONE as int), 2 * (FX_ONE as int))
}

/// The record `Sphere::hit` builds for an accepted parameter `t`. Surface
/// coordinates are reported as zero: the spherical (u, v) parameterization
/// needs inverse trigonometry, and its only consumers are texture lookups
/// that the solid and checker textures ignore.
pub open spec fn sphere_record_spec(s: Sphere, r: Ray, t: int) -> HitRecord {
    let cen = sphere_center_spec(s, r.time as int);
    let p = ray_at_wide_spec(r, t);
    let outward = Vec3 {
        x: normal_comp_spec(p.x - cen.x, s.radius as int) as i64,
        y: normal_comp_spec(p.y - cen.y, s.radius as int) as i64,
        z: normal_comp_spec(p.z - cen.z, s.radius as int) as i64,
    };
    hit_record_spec(p, t, 0, 0, r, outward, s.mat)
}

/// Exact value of `Sphere::hit`.
pub open spec fn sphere_hit_spec(s: Sphere, r: Ray, t0: int, t1: int) -> Option<HitRecord> {
    match sphere_hit_t(s, r, t0, t1) {
        None => None,
        Some(t) => Some(sphere_record_spec(s, r, t)),
    }
}

/// The box `[center - radius, center + radius]` at a given time.
pub open spec fn sphere_box_at(s: Sphere, time: int) -> Aabb {
    let cen = sphere_center_spec(s, time);
    Aabb {
        minimum: Vec3 {
            x: (cen.x - s.radius) as i64,
            y: (cen.y - s.radius) as i64,
            z: (cen.z - s.radius) as i64,
        },
        maximum: Vec3 {
            x: (cen.x + s.radius) as i64,
            y: (cen.y + s.radius) as i64,
            z: (cen.z + s.radius) as i64,
        },
    }
}

/// Exact value of `Sphere::bounding_box`: the static box, or the union of
/// the keyframe boxes at the query times.
pub open spec fn sphere_bbox_spec(s: Sphere, t0: int, t1: int) -> Aabb {
    if s.is_static {
        sphere_box_at(s, t0)
    } else {
        surrounding_spec(sphere_box_at(s, t0), sphere_box_at(s, t1))
    }
}


/// Squaring a two-term sum.
proof fn lemma_square_sum(u: int, v: int, n: int)
    requires
        n == u + v,
    ensures
        n * n == u * u + 2 * (u * v) + v * v,
{
    assert(n * n == u * u + 2 * (u * v) + v * v) by (nonlinear_arith)
        requires n == u + v;
}

/// Monomial regrouping of one squared axis term.
proof fn lemma_axis_square(u: int, o: int, d: int, num: int, n: int)
    requires
        n == u * o + num * d,
    ensures
        n * n == (u * u) * (o * o) + 2 * ((u * num) * (o * d)) + (num * num) * (d * d),
{
    lemma_square_sum(u * o, num * d, n);
    assert((u * o) * (u * o) == (u * u) * (o * o)) by (nonlinear_arith);
    assert((u * o) * (num * d) == (u * num) * (o * d)) by (nonlinear_arith);
    assert((num * d) * (num * d) == (num * num) * (d * d)) by (nonlinear_arith);
}

/// Distributing a common factor over a three-term sum.
proof fn lemma_distrib3(v: int, a1: int, a2: int, a3: int, total: int)
    requires
        total == a1 + a2 + a3,
    ensures
        v * a1 + v * a2 + v * a3 == v * total,
{
    assert(v * a1 + v * a2 + v * a3 == v * total) by (nonlinear_arith)
        requires total == a1 + a2 + a3;
}

/// The accepted root of the intersection quadratic lies on or inside the
/// sphere: with `n_c = a*K*oc_c + num*d_c` the scaled per-axis offsets of the
/// ray position at the exact rational parameter `num / a`, their squared sum
/// is at most `(radius * a * K)^2`. This is the algebraic heart of box
/// coverage: a point of the sphere is inside the sphere's bounding box.
proof fn lemma_sphere_root_in_ball(
    ox: int, oy: int, oz: int, dx: int, dy: int, dz: int, rad: int, sq: int, num: int,
)
    requires
        1 <= dx * dx + dy * dy + dz * dz,
        0 <= sq,
        sq * sq <= (ox * dx + oy * dy + oz * dz) * (ox * dx + oy * dy + oz * dz)
            - (dx * dx + dy * dy + dz * dz)
                * (ox * ox + oy * oy + oz * oz - rad * rad),
        num == (FX_ONE as int) * (-(ox * dx + oy * dy + oz * dz) - sq)
            || num == (FX_ONE as int) * (-(ox * dx + oy * dy + oz * dz) + sq),
    ensures
        ({
            let k = FX_ONE as int;
            let a = dx * dx + dy * dy + dz * dz;
            let nx = a * k * ox + num * dx;
            let ny = a * k * oy + num * dy;
            let nz = a * k * oz + num * dz;
            let m = rad * a * k;
            nx * nx + ny * ny + nz * nz <= m * m
        }),
{
    let k = FX_ONE as int;
    let a = dx * dx + dy * dy + dz * dz;
    let hb = ox * dx + oy * dy + oz * dz;
    let sos = ox * ox + oy * oy + oz * oz;
    let cc = sos - rad * rad;
    let disc = hb * hb - a * cc;
    let w = if num == k * (-hb - sq) { -hb - sq } else { -hb + sq };
    assert(num == k * w);
    assert(2 * (w * hb) + w * w == sq * sq - hb * hb) by (nonlinear_arith)
        requires w == -hb - sq || w == -hb + sq;
    let u = a * k;
    let nx = u * ox + num * dx;
    let ny = u * oy + num * dy;
    let nz = u * oz + num * dz;
    lemma_axis_square(u, ox, dx, num, nx);
    lemma_axis_square(u, oy, dy, num, ny);
    lemma_axis_square(u, oz, dz, num, nz);
    lemma_distrib3(u * u, ox * ox, oy * oy, oz * oz, sos);
    lemma_distrib3(u * num, ox * dx, oy * dy, oz * dz, hb);
    lemma_distrib3(num * num, dx * dx, dy * dy, dz * dz, a);
    assert(nx * nx + ny * ny + nz * nz
        == (u * u) * sos + 2 * ((u * num) * hb) + (num * num) * a);
    let k2 = k * k;
    assert(u * u == (a * a) * k2) by (nonlinear_arith)
        requires u == a * k, k2 == k * k;
    assert(u * num == (a * k2) * w) by (nonlinear_arith)
        requires u == a * k, num == k * w, k2 == k * k;
    assert(num * num == k2 * (w * w)) by (nonlinear_arith)
        requires num == k * w, k2 == k * k;
    assert((a * a) * k2 * sos == (k2 * a) * (a * sos)) by (nonlinear_arith);
    assert(2 * (((a * k2) * w) * hb) == (k2 * a) * (2 * (w * hb))) by (nonlinear_arith);
    assert((k2 * (w * w)) * a == (k2 * a) * (w * w)) by (nonlinear_arith);
    lemma_distrib3(k2 * a, a * sos, 2 * (w * hb), w * w, a * sos + 2 * (w * hb) + w * w);
    assert(nx * nx + ny * ny + nz * nz
        == (k2 * a) * (a * sos + 2 * (w * hb) + w * w));
    assert(a * sos + 2 * (w * hb) + w * w == (sq * sq - disc) + a * (rad * rad))
        by (nonlinear_arith)
        requires
            cc == sos - rad * rad,
            disc == hb * hb - a * cc,
            2 * (w * hb) + w * w == sq * sq - hb * hb;
    assert((k2 * a) * ((sq * sq - disc) + a * (rad * rad))
        <= (k2 * a) * (a * (rad * rad))) by (nonlinear_arith)
        requires 1 <= a, sq * sq <= disc, k2 == 65536 * 65536;
    assert((k2 * a) * (a * (rad * rad)) == (rad * (a * k)) * (rad * (a * k)))
        by (nonlinear_arith)
        requires k2 == k * k, k == 65536;
    assert((rad * (a * k)) * (rad * (a * k)) == (rad * a * k) * (rad * a * k))
        by (nonlinear_arith);
}


/// A fraction strictly between the slab's lower bound on one axis and its
/// upper bound on another forces the strict slab pair comparison.
proof fn lemma_frac_between(ln: int, dd1: int, hn: int, dd2: int, num: int, a: int)
    requires
        1 <= a,
        0 < dd1,
        0 < dd2,
        ln * a < num * dd1,
        num * dd2 < hn * a,
    ensures
        crate::aabb::frac_lt_spec(ln, dd1, hn, dd2),
{
    assert(ln * dd2 < hn * dd1) by (nonlinear_arith)
        requires
            1 <= a,
            0 < dd1,
            0 < dd2,
            ln * a < num * dd1,
            num * dd2 < hn * a;
}

/// A slab lower bound strictly below the accepted root starts before the
/// interval's end.
proof fn lemma_lo_before_t1(ln: int, dd: int, num: int, a: int, tt: int, t1: int)
    requires
        1 <= a,
        0 < dd,
        ln * a < num * dd,
        num < a * (tt + 1),
        tt < t1,
    ensures
        crate::aabb::frac_lt_spec(ln, dd, t1, 1),
{
    assert(ln * 1 < t1 * dd) by (nonlinear_arith)
        requires
            1 <= a,
            0 < dd,
            ln * a < num * dd,
            num < a * (tt + 1),
            tt < t1;
}

/// A slab upper bound strictly above the accepted root ends after the
/// interval's start.
proof fn lemma_t0_before_hi(hn: int, dd: int, num: int, a: int, tt: int, t0: int)
    requires
        1 <= a,
        0 < dd,
        num * dd < hn * a,
        a * tt <= num,
        t0 < tt,
    ensures
        crate::aabb::frac_lt_spec(t0, 1, hn, dd),
{
    assert(t0 * dd < hn * 1) by (nonlinear_arith)
        requires
            1 <= a,
            0 < dd,
            num * dd < hn * a,
            a * tt <= num,
            t0 < tt;
}

/// On an axis with a nonzero direction component, a strictly interior root
/// position puts the exact root strictly between the axis' slab bounds.
proof fn lemma_axis_products(
    ox: int, d: int, num: int, a: int, rad: int, n: int, o_abs: int, minc: int, maxc: int,
)
    requires
        1 <= a,
        1 <= rad,
        n == a * (FX_ONE as int) * ox + num * d,
        -(rad * a * (FX_ONE as int)) < n,
        n < rad * a * (FX_ONE as int),
        d != 0,
        minc == o_abs - ox - rad,
        maxc == o_abs - ox + rad,
    ensures
        crate::aabb::axis_lo_num(minc, maxc, o_abs, d) * a < num * crate::aabb::axis_den(d),
        num * crate::aabb::axis_den(d) < crate::aabb::axis_hi_num(minc, maxc, o_abs, d) * a,
{
    let k = FX_ONE as int;
    if d > 0 {
        assert(((minc - o_abs) * k) * a < num * d) by (nonlinear_arith)
            requires
                n == a * k * ox + num * d,
                -(rad * a * k) < n,
                minc - o_abs == -ox - rad,
                k == 65536;
        assert(num * d < ((maxc - o_abs) * k) * a) by (nonlinear_arith)
            requires
                n == a * k * ox + num * d,
                n < rad * a * k,
                maxc - o_abs == rad - ox,
                k == 65536;
    } else {
        assert(((o_abs - maxc) * k) * a < num * (-d)) by (nonlinear_arith)
            requires
                n == a * k * ox + num * d,
                n < rad * a * k,
                o_abs - maxc == ox - rad,
                k == 65536;
        assert(num * (-d) < ((o_abs - minc) * k) * a) by (nonlinear_arith)
            requires
                n == a * k * ox + num * d,
                -(rad * a * k) < n,
                o_abs - minc == ox + rad,
                k == 65536;
    }
}

/// The numerator of the exact rational root (over denominator `|D|^2`) that
/// `sphere_hit_t` floored and accepted.
pub open spec fn sphere_root_num(s: Sphere, r: Ray, t0: int, t1: int) -> int {
    let q = sphere_quad(s, r);
    let a = q.0;
    let hb = q.1;
    let c = q.2;
    let disc = hb * hb - a * c;
    let sq = sqrt_floor(disc);
    let near = ((FX_ONE as int) * (-hb - sq)) / a;
    if t0 <= near && near <= t1 {
        (FX_ONE as int) * (-hb - sq)
    } else {
        (FX_ONE as int) * (-hb + sq)
    }
}

/// The accepted root's position stays strictly inside the sphere's box on
/// every axis whose direction component is nonzero: the ray does not graze
/// the sphere exactly at an axis pole.
pub open spec fn sphere_hit_interior(s: Sphere, r: Ray, t0: int, t1: int) -> bool {
    let cen = sphere_center_spec(s, r.time as int);
    let a = dot_wide_spec(r.dir, r.dir);
    let k = FX_ONE as int;
    let num = sphere_root_num(s, r, t0, t1);
    let nx = a * k * (r.orig.x - cen.x) + num * r.dir.x;
    let ny = a * k * (r.orig.y - cen.y) + num * r.dir.y;
    let nz = a * k * (r.orig.z - cen.z) + num * r.dir.z;
    let m = (s.radius as int) * a * k;
    (r.dir.x != 0 ==> -m < nx && nx < m)
    && (r.dir.y != 0 ==> -m < ny && ny < m)
    && (r.dir.z != 0 ==> -m < nz && nz < m)
}

/// Law: a static sphere's hits are covered by its own bounding box. Whenever
/// the intersection accepts a root strictly inside the query interval and
/// the exact root does not graze the box exactly at an axis pole, the slab
/// test of the sphere's box accepts that interval too. At exact boundaries —
/// a floored root equal to an interval end, or a hit exactly at an axis pole
/// — the implication can genuinely fail; those measure-zero inputs are what
/// the hypotheses exclude.
pub proof fn lemma_sphere_hit_in_box(s: Sphere, r: Ray, t0: int, t1: int)
    requires
        s.is_static,
        sphere_wf(s),
        ray_wf(r),
        (match sphere_hit_t(s, r, t0, t1) {
            Some(tt) => t0 < tt && tt < t1,
            None => false,
        }),
        sphere_hit_interior(s, r, t0, t1),
    ensures
        crate::aabb::slab_hit(sphere_box_at(s, r.time as int).minimum,
            sphere_box_at(s, r.time as int).maximum, r, t0, t1),
{
    let k = FX_ONE as int;
    let cen = sphere_center_spec(s, r.time as int);
    assert(cen == s.center0);
    let ox = r.orig.x - cen.x as int;
    let oy = r.orig.y - cen.y as int;
    let oz = r.orig.z - cen.z as int;
    let dx = r.dir.x as int;
    let dy = r.dir.y as int;
    let dz = r.dir.z as int;
    let a = dot_wide_spec(r.dir, r.dir);
    let q = sphere_quad(s, r);
    assert(q.0 == a);
    assert(q.1 == ox * dx + oy * dy + oz * dz);
    assert(q.2 == ox * ox + oy * oy + oz * oz - (s.radius as int) * (s.radius as int));
    let hb = q.1;
    let disc = hb * hb - a * q.2;
    assert(disc >= 0);
    crate::fx::lemma_sqrt_floor_props(disc);
    let sq = sqrt_floor(disc);
    let num = sphere_root_num(s, r, t0, t1);
    let tt = sphere_hit_t(s, r, t0, t1)->Some_0;
    assert(num == k * (-hb - sq) || num == k * (-hb + sq));
    assert(tt == num / a);
    vstd::arithmetic::div_mod::lemma_fundamental_div_mod(num, a);
    vstd::arithmetic::div_mod::lemma_mod_bound(num, a);
    assert(a * tt <= num && num < a * (tt + 1)) by (nonlinear_arith)
        requires
            num == a * (num / a) + num % a,
            0 <= num % a,
            (num % a) < a,
            tt == num / a;
    let rad = s.radius as int;
    lemma_sphere_root_in_ball(ox, oy, oz, dx, dy, dz, rad, sq, num);
    let nx = a * k * ox + num * dx;
    let ny = a * k * oy + num * dy;
    let nz = a * k * oz + num * dz;
    let m = rad * a * k;
    assert(nx * nx <= m * m && ny * ny <= m * m && nz * nz <= m * m) by (nonlinear_arith)
        requires nx * nx + ny * ny + nz * nz <= m * m;
    assert(0 < m) by (nonlinear_arith)
        requires 1 <= rad, 1 <= a, k == 65536, m == rad * a * k;
    let bx = sphere_box_at(s, r.time as int);
    assert(bx.minimum.x == cen.x - rad && bx.maximum.x == cen.x + rad);
    assert(bx.minimum.y == cen.y - rad && bx.maximum.y == cen.y + rad);
    assert(bx.minimum.z == cen.z - rad && bx.maximum.z == cen.z + rad);
    // axes with a zero direction component: the origin is inside the slab
    if dx == 0 {
        assert(nx == a * k * ox) by (nonlinear_arith)
            requires
                nx == a * k * ox + num * dx,
                dx == 0;
        assert(-m <= nx <= m) by (nonlinear_arith)
            requires nx * nx <= m * m, 0 < m;
        assert(-rad <= ox <= rad) by (nonlinear_arith)
            requires
                nx == a * k * ox,
                -m <= nx <= m,
                m == rad * a * k,
                1 <= a,
                k == 65536;
    }
    if dy == 0 {
        assert(ny == a * k * oy) by (nonlinear_arith)
            requires
                ny == a * k * oy + num * dy,
                dy == 0;
        assert(-m <= ny <= m) by (nonlinear_arith)
            requires ny * ny <= m * m, 0 < m;
        assert(-rad <= oy <= rad) by (nonlinear_arith)
            requires
                ny == a * k * oy,
                -m <= ny <= m,
                m == rad * a * k,
                1 <= a,
                k == 65536;
    }
    if dz == 0 {
        assert(nz == a * k * oz) by (nonlinear_arith)
            requires
                nz == a * k * oz + num * dz,
                dz == 0;
        assert(-m <= nz <= m) by (nonlinear_arith)
            requires nz * nz <= m * m, 0 < m;
        assert(-rad <= oz <= rad) by (nonlinear_arith)
            requires
                nz == a * k * oz,
                -m <= nz <= m,
                m == rad * a * k,
                1 <= a,
                k == 65536;
    }
    // axes with a nonzero component: the root is strictly between the bounds
    if dx != 0 {
        lemma_axis_products(ox, dx, num, a, rad, nx, r.orig.x as int,
            bx.minimum.x as int, bx.maximum.x as int);
    }
    if dy != 0 {
        lemma_axis_products(oy, dy, num, a, rad, ny, r.orig.y as int,
            bx.minimum.y as int, bx.maximum.y as int);
    }
    if dz != 0 {
        lemma_axis_products(oz, dz, num, a, rad, nz, r.orig.z as int,
            bx.minimum.z as int, bx.maximum.z as int);
    }
    let lnx = crate::aabb::axis_lo_num(bx.minimum.x as int, bx.maximum.x as int, r.orig.x as int, dx);
    let hnx = crate::aabb::axis_hi_num(bx.minimum.x as int, bx.maximum.x as int, r.orig.x as int, dx);
    let lny = crate::aabb::axis_lo_num(bx.minimum.y as int, bx.maximum.y as int, r.orig.y as int, dy);
    let hny = crate::aabb::axis_hi_num(bx.minimum.y as int, bx.maximum.y as int, r.orig.y as int, dy);
    let lnz = crate::aabb::axis_lo_num(bx.minimum.z as int, bx.maximum.z as int, r.orig.z as int, dz);
    let hnz = crate::aabb::axis_hi_num(bx.minimum.z as int, bx.maximum.z as int, r.orig.z as int, dz);
    let ddx = crate::aabb::axis_den(dx);
    let ddy = crate::aabb::axis_den(dy);
    let ddz = crate::aabb::axis_den(dz);
    if dx != 0 {
        lemma_frac_between(lnx, ddx, hnx, ddx, num, a);
        lemma_lo_before_t1(lnx, ddx, num, a, tt, t1);
        lemma_t0_before_hi(hnx, ddx, num, a, tt, t0);
    }
    if dy != 0 {
        lemma_frac_between(lny, ddy, hny, ddy, num, a);
        lemma_lo_before_t1(lny, ddy, num, a, tt, t1);
        lemma_t0_before_hi(hny, ddy, num, a, tt, t0);
    }
    if dz != 0 {
        lemma_frac_between(lnz, ddz, hnz, ddz, num, a);
        lemma_lo_before_t1(lnz, ddz, num, a, tt, t1);
        lemma_t0_before_hi(hnz, ddz, num, a, tt, t0);
    }
    if dx != 0 && dy != 0 {
        lemma_frac_between(lnx, ddx, hny, ddy, num, a);
        lemma_frac_between(lny, ddy, hnx, ddx, num, a);
    }
    if dx != 0 && dz != 0 {
        lemma_frac_between(lnx, ddx, hnz, ddz, num, a);
        lemma_frac_between(lnz, ddz, hnx, ddx, num, a);
    }
    if dy != 0 && dz != 0 {
        lemma_frac_between(lny, ddy, hnz, ddz, num, a);
        lemma_frac_between(lnz, ddz, hny, ddy, num, a);
    }
}

impl Sphere {
    pub fn new_static(cen: Point3, radius: i64, mat: Material) -> (s: Sphere)
        requires
            vec_in(cen, SCENE_MAX as int),
            1 <= radius <= SCENE_MAX,
        ensures
            s == (Sphere {
                center0: cen, center1: cen, time0: 0, time1: 0,
                radius, mat, is_static: true,
            }),
            sphere_wf(s),
    {
        Sphere { center0: cen, center1: cen, time0: 0, time1: 0, radius, mat, is_static: true }
    }

    pub fn new_moving(
        center0: Point3, center1: Point3, radius: i64, mat: Material, time0: i64, time1: i64,
    ) -> (s: Sphere)
        requires
            vec_in(center0, SCENE_MAX as int),
            vec_in(center1, SCENE_MAX as int),
            1 <= radius <= SCENE_MAX,
            -TIME_MAX <= time0 < time1 <= TIME_MAX,
        ensures
            s == (Sphere { center0, center1, time0, time1, radius, mat, is_static: false }),
            sphere_wf(s),
    {
        Sphere { center0, center1, time0, time1, radius, mat, is_static: false }
    }

    /// Center of the sphere at a scene time within its keyframe interval.
    pub fn center(&self, time: i64) -> (cen: Point3)
        requires
            sphere_wf(*self),
            self.is_static || self.time0 <= time <= self.time1,
        ensures
            cen == sphere_center_spec(*self, time as int),
            vec_in(cen, 0x2000_0000),
    {
        if self.is_static {
            return self.center0;
        }
        let span = self.time1 - self.time0;
        proof {
            lemma_fx_div_le_one((time - self.time0) as int, span as int);
        }
        let frac = div_fx(time - self.time0, span);
        proof {
            lemma_fx_mul_abs(frac as int, (self.center1.x - self.center0.x) as int,
                FX_ONE as int, 2 * SCENE_MAX as int);
            lemma_fx_mul_abs(frac as int, (self.center1.y - self.center0.y) as int,
                FX_ONE as int, 2 * SCENE_MAX as int);
            lemma_fx_mul_abs(frac as int, (self.center1.z - self.center0.z) as int,
                FX_ONE as int, 2 * SCENE_MAX as int);
        }
        Vec3 {
            x: self.center0.x + crate::fx::mul_fx(frac, self.center1.x - self.center0.x),
            y: self.center0.y + crate::fx::mul_fx(frac, self.center1.y - self.center0.y),
            z: self.center0.z + crate::fx::mul_fx(frac, self.center1.z - self.center0.z),
        }
    }

    /// Closest intersection of the ray with the sphere in `[t_min, t_max]`,
    /// as pinned down by `sphere_hit_spec`.
    pub fn hit(&self, r: &Ray, t_min: i64, t_max: i64) -> (res: Option<HitRecord>)
        requires
            sphere_wf(*self),
            ray_wf(*r),
            self.is_static || self.time0 <= r.time <= self.time1,
            -T_INF <= t_min <= T_INF,
            -T_INF <= t_max <= T_INF,
        ensures
            res == sphere_hit_spec(*self, *r, t_min as int, t_max as int),
            crate::hit_record::rec_in_range(res, t_min as int, t_max as int),
    {
        let cen = self.center(r.time());
        let oc = r.origin().sub(&cen);
        let d = r.direction();
        proof {
            lemma_dot_wide_abs(d, d, 0x2000_0000, 0x2000_0000);
            lemma_dot_wide_abs(oc, d, 0x4000_0000, 0x2000_0000);
            lemma_dot_wide_abs(oc, oc, 0x4000_0000, 0x4000_0000);
            lemma_mul_abs(self.radius as int, self.radius as int, SCENE_MAX as int, SCENE_MAX as int);
        }
        let a128: i128 = d.dot_wide(&d);
        let hb: i128 = oc.dot_wide(&d);
        let r2: i128 = (self.radius as i128) * (self.radius as i128);
        let c128: i128 = oc.dot_wide(&oc) - r2;
        proof {
            lemma_mul_abs(hb as int, hb as int, 0x1800_0000_0000_0000, 0x1800_0000_0000_0000);
            lemma_mul_abs(a128 as int, c128 as int, 0xC00_0000_0000_0000, 0x3100_0000_0000_0000);
        }
        let disc: i128 = hb * hb - a128 * c128;
        if disc < 0 {
            return None;
        }
        let squ: u128 = isqrt(disc as u128);
        proof {
            assert(squ < 0x1_0000_0000_0000_0000) by (nonlinear_arith)
                requires
                    squ * squ <= disc as u128,
                    disc as u128 <= 0x3_0000_0000_0000_0000_0000_0000_0000_0000;
        }
        let sq: i128 = squ as i128;
        proof {
            lemma_sqrt_floor_agrees(disc as int, sq as int);
        }
        let num_near: i128 = (FX_ONE as i128) * (-hb - sq);
        let near = div_floor(num_near, a128);
        if t_min as i128 <= near && near <= t_max as i128 {
            return Some(self.make_record(r, near as i64, &cen));
        }
        let num_far: i128 = (FX_ONE as i128) * (-hb + sq);
        let far = div_floor(num_far, a128);
        if t_min as i128 <= far && far <= t_max as i128 {
            return Some(self.make_record(r, far as i64, &cen));
        }
        None
    }

    /// Builds the hit record for an accepted parameter.
    fn make_record(&self, r: &Ray, t: i64, cen: &Vec3) -> (rec: HitRecord)
        requires
            sphere_wf(*self),
            ray_wf(*r),
            vec_in(*cen, 0x2000_0000),
            *cen == sphere_center_spec(*self, r.time as int),
        ensures
            rec == sphere_record_spec(*self, *r, t as int),
            rec.t == t,
            vec_in(rec.p, crate::hit_record::REC_POS_MAX as int),
            vec_in(rec.normal, crate::hit_record::NRM_MAX as int),
    {
        let p = r.at_wide(t);
        let outward = Vec3 {
            x: normal_comp(p.x - cen.x, self.radius),
            y: normal_comp(p.y - cen.y, self.radius),
            z: normal_comp(p.z - cen.z, self.radius),
        };
        HitRecord::new(p, t, 0, 0, r, &outward, self.mat)
    }

    /// The sphere's bounding box over a time interval within its keyframes;
    /// every sphere has one.
    pub fn bounding_box(&self, time0: i64, time1: i64) -> (res: Option<Aabb>)
        requires
            sphere_wf(*self),
            self.is_static || (self.time0 <= time0 && time0 <= time1 && time1 <= self.time1),
        ensures
            res == Some(sphere_bbox_spec(*self, time0 as int, time1 as int)),
            aabb_wf(sphere_bbox_spec(*self, time0 as int, time1 as int)),
            vec_in(sphere_bbox_spec(*self, time0 as int, time1 as int).minimum, 0x4000_0000),
            vec_in(sphere_bbox_spec(*self, time0 as int, time1 as int).maximum, 0x4000_0000),
    {
        let rv = Vec3 { x: self.radius, y: self.radius, z: self.radius };
        if self.is_static {
            let cen = self.center(time0);
            return Some(Aabb::new(cen.sub(&rv), cen.add(&rv)));
        }
        let c0 = self.center(time0);
        let c1 = self.center(time1);
        let b0 = Aabb::new(c0.sub(&rv), c0.add(&rv));
        let b1 = Aabb::new(c1.sub(&rv), c1.add(&rv));
        Some(Aabb::surrounding_box(&b0, &b1))
    }
}

/// One component of the sphere's outward normal.
fn normal_comp(diff: i64, radius: i64) -> (r: i64)
    requires
        1 <= radius,
        -0x200_0000_0000 <= diff <= 0x200_0000_0000,
    ensures
        r == normal_comp_spec(diff as int, radius as int),
        -131072 <= r <= 131072,
{
    proof {
        lemma_mul_abs(diff as int, FX_ONE as int, 0x200_0000_0000, FX_ONE as int);
    }
    let p: i128 = (diff as i128) * (FX_ONE as i128);
    let q = div_floor(p, radius as i128);
    if q < -131072 {
        -131072
    } else if q > 131072 {
        131072
    } else {
        q as i64
    }
}

} // verus!
