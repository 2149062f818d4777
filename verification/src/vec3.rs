//! Three-component fixed-point vectors, used for points, directions and
//! colors. Every operation's contract states the exact value of each
//! component of the result.

use vstd::prelude::*;
use crate::fx::{FX_ONE, MUL_MAX, fx_mul, fx_div, mul_fx, div_fx, sqrt_fx, sqrt_floor, clamp_spec, clamp64};

verus! {

/// A vector of three fixed-point scalars.
#[derive(Clone, Copy, PartialEq, Eq, Structural, Debug)]
pub struct Vec3 {
    pub x: i64,
    pub y: i64,
    pub z: i64,
}

pub type Point3 = Vec3;

pub type Color = Vec3;

/// Bound on vector components under which the operations below are free of
/// overflow.
pub const VEC_MAX: i64 = 0x8_0000_0000;

/// Componentwise tolerance under which a vector counts as degenerate.
pub const NEAR_EPS: i64 = 8;

/// All three components lie within `[-b, b]`.
pub open spec fn vec_in(v: Vec3, b: int) -> bool {
    -b <= v.x <= b && -b <= v.y <= b && -b <= v.z <= b
}

/// Exact (unscaled) integer dot product.
pub open spec fn dot_wide_spec(a: Vec3, b: Vec3) -> int {
    a.x * b.x + a.y * b.y + a.z * b.z
}

/// Fixed-point dot product.
pub open spec fn dot_spec(a: Vec3, b: Vec3) -> int {
    fx_mul(a.x as int, b.x as int) + fx_mul(a.y as int, b.y as int) + fx_mul(a.z as int, b.z as int)
}

/// Length of a vector as computed by `Vec3::length`: the unique nonnegative
/// integer whose square is the floor of `|v|^2 * FX_ONE`.
pub open spec fn len_spec(v: Vec3) -> int {
    choose|r: int| 0 <= r && #[trigger] (r * r) <= dot_spec(v, v) * (FX_ONE as int) < (r + 1) * (r + 1)
}

/// All components within the given magnitude.
pub open spec fn near_zero_spec(v: Vec3) -> bool {
    -NEAR_EPS <= v.x <= NEAR_EPS && -NEAR_EPS <= v.y <= NEAR_EPS && -NEAR_EPS <= v.z <= NEAR_EPS
}

/// Exact unit-rescaling of a vector: each component divided by the vector's
/// fixed-point length, clamped to twice unit length.
pub open spec fn unit_of(v: Vec3) -> Vec3 {
    let len = len_spec(v);
    Vec3 {
        x: clamp_spec(fx_div(v.x as int, len), -2 * FX_ONE as int, 2 * FX_ONE as int) as i64,
        y: clamp_spec(fx_div(v.y as int, len), -2 * FX_ONE as int, 2 * FX_ONE as int) as i64,
        z: clamp_spec(fx_div(v.z as int, len), -2 * FX_ONE as int, 2 * FX_ONE as int) as i64,
    }
}

/// Exact value of `Vec3::reflect`.
pub open spec fn reflect_spec(v: Vec3, n: Vec3) -> Vec3 {
    let d = dot_spec(v, n);
    Vec3 {
        x: (v.x - fx_mul(2 * d, n.x as int)) as i64,
        y: (v.y - fx_mul(2 * d, n.y as int)) as i64,
        z: (v.z - fx_mul(2 * d, n.z as int)) as i64,
    }
}

/// Exact value of `Vec3::refract`: Snell refraction of `uv` through a
/// surface with normal `n` and refraction ratio `ratio` (fixed point). The
/// perpendicular part is `ratio * (uv + cos * n)`; the parallel part is
/// `-sqrt(|1 - |perp|^2|) * n`.
pub open spec fn refract_spec(uv: Vec3, n: Vec3, ratio: int) -> Vec3 {
    let mdot = -dot_spec(uv, n);
    let cos = if mdot > FX_ONE as int { FX_ONE as int } else { mdot };
    let px = fx_mul(ratio, uv.x + fx_mul(cos, n.x as int));
    let py = fx_mul(ratio, uv.y + fx_mul(cos, n.y as int));
    let pz = fx_mul(ratio, uv.z + fx_mul(cos, n.z as int));
    let perp = Vec3 { x: px as i64, y: py as i64, z: pz as i64 };
    let ls = dot_spec(perp, perp);
    let m = if ls > FX_ONE as int { ls - FX_ONE as int } else { FX_ONE as int - ls };
    let sq = sqrt_floor(m * (FX_ONE as int));
    Vec3 {
        x: (px - fx_mul(sq, n.x as int)) as i64,
        y: (py - fx_mul(sq, n.y as int)) as i64,
        z: (pz - fx_mul(sq, n.z as int)) as i64,
    }
}

impl Vec3 {
    pub fn zero() -> (r: Vec3)
        ensures r.x == 0 && r.y == 0 && r.z == 0,
    {
        Vec3 { x: 0, y: 0, z: 0 }
    }

    pub fn new(x: i64, y: i64, z: i64) -> (r: Vec3)
        ensures r.x == x && r.y == y && r.z == z,
    {
        Vec3 { x, y, z }
    }

    pub fn x(&self) -> (r: i64)
        ensures r == self.x,
    {
        self.x
    }

    pub fn y(&self) -> (r: i64)
        ensures r == self.y,
    {
        self.y
    }

    pub fn z(&self) -> (r: i64)
        ensures r == self.z,
    {
        self.z
    }

    pub fn add(&self, o: &Vec3) -> (r: Vec3)
        requires
            i64::MIN <= self.x + o.x <= i64::MAX,
            i64::MIN <= self.y + o.y <= i64::MAX,
            i64::MIN <= self.z + o.z <= i64::MAX,
        ensures
            r.x == self.x + o.x && r.y == self.y + o.y && r.z == self.z + o.z,
    {
        Vec3 { x: self.x + o.x, y: self.y + o.y, z: self.z + o.z }
    }

    pub fn sub(&self, o: &Vec3) -> (r: Vec3)
        requires
            i64::MIN <= self.x - o.x <= i64::MAX,
            i64::MIN <= self.y - o.y <= i64::MAX,
            i64::MIN <= self.z - o.z <= i64::MAX,
        ensures
            r.x == self.x - o.x && r.y == self.y - o.y && r.z == self.z - o.z,
    {
        Vec3 { x: self.x - o.x, y: self.y - o.y, z: self.z - o.z }
    }

    pub fn neg(&self) -> (r: Vec3)
        requires
            vec_in(*self, VEC_MAX as int),
        ensures
            r.x == -self.x && r.y == -self.y && r.z == -self.z,
    {
        Vec3 { x: -self.x, y: -self.y, z: -self.z }
    }

    /// Componentwise scaling by a fixed-point scalar.
    pub fn scale(&self, s: i64) -> (r: Vec3)
        requires
            vec_in(*self, MUL_MAX as int),
            -MUL_MAX <= s <= MUL_MAX,
        ensures
            r.x == fx_mul(s as int, self.x as int),
            r.y == fx_mul(s as int, self.y as int),
            r.z == fx_mul(s as int, self.z as int),
    {
        Vec3 { x: mul_fx(s, self.x), y: mul_fx(s, self.y), z: mul_fx(s, self.z) }
    }

    /// Exact integer dot product, without fixed-point rescaling; used where
    /// only the sign or an exact quadratic form is needed.
    pub fn dot_wide(&self, o: &Vec3) -> (r: i128)
        requires
            vec_in(*self, VEC_MAX as int),
            vec_in(*o, VEC_MAX as int),
        ensures
            r == dot_wide_spec(*self, *o),
    {
        proof {
            lemma_mul_abs(self.x as int, o.x as int, VEC_MAX as int, VEC_MAX as int);
            lemma_mul_abs(self.y as int, o.y as int, VEC_MAX as int, VEC_MAX as int);
            lemma_mul_abs(self.z as int, o.z as int, VEC_MAX as int, VEC_MAX as int);
        }
        (self.x as i128) * (o.x as i128)
            + (self.y as i128) * (o.y as i128)
            + (self.z as i128) * (o.z as i128)
    }

    /// Fixed-point dot product.
    pub fn dot(&self, o: &Vec3) -> (r: i64)
        requires
            vec_in(*self, VEC_MAX as int),
            vec_in(*o, VEC_MAX as int),
        ensures
            r == dot_spec(*self, *o),
    {
        proof {
            lemma_fx_mul_abs(self.x as int, o.x as int, VEC_MAX as int, VEC_MAX as int);
            lemma_fx_mul_abs(self.y as int, o.y as int, VEC_MAX as int, VEC_MAX as int);
            lemma_fx_mul_abs(self.z as int, o.z as int, VEC_MAX as int, VEC_MAX as int);
        }
        mul_fx(self.x, o.x) + mul_fx(self.y, o.y) + mul_fx(self.z, o.z)
    }

    /// Fixed-point cross product.
    pub fn cross(&self, o: &Vec3) -> (r: Vec3)
        requires
            vec_in(*self, VEC_MAX as int),
            vec_in(*o, VEC_MAX as int),
        ensures
            r.x == fx_mul(self.y as int, o.z as int) - fx_mul(self.z as int, o.y as int),
            r.y == fx_mul(self.z as int, o.x as int) - fx_mul(self.x as int, o.z as int),
            r.z == fx_mul(self.x as int, o.y as int) - fx_mul(self.y as int, o.x as int),
    {
        proof {
            lemma_fx_mul_abs(self.y as int, o.z as int, VEC_MAX as int, VEC_MAX as int);
            lemma_fx_mul_abs(self.z as int, o.y as int, VEC_MAX as int, VEC_MAX as int);
            lemma_fx_mul_abs(self.z as int, o.x as int, VEC_MAX as int, VEC_MAX as int);
            lemma_fx_mul_abs(self.x as int, o.z as int, VEC_MAX as int, VEC_MAX as int);
            lemma_fx_mul_abs(self.x as int, o.y as int, VEC_MAX as int, VEC_MAX as int);
            lemma_fx_mul_abs(self.y as int, o.x as int, VEC_MAX as int, VEC_MAX as int);
        }
        Vec3 {
            x: mul_fx(self.y, o.z) - mul_fx(self.z, o.y),
            y: mul_fx(self.z, o.x) - mul_fx(self.x, o.z),
            z: mul_fx(self.x, o.y) - mul_fx(self.y, o.x),
        }
    }

    /// Fixed-point squared length.
    pub fn length_squared(&self) -> (r: i64)
        requires
            vec_in(*self, VEC_MAX as int),
        ensures
            r == dot_spec(*self, *self),
            0 <= r,
    {
        proof {
            lemma_fx_mul_abs(self.x as int, self.x as int, VEC_MAX as int, VEC_MAX as int);
            lemma_fx_mul_abs(self.y as int, self.y as int, VEC_MAX as int, VEC_MAX as int);
            lemma_fx_mul_abs(self.z as int, self.z as int, VEC_MAX as int, VEC_MAX as int);
            lemma_fx_square_nonneg(self.x as int);
            lemma_fx_square_nonneg(self.y as int);
            lemma_fx_square_nonneg(self.z as int);
        }
        mul_fx(self.x, self.x) + mul_fx(self.y, self.y) + mul_fx(self.z, self.z)
    }

    /// Fixed-point length: the floor of the root of the fixed-point squared
    /// length.
    pub fn length(&self) -> (r: i64)
        requires
            vec_in(*self, VEC_MAX as int),
        ensures
            0 <= r,
            r * r <= dot_spec(*self, *self) * (FX_ONE as int) < (r + 1) * (r + 1),
            r == len_spec(*self),
    {
        let sq = self.length_squared();
        let r = sqrt_fx(sq);
        proof {
            lemma_len_spec_agrees(*self, r as int);
        }
        r
    }

    /// Rescales to (approximately) unit length: each component is the
    /// fixed-point quotient of the component by the length.
    pub fn unit_vector(&self) -> (r: Vec3)
        requires
            vec_in(*self, VEC_MAX as int),
            dot_spec(*self, *self) >= 1,
        ensures
            r == unit_of(*self),
            vec_in(r, 2 * FX_ONE as int),
    {
        let len = self.length();
        proof {
            assert(len >= 1) by (nonlinear_arith)
                requires
                    0 <= len,
                    (len + 1) * (len + 1) > dot_spec(*self, *self) * (FX_ONE as int),
                    dot_spec(*self, *self) >= 1,
                    FX_ONE == 65536;
            lemma_fx_div_abs(self.x as int, len as int);
            lemma_fx_div_abs(self.y as int, len as int);
            lemma_fx_div_abs(self.z as int, len as int);
        }
        Vec3 {
            x: clamp64(div_fx(self.x, len), -131072, 131072),
            y: clamp64(div_fx(self.y, len), -131072, 131072),
            z: clamp64(div_fx(self.z, len), -131072, 131072),
        }
    }

    /// Unit-length rescaling (an alias of `unit_vector`).
    pub fn norm(&self) -> (r: Vec3)
        requires
            vec_in(*self, VEC_MAX as int),
            dot_spec(*self, *self) >= 1,
        ensures
            r == unit_of(*self),
    {
        self.unit_vector()
    }

    /// Degeneracy test: all components vanish at the fixed-point resolution.
    pub fn is_near_zero(&self) -> (r: bool)
        ensures
            r == near_zero_spec(*self),
    {
        -NEAR_EPS <= self.x && self.x <= NEAR_EPS
            && -NEAR_EPS <= self.y && self.y <= NEAR_EPS
            && -NEAR_EPS <= self.z && self.z <= NEAR_EPS
    }

    /// Mirror reflection about the normal `n`:
    /// `self - 2 * dot(self, n) * n`, in fixed point.
    pub fn reflect(&self, n: &Vec3) -> (r: Vec3)
        requires
            vec_in(*self, 0x4_0000_0000),
            vec_in(*n, 2 * (FX_ONE as int)),
        ensures
            r == reflect_spec(*self, *n),
    {
        proof {
            lemma_dot_spec_abs(*self, *n, 0x4_0000_0000, 2 * (FX_ONE as int));
        }
        let d: i64 = self.dot(n);
        proof {
            lemma_fx_mul_abs(2 * d as int, n.x as int, 0x19_0000_0000_0000, 2 * (FX_ONE as int));
            lemma_fx_mul_abs(2 * d as int, n.y as int, 0x19_0000_0000_0000, 2 * (FX_ONE as int));
            lemma_fx_mul_abs(2 * d as int, n.z as int, 0x19_0000_0000_0000, 2 * (FX_ONE as int));
        }
        let dn = n.scale(2 * d);
        self.sub(&dn)
    }
}

impl Vec3 {
    /// Snell refraction of this (near-unit) direction through a surface with
    /// normal `n`, with the fixed-point ratio of refraction indices.
    pub fn refract(&self, n: Vec3, etai_over_etat: i64) -> (r: Vec3)
        requires
            vec_in(*self, 131072),
            vec_in(n, 131072),
            0 <= etai_over_etat <= 0x8_0000,
        ensures
            r == refract_spec(*self, n, etai_over_etat as int),
            vec_in(r, 0x4_0000_0000),
    {
        proof {
            lemma_dot_spec_abs(*self, n, 131072, 131072);
        }
        let d: i64 = self.dot(&n);
        let cos: i64 = if -d > FX_ONE { FX_ONE } else { -d };
        proof {
            lemma_fx_mul_abs(cos as int, n.x as int, 0x100_0000, 131072);
            lemma_fx_mul_abs(cos as int, n.y as int, 0x100_0000, 131072);
            lemma_fx_mul_abs(cos as int, n.z as int, 0x100_0000, 131072);
            lemma_fx_mul_abs(etai_over_etat as int, (self.x + fx_mul(cos as int, n.x as int)) as int,
                0x8_0000, 0x400_0000);
            lemma_fx_mul_abs(etai_over_etat as int, (self.y + fx_mul(cos as int, n.y as int)) as int,
                0x8_0000, 0x400_0000);
            lemma_fx_mul_abs(etai_over_etat as int, (self.z + fx_mul(cos as int, n.z as int)) as int,
                0x8_0000, 0x400_0000);
        }
        let perp = Vec3 {
            x: mul_fx(etai_over_etat, self.x + mul_fx(cos, n.x)),
            y: mul_fx(etai_over_etat, self.y + mul_fx(cos, n.y)),
            z: mul_fx(etai_over_etat, self.z + mul_fx(cos, n.z)),
        };
        proof {
            lemma_dot_spec_abs(perp, perp, 0x2000_0001, 0x2000_0001);
        }
        let ls = perp.length_squared();
        let m: i64 = if ls > FX_ONE { ls - FX_ONE } else { FX_ONE - ls };
        let sq = sqrt_fx(m);
        proof {
            crate::fx::lemma_sqrt_floor_agrees((m as int) * (FX_ONE as int), sq as int);
            assert(sq <= 0x4000_0000) by (nonlinear_arith)
                requires
                    0 <= sq,
                    (sq as int) * (sq as int) <= (m as int) * (FX_ONE as int),
                    0 <= m <= 0x1000_0000_0003,
                    FX_ONE == 65536;
            lemma_fx_mul_abs(sq as int, n.x as int, 0x4000_0000, 131072);
            lemma_fx_mul_abs(sq as int, n.y as int, 0x4000_0000, 131072);
            lemma_fx_mul_abs(sq as int, n.z as int, 0x4000_0000, 131072);
        }
        Vec3 {
            x: perp.x - mul_fx(sq, n.x),
            y: perp.y - mul_fx(sq, n.y),
            z: perp.z - mul_fx(sq, n.z),
        }
    }
}

/// The product of scalars within `[-ma, ma]` and `[-mb, mb]` lies within
/// `[-ma * mb, ma * mb]`.
pub proof fn lemma_mul_abs(a: int, b: int, ma: int, mb: int)
    requires
        0 <= ma,
        0 <= mb,
        -ma <= a <= ma,
        -mb <= b <= mb,
    ensures
        -(ma * mb) <= a * b <= ma * mb,
{
    assert(-(ma * mb) <= a * b <= ma * mb) by (nonlinear_arith)
        requires 0 <= ma, 0 <= mb, -ma <= a <= ma, -mb <= b <= mb;
}

/// For a positive divisor, dividing the negation loses at most one unit:
/// `(-p) / k >= -(p / k) - 1` for `p >= 0`.
pub proof fn lemma_div_neg(p: int, k: int)
    requires
        0 <= p,
        0 < k,
    ensures
        (-p) / k >= -(p / k) - 1,
{
    vstd::arithmetic::div_mod::lemma_fundamental_div_mod(p, k);
    vstd::arithmetic::div_mod::lemma_mod_bound(p, k);
    vstd::arithmetic::div_mod::lemma_fundamental_div_mod(-p, k);
    vstd::arithmetic::div_mod::lemma_mod_bound(-p, k);
    assert((-p) / k >= -(p / k) - 1) by (nonlinear_arith)
        requires
            p == k * (p / k) + p % k,
            -p == k * ((-p) / k) + (-p) % k,
            0 <= p % k,
            (p % k) < k,
            0 <= (-p) % k,
            ((-p) % k) < k,
            0 < k;
}

/// Range of a fixed-point product from ranges of its operands.
pub proof fn lemma_fx_mul_abs(a: int, b: int, ma: int, mb: int)
    requires
        0 <= ma,
        0 <= mb,
        -ma <= a <= ma,
        -mb <= b <= mb,
    ensures
        -((ma * mb) / (FX_ONE as int)) - 1 <= fx_mul(a, b) <= (ma * mb) / (FX_ONE as int),
{
    lemma_mul_abs(a, b, ma, mb);
    assert(0 <= ma * mb) by (nonlinear_arith)
        requires 0 <= ma, 0 <= mb;
    vstd::arithmetic::div_mod::lemma_div_is_ordered(a * b, ma * mb, FX_ONE as int);
    vstd::arithmetic::div_mod::lemma_div_is_ordered(-(ma * mb), a * b, FX_ONE as int);
    lemma_div_neg(ma * mb, FX_ONE as int);
}

/// Range of a fixed-point dot product from ranges of its operands.
pub proof fn lemma_dot_spec_abs(a: Vec3, b: Vec3, ma: int, mb: int)
    requires
        0 <= ma,
        0 <= mb,
        vec_in(a, ma),
        vec_in(b, mb),
    ensures
        -3 * ((ma * mb) / (FX_ONE as int)) - 3 <= dot_spec(a, b) <= 3 * ((ma * mb) / (FX_ONE as int)),
{
    lemma_fx_mul_abs(a.x as int, b.x as int, ma, mb);
    lemma_fx_mul_abs(a.y as int, b.y as int, ma, mb);
    lemma_fx_mul_abs(a.z as int, b.z as int, ma, mb);
}

/// Range of an exact dot product from ranges of its operands.
pub proof fn lemma_dot_wide_abs(a: Vec3, b: Vec3, ma: int, mb: int)
    requires
        0 <= ma,
        0 <= mb,
        vec_in(a, ma),
        vec_in(b, mb),
    ensures
        -3 * (ma * mb) <= dot_wide_spec(a, b) <= 3 * (ma * mb),
{
    lemma_mul_abs(a.x as int, b.x as int, ma, mb);
    lemma_mul_abs(a.y as int, b.y as int, ma, mb);
    lemma_mul_abs(a.z as int, b.z as int, ma, mb);
}

/// The fixed-point square of any scalar is nonnegative.
pub proof fn lemma_fx_square_nonneg(a: int)
    ensures
        0 <= fx_mul(a, a),
{
    assert(0 <= a * a) by (nonlinear_arith);
    vstd::arithmetic::div_mod::lemma_div_is_ordered(0, a * a, FX_ONE as int);
}

/// `len_spec` is pinned down by any witness to the square-root bounds.
pub proof fn lemma_len_spec_agrees(v: Vec3, r: int)
    requires
        0 <= r,
        r * r <= dot_spec(v, v) * (FX_ONE as int) < (r + 1) * (r + 1),
    ensures
        len_spec(v) == r,
{
    let s = dot_spec(v, v) * (FX_ONE as int);
    assert(0 <= r && r * r <= s < (r + 1) * (r + 1));
    let w = len_spec(v);
    assert(0 <= w && w * w <= s < (w + 1) * (w + 1));
    if w < r {
        assert((w + 1) * (w + 1) <= r * r) by (nonlinear_arith)
            requires 0 <= w < r;
        assert(false);
    }
    if r < w {
        assert((r + 1) * (r + 1) <= w * w) by (nonlinear_arith)
            requires 0 <= r < w;
        assert(false);
    }
}

/// A fixed-point quotient of a bounded numerator by a positive divisor fits
/// the scalar range.
pub proof fn lemma_fx_div_abs(a: int, b: int)
    requires
        -VEC_MAX <= a <= VEC_MAX,
        1 <= b,
    ensures
        -0x8000_0000_0000_0000 <= fx_div(a, b) < 0x8000_0000_0000_0000,
{
    let p = a * (FX_ONE as int);
    assert(-0x80_0000_0000_0000 <= p <= 0x80_0000_0000_0000) by (nonlinear_arith)
        requires
            -VEC_MAX <= a <= VEC_MAX,
            VEC_MAX == 0x8_0000_0000,
            FX_ONE == 65536,
            p == a * (FX_ONE as int);
    vstd::arithmetic::div_mod::lemma_fundamental_div_mod(p, b);
    vstd::arithmetic::div_mod::lemma_mod_bound(p, b);
    assert(-0x8000_0000_0000_0000 <= p / b < 0x8000_0000_0000_0000) by (nonlinear_arith)
        requires
            p == b * (p / b) + p % b,
            0 <= p % b,
            (p % b) < b,
            1 <= b,
            -0x80_0000_0000_0000 <= p <= 0x80_0000_0000_0000;
}

} // verus!
