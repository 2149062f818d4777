//! Fixed-point scalar arithmetic: every scalar of the tracer is an `i64`
//! holding a multiple of `1 / FX_ONE` world units. Multiplication and
//! division round toward negative infinity; the spec functions here are the
//! exact definitions the rest of the library's contracts are written against.

use vstd::prelude::*;

verus! {

/// Raw units per 1.0 world unit.
pub const FX_ONE: i64 = 65536;

/// Sentinel for "no upper bound" on a ray parameter.
pub const T_INF: i64 = 0x1000_0000_0000_0000;

/// Bound under which `mul_fx` is free of overflow.
pub const MUL_MAX: i64 = 0x80_0000_0000;

/// `v` clamped to `[lo, hi]`.
pub open spec fn clamp_spec(v: int, lo: int, hi: int) -> int {
    if v < lo { lo } else if v > hi { hi } else { v }
}

/// `v` clamped into `[lo, hi]`.
pub fn clamp64(v: i64, lo: i64, hi: i64) -> (r: i64)
    requires
        lo <= hi,
    ensures
        r == clamp_spec(v as int, lo as int, hi as int),
        lo <= r <= hi,
{
    if v < lo {
        lo
    } else if v > hi {
        hi
    } else {
        v
    }
}

/// Exact value of fixed-point multiplication (floor of the real product).
pub open spec fn fx_mul(a: int, b: int) -> int {
    (a * b) / (FX_ONE as int)
}

/// Exact value of fixed-point division (floor of the real quotient), for a
/// positive divisor.
pub open spec fn fx_div(a: int, b: int) -> int {
    (a * (FX_ONE as int)) / b
}

/// Floor division of a signed dividend by a positive divisor.
pub fn div_floor(a: i128, b: i128) -> (r: i128)
    requires
        0 < b < 0x2000_0000_0000_0000_0000_0000_0000_0000,
        -0x2000_0000_0000_0000_0000_0000_0000_0000 < a < 0x2000_0000_0000_0000_0000_0000_0000_0000,
    ensures
        r == a as int / b as int,
        b * r <= a < b * (r + 1),
{
    proof {
        vstd::arithmetic::div_mod::lemma_fundamental_div_mod(a as int, b as int);
        vstd::arithmetic::div_mod::lemma_mod_bound(a as int, b as int);
        assert(b * (a as int / b as int) <= a < b * (a as int / b as int + 1)) by (nonlinear_arith)
            requires
                a == b * (a as int / b as int) + a as int % b as int,
                0 <= a as int % b as int,
                (a as int % b as int) < b;
    }
    if a >= 0 {
        a / b
    } else {
        let n = -a + b - 1;
        let q = n / b;
        proof {
            vstd::arithmetic::div_mod::lemma_fundamental_div_mod(n as int, b as int);
            vstd::arithmetic::div_mod::lemma_mod_bound(n as int, b as int);
            let d = a as int / b as int;
            let m = a as int % b as int;
            assert(n == b * (-d) + (b - 1 - m)) by (nonlinear_arith)
                requires
                    a == b * d + m,
                    n == -a + b - 1;
            assert(0 <= b - 1 - m < b);
            vstd::arithmetic::div_mod::lemma_fundamental_div_mod_converse(
                n as int, b as int, -d, b - 1 - m);
            assert(q == -d);
        }
        -q
    }
}

/// Fixed-point product, rounded toward negative infinity.
pub fn mul_fx(a: i64, b: i64) -> (r: i64)
    requires
        -MUL_MAX <= a <= MUL_MAX,
        -MUL_MAX <= b <= MUL_MAX,
    ensures
        r == fx_mul(a as int, b as int),
{
    proof {
        assert(-0x4000_0000_0000_0000_0000 <= (a as int) * (b as int) <= 0x4000_0000_0000_0000_0000)
            by (nonlinear_arith)
            requires
                -MUL_MAX <= a <= MUL_MAX,
                -MUL_MAX <= b <= MUL_MAX;
    }
    let p: i128 = (a as i128) * (b as i128);
    let q = div_floor(p, FX_ONE as i128);
    proof {
        assert(-0x8000_0000_0000_0000 < q < 0x8000_0000_0000_0000) by (nonlinear_arith)
            requires
                (FX_ONE as int) * q <= p < (FX_ONE as int) * (q + 1),
                -0x4000_0000_0000_0000_0000 <= p <= 0x4000_0000_0000_0000_0000,
                FX_ONE == 65536;
    }
    q as i64
}

/// Fixed-point quotient `a / b`, rounded toward negative infinity; the
/// divisor must be positive and the exact quotient must fit the scalar range.
pub fn div_fx(a: i64, b: i64) -> (r: i64)
    requires
        0 < b,
        -MUL_MAX <= a <= MUL_MAX,
        -0x8000_0000_0000_0000 <= fx_div(a as int, b as int) < 0x8000_0000_0000_0000,
    ensures
        r == fx_div(a as int, b as int),
{
    proof {
        assert(-0x4000_0000_0000_0000_0000 <= (a as int) * (FX_ONE as int) <= 0x4000_0000_0000_0000_0000)
            by (nonlinear_arith)
            requires
                -MUL_MAX <= a <= MUL_MAX,
                FX_ONE == 65536;
    }
    let p: i128 = (a as i128) * (FX_ONE as i128);
    let q = div_floor(p, b as i128);
    q as i64
}

/// Integer square root: the greatest `r` with `r * r <= n`.
pub fn isqrt(n: u128) -> (r: u128)
    requires
        n < 0x4000_0000_0000_0000_0000_0000_0000_0000,
    ensures
        r * r <= n < (r + 1) * (r + 1),
{
    let mut lo: u128 = 0;
    let mut hi: u128 = 0x8000_0000_0000_0000;
    proof {
        assert(hi * hi > n) by (nonlinear_arith)
            requires
                n < 0x4000_0000_0000_0000_0000_0000_0000_0000,
                hi == 0x8000_0000_0000_0000;
    }
    while lo + 1 < hi
        invariant
            lo < hi <= 0x8000_0000_0000_0000,
            lo * lo <= n,
            hi * hi > n,
        decreases hi - lo,
    {
        let mid = lo + (hi - lo) / 2;
        proof {
            assert(lo < mid < hi);
            assert(mid * mid <= 0x4000_0000_0000_0000_0000_0000_0000_0000) by (nonlinear_arith)
                requires mid <= 0x8000_0000_0000_0000;
        }
        if mid * mid <= n {
            lo = mid;
        } else {
            hi = mid;
        }
    }
    lo
}

/// Floor of the square root of a nonnegative integer.
pub open spec fn sqrt_floor(n: int) -> int {
    choose|r: int| 0 <= r && #[trigger] (r * r) <= n < (r + 1) * (r + 1)
}

/// `sqrt_floor` is pinned down by any witness to its bounds.
pub proof fn lemma_sqrt_floor_agrees(n: int, r: int)
    requires
        0 <= r,
        r * r <= n < (r + 1) * (r + 1),
    ensures
        sqrt_floor(n) == r,
{
    assert(0 <= r && r * r <= n < (r + 1) * (r + 1));
    let w = sqrt_floor(n);
    assert(0 <= w && w * w <= n < (w + 1) * (w + 1));
    if w < r {
        assert((w + 1) * (w + 1) <= r * r) by (nonlinear_arith)
            requires 0 <= w < r;
        assert(false);
    }
    if r < w {
        assert((r + 1) * (r + 1) <= w * w) by (nonlinear_arith)
            requires 0 <= r < w;
        assert(false);
    }
}

/// `sqrt_floor` satisfies its defining bounds for every nonnegative input.
pub proof fn lemma_sqrt_floor_props(n: int)
    requires
        0 <= n,
    ensures
        0 <= sqrt_floor(n),
        sqrt_floor(n) * sqrt_floor(n) <= n,
        n < (sqrt_floor(n) + 1) * (sqrt_floor(n) + 1),
    decreases n,
{
    if n == 0 {
        assert(0 * 0 <= 0 < 1 * 1) by (nonlinear_arith);
        lemma_sqrt_floor_agrees(0, 0);
    } else {
        lemma_sqrt_floor_props(n - 1);
        let r = sqrt_floor(n - 1);
        if (r + 1) * (r + 1) <= n {
            assert(n == (r + 1) * (r + 1));
            assert(n < (r + 2) * (r + 2)) by (nonlinear_arith)
                requires
                    n == (r + 1) * (r + 1),
                    0 <= r;
            lemma_sqrt_floor_agrees(n, r + 1);
        } else {
            lemma_sqrt_floor_agrees(n, r);
        }
    }
}

/// A fixed-point quotient of `a` by a larger positive `b` lies in `[0, 1]`.
pub proof fn lemma_fx_div_le_one(a: int, b: int)
    requires
        0 <= a <= b,
        1 <= b,
    ensures
        0 <= fx_div(a, b) <= FX_ONE as int,
{
    let k = FX_ONE as int;
    assert(0 <= a * k <= b * k) by (nonlinear_arith)
        requires 0 <= a <= b, 0 < k;
    vstd::arithmetic::div_mod::lemma_div_is_ordered(0, a * k, b);
    vstd::arithmetic::div_mod::lemma_div_is_ordered(a * k, b * k, b);
    vstd::arithmetic::div_mod::lemma_div_multiples_vanish(k, b);
}

/// A fixed-point product is the floor of the real product: it is within one
/// unit below `a * b / FX_ONE`.
pub proof fn lemma_fx_mul_bounds(a: int, b: int)
    ensures
        (FX_ONE as int) * fx_mul(a, b) <= a * b,
        a * b < (FX_ONE as int) * fx_mul(a, b) + (FX_ONE as int),
{
    vstd::arithmetic::div_mod::lemma_fundamental_div_mod(a * b, FX_ONE as int);
    vstd::arithmetic::div_mod::lemma_mod_bound(a * b, FX_ONE as int);
}

/// A fixed-point quotient of a nonnegative numerator by a positive divisor
/// is nonnegative and at most the scaled numerator.
pub proof fn lemma_fx_div_nonneg_le(a: int, b: int)
    requires
        0 <= a,
        1 <= b,
    ensures
        0 <= fx_div(a, b) <= a * (FX_ONE as int),
{
    let k = FX_ONE as int;
    assert(0 <= a * k) by (nonlinear_arith)
        requires 0 <= a, 0 < k;
    vstd::arithmetic::div_mod::lemma_div_is_ordered(0, a * k, b);
    vstd::arithmetic::div_mod::lemma_div_is_ordered_by_denominator(a * k, 1, b);
    assert((a * k) / 1 == a * k);
}

/// Fixed-point square root: returns `r` with
/// `r * r <= x * FX_ONE < (r + 1) * (r + 1)`, the floor of the real root.
pub fn sqrt_fx(x: i64) -> (r: i64)
    requires
        0 <= x,
    ensures
        0 <= r,
        r * r <= x * (FX_ONE as int) < (r + 1) * (r + 1),
{
    proof {
        assert((x as int) * (FX_ONE as int) < 0x1_0000_0000_0000_0000_0000) by (nonlinear_arith)
            requires
                0 <= x < 0x8000_0000_0000_0000,
                FX_ONE == 65536;
    }
    let n: u128 = (x as u128) * (FX_ONE as u128);
    let s = isqrt(n);
    proof {
        assert(s < 0x1_0000_0000_0000) by (nonlinear_arith)
            requires
                s * s <= n,
                n < 0x1_0000_0000_0000_0000_0000;
    }
    s as i64
}

/// `ln 2` in raw units.
pub const LN2_FX: i64 = 45426;

/// Doubles `m` until it reaches `[32768, 65536)`, counting the shifts.
pub open spec fn norm_shift(m: int, s: int) -> (int, int)
    decreases (if m < 32768 { 32768 - m } else { 0 }) when 1 <= m
{
    if m >= 32768 {
        (m, s)
    } else {
        norm_shift(2 * m, s + 1)
    }
}

/// Exact value of `neg_ln_fx`: a piecewise-linear fixed-point approximation
/// of `-ln(u / FX_ONE)` for `u` in `(0, 1]`, built from the binary exponent
/// and a linear interpolation of the mantissa. It is exact at powers of two
/// and within a few percent between them; the medium's free-path sampling is
/// specified against this function, not against the real logarithm.
pub open spec fn neg_ln_fx_spec(u: int) -> int {
    if u >= 65536 {
        0
    } else {
        let ms = norm_shift(u, 0);
        fx_mul(ms.1 * 65536 + 2 * (65536 - ms.0), LN2_FX as int)
    }
}

/// Fixed-point `-ln(u / FX_ONE)` for a fraction `u` in `(0, 1]`.
pub fn neg_ln_fx(u: i64) -> (r: i64)
    requires
        1 <= u <= 65536,
    ensures
        r == neg_ln_fx_spec(u as int),
        0 <= r <= 0x140000,
{
    if u >= 65536 {
        return 0;
    }
    let mut m: i64 = u;
    let mut s: i64 = 0;
    proof { assert(norm_shift(u as int, 0) == norm_shift(m as int, s as int)); }
    if m < 32768 { m = m * 2; s = s + 1; }
    proof { assert(norm_shift(u as int, 0) == norm_shift(m as int, s as int)); }
    if m < 32768 { m = m * 2; s = s + 1; }
    proof { assert(norm_shift(u as int, 0) == norm_shift(m as int, s as int)); }
    if m < 32768 { m = m * 2; s = s + 1; }
    proof { assert(norm_shift(u as int, 0) == norm_shift(m as int, s as int)); }
    if m < 32768 { m = m * 2; s = s + 1; }
    proof { assert(norm_shift(u as int, 0) == norm_shift(m as int, s as int)); }
    if m < 32768 { m = m * 2; s = s + 1; }
    proof { assert(norm_shift(u as int, 0) == norm_shift(m as int, s as int)); }
    if m < 32768 { m = m * 2; s = s + 1; }
    proof { assert(norm_shift(u as int, 0) == norm_shift(m as int, s as int)); }
    if m < 32768 { m = m * 2; s = s + 1; }
    proof { assert(norm_shift(u as int, 0) == norm_shift(m as int, s as int)); }
    if m < 32768 { m = m * 2; s = s + 1; }
    proof { assert(norm_shift(u as int, 0) == norm_shift(m as int, s as int)); }
    if m < 32768 { m = m * 2; s = s + 1; }
    proof { assert(norm_shift(u as int, 0) == norm_shift(m as int, s as int)); }
    if m < 32768 { m = m * 2; s = s + 1; }
    proof { assert(norm_shift(u as int, 0) == norm_shift(m as int, s as int)); }
    if m < 32768 { m = m * 2; s = s + 1; }
    proof { assert(norm_shift(u as int, 0) == norm_shift(m as int, s as int)); }
    if m < 32768 { m = m * 2; s = s + 1; }
    proof { assert(norm_shift(u as int, 0) == norm_shift(m as int, s as int)); }
    if m < 32768 { m = m * 2; s = s + 1; }
    proof { assert(norm_shift(u as int, 0) == norm_shift(m as int, s as int)); }
    if m < 32768 { m = m * 2; s = s + 1; }
    proof { assert(norm_shift(u as int, 0) == norm_shift(m as int, s as int)); }
    if m < 32768 { m = m * 2; s = s + 1; }
    proof { assert(norm_shift(u as int, 0) == norm_shift(m as int, s as int)); }
    if m < 32768 { m = m * 2; s = s + 1; }
    proof { assert(norm_shift(u as int, 0) == norm_shift(m as int, s as int)); }
    proof {
        assert(norm_shift(u as int, 0) == (m as int, s as int));
    }
    let raw: i64 = s * 65536 + 2 * (65536 - m);
    proof {
        lemma_fx_mul_nonneg_bounded(raw as int, LN2_FX as int, 0x120000);
    }
    mul_fx(raw, LN2_FX)
}

/// A fixed-point product of bounded nonnegative scalars is nonnegative and
/// bounded.
pub proof fn lemma_fx_mul_nonneg_bounded(a: int, b: int, ma: int)
    requires
        0 <= a <= ma,
        0 <= b <= FX_ONE as int,
    ensures
        0 <= fx_mul(a, b) <= ma,
{
    assert(0 <= a * b <= ma * (FX_ONE as int)) by (nonlinear_arith)
        requires 0 <= a <= ma, 0 <= b <= FX_ONE as int;
    vstd::arithmetic::div_mod::lemma_div_is_ordered(0, a * b, FX_ONE as int);
    vstd::arithmetic::div_mod::lemma_div_is_ordered(a * b, ma * (FX_ONE as int), FX_ONE as int);
    vstd::arithmetic::div_mod::lemma_div_multiples_vanish(ma, FX_ONE as int);
}

} // verus!
