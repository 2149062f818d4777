//! Textures: color lookups by surface coordinates and hit point. The tracer
//! consumes these opaquely through `Texture::value`.

use vstd::prelude::*;
use crate::vec3::{Vec3, Point3, Color};

verus! {

/// Side length (raw units) of one checker cell.
pub const CHECKER_CELL: i64 = 20589;

/// A texture that answers the same color everywhere.
#[derive(Clone, Copy, PartialEq, Eq, Structural, Debug)]
pub struct SolidColor {
    pub color_value: Color,
}

impl SolidColor {
    pub fn new(c: Color) -> (r: SolidColor)
        ensures r.color_value == c,
    {
        SolidColor { color_value: c }
    }

    pub fn new_from_rgb(red: i64, green: i64, blue: i64) -> (r: SolidColor)
        ensures r.color_value == (Vec3 { x: red, y: green, z: blue }),
    {
        SolidColor { color_value: Vec3 { x: red, y: green, z: blue } }
    }
}

/// A three-dimensional checkerboard alternating between two solid colors.
#[derive(Clone, Copy, PartialEq, Eq, Structural, Debug)]
pub struct CheckerTexture {
    pub odd: SolidColor,
    pub even: SolidColor,
}

impl CheckerTexture {
    pub fn new(c1: Color, c2: Color) -> (r: CheckerTexture)
        ensures
            r.even.color_value == c1,
            r.odd.color_value == c2,
    {
        CheckerTexture { even: SolidColor::new(c1), odd: SolidColor::new(c2) }
    }
}

/// The closed set of texture kinds the library evaluates.
#[derive(Clone, Copy, PartialEq, Eq, Structural, Debug)]
pub enum Texture {
    Solid(SolidColor),
    Checker(CheckerTexture),
}

/// Index of the checker cell containing coordinate `c`.
pub open spec fn checker_cell(c: int) -> int {
    c / (CHECKER_CELL as int)
}

/// Whether a point falls on an even checker cell (sum of cell indices even).
pub open spec fn checker_even(p: Vec3) -> bool {
    (checker_cell(p.x as int) + checker_cell(p.y as int) + checker_cell(p.z as int)) % 2 == 0
}

/// Exact value of `Texture::value`.
pub open spec fn texture_value_spec(t: Texture, p: Vec3) -> Color {
    match t {
        Texture::Solid(s) => s.color_value,
        Texture::Checker(c) => if checker_even(p) { c.even.color_value } else { c.odd.color_value },
    }
}

/// Floor of a coordinate divided by the checker cell size.
fn cell_index(c: i64) -> (r: i64)
    ensures
        r == checker_cell(c as int),
        -0x4000_0000_0000_0000 < r < 0x4000_0000_0000_0000,
{
    let q = crate::fx::div_floor(c as i128, CHECKER_CELL as i128);
    proof {
        assert(-0x4000_0000_0000_0000 < q < 0x4000_0000_0000_0000) by (nonlinear_arith)
            requires
                (CHECKER_CELL as int) * q <= c < (CHECKER_CELL as int) * (q + 1),
                -0x8000_0000_0000_0000 <= c < 0x8000_0000_0000_0000,
                CHECKER_CELL == 20589;
    }
    q as i64
}

/// Negating an integer preserves its parity.
proof fn lemma_parity_neg(s: int)
    ensures
        ((-s) % 2 == 0) == (s % 2 == 0),
{
    vstd::arithmetic::div_mod::lemma_fundamental_div_mod(s, 2);
    vstd::arithmetic::div_mod::lemma_mod_bound(s, 2);
    let q = s / 2;
    let m = s % 2;
    if m == 0 {
        vstd::arithmetic::div_mod::lemma_fundamental_div_mod_converse(-s, 2, -q, 0);
    } else {
        assert(-s == 2 * (-q - 1) + 1);
        vstd::arithmetic::div_mod::lemma_fundamental_div_mod_converse(-s, 2, -q - 1, 1);
    }
}

impl Texture {
    /// Color of the texture at surface coordinates `(u, v)` and point `p`.
    /// Solid textures ignore all three; the checker picks one of its two
    /// colors by the parity of the cell containing `p`.
    pub fn value(&self, u: i64, v: i64, p: &Point3) -> (r: Color)
        ensures r == texture_value_spec(*self, *p),
    {
        match self {
            Texture::Solid(s) => s.color_value,
            Texture::Checker(c) => {
                let cx = cell_index(p.x);
                let cy = cell_index(p.y);
                let cz = cell_index(p.z);
                let s = cx + cy + cz;
                let even = if s >= 0 { s % 2 == 0 } else { (-s) % 2 == 0 };
                proof {
                    lemma_parity_neg(s as int);
                }
                if even {
                    c.even.color_value
                } else {
                    c.odd.color_value
                }
            }
        }
    }
}

} // verus!
