//! Materials: the closed set of surface responses. Scattering itself lives
//! with the integrator support code; this module holds the material data,
//! construction, and the emission lookup.

use vstd::prelude::*;
use crate::vec3::{Vec3, Point3, Color, vec_in, dot_spec, dot_wide_spec, unit_of,
    near_zero_spec, reflect_spec, refract_spec, lemma_dot_spec_abs, lemma_fx_mul_abs,
    lemma_fx_square_nonneg};
use crate::texture::{Texture, SolidColor, texture_value_spec};
use crate::fx::{FX_ONE, fx_mul, fx_div, mul_fx, div_fx, sqrt_fx, sqrt_floor, clamp_spec,
    clamp64, lemma_sqrt_floor_agrees, lemma_fx_div_le_one};
use crate::ray::Ray;
use crate::hit_record::{HitRecord, NRM_MAX, REC_POS_MAX};
use crate::rng::{Prng, prng_next_state, prng_output, unit_from, sphere_sample_spec,
    SAMPLE_FUEL};

verus! {

/// Diffuse surface: scatters about the surface normal, tinted by a texture.
#[derive(Clone, Copy, PartialEq, Eq, Structural, Debug)]
pub struct Lambertian {
    pub albedo: Texture,
}

impl Lambertian {
    pub fn new(a: Texture) -> (r: Lambertian)
        ensures r.albedo == a,
    {
        Lambertian { albedo: a }
    }
}

/// Specular surface: mirror reflection, blurred by a fuzz radius.
#[derive(Clone, Copy, PartialEq, Eq, Structural, Debug)]
pub struct Metal {
    pub albedo: Color,
    pub fuzz: i64,
}

impl Metal {
    pub fn new(a: Color, fuzz: i64) -> (r: Metal)
        ensures r.albedo == a && r.fuzz == fuzz,
    {
        Metal { albedo: a, fuzz }
    }
}

/// Refractive surface with an index of refraction (fixed point).
#[derive(Clone, Copy, PartialEq, Eq, Structural, Debug)]
pub struct Dialectric {
    pub ir: i64,
}

impl Dialectric {
    pub fn new(index_of_refraction: i64) -> (r: Dialectric)
        ensures r.ir == index_of_refraction,
    {
        Dialectric { ir: index_of_refraction }
    }
}

/// Emissive surface: injects light, never scatters.
#[derive(Clone, Copy, PartialEq, Eq, Structural, Debug)]
pub struct DiffuseLight {
    pub emit: Texture,
}

impl DiffuseLight {
    pub fn new(a: Texture) -> (r: DiffuseLight)
        ensures r.emit == a,
    {
        DiffuseLight { emit: a }
    }

    pub fn new_from_color(c: Color) -> (r: DiffuseLight)
        ensures r.emit == Texture::Solid(SolidColor { color_value: c }),
    {
        DiffuseLight::new(Texture::Solid(SolidColor::new(c)))
    }

    pub fn new_from_rgb(red: i64, green: i64, blue: i64) -> (r: DiffuseLight)
        ensures r.emit == Texture::Solid(SolidColor { color_value: Vec3 { x: red, y: green, z: blue } }),
    {
        DiffuseLight::new_from_color(Vec3 { x: red, y: green, z: blue })
    }
}

/// Phase function of a participating medium: scatters uniformly in all
/// directions.
#[derive(Clone, Copy, PartialEq, Eq, Structural, Debug)]
pub struct Isotropic {
    pub albedo: Texture,
}

impl Isotropic {
    pub fn new_from_texture(a: Texture) -> (r: Isotropic)
        ensures r.albedo == a,
    {
        Isotropic { albedo: a }
    }

    pub fn new_from_color(c: Color) -> (r: Isotropic)
        ensures r.albedo == Texture::Solid(SolidColor { color_value: c }),
    {
        Isotropic::new_from_texture(Texture::Solid(SolidColor::new(c)))
    }
}

/// The closed set of material kinds, dispatched by pattern match.
#[derive(Clone, Copy, PartialEq, Eq, Structural, Debug)]
pub enum Material {
    Lambertian(Lambertian),
    Metal(Metal),
    Dialectric(Dialectric),
    DiffuseLight(DiffuseLight),
    Isotropic(Isotropic),
}

/// Exact value of `Material::emitted`: lights answer their texture, every
/// other material is black.
pub open spec fn emitted_spec(m: Material, p: Vec3) -> Color {
    match m {
        Material::DiffuseLight(dl) => texture_value_spec(dl.emit, p),
        _ => Vec3 { x: 0, y: 0, z: 0 },
    }
}

impl Material {
    /// Light emitted by the surface at `(u, v, p)`; black unless the
    /// material is a diffuse light.
    pub fn emitted(&self, u: i64, v: i64, p: &Point3) -> (r: Color)
        ensures r == emitted_spec(*self, *p),
    {
        match self {
            Material::DiffuseLight(dl) => dl.emit.value(u, v, p),
            _ => Vec3 { x: 0, y: 0, z: 0 },
        }
    }
}


/// The refraction test of the dielectric: Snell's law admits a transmitted
/// ray exactly when `ratio * sin_theta <= 1`.
pub open spec fn can_refract(ratio: int, sin_theta: int) -> bool {
    fx_mul(ratio, sin_theta) <= FX_ONE as int
}

/// Law: the refraction test flips exactly once as the incidence angle grows.
/// For a fixed ratio of indices, if refraction is possible at some sine of
/// the incidence angle it is possible at every smaller sine, so `can_refract`
/// transitions cleanly from true to false at the critical angle.
pub proof fn lemma_can_refract_monotone(ratio: int, sin1: int, sin2: int)
    requires
        0 <= ratio,
        0 <= sin1 <= sin2,
        can_refract(ratio, sin2),
    ensures
        can_refract(ratio, sin1),
{
    assert(ratio * sin1 <= ratio * sin2) by (nonlinear_arith)
        requires 0 <= ratio, sin1 <= sin2;
    vstd::arithmetic::div_mod::lemma_div_is_ordered(ratio * sin1, ratio * sin2, FX_ONE as int);
}

/// Schlick's approximation of the Fresnel reflectance, in fixed point.
pub open spec fn schlick(cos: int, ratio: int) -> int {
    let k = FX_ONE as int;
    let r0t = if ratio <= k {
        fx_div(k - ratio, k + ratio)
    } else {
        -fx_div(ratio - k, k + ratio)
    };
    let r0 = fx_mul(r0t, r0t);
    let x = clamp_spec(k - cos, 0, 2 * k);
    let p5 = fx_mul(x, fx_mul(x, fx_mul(x, fx_mul(x, x))));
    r0 + fx_mul(k - r0, p5)
}

/// Exact value of `Material::scatter` for a diffuse surface: the scatter
/// direction is the surface normal plus a random unit vector, with the bare
/// normal substituted when the sum degenerates.
pub open spec fn lambertian_scatter_spec(l: Lambertian, r_in: Ray, rec: HitRecord, s: u64)
    -> (Option<(Color, Ray)>, u64)
{
    let sv = sphere_sample_spec(s, SAMPLE_FUEL as nat);
    let unit = unit_of(sv.0);
    let d0 = Vec3 {
        x: (rec.normal.x + unit.x) as i64,
        y: (rec.normal.y + unit.y) as i64,
        z: (rec.normal.z + unit.z) as i64,
    };
    let dir = if near_zero_spec(d0) { rec.normal } else { d0 };
    (Some((texture_value_spec(l.albedo, rec.p),
        Ray { orig: rec.p, dir, time: r_in.time })), sv.1)
}

/// Exact value of `Material::scatter` for a metal: mirror reflection blurred
/// by a fuzz-scaled unit-sphere sample, absorbed when it points into the
/// surface (or when the reflection degenerates).
pub open spec fn metal_scatter_spec(mt: Metal, r_in: Ray, rec: HitRecord, s: u64)
    -> (Option<(Color, Ray)>, u64)
{
    let refl = reflect_spec(r_in.dir, rec.normal);
    if dot_spec(refl, refl) < 1 {
        (None, s)
    } else {
        let unit = unit_of(refl);
        let sv = sphere_sample_spec(s, SAMPLE_FUEL as nat);
        let fz = clamp_spec(mt.fuzz as int, 0, FX_ONE as int);
        let dir = Vec3 {
            x: (unit.x + fx_mul(fz, sv.0.x as int)) as i64,
            y: (unit.y + fx_mul(fz, sv.0.y as int)) as i64,
            z: (unit.z + fx_mul(fz, sv.0.z as int)) as i64,
        };
        if dot_wide_spec(dir, rec.normal) <= 0 {
            (None, sv.1)
        } else {
            (Some((mt.albedo, Ray { orig: rec.p, dir, time: r_in.time })), sv.1)
        }
    }
}

/// Exact value of `Material::scatter` for a dielectric: refract when Snell's
/// law admits it and a reflectance draw passes, else reflect; the attenuation
/// is always white.
pub open spec fn dialectric_scatter_spec(d: Dialectric, r_in: Ray, rec: HitRecord, s: u64)
    -> (Option<(Color, Ray)>, u64)
{
    let k = FX_ONE as int;
    if dot_spec(r_in.dir, r_in.dir) < 1 {
        (None, s)
    } else {
        let ir = clamp_spec(d.ir as int, 8192, 524288);
        let ratio = if rec.front_face { fx_div(k, ir) } else { ir };
        let unit = unit_of(r_in.dir);
        let mdot = -dot_spec(unit, rec.normal);
        let cos = if mdot > k { k } else { mdot };
        let cos2 = clamp_spec(fx_mul(cos, cos), 0, k);
        let sin = sqrt_floor((k - cos2) * k);
        let s2 = prng_next_state(s);
        let u = unit_from(prng_output(s2));
        let dir = if can_refract(ratio, sin) && schlick(cos, ratio) <= u {
            refract_spec(unit, rec.normal, ratio)
        } else {
            reflect_spec(unit, rec.normal)
        };
        (Some((Vec3 { x: FX_ONE, y: FX_ONE, z: FX_ONE },
            Ray { orig: rec.p, dir, time: r_in.time })), s2)
    }
}

/// Exact value of `Material::scatter` for the isotropic phase function:
/// scatters in a uniformly random direction.
pub open spec fn isotropic_scatter_spec(iso: Isotropic, r_in: Ray, rec: HitRecord, s: u64)
    -> (Option<(Color, Ray)>, u64)
{
    let sv = sphere_sample_spec(s, SAMPLE_FUEL as nat);
    (Some((texture_value_spec(iso.albedo, rec.p),
        Ray { orig: rec.p, dir: sv.0, time: r_in.time })), sv.1)
}

/// Exact value of `Material::scatter`: lights never scatter; the others as
/// above.
pub open spec fn scatter_spec(m: Material, r_in: Ray, rec: HitRecord, s: u64)
    -> (Option<(Color, Ray)>, u64)
{
    match m {
        Material::Lambertian(l) => lambertian_scatter_spec(l, r_in, rec, s),
        Material::Metal(mt) => metal_scatter_spec(mt, r_in, rec, s),
        Material::Dialectric(d) => dialectric_scatter_spec(d, r_in, rec, s),
        Material::DiffuseLight(_) => (None, s),
        Material::Isotropic(iso) => isotropic_scatter_spec(iso, r_in, rec, s),
    }
}

/// Fixed-point fifth power of a scalar in `[0, 2]`.
fn pow5_fx(x: i64) -> (r: i64)
    requires
        0 <= x <= 2 * FX_ONE,
    ensures
        r == fx_mul(x as int, fx_mul(x as int, fx_mul(x as int,
            fx_mul(x as int, x as int)))),
{
    proof {
        lemma_fx_mul_abs(x as int, x as int, 131072, 131072);
        lemma_fx_mul_abs(x as int, fx_mul(x as int, x as int), 131072, 262144);
        lemma_fx_mul_abs(x as int, fx_mul(x as int, fx_mul(x as int, x as int)),
            131072, 524288);
        lemma_fx_mul_abs(x as int,
            fx_mul(x as int, fx_mul(x as int, fx_mul(x as int, x as int))),
            131072, 1048576);
    }
    mul_fx(x, mul_fx(x, mul_fx(x, mul_fx(x, x))))
}

/// Schlick's reflectance, computed exactly as `schlick` states.
fn schlick_fx(cos: i64, ratio: i64) -> (r: i64)
    requires
        -0x100_0000 <= cos <= FX_ONE,
        8192 <= ratio <= 524288,
    ensures
        r == schlick(cos as int, ratio as int),
{
    let k = FX_ONE;
    let r0t: i64 = if ratio <= k {
        proof {
            lemma_fx_div_le_one((k - ratio) as int, (k + ratio) as int);
        }
        div_fx(k - ratio, k + ratio)
    } else {
        proof {
            lemma_fx_div_le_one((ratio - k) as int, (k + ratio) as int);
        }
        -div_fx(ratio - k, k + ratio)
    };
    proof {
        lemma_fx_mul_abs(r0t as int, r0t as int, FX_ONE as int, FX_ONE as int);
    }
    let r0 = mul_fx(r0t, r0t);
    proof {
        lemma_fx_square_nonneg(r0t as int);
    }
    let x = clamp64(k - cos, 0, 2 * k);
    let p5 = pow5_fx(x);
    proof {
        lemma_fx_mul_abs(x as int, x as int, 131072, 131072);
        lemma_fx_mul_abs(x as int, fx_mul(x as int, x as int), 131072, 262144);
        lemma_fx_mul_abs(x as int, fx_mul(x as int, fx_mul(x as int, x as int)),
            131072, 524288);
        lemma_fx_mul_abs(x as int,
            fx_mul(x as int, fx_mul(x as int, fx_mul(x as int, x as int))),
            131072, 1048576);
        lemma_fx_mul_abs((k - r0) as int, p5 as int, 131072, 2097152);
    }
    r0 + mul_fx(k - r0, p5)
}


/// The metal's scattering, exactly `metal_scatter_spec`.
fn scatter_metal(mt: &Metal, r_in: &Ray, rec: &HitRecord, rng: &mut Prng)
    -> (res: Option<(Color, Ray)>)
    requires
        vec_in(rec.p, REC_POS_MAX as int),
        vec_in(rec.normal, NRM_MAX as int),
        vec_in(r_in.dir, 0x2000_0000),
    ensures
        ({
            let h = metal_scatter_spec(*mt, *r_in, *rec, old(rng).state);
            res == h.0 && final(rng).state == h.1
        }),
{
    proof {
        lemma_dot_spec_abs(r_in.dir, rec.normal, 0x2000_0000, NRM_MAX as int);
        lemma_fx_mul_abs(2 * dot_spec(r_in.dir, rec.normal), rec.normal.x as int,
            0x2_0000_0008, NRM_MAX as int);
        lemma_fx_mul_abs(2 * dot_spec(r_in.dir, rec.normal), rec.normal.y as int,
            0x2_0000_0008, NRM_MAX as int);
        lemma_fx_mul_abs(2 * dot_spec(r_in.dir, rec.normal), rec.normal.z as int,
            0x2_0000_0008, NRM_MAX as int);
    }
    let refl = r_in.direction().reflect(&rec.normal);
    let ls = refl.length_squared();
    if ls < 1 {
        return None;
    }
    let unit = refl.unit_vector();
    let sv = Vec3::random_in_unit_sphere(rng);
    let fz = clamp64(mt.fuzz, 0, FX_ONE);
    let fv = sv.scale(fz);
    proof {
        lemma_fx_mul_abs(fz as int, sv.x as int, FX_ONE as int, FX_ONE as int);
        lemma_fx_mul_abs(fz as int, sv.y as int, FX_ONE as int, FX_ONE as int);
        lemma_fx_mul_abs(fz as int, sv.z as int, FX_ONE as int, FX_ONE as int);
    }
    let dir = unit.add(&fv);
    if dir.dot_wide(&rec.normal) <= 0 {
        return None;
    }
    Some((mt.albedo, Ray::new(rec.p, dir, r_in.time())))
}

/// The dielectric's scattering, exactly `dialectric_scatter_spec`.
fn scatter_dialectric(d: &Dialectric, r_in: &Ray, rec: &HitRecord, rng: &mut Prng)
    -> (res: Option<(Color, Ray)>)
    requires
        vec_in(rec.p, REC_POS_MAX as int),
        vec_in(rec.normal, NRM_MAX as int),
        vec_in(r_in.dir, 0x2000_0000),
    ensures
        ({
            let h = dialectric_scatter_spec(*d, *r_in, *rec, old(rng).state);
            res == h.0 && final(rng).state == h.1
        }),
{
    let dd = r_in.direction().length_squared();
    if dd < 1 {
        return None;
    }
    let ir = clamp64(d.ir, 8192, 524288);
    let ratio: i64 = if rec.front_face {
        proof {
            crate::fx::lemma_fx_div_nonneg_le(FX_ONE as int, ir as int);
        }
        div_fx(FX_ONE, ir)
    } else {
        ir
    };
    proof {
        assert(8192 <= ratio <= 524288) by {
            if rec.front_face {
                vstd::arithmetic::div_mod::lemma_div_is_ordered_by_denominator(
                    (FX_ONE as int) * (FX_ONE as int), 8192, ir as int);
                vstd::arithmetic::div_mod::lemma_div_is_ordered_by_denominator(
                    (FX_ONE as int) * (FX_ONE as int), ir as int, 524288);
                assert(((FX_ONE as int) * (FX_ONE as int)) / 8192 == 524288);
                assert(((FX_ONE as int) * (FX_ONE as int)) / 524288 == 8192);
            }
        }
    }
    let unit = r_in.direction().unit_vector();
    proof {
        lemma_dot_spec_abs(unit, rec.normal, 131072, NRM_MAX as int);
    }
    let md: i64 = -unit.dot(&rec.normal);
    let cos: i64 = if md > FX_ONE { FX_ONE } else { md };
    proof {
        lemma_fx_mul_abs(cos as int, cos as int, 0x100_0000, 0x100_0000);
    }
    let cos2 = clamp64(mul_fx(cos, cos), 0, FX_ONE);
    let sin = sqrt_fx(FX_ONE - cos2);
    proof {
        lemma_sqrt_floor_agrees(((FX_ONE - cos2) as int) * (FX_ONE as int), sin as int);
        assert(sin <= 0x1_0000) by (nonlinear_arith)
            requires
                0 <= sin,
                (sin as int) * (sin as int) <= ((FX_ONE - cos2) as int) * (FX_ONE as int),
                0 <= FX_ONE - cos2 <= FX_ONE,
                FX_ONE == 65536;
        lemma_fx_mul_abs(ratio as int, sin as int, 524288, 0x1_0000);
    }
    let refr_ok = mul_fx(ratio, sin) <= FX_ONE;
    let refl_prob = schlick_fx(cos, ratio);
    let u = rng.next_unit();
    let dir = if refr_ok && refl_prob <= u {
        unit.refract(rec.normal, ratio)
    } else {
        unit.reflect(&rec.normal)
    };
    Some((Vec3 { x: FX_ONE, y: FX_ONE, z: FX_ONE }, Ray::new(rec.p, dir, r_in.time())))
}

impl Material {
    /// Whether and how the surface scatters an incoming ray: the attenuation
    /// to apply and the continued ray, or nothing when absorbed. Exactly
    /// `scatter_spec` of the sampler state.
    pub fn scatter(&self, r_in: &Ray, rec: &HitRecord, rng: &mut Prng)
        -> (res: Option<(Color, Ray)>)
        requires
            vec_in(rec.p, REC_POS_MAX as int),
            vec_in(rec.normal, NRM_MAX as int),
            vec_in(r_in.dir, 0x2000_0000),
        ensures
            ({
                let h = scatter_spec(*self, *r_in, *rec, old(rng).state);
                res == h.0 && final(rng).state == h.1
            }),
    {
        match self {
            Material::Lambertian(l) => {
                let unit = Vec3::random_unit_vector(rng);
                let d0 = rec.normal.add(&unit);
                let dir = if d0.is_near_zero() { rec.normal } else { d0 };
                let att = l.albedo.value(rec.u, rec.v, &rec.p);
                Some((att, Ray::new(rec.p, dir, r_in.time())))
            },
            Material::Metal(mt) => scatter_metal(mt, r_in, rec, rng),
            Material::Dialectric(d) => scatter_dialectric(d, r_in, rec, rng),
            Material::DiffuseLight(_) => None,
            Material::Isotropic(iso) => {
                let sv = Vec3::random_in_unit_sphere(rng);
                let att = iso.albedo.value(rec.u, rec.v, &rec.p);
                Some((att, Ray::new(rec.p, sv, r_in.time())))
            },
        }
    }
}

} // verus!
