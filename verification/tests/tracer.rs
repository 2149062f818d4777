//! End-to-end checks of the tracer core on concrete scenes: slab tests,
//! sphere roots, transforms, the BVH against the linear scan, materials and
//! the integrator.

use path_tracer::aabb::Aabb;
use path_tracer::bvh::{BVH, SceneError};
use path_tracer::fx::FX_ONE;
use path_tracer::hittable::{ConstantMedium, Cube, Hittable, HittableList, RotateY, Translate};
use path_tracer::material::{Dialectric, DiffuseLight, Lambertian, Material, Metal};
use path_tracer::ray::Ray;
use path_tracer::rect::{XyRect, XzRect, YzRect};
use path_tracer::renderer::ray_color;
use path_tracer::rng::Prng;
use path_tracer::sphere::Sphere;
use path_tracer::texture::{CheckerTexture, SolidColor, Texture};
use path_tracer::vec3::Vec3;

const K: i64 = 65536;
const TMAX: i64 = 0x1000_0000_0000_0000;

fn gray() -> Material {
    Material::Lambertian(Lambertian::new(Texture::Solid(SolidColor::new_from_rgb(
        K / 2,
        K / 2,
        K / 2,
    ))))
}

#[test]
fn aabb_slab_axis_ray_hits() {
    let b = Aabb::new(Vec3::new(-K, -K, -K), Vec3::new(K, K, K));
    let r = Ray::new(Vec3::new(-5 * K, 0, 0), Vec3::new(K, 0, 0), 0);
    assert!(b.hit(&r, 0, TMAX));
}

#[test]
fn aabb_slab_parallel_ray_misses() {
    let b = Aabb::new(Vec3::new(-K, -K, -K), Vec3::new(K, K, K));
    let r = Ray::new(Vec3::new(-5 * K, 2 * K, 0), Vec3::new(K, 0, 0), 0);
    assert!(!b.hit(&r, 0, TMAX));
}

#[test]
fn aabb_slab_diagonal_ray() {
    let b = Aabb::new(Vec3::new(-K, -K, -K), Vec3::new(K, K, K));
    let r = Ray::new(Vec3::new(-3 * K, -3 * K, -3 * K), Vec3::new(K, K, K), 0);
    assert!(b.hit(&r, 0, TMAX));
    let grazing = Ray::new(Vec3::new(-3 * K, 5 * K, 0), Vec3::new(K, 0, 0), 0);
    assert!(!b.hit(&grazing, 0, TMAX));
}

#[test]
fn surrounding_box_contains_both() {
    let a = Aabb::new(Vec3::new(-K, 0, 0), Vec3::new(K, K, K));
    let b = Aabb::new(Vec3::new(0, -2 * K, K), Vec3::new(3 * K, 0, 4 * K));
    let u = Aabb::surrounding_box(&a, &b);
    assert_eq!(u.min().x, -K);
    assert_eq!(u.min().y, -2 * K);
    assert_eq!(u.min().z, 0);
    assert_eq!(u.max().x, 3 * K);
    assert_eq!(u.max().y, K);
    assert_eq!(u.max().z, 4 * K);
    assert!(u.min().x <= u.max().x && u.min().y <= u.max().y && u.min().z <= u.max().z);
}

#[test]
fn sphere_entry_root_is_exact() {
    let s = Sphere::new_static(Vec3::new(0, 0, 0), K, gray());
    let r = Ray::new(Vec3::new(0, 0, -5 * K), Vec3::new(0, 0, K), 0);
    let rec = s.hit(&r, 0, TMAX).expect("must hit");
    assert_eq!(rec.t(), 4 * K);
    assert_eq!(rec.get_p().z, -K);
    assert!(rec.front_face);
    assert_eq!(rec.get_normal().z, -K);
}

#[test]
fn sphere_from_inside_selects_exit_root() {
    let s = Sphere::new_static(Vec3::new(0, 0, 0), K, gray());
    let r = Ray::new(Vec3::new(0, 0, 0), Vec3::new(0, 0, K), 0);
    let rec = s.hit(&r, 0, TMAX).expect("must hit");
    assert_eq!(rec.t(), K);
    assert!(!rec.front_face);
}

#[test]
fn sphere_miss_is_none() {
    let s = Sphere::new_static(Vec3::new(0, 0, 0), K, gray());
    let r = Ray::new(Vec3::new(0, 2 * K, -5 * K), Vec3::new(0, 0, K), 0);
    assert!(s.hit(&r, 0, TMAX).is_none());
}

#[test]
fn moving_sphere_center_interpolates() {
    let s = Sphere::new_moving(Vec3::new(0, 0, 0), Vec3::new(2 * K, 0, 0), K, gray(), 0, 2 * K);
    assert_eq!(s.center(0).x, 0);
    assert_eq!(s.center(K).x, K);
    assert_eq!(s.center(2 * K).x, 2 * K);
}

#[test]
fn rect_hit_and_uv() {
    let rect = XyRect::new((-K, K), (-K, K), 3 * K, gray());
    let r = Ray::new(Vec3::new(0, 0, 0), Vec3::new(0, 0, K), 0);
    let rec = rect.hit(&r, 0, TMAX).expect("must hit");
    assert_eq!(rec.t(), 3 * K);
    // The plane crossing sits at the extent midpoint on both axes.
    assert_eq!(rec.u(), K / 2);
    assert_eq!(rec.v(), K / 2);
    let miss = Ray::new(Vec3::new(5 * K, 0, 0), Vec3::new(0, 0, K), 0);
    assert!(rect.hit(&miss, 0, TMAX).is_none());
}

#[test]
fn cube_hits_nearest_face() {
    let c = Cube::new(Vec3::new(-K, -K, -K), Vec3::new(K, K, K), gray());
    let r = Ray::new(Vec3::new(0, 0, -4 * K), Vec3::new(0, 0, K), 0);
    let rec = c.hit(&r, 0, TMAX).expect("must hit");
    assert_eq!(rec.t(), 3 * K);
    assert_eq!(rec.get_p().z, -K);
}

#[test]
fn translate_round_trip_reproduces_child_hit() {
    let child = Sphere::new_static(Vec3::new(0, 0, 0), K, gray());
    let moved = Hittable::Translate(Translate::new(
        Hittable::Sphere(child),
        Vec3::new(2 * K, 0, 0),
    ));
    let mut rng = Prng::from_seed(7);
    let r = Ray::new(Vec3::new(2 * K, 0, -5 * K), Vec3::new(0, 0, K), 0);
    let rec = moved.hit(&r, 0, TMAX, &mut rng).expect("must hit");
    // Un-translating the returned point reproduces the child's hit exactly.
    let direct = Sphere::new_static(Vec3::new(0, 0, 0), K, gray());
    let r0 = Ray::new(Vec3::new(0, 0, -5 * K), Vec3::new(0, 0, K), 0);
    let rec0 = direct.hit(&r0, 0, TMAX).expect("must hit");
    assert_eq!(rec.t(), rec0.t());
    assert_eq!(rec.get_p().x - 2 * K, rec0.get_p().x);
    assert_eq!(rec.get_p().y, rec0.get_p().y);
    assert_eq!(rec.get_p().z, rec0.get_p().z);
    assert_eq!(rec.get_normal(), rec0.get_normal());
}

#[test]
fn rotate_round_trip_within_tolerance() {
    // sin 30 degrees is exactly 0.5; cos is approximated, so the round trip
    // reproduces the hit only within a fixed-point tolerance.
    let sin30: i64 = 32768;
    let cos30: i64 = 56756;
    let child = Sphere::new_static(Vec3::new(0, 0, 0), K, gray());
    let once = RotateY::new(Hittable::Sphere(child), sin30, cos30, 0, K);
    let back = RotateY::new(Hittable::RotateY(once), -sin30, cos30, 0, K);
    let both = Hittable::RotateY(back);
    let r = Ray::new(Vec3::new(0, 0, -5 * K), Vec3::new(0, 0, K), 0);
    let mut rng = Prng::from_seed(7);
    let rec = both.hit(&r, 0, TMAX, &mut rng).expect("must hit");
    let direct = Sphere::new_static(Vec3::new(0, 0, 0), K, gray());
    let rec0 = direct.hit(&r, 0, TMAX).expect("must hit");
    let tol = 600; // under 0.01 world units
    assert!((rec.get_p().x - rec0.get_p().x).abs() <= tol);
    assert!((rec.get_p().y - rec0.get_p().y).abs() <= tol);
    assert!((rec.get_p().z - rec0.get_p().z).abs() <= tol);
    assert!((rec.t() - rec0.t()).abs() <= tol);
}

#[test]
fn list_keeps_closest_hit_regardless_of_order() {
    let near = Hittable::Sphere(Sphere::new_static(Vec3::new(0, 0, 2 * K), K, gray()));
    let far = Hittable::Sphere(Sphere::new_static(Vec3::new(0, 0, 6 * K), K, gray()));
    let r = Ray::new(Vec3::new(0, 0, -2 * K), Vec3::new(0, 0, K), 0);

    let mut a = HittableList::new();
    a.push(Hittable::Sphere(Sphere::new_static(Vec3::new(0, 0, 2 * K), K, gray())));
    a.push(far);
    let mut rng = Prng::from_seed(1);
    let ra = a.hit(&r, 0, TMAX, &mut rng).expect("must hit");

    let mut b = HittableList::new();
    b.push(Hittable::Sphere(Sphere::new_static(Vec3::new(0, 0, 6 * K), K, gray())));
    b.push(near);
    let rb = b.hit(&r, 0, TMAX, &mut rng).expect("must hit");

    assert_eq!(ra.t(), 3 * K);
    assert_eq!(rb.t(), 3 * K);
    assert_eq!(ra.get_p(), rb.get_p());
}

fn sphere_grid() -> Vec<(i64, i64, i64)> {
    vec![
        (0, 0, 4),
        (3, 0, 8),
        (-3, 1, 12),
        (0, -2, 16),
        (2, 2, 20),
        (-2, -2, 24),
        (1, 0, 28),
    ]
}

#[test]
fn bvh_matches_linear_scan_on_sphere_set() {
    let rays = vec![
        Ray::new(Vec3::new(0, 0, -2 * K), Vec3::new(0, 0, K), 0),
        Ray::new(Vec3::new(3 * K, 0, -2 * K), Vec3::new(0, 0, K), 0),
        Ray::new(Vec3::new(-3 * K, K, 0), Vec3::new(0, 0, K), 0),
        Ray::new(Vec3::new(0, 0, -2 * K), Vec3::new(K / 8, -K / 16, K), 0),
        Ray::new(Vec3::new(0, 10 * K, 0), Vec3::new(0, K, 0), 0),
    ];
    let mut objs: Vec<Hittable> = Vec::new();
    let mut list = HittableList::new();
    for (x, y, z) in sphere_grid() {
        objs.push(Hittable::Sphere(Sphere::new_static(
            Vec3::new(x * K, y * K, z * K), K, gray(),
        )));
        list.push(Hittable::Sphere(Sphere::new_static(
            Vec3::new(x * K, y * K, z * K), K, gray(),
        )));
    }
    let bvh = BVH::new(objs, 0, K).expect("buildable");
    for r in rays {
        let mut rng1 = Prng::from_seed(9);
        let mut rng2 = Prng::from_seed(9);
        let hb = bvh.hit(&r, 0, TMAX, &mut rng1);
        let hl = list.hit(&r, 0, TMAX, &mut rng2);
        match (hb, hl) {
            (None, None) => {}
            (Some(a), Some(b)) => {
                assert_eq!(a.t(), b.t());
                assert_eq!(a.get_p(), b.get_p());
                assert_eq!(a.get_normal(), b.get_normal());
            }
            _ => panic!("BVH and linear scan disagree"),
        }
    }
}

#[test]
fn bvh_empty_scene_is_fatal() {
    let objs: Vec<Hittable> = Vec::new();
    match BVH::new(objs, 0, K) {
        Err(e) => assert_eq!(e, SceneError::EmptyScene),
        Ok(_) => panic!("an empty scene must not build"),
    }
}

#[test]
fn bvh_boxless_object_is_fatal() {
    // A rotation built by hand without a cached box has no bounding box.
    let boxless = Hittable::RotateY(RotateY {
        ptr: Box::new(Hittable::Sphere(Sphere::new_static(Vec3::new(0, 0, 0), K, gray()))),
        sin_theta: 0,
        cos_theta: K,
        bbox: None,
    });
    let objs = vec![boxless];
    match BVH::new(objs, 0, K) {
        Err(e) => assert_eq!(e, SceneError::MissingBoundingBox),
        Ok(_) => panic!("a boxless object must not build"),
    }
}

#[test]
fn checker_texture_alternates_cells() {
    let t = Texture::Checker(CheckerTexture::new(
        Vec3::new(K, K, K),
        Vec3::new(0, 0, 0),
    ));
    let even = t.value(0, 0, &Vec3::new(0, 0, 0));
    let odd = t.value(0, 0, &Vec3::new(20589, 0, 0));
    assert_eq!(even, Vec3::new(K, K, K));
    assert_eq!(odd, Vec3::new(0, 0, 0));
}

#[test]
fn diffuse_light_emits_and_never_scatters() {
    let light = Material::DiffuseLight(DiffuseLight::new_from_rgb(4 * K, 4 * K, 4 * K));
    let e = light.emitted(0, 0, &Vec3::new(0, 0, 0));
    assert_eq!(e, Vec3::new(4 * K, 4 * K, 4 * K));
    let rect = XzRect::new((-K, K), (-K, K), 2 * K, light);
    let r = Ray::new(Vec3::new(0, 0, 0), Vec3::new(0, K, 0), 0);
    let rec = rect.hit(&r, 0, TMAX).expect("must hit");
    let mut rng = Prng::from_seed(3);
    assert!(rec.get_mat().scatter(&r, &rec, &mut rng).is_none());
}

#[test]
fn metal_reflects_axis_ray() {
    let m = Material::Metal(Metal::new(Vec3::new(K, K, K), 0));
    let s = Sphere::new_static(Vec3::new(0, 0, 0), K, m);
    let r = Ray::new(Vec3::new(0, 0, -5 * K), Vec3::new(0, 0, K), 0);
    let rec = s.hit(&r, 0, TMAX).expect("must hit");
    let mut rng = Prng::from_seed(3);
    let (att, scat) = rec.get_mat().scatter(&r, &rec, &mut rng).expect("reflects");
    assert_eq!(att, Vec3::new(K, K, K));
    // A head-on ray reflects straight back (fuzz 0).
    assert!(scat.direction().z < 0);
    assert_eq!(scat.origin(), rec.get_p());
}

#[test]
fn dielectric_attenuation_is_white() {
    let m = Material::Dialectric(Dialectric::new(3 * K / 2));
    let s = Sphere::new_static(Vec3::new(0, 0, 0), K, m);
    let r = Ray::new(Vec3::new(0, 0, -5 * K), Vec3::new(0, 0, K), 0);
    let rec = s.hit(&r, 0, TMAX).expect("must hit");
    let mut rng = Prng::from_seed(3);
    let (att, _scat) = rec.get_mat().scatter(&r, &rec, &mut rng).expect("scatters");
    assert_eq!(att, Vec3::new(K, K, K));
}

#[test]
fn dense_medium_scatters_inside_boundary() {
    let boundary = Hittable::Sphere(Sphere::new_static(Vec3::new(0, 0, 0), 2 * K, gray()));
    let fog = Hittable::ConstantMedium(ConstantMedium::new_from_color(
        boundary,
        8 * K,
        Vec3::new(K, K, K),
    ));
    let r = Ray::new(Vec3::new(0, 0, -5 * K), Vec3::new(0, 0, K), 0);
    let mut rng = Prng::from_seed(11);
    let rec = fog.hit(&r, 0, TMAX, &mut rng).expect("dense fog scatters");
    assert!(rec.t() >= 3 * K && rec.t() <= 7 * K);
}

fn emissive_box_world() -> Hittable {
    let white = gray();
    let light = Material::DiffuseLight(DiffuseLight::new_from_rgb(2 * K, 2 * K, 2 * K));
    let mut objs: Vec<Hittable> = Vec::new();
    objs.push(Hittable::Cube(Cube::new(
        Vec3::new(-8 * K, -8 * K, -8 * K),
        Vec3::new(8 * K, 8 * K, 8 * K),
        white,
    )));
    objs.push(Hittable::XzRect(XzRect::new((-2 * K, 2 * K), (-2 * K, 2 * K), 7 * K, light)));
    Hittable::Bvh(Box::new(BVH::new(objs, 0, K).expect("buildable")))
}

#[test]
fn zero_depth_budget_returns_black() {
    let world = emissive_box_world();
    let bg = Vec3::new(0, 0, 0);
    let r = Ray::new(Vec3::new(0, 0, 0), Vec3::new(0, K, 0), 0);
    let mut rng = Prng::from_seed(5);
    assert_eq!(ray_color(&r, &bg, &world, 0, &mut rng), Vec3::new(0, 0, 0));
}

#[test]
fn deeper_budget_only_adds_light() {
    let world = emissive_box_world();
    let bg = Vec3::new(0, 0, 0);
    let rays = vec![
        Ray::new(Vec3::new(0, 0, 0), Vec3::new(0, K, 0), 0),
        Ray::new(Vec3::new(0, 0, 0), Vec3::new(K / 4, K, 0), 0),
        Ray::new(Vec3::new(0, -4 * K, 0), Vec3::new(0, K, K / 8), 0),
    ];
    for r in rays {
        for d in 0..4 {
            let mut rng1 = Prng::from_seed(17);
            let mut rng2 = Prng::from_seed(17);
            let c1 = ray_color(&r, &bg, &world, d, &mut rng1);
            let c2 = ray_color(&r, &bg, &world, d + 1, &mut rng2);
            assert!(c1.x <= c2.x && c1.y <= c2.y && c1.z <= c2.z);
            assert!(c1.x >= 0 && c1.y >= 0 && c1.z >= 0);
        }
    }
}

#[test]
fn light_is_seen_directly_at_depth_one() {
    let world = emissive_box_world();
    let bg = Vec3::new(0, 0, 0);
    let up = Ray::new(Vec3::new(0, 0, 0), Vec3::new(0, K, 0), 0);
    let mut rng = Prng::from_seed(5);
    let c = ray_color(&up, &bg, &world, 1, &mut rng);
    assert_eq!(c, Vec3::new(2 * K, 2 * K, 2 * K));
}

#[test]
fn miss_returns_background() {
    let s = Hittable::Sphere(Sphere::new_static(Vec3::new(0, 0, 10 * K), K, gray()));
    let bg = Vec3::new(K / 4, K / 2, K);
    let away = Ray::new(Vec3::new(0, 0, 0), Vec3::new(0, 0, -K), 0);
    let mut rng = Prng::from_seed(5);
    assert_eq!(ray_color(&away, &bg, &s, 8, &mut rng), bg);
}

#[test]
fn prng_is_reproducible_from_seed() {
    let mut a = Prng::from_seed(42);
    let mut b = Prng::from_seed(42);
    for _ in 0..16 {
        assert_eq!(a.next_u64(), b.next_u64());
    }
    let mut c = Prng::from_seed(43);
    let mut d = Prng::from_seed(42);
    let mut differs = false;
    for _ in 0..16 {
        if c.next_u64() != d.next_u64() {
            differs = true;
        }
    }
    assert!(differs);
}

#[test]
fn unit_vector_has_near_unit_length() {
    let v = Vec3::new(3 * K, 4 * K, 0);
    let u = v.unit_vector();
    // 3-4-5 triangle: components are 3/5 and 4/5 up to rounding.
    assert!((u.x - 3 * K / 5).abs() <= 2);
    assert!((u.y - 4 * K / 5).abs() <= 2);
    assert_eq!(u.z, 0);
}

#[test]
fn reflect_mirrors_about_normal() {
    let v = Vec3::new(K, -K, 0);
    let n = Vec3::new(0, K, 0);
    let r = v.reflect(&n);
    assert_eq!(r.x, K);
    assert_eq!(r.y, K);
    assert_eq!(r.z, 0);
}

#[test]
fn rotate_quarter_turn_box_is_exact() {
    // sin 90 = 1, cos 90 = 0 is an exact fixed-point unit pair, so the cached
    // box is the exact forward rotation of the child's corners:
    // x' = z, z' = -x.
    let c = Cube::new(Vec3::new(K, 0, 2 * K), Vec3::new(3 * K, K, 4 * K), gray());
    let ry = RotateY::new(Hittable::Cube(c), K, 0, 0, K);
    let b = Hittable::RotateY(ry).bounding_box(0, K).expect("rotated cube has a box");
    assert_eq!(b.min(), Vec3::new(2 * K, 0, -3 * K));
    assert_eq!(b.max(), Vec3::new(4 * K, K, -K));
}

#[test]
fn rotate_quarter_turns_cancel_to_rounding() {
    // Opposite exact quarter turns reproduce the direct hit to within the
    // few raw units of floor rounding the round-trip law states.
    let child = Sphere::new_static(Vec3::new(0, 0, 0), K, gray());
    let once = RotateY::new(Hittable::Sphere(child), K, 0, 0, K);
    let back = RotateY::new(Hittable::RotateY(once), -K, 0, 0, K);
    let both = Hittable::RotateY(back);
    let r = Ray::new(Vec3::new(0, 0, -5 * K), Vec3::new(0, 0, K), 0);
    let mut rng = Prng::from_seed(7);
    let rec = both.hit(&r, 0, TMAX, &mut rng).expect("must hit");
    let direct = Sphere::new_static(Vec3::new(0, 0, 0), K, gray());
    let rec0 = direct.hit(&r, 0, TMAX).expect("must hit");
    assert!((rec.get_p().x - rec0.get_p().x).abs() <= 6);
    assert!((rec.get_p().y - rec0.get_p().y).abs() <= 6);
    assert!((rec.get_p().z - rec0.get_p().z).abs() <= 6);
    assert_eq!(rec.t(), rec0.t());
}
