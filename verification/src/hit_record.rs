//! The result of a successful ray/geometry intersection: position, oriented
//! surface normal, material, parametric distance and surface coordinates.

use vstd::prelude::*;
use crate::vec3::{Vec3, Point3, vec_in, dot_wide_spec};
use crate::ray::Ray;
use crate::material::Material;

verus! {

/// Upper magnitude of hit-record positions.
pub const REC_POS_MAX: i64 = 0x200_0000_0000;

/// Upper magnitude of hit-record normals (twice unit length).
pub const NRM_MAX: i64 = 131072;

/// Bounds every intersection routine guarantees of a returned record: the
/// parameter lies in the query interval and the geometry is in range.
pub open spec fn rec_in_range(res: Option<HitRecord>, t0: int, t1: int) -> bool {
    match res {
        Some(rec) => t0 <= rec.t <= t1
            && vec_in(rec.p, REC_POS_MAX as int)
            && vec_in(rec.normal, NRM_MAX as int),
        None => true,
    }
}

/// A confirmed intersection. The normal always faces against the incoming
/// ray; `front_face` records whether the ray arrived from outside.
#[derive(Clone, Copy, PartialEq, Eq, Structural, Debug)]
pub struct HitRecord {
    pub p: Point3,
    pub normal: Vec3,
    pub mat: Material,
    pub t: i64,
    pub u: i64,
    pub v: i64,
    pub front_face: bool,
}

/// Exact value of `HitRecord::new`: the outward normal is kept when it
/// opposes the ray direction and negated otherwise.
pub open spec fn hit_record_spec(
    p: Point3, t: int, u: int, v: int, r: Ray, outward_normal: Vec3, mat: Material,
) -> HitRecord {
    let ff = dot_wide_spec(r.dir, outward_normal) < 0;
    HitRecord {
        p,
        normal: if ff {
            outward_normal
        } else {
            Vec3 {
                x: (-outward_normal.x) as i64,
                y: (-outward_normal.y) as i64,
                z: (-outward_normal.z) as i64,
            }
        },
        mat,
        t: t as i64,
        u: u as i64,
        v: v as i64,
        front_face: ff,
    }
}

impl HitRecord {
    /// Builds a record, orienting the outward normal against the ray.
    pub fn new(
        p: Point3, t: i64, u: i64, v: i64, r: &Ray, outward_normal: &Vec3, mat: Material,
    ) -> (rec: HitRecord)
        requires
            vec_in(r.dir, 0x8_0000_0000),
            vec_in(*outward_normal, 0x8_0000_0000),
        ensures
            rec == hit_record_spec(p, t as int, u as int, v as int, *r, *outward_normal, mat),
    {
        let ff = r.direction().dot_wide(outward_normal) < 0;
        let normal = if ff {
            *outward_normal
        } else {
            Vec3 { x: -outward_normal.x, y: -outward_normal.y, z: -outward_normal.z }
        };
        HitRecord { p, normal, mat, t, u, v, front_face: ff }
    }

    pub fn get_normal(&self) -> (r: Vec3)
        ensures r == self.normal,
    {
        self.normal
    }

    pub fn get_p(&self) -> (r: Point3)
        ensures r == self.p,
    {
        self.p
    }

    pub fn get_mat(&self) -> (r: Material)
        ensures r == self.mat,
    {
        self.mat
    }

    pub fn t(&self) -> (r: i64)
        ensures r == self.t,
    {
        self.t
    }

    pub fn p(&self) -> (r: &Point3)
        ensures r == self.p,
    {
        &self.p
    }

    pub fn u(&self) -> (r: i64)
        ensures r == self.u,
    {
        self.u
    }

    pub fn v(&self) -> (r: i64)
        ensures r == self.v,
    {
        self.v
    }
}

} // verus!
