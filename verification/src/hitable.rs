//! Hit records and the intersection contract shared by everything a ray can
//! strike.

use vstd::prelude::*;
use crate::vector::Vector3;
use crate::ray::Ray;
use crate::material::Material;
use crate::lambertian::Lambertian;

verus! {

/// Component magnitude cap demanded of a hit normal before it is handed to a
/// material: generously above the roughly unit-length normals geometry
/// produces.
pub const FX_NORMAL_CAP: i128 = 262144;

/// One intersection: the ray parameter, the point reached, the surface
/// normal there, and the surface's material (copied by value, so the record
/// outlives the scene).
#[derive(Clone, Copy, Debug)]
pub struct HitRecord {
    pub t: i128,
    pub p: Vector3,
    pub normal: Vector3,
    pub material: Material,
}

impl HitRecord {
    /// A blank record: zero everywhere, with a black diffuse material.
    pub fn new() -> (r: HitRecord)
        ensures
            r.t == 0,
            r.p == (Vector3 { x: 0, y: 0, z: 0 }),
            r.normal == (Vector3 { x: 0, y: 0, z: 0 }),
            r.material == Material::Lambertian(Lambertian { albedo: Vector3 { x: 0, y: 0, z: 0 } }),
    {
        HitRecord {
            t: 0,
            p: Vector3::new(0, 0, 0),
            normal: Vector3::new(0, 0, 0),
            material: Material::Lambertian(Lambertian::new(Vector3::new(0, 0, 0))),
        }
    }

    pub fn normal(&self) -> (r: Vector3)
        ensures
            r == self.normal,
    {
        self.normal
    }

    pub fn p(&self) -> (r: Vector3)
        ensures
            r == self.p,
    {
        self.p
    }

    pub fn material(&self) -> (r: Material)
        ensures
            r == self.material,
    {
        self.material
    }
}

/// Anything a ray can strike. `hit_s` names the exact intersection the
/// implementer computes; implementers must only report a hit whose parameter
/// lies strictly inside `(t_min, t_max)`.
pub trait Hittable {
    spec fn hit_req(&self, ray: Ray, t_min: i128, t_max: i128) -> bool;

    spec fn hit_s(&self, ray: Ray, t_min: int, t_max: int) -> Option<HitRecord>;

    fn hit(&self, ray: &Ray, t_min: i128, t_max: i128) -> (r: Option<HitRecord>)
        requires
            self.hit_req(*ray, t_min, t_max),
        ensures
            r == self.hit_s(*ray, t_min as int, t_max as int),
    ;
}

} // verus!
