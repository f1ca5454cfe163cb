//! The closed set of surface responses and their shared scattering contract.

use vstd::prelude::*;
use crate::vector::{Vector3, vb, FX_GEOM_BOUND};
use crate::ray::Ray;
use crate::hitable::{HitRecord, FX_NORMAL_CAP};
use crate::lambertian::Lambertian;
use crate::metal::Metal;
use crate::dielectric::Dielectric;

verus! {

/// What every material asks of a hit before scattering: ray and hit point
/// within the scene's coordinate range, and a roughly unit normal.
pub open spec fn scatter_input_ok(ray: Ray, rec: HitRecord) -> bool {
    &&& vb(ray.a, FX_GEOM_BOUND as int)
    &&& vb(ray.b, FX_GEOM_BOUND as int)
    &&& vb(rec.p, FX_GEOM_BOUND as int)
    &&& vb(rec.normal, FX_NORMAL_CAP as int)
}

/// A surface response: either absorb the ray (`None`), or hand back a
/// per-channel attenuation and the scattered ray.
pub trait Scatterable {
    spec fn scatter_req(&self, ray: Ray, rec: HitRecord) -> bool;

    spec fn scatter_post(&self, ray: Ray, rec: HitRecord, res: Option<(Vector3, Ray)>) -> bool;

    fn scatter(&self, r_in: &Ray, rec: &HitRecord) -> (res: Option<(Vector3, Ray)>)
        requires
            self.scatter_req(*r_in, *rec),
        ensures
            self.scatter_post(*r_in, *rec, res),
    ;
}

#[derive(Clone, Copy, Debug, PartialEq, Eq, Structural)]
pub enum Material {
    Lambertian(Lambertian),
    Metal(Metal),
    Dielectric(Dielectric),
}

impl Material {
    /// Every variant's configuration honors the energy and range rules:
    /// attenuations in the unit cube, fuzz in the unit interval, a positive
    /// bounded refractive index.
    pub open spec fn wf(self) -> bool {
        match self {
            Material::Lambertian(inner) => inner.wf(),
            Material::Metal(inner) => inner.wf(),
            Material::Dielectric(inner) => inner.wf(),
        }
    }
}

impl Scatterable for Material {
    open spec fn scatter_req(&self, ray: Ray, rec: HitRecord) -> bool {
        match *self {
            Material::Lambertian(inner) => inner.scatter_req(ray, rec),
            Material::Metal(inner) => inner.scatter_req(ray, rec),
            Material::Dielectric(inner) => inner.scatter_req(ray, rec),
        }
    }

    open spec fn scatter_post(&self, ray: Ray, rec: HitRecord, res: Option<(Vector3, Ray)>) -> bool {
        match *self {
            Material::Lambertian(inner) => inner.scatter_post(ray, rec, res),
            Material::Metal(inner) => inner.scatter_post(ray, rec, res),
            Material::Dielectric(inner) => inner.scatter_post(ray, rec, res),
        }
    }

    fn scatter(&self, r_in: &Ray, rec: &HitRecord) -> (res: Option<(Vector3, Ray)>) {
        match *self {
            Material::Lambertian(ref inner) => inner.scatter(r_in, rec),
            Material::Metal(ref inner) => inner.scatter(r_in, rec),
            Material::Dielectric(ref inner) => inner.scatter(r_in, rec),
        }
    }
}

} // verus!
