//! Diffuse surfaces: always scatter toward the normal, jittered by a point
//! drawn uniformly from the unit ball.

use vstd::prelude::*;
use crate::fx::FX_ONE;
use crate::vector::{Vector3, vb};
use crate::ray::Ray;
use crate::hitable::HitRecord;
use crate::material::{Scatterable, scatter_input_ok};
use crate::rng::random_fx;

verus! {

/// True of a jitter point: strictly inside the unit ball, components within
/// the unit cube.
pub open spec fn in_unit_ball(p: Vector3) -> bool {
    &&& p.dot_s(p) < FX_ONE
    &&& vb(p, FX_ONE as int)
}

/// The diffuse scatter direction for jitter point `q`: toward the surface
/// normal, displaced by `q`.
pub open spec fn lambertian_dir_s(rec: HitRecord, q: Vector3) -> Vector3 {
    rec.p.add_s(rec.normal).add_s(q).sub_s(rec.p)
}

#[derive(Clone, Copy, Debug, PartialEq, Eq, Structural)]
pub struct Lambertian {
    pub albedo: Vector3,
}

impl Lambertian {
    /// The attenuation lies in the unit cube: no channel gains energy.
    pub open spec fn wf(self) -> bool {
        &&& 0 <= self.albedo.x <= FX_ONE
        &&& 0 <= self.albedo.y <= FX_ONE
        &&& 0 <= self.albedo.z <= FX_ONE
    }

    pub fn new(albedo: Vector3) -> (r: Lambertian)
        requires
            0 <= albedo.x <= FX_ONE,
            0 <= albedo.y <= FX_ONE,
            0 <= albedo.z <= FX_ONE,
        ensures
            r == (Lambertian { albedo }),
            r.wf(),
    {
        Lambertian { albedo }
    }
}

impl Scatterable for Lambertian {
    open spec fn scatter_req(&self, ray: Ray, rec: HitRecord) -> bool {
        scatter_input_ok(ray, rec)
    }

    /// A diffuse surface always scatters: attenuation is the albedo, the ray
    /// leaves from the hit point toward the jittered normal.
    open spec fn scatter_post(&self, ray: Ray, rec: HitRecord, res: Option<(Vector3, Ray)>) -> bool {
        match res {
            Some((attenuation, scattered)) => {
                &&& attenuation == self.albedo
                &&& scattered.a == rec.p
                &&& exists|q: Vector3| #[trigger] in_unit_ball(q) && scattered.b == lambertian_dir_s(rec, q)
            },
            None => false,
        }
    }

    fn scatter(&self, _ray_in: &Ray, rec: &HitRecord) -> (res: Option<(Vector3, Ray)>) {
        let q = point_in_unit_sphere();
        let target = rec.p().add(&rec.normal()).add(&q);
        let scattered = Ray::new(rec.p(), target.sub(&rec.p()));
        proof {
            assert(in_unit_ball(q) && scattered.b == lambertian_dir_s(*rec, q));
        }
        Some((self.albedo, scattered))
    }
}

/// A point drawn uniformly from the open unit ball, by rejection from the
/// cube: about a 52% acceptance rate per draw, so the retry bound is never
/// reached in practice; exhausting it falls back to the center.
pub fn point_in_unit_sphere() -> (p: Vector3)
    ensures
        in_unit_ball(p),
{
    let mut p = random_cube_point();
    let mut attempts: u32 = 65536;
    while attempts > 0
        invariant
            vb(p, FX_ONE as int),
        decreases attempts,
    {
        if p.dot(&p) < FX_ONE {
            break;
        }
        p = random_cube_point();
        attempts = attempts - 1;
    }
    if p.dot(&p) < FX_ONE {
        p
    } else {
        Vector3::new(0, 0, 0)
    }
}

/// A point uniform in the cube `[-1, 1)^3`.
fn random_cube_point() -> (p: Vector3)
    ensures
        vb(p, FX_ONE as int),
{
    let x = 2 * random_fx() - FX_ONE;
    let y = 2 * random_fx() - FX_ONE;
    let z = 2 * random_fx() - FX_ONE;
    Vector3::new(x, y, z)
}

} // verus!
