//! Specular surfaces: mirror reflection, roughened by a fuzz factor, and
//! absorbing at grazing angles.

use vstd::prelude::*;
use crate::fx::{FX_ONE, fx_mul_s, fx_mul, lemma_fx_mul_mag};
use crate::vector::{Vector3, vb, lemma_dot_mag, FX_UNIT_CAP};
use crate::ray::Ray;
use crate::hitable::{HitRecord, FX_NORMAL_CAP};
use crate::material::{Scatterable, scatter_input_ok};
use crate::lambertian::{point_in_unit_sphere, in_unit_ball};

verus! {

/// Component bound under which a reflection is free of overflow: 2^40.
pub const FX_REFLECT_BOUND: i128 = 0x10000000000;

/// The reflection of `v` about the normal `n`.
pub open spec fn reflect_s(v: Vector3, n: Vector3) -> Vector3 {
    v.sub_s(n.scale_s(fx_mul_s(2 * (FX_ONE as int), v.dot_s(n))))
}

/// The metal scatter direction for jitter point `q`: the reflected unit
/// incoming direction, perturbed by `q` scaled with the fuzz factor.
pub open spec fn metal_dir_s(m: Metal, ray: Ray, rec: HitRecord, q: Vector3) -> Vector3 {
    reflect_s(ray.b.unit_s(), rec.normal).add_s(q.scale_s(m.fuzz as int))
}

#[derive(Clone, Copy, Debug, PartialEq, Eq, Structural)]
pub struct Metal {
    pub albedo: Vector3,
    pub fuzz: i128,
}

impl Metal {
    /// Attenuation in the unit cube, fuzz in the unit interval.
    pub open spec fn wf(self) -> bool {
        &&& 0 <= self.albedo.x <= FX_ONE
        &&& 0 <= self.albedo.y <= FX_ONE
        &&& 0 <= self.albedo.z <= FX_ONE
        &&& 0 <= self.fuzz <= FX_ONE
    }

    /// Fuzz outside the unit interval is clamped to it at construction.
    pub fn new(albedo: Vector3, fuzz: i128) -> (r: Metal)
        requires
            0 <= albedo.x <= FX_ONE,
            0 <= albedo.y <= FX_ONE,
            0 <= albedo.z <= FX_ONE,
        ensures
            r.albedo == albedo,
            r.fuzz == (if fuzz < 0 { 0int } else if fuzz < FX_ONE { fuzz as int } else { FX_ONE as int }),
            r.wf(),
    {
        let f: i128 = if fuzz < 0 {
            0
        } else if fuzz < FX_ONE {
            fuzz
        } else {
            FX_ONE
        };
        Metal { albedo, fuzz: f }
    }
}

/// The mirror image of `v` about `n`: `v` minus twice its projection on `n`.
pub fn reflect(v: &Vector3, n: &Vector3) -> (r: Vector3)
    requires
        vb(*v, FX_REFLECT_BOUND as int),
        vb(*n, FX_REFLECT_BOUND as int),
    ensures
        r == reflect_s(*v, *n),
{
    proof {
        let m = FX_REFLECT_BOUND as int;
        lemma_dot_mag(*v, *n, m, m);
        lemma_fx_mul_mag(2 * (FX_ONE as int), v.dot_s(*n), 131072, 3 * ((m * m) / (FX_ONE as int)));
        lemma_fx_mul_mag(n.x as int, fx_mul_s(2 * (FX_ONE as int), v.dot_s(*n)), m, 131072 * (3 * ((m * m) / (FX_ONE as int))) / (FX_ONE as int));
        lemma_fx_mul_mag(n.y as int, fx_mul_s(2 * (FX_ONE as int), v.dot_s(*n)), m, 131072 * (3 * ((m * m) / (FX_ONE as int))) / (FX_ONE as int));
        lemma_fx_mul_mag(n.z as int, fx_mul_s(2 * (FX_ONE as int), v.dot_s(*n)), m, 131072 * (3 * ((m * m) / (FX_ONE as int))) / (FX_ONE as int));
    }
    let d = v.dot(n);
    let twice = fx_mul(2 * FX_ONE, d);
    let proj = n.scale(twice);
    v.sub(&proj)
}

/// With zero fuzz the jitter point contributes nothing: every scatter off
/// such a metal leaves exactly along the mirror direction.
pub proof fn lemma_zero_fuzz_ignores_jitter(m: Metal, ray: Ray, rec: HitRecord, q: Vector3)
    requires
        m.fuzz == 0,
    ensures
        metal_dir_s(m, ray, rec, q) == reflect_s(ray.b.unit_s(), rec.normal),
{
    crate::fx::lemma_fx_mul_whole(q.x as int, 0);
    crate::fx::lemma_fx_mul_whole(q.y as int, 0);
    crate::fx::lemma_fx_mul_whole(q.z as int, 0);
    assert(0 * (FX_ONE as int) == 0) by (nonlinear_arith);
}

/// At normal incidence on an exactly unit normal, reflection is an exact
/// mirror: the incoming direction `-n` comes back as `n`, with no rounding.
pub proof fn lemma_reflect_normal_incidence(n: Vector3)
    requires
        vb(n, FX_UNIT_CAP as int),
        n.dot_s(n) == FX_ONE,
    ensures
        reflect_s(n.neg_s(), n) == n,
{
    let one = FX_ONE as int;
    let v = n.neg_s();
    assert(v.x == -n.x && v.y == -n.y && v.z == -n.z);
    assert(fx_mul_s(-(n.x as int), n.x as int) == -fx_mul_s(n.x as int, n.x as int)) by {
        assert((-(n.x as int)) * (n.x as int) == -((n.x as int) * (n.x as int))) by (nonlinear_arith);
    }
    assert(fx_mul_s(-(n.y as int), n.y as int) == -fx_mul_s(n.y as int, n.y as int)) by {
        assert((-(n.y as int)) * (n.y as int) == -((n.y as int) * (n.y as int))) by (nonlinear_arith);
    }
    assert(fx_mul_s(-(n.z as int), n.z as int) == -fx_mul_s(n.z as int, n.z as int)) by {
        assert((-(n.z as int)) * (n.z as int) == -((n.z as int) * (n.z as int))) by (nonlinear_arith);
    }
    assert(v.dot_s(n) == -(one));
    crate::fx::lemma_fx_mul_whole(2, -(one));
    assert(2 * one * -(one) == (-2) * one * one) by (nonlinear_arith);
    assert(fx_mul_s(2 * one, -(one)) == fx_mul_s(-(one), 2 * one)) by {
        assert((2 * one) * (-(one)) == (-(one)) * (2 * one)) by (nonlinear_arith);
    }
    assert(fx_mul_s(-(one), 2 * one) == -(one) * 2) by {
        crate::fx::lemma_fx_mul_whole(-(one), 2);
    }
    crate::fx::lemma_fx_mul_whole(n.x as int, -2);
    crate::fx::lemma_fx_mul_whole(n.y as int, -2);
    crate::fx::lemma_fx_mul_whole(n.z as int, -2);
    assert((-2) * one == -(one) * 2) by (nonlinear_arith);
    assert(n.scale_s(-(one) * 2).x == n.x * -2);
    assert(n.scale_s(-(one) * 2).y == n.y * -2);
    assert(n.scale_s(-(one) * 2).z == n.z * -2);
}

impl Scatterable for Metal {
    open spec fn scatter_req(&self, ray: Ray, rec: HitRecord) -> bool {
        scatter_input_ok(ray, rec) && self.wf()
    }

    /// A metal reflects the unit incoming direction, fuzzed; it absorbs when
    /// the fuzzed direction points into the surface, or when the incoming
    /// direction is degenerate (zero squared length).
    open spec fn scatter_post(&self, ray: Ray, rec: HitRecord, res: Option<(Vector3, Ray)>) -> bool {
        match res {
            Some((attenuation, scattered)) => {
                &&& attenuation == self.albedo
                &&& scattered.a == rec.p
                &&& ray.b.norm_s() > 0
                &&& exists|q: Vector3|
                    #[trigger] in_unit_ball(q) && scattered.b == metal_dir_s(*self, ray, rec, q)
                        && scattered.b.dot_s(rec.normal) > 0
            },
            None => {
                ||| ray.b.norm_s() == 0
                ||| exists|q: Vector3|
                    #[trigger] in_unit_ball(q) && metal_dir_s(*self, ray, rec, q).dot_s(rec.normal) <= 0
            },
        }
    }

    fn scatter(&self, ray_in: &Ray, rec: &HitRecord) -> (res: Option<(Vector3, Ray)>) {
        let dir = ray_in.direction();
        if dir.norm() == 0 {
            return None;
        }
        let unit_in = dir.unit_vector();
        let reflected = reflect(&unit_in, &rec.normal());
        proof {
            let one = FX_ONE as int;
            let m_dot = 3 * (((FX_UNIT_CAP as int) * (FX_NORMAL_CAP as int)) / one);
            lemma_dot_mag(unit_in, rec.normal, FX_UNIT_CAP as int, FX_NORMAL_CAP as int);
            lemma_fx_mul_mag(2 * one, unit_in.dot_s(rec.normal), 2 * one, m_dot);
            let tw = fx_mul_s(2 * one, unit_in.dot_s(rec.normal));
            let m_tw = (2 * one * m_dot) / one;
            lemma_fx_mul_mag(rec.normal.x as int, tw, FX_NORMAL_CAP as int, m_tw);
            lemma_fx_mul_mag(rec.normal.y as int, tw, FX_NORMAL_CAP as int, m_tw);
            lemma_fx_mul_mag(rec.normal.z as int, tw, FX_NORMAL_CAP as int, m_tw);
        }
        let q = point_in_unit_sphere();
        proof {
            lemma_fx_mul_mag(q.x as int, self.fuzz as int, FX_ONE as int, FX_ONE as int);
            lemma_fx_mul_mag(q.y as int, self.fuzz as int, FX_ONE as int, FX_ONE as int);
            lemma_fx_mul_mag(q.z as int, self.fuzz as int, FX_ONE as int, FX_ONE as int);
        }
        let perturb = q.scale(self.fuzz);
        let out_dir = reflected.add(&perturb);
        let scattered = Ray::new(rec.p(), out_dir);
        let aligned = scattered.direction().dot(&rec.normal());
        if aligned > 0 {
            proof {
                assert(in_unit_ball(q) && scattered.b == metal_dir_s(*self, *ray_in, *rec, q)
                    && scattered.b.dot_s(rec.normal) > 0);
            }
            Some((self.albedo, scattered))
        } else {
            proof {
                assert(in_unit_ball(q) && metal_dir_s(*self, *ray_in, *rec, q).dot_s(rec.normal) <= 0);
            }
            None
        }
    }
}

} // verus!
