//! Refractive surfaces: Snell refraction where it exists, total internal
//! reflection where it does not, and a Fresnel-weighted stochastic choice
//! between reflecting and refracting otherwise.

use vstd::prelude::*;
use crate::fx::{
    FX_ONE, fx_mul_s, fx_div_s, fx_sqrt_s, fx_mul, fx_div, fx_sqrt,
    lemma_fx_mul_mag, lemma_fx_mul_unit, lemma_fx_div_in_unit, lemma_tdiv_mag,
};
use crate::vector::{Vector3, vb, lemma_dot_mag, lemma_fx_square_nonneg, FX_UNIT_CAP, FX_GEOM_BOUND};
use crate::ray::Ray;
use crate::hitable::{HitRecord, FX_NORMAL_CAP};
use crate::material::{Scatterable, scatter_input_ok};
use crate::metal::{reflect, reflect_s};
use crate::rng::random_fx;

verus! {

/// Largest refractive index the configuration accepts: 2^16 in world terms.
pub const FX_INDEX_MAX: i128 = 0x100000000;

/// The cosine term a refraction computes: the unit incoming direction against
/// the outward normal.
pub open spec fn refract_dt_s(v: Vector3, n: Vector3) -> int {
    v.unit_s().dot_s(n)
}

/// The refraction discriminant; refraction exists exactly when it is positive.
pub open spec fn refract_disc_s(v: Vector3, n: Vector3, ni_over_nt: int) -> int {
    FX_ONE - fx_mul_s(
        fx_mul_s(ni_over_nt, ni_over_nt),
        FX_ONE - fx_mul_s(refract_dt_s(v, n), refract_dt_s(v, n)),
    )
}

/// The refracted direction, by Snell's law in vector form.
pub open spec fn refract_dir_s(v: Vector3, n: Vector3, ni_over_nt: int) -> Vector3 {
    let dt = refract_dt_s(v, n);
    v.unit_s().sub_s(n.scale_s(dt)).scale_s(ni_over_nt).sub_s(
        n.scale_s(fx_sqrt_s(refract_disc_s(v, n, ni_over_nt))),
    )
}

/// Refraction of `v` at a surface with outward normal `n`: the refracted
/// direction when the discriminant is positive, nothing under total internal
/// reflection.
pub open spec fn refract_s(v: Vector3, n: Vector3, ni_over_nt: int) -> Option<Vector3> {
    if refract_disc_s(v, n, ni_over_nt) > 0 {
        Some(refract_dir_s(v, n, ni_over_nt))
    } else {
        None
    }
}

/// Schlick's polynomial approximation of the Fresnel reflectance; the
/// quintic's base is clamped into the unit interval, where rounding of the
/// cosine could push it out.
pub open spec fn schlick_s(cosine: int, ri: int) -> int {
    let q = fx_div_s(FX_ONE - ri, FX_ONE + ri);
    let r0 = fx_mul_s(q, q);
    let raw = FX_ONE - cosine;
    let base: int = if raw < 0 { 0 } else if raw > FX_ONE { FX_ONE as int } else { raw };
    let b2 = fx_mul_s(base, base);
    let b4 = fx_mul_s(b2, b2);
    let b5 = fx_mul_s(b4, base);
    r0 + fx_mul_s(FX_ONE - r0, b5)
}

/// The outward normal a dielectric refracts against: the stored normal when
/// the ray arrives from outside, its negation when the ray leaves the medium.
pub open spec fn dielectric_outward_s(ray: Ray, rec: HitRecord) -> Vector3 {
    if ray.b.dot_s(rec.normal) > 0 {
        rec.normal.neg_s()
    } else {
        rec.normal
    }
}

/// The index ratio for that crossing.
pub open spec fn dielectric_ni_s(d: Dielectric, ray: Ray, rec: HitRecord) -> int {
    if ray.b.dot_s(rec.normal) > 0 {
        d.ri as int
    } else {
        fx_div_s(FX_ONE as int, d.ri as int)
    }
}

#[derive(Clone, Copy, Debug, PartialEq, Eq, Structural)]
pub struct Dielectric {
    pub ri: i128,
}

impl Dielectric {
    /// A positive, bounded refractive index.
    pub open spec fn wf(self) -> bool {
        0 < self.ri <= FX_INDEX_MAX
    }

    pub fn new(ri: i128) -> (r: Dielectric)
        requires
            0 < ri <= FX_INDEX_MAX,
        ensures
            r == (Dielectric { ri }),
            r.wf(),
    {
        Dielectric { ri }
    }
}

/// Snell refraction: `None` exactly when the discriminant rules it out.
fn refract(v: &Vector3, n: &Vector3, ni_over_nt: i128) -> (r: Option<Vector3>)
    requires
        vb(*v, FX_GEOM_BOUND as int),
        v.norm_s() > 0,
        vb(*n, FX_NORMAL_CAP as int),
        0 <= ni_over_nt <= FX_INDEX_MAX,
    ensures
        r == refract_s(*v, *n, ni_over_nt as int),
{
    let uv = v.unit_vector();
    let dt: i128 = uv.dot(n);
    proof {
        let one = FX_ONE as int;
        let m_dt = 3 * (((FX_UNIT_CAP as int) * (FX_NORMAL_CAP as int)) / one);
        lemma_dot_mag(uv, *n, FX_UNIT_CAP as int, FX_NORMAL_CAP as int);
        lemma_fx_mul_mag(dt as int, dt as int, m_dt, m_dt);
        lemma_fx_mul_mag(ni_over_nt as int, ni_over_nt as int, FX_INDEX_MAX as int, FX_INDEX_MAX as int);
        let m_dt2 = (m_dt * m_dt) / one;
        let m_ni2 = ((FX_INDEX_MAX as int) * (FX_INDEX_MAX as int)) / one;
        lemma_fx_mul_mag(
            fx_mul_s(ni_over_nt as int, ni_over_nt as int),
            (FX_ONE as int) - fx_mul_s(dt as int, dt as int),
            m_ni2,
            one + m_dt2,
        );
    }
    proof {
        assert(vb(uv, FX_UNIT_CAP as int));
        assert(-1572864 <= dt as int <= 1572864);
    }
    let dt2: i128 = fx_mul(dt, dt);
    let ni2: i128 = fx_mul(ni_over_nt, ni_over_nt);
    let discriminant: i128 = FX_ONE - fx_mul(ni2, FX_ONE - dt2);
    if discriminant > 0 {
        let sq: i128 = fx_sqrt(discriminant);
        proof {
            let m_dt = 3 * (((FX_UNIT_CAP as int) * (FX_NORMAL_CAP as int)) / (FX_ONE as int));
            lemma_fx_mul_mag(n.x as int, dt as int, FX_NORMAL_CAP as int, m_dt);
            lemma_fx_mul_mag(n.y as int, dt as int, FX_NORMAL_CAP as int, m_dt);
            lemma_fx_mul_mag(n.z as int, dt as int, FX_NORMAL_CAP as int, m_dt);
            lemma_fx_mul_mag(n.x as int, sq as int, FX_NORMAL_CAP as int, 0x10000000000000000);
            lemma_fx_mul_mag(n.y as int, sq as int, FX_NORMAL_CAP as int, 0x10000000000000000);
            lemma_fx_mul_mag(n.z as int, sq as int, FX_NORMAL_CAP as int, 0x10000000000000000);
        }
        let scaled_n = n.scale(dt);
        let inner = uv.sub(&scaled_n);
        proof {
            let one = FX_ONE as int;
            let m_dt = 3 * (((FX_UNIT_CAP as int) * (FX_NORMAL_CAP as int)) / one);
            let m_inner = (FX_UNIT_CAP as int) + ((FX_NORMAL_CAP as int) * m_dt) / one;
            lemma_fx_mul_mag(inner.x as int, ni_over_nt as int, m_inner, FX_INDEX_MAX as int);
            lemma_fx_mul_mag(inner.y as int, ni_over_nt as int, m_inner, FX_INDEX_MAX as int);
            lemma_fx_mul_mag(inner.z as int, ni_over_nt as int, m_inner, FX_INDEX_MAX as int);
        }
        let refracted = inner.scale(ni_over_nt).sub(&n.scale(sq));
        Some(refracted)
    } else {
        None
    }
}

/// Schlick reflectance: always a probability, between zero and one.
fn schlick(cosine: i128, ri: i128) -> (r: i128)
    requires
        0 < ri <= FX_INDEX_MAX,
        -0x100000000000000000000 <= cosine <= 0x100000000000000000000,
    ensures
        r == schlick_s(cosine as int, ri as int),
        0 <= r <= FX_ONE,
{
    proof {
        let one = FX_ONE as int;
        lemma_fx_div_in_unit(one - ri as int, one + ri as int);
        let qs = fx_div_s(one - ri as int, one + ri as int);
        lemma_fx_square_nonneg(qs);
        lemma_fx_mul_mag(qs, qs, one - 1, one - 1);
        assert(((one - 1) * (one - 1)) / one < one) by (nonlinear_arith)
            requires one == 65536;
    }
    let q: i128 = fx_div(FX_ONE - ri, FX_ONE + ri);
    let r0: i128 = fx_mul(q, q);
    let raw: i128 = FX_ONE - cosine;
    let base: i128 = if raw < 0 {
        0
    } else if raw > FX_ONE {
        FX_ONE
    } else {
        raw
    };
    proof {
        lemma_fx_mul_unit(base as int, base as int);
        lemma_fx_mul_unit(fx_mul_s(base as int, base as int), fx_mul_s(base as int, base as int));
        lemma_fx_mul_unit(
            fx_mul_s(fx_mul_s(base as int, base as int), fx_mul_s(base as int, base as int)),
            base as int,
        );
    }
    let b2: i128 = fx_mul(base, base);
    let b4: i128 = fx_mul(b2, b2);
    let b5: i128 = fx_mul(b4, base);
    proof {
        lemma_fx_mul_unit((FX_ONE - r0) as int, b5 as int);
    }
    r0 + fx_mul(FX_ONE - r0, b5)
}

impl Scatterable for Dielectric {
    open spec fn scatter_req(&self, ray: Ray, rec: HitRecord) -> bool {
        scatter_input_ok(ray, rec) && self.wf()
    }

    /// A dielectric attenuates nothing. It reflects or refracts from the hit
    /// point; under total internal reflection it always reflects. Only a
    /// degenerate (zero squared length) incoming direction is absorbed.
    open spec fn scatter_post(&self, ray: Ray, rec: HitRecord, res: Option<(Vector3, Ray)>) -> bool {
        match res {
            Some((attenuation, scattered)) => {
                &&& ray.b.norm_s() > 0
                &&& attenuation == (Vector3 { x: FX_ONE, y: FX_ONE, z: FX_ONE })
                &&& scattered.a == rec.p
                &&& match refract_s(ray.b, dielectric_outward_s(ray, rec), dielectric_ni_s(*self, ray, rec)) {
                    Option::None => scattered.b == reflect_s(ray.b.unit_s(), rec.normal),
                    Option::Some(refracted) => scattered.b == reflect_s(ray.b.unit_s(), rec.normal)
                        || scattered.b == refracted,
                }
            },
            None => ray.b.norm_s() == 0,
        }
    }

    fn scatter(&self, ray_in: &Ray, rec: &HitRecord) -> (res: Option<(Vector3, Ray)>) {
        let dir = ray_in.direction();
        if dir.norm() == 0 {
            return None;
        }
        let unit_in = dir.unit_vector();
        let reflected = reflect(&unit_in, &rec.normal());
        let attenuation = Vector3::new(FX_ONE, FX_ONE, FX_ONE);
        let d: i128 = dir.dot(&rec.normal());
        let len: i128 = dir.length();
        proof {
            lemma_dot_mag(dir, rec.normal, FX_GEOM_BOUND as int, FX_NORMAL_CAP as int);
            crate::fx::lemma_fx_sqrt_pos(dir.norm_s());
            let m_d = 3 * (((FX_GEOM_BOUND as int) * (FX_NORMAL_CAP as int)) / (FX_ONE as int));
            lemma_fx_mul_mag(self.ri as int, d as int, FX_INDEX_MAX as int, m_d);
            lemma_tdiv_mag(
                fx_mul_s(self.ri as int, d as int) * (FX_ONE as int),
                len as int,
            );
            lemma_tdiv_mag((-(d as int)) * (FX_ONE as int), len as int);
            lemma_tdiv_mag((FX_ONE as int) * (FX_ONE as int), self.ri as int);
        }
        let outward: Vector3;
        let ni_over_nt: i128;
        let cosine: i128;
        if d > 0 {
            outward = rec.normal().neg();
            ni_over_nt = self.ri;
            cosine = fx_div(fx_mul(self.ri, d), len);
        } else {
            outward = rec.normal();
            ni_over_nt = fx_div(FX_ONE, self.ri);
            cosine = fx_div(-d, len);
        }
        match refract(&dir, &outward, ni_over_nt) {
            Some(refracted) => {
                let reflect_prob: i128 = schlick(cosine, self.ri);
                let coin: i128 = random_fx();
                if coin < reflect_prob {
                    Some((attenuation, Ray::new(rec.p(), reflected)))
                } else {
                    Some((attenuation, Ray::new(rec.p(), refracted)))
                }
            },
            None => {
                // Total internal reflection: the reflection probability is one.
                Some((attenuation, Ray::new(rec.p(), reflected)))
            },
        }
    }
}

} // verus!
