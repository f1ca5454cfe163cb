//! Spheres: the one shape, intersected by solving the ray quadratic; the
//! nearer admissible root is always preferred.

use vstd::prelude::*;
use crate::fx::{
    FX_ONE, FX_SENTINEL, fits, fx_mul_s, fx_div_s, fx_sqrt_s, fx_mul, fx_div, fx_sqrt,
    lemma_fx_mul_mag, lemma_tdiv_mag, lemma_tdiv_ordered, lemma_fx_div_mul_sign,
    lemma_isqrt_bounds,
};
use crate::vector::{Vector3, vb, lemma_dot_mag, lemma_fx_square_nonneg, FX_GEOM_BOUND};
use crate::ray::Ray;
use crate::hitable::{HitRecord, Hittable};
use crate::material::Material;

verus! {

/// True when the ray's origin and direction lie within the scene bound.
pub open spec fn ray_in_bounds(ray: Ray) -> bool {
    &&& vb(ray.a, FX_GEOM_BOUND as int)
    &&& vb(ray.b, FX_GEOM_BOUND as int)
}

/// A sphere; a negative radius flips the stored normal and models a hollow
/// shell, a zero radius is rejected at construction as a configuration error.
#[derive(Clone, Copy, Debug)]
pub struct Sphere {
    pub center: Vector3,
    pub radius: i128,
    pub material: Material,
}

impl Sphere {
    /// Bounded nonzero geometry and a well-formed material.
    pub open spec fn wf(self) -> bool {
        &&& vb(self.center, FX_GEOM_BOUND as int)
        &&& self.radius != 0
        &&& -FX_GEOM_BOUND <= self.radius <= FX_GEOM_BOUND
        &&& self.material.wf()
    }

    pub fn new(cen: Vector3, r: i128, material: Material) -> (s: Sphere)
        requires
            vb(cen, FX_GEOM_BOUND as int),
            r != 0,
            -FX_GEOM_BOUND <= r <= FX_GEOM_BOUND,
            material.wf(),
        ensures
            s == (Sphere { center: cen, radius: r, material }),
            s.wf(),
    {
        Sphere { center: cen, radius: r, material }
    }

    /// The hit point's offset from the ray origin to the center.
    pub open spec fn oc_s(self, ray: Ray) -> Vector3 {
        ray.a.sub_s(self.center)
    }

    /// The quadratic's leading coefficient: the direction's squared length.
    pub open spec fn qa_s(self, ray: Ray) -> int {
        ray.b.dot_s(ray.b)
    }

    /// The quadratic's linear coefficient.
    pub open spec fn qb_s(self, ray: Ray) -> int {
        fx_mul_s(2 * (FX_ONE as int), self.oc_s(ray).dot_s(ray.b))
    }

    /// The quadratic's constant coefficient.
    pub open spec fn qc_s(self, ray: Ray) -> int {
        self.oc_s(ray).dot_s(self.oc_s(ray)) - fx_mul_s(self.radius as int, self.radius as int)
    }

    /// The discriminant; positive exactly when the ray pierces the sphere
    /// (a tangent counts as a miss).
    pub open spec fn disc_s(self, ray: Ray) -> int {
        fx_mul_s(self.qb_s(ray), self.qb_s(ray))
            - fx_mul_s(fx_mul_s(4 * (FX_ONE as int), self.qa_s(ray)), self.qc_s(ray))
    }

    /// The nearer root of the quadratic.
    pub open spec fn t1_s(self, ray: Ray) -> int {
        fx_div_s(
            0 - self.qb_s(ray) - fx_sqrt_s(self.disc_s(ray)),
            fx_mul_s(2 * (FX_ONE as int), self.qa_s(ray)),
        )
    }

    /// The farther root of the quadratic.
    pub open spec fn t2_s(self, ray: Ray) -> int {
        fx_div_s(
            0 - self.qb_s(ray) + fx_sqrt_s(self.disc_s(ray)),
            fx_mul_s(2 * (FX_ONE as int), self.qa_s(ray)),
        )
    }

    /// The record reported for an accepted parameter `t`: the point reached,
    /// the normal scaled by the reciprocal radius (sign and all), and the
    /// sphere's material by value.
    pub open spec fn record_at_s(self, ray: Ray, t: int) -> HitRecord {
        let p = ray.point_at_s(t);
        HitRecord {
            t: t as i128,
            p,
            normal: p.sub_s(self.center).div_s(self.radius as int),
            material: self.material,
        }
    }

    /// The whole intersection: no hit on a nonpositive discriminant; else the
    /// nearer root if it lies strictly inside `(t_min, t_max)`, else the
    /// farther root under the same test, else no hit.
    pub open spec fn sphere_hit_s(self, ray: Ray, t_min: int, t_max: int) -> Option<HitRecord> {
        if self.disc_s(ray) > 0 {
            if t_min < self.t1_s(ray) < t_max {
                Some(self.record_at_s(ray, self.t1_s(ray)))
            } else if t_min < self.t2_s(ray) < t_max {
                Some(self.record_at_s(ray, self.t2_s(ray)))
            } else {
                None
            }
        } else {
            None
        }
    }
}

impl Hittable for Sphere {
    open spec fn hit_req(&self, ray: Ray, t_min: i128, t_max: i128) -> bool {
        self.wf() && ray_in_bounds(ray)
    }

    open spec fn hit_s(&self, ray: Ray, t_min: int, t_max: int) -> Option<HitRecord> {
        self.sphere_hit_s(ray, t_min, t_max)
    }

    fn hit(&self, ray: &Ray, t_min: i128, t_max: i128) -> (r: Option<HitRecord>) {
        let oc = ray.origin().sub(&self.center);
        let dir = ray.direction();
        proof {
            let g = FX_GEOM_BOUND as int;
            assert(vb(oc, 2 * g));
            lemma_dot_mag(dir, dir, g, g);
            lemma_dot_mag(oc, dir, 2 * g, g);
            lemma_dot_mag(oc, oc, 2 * g, 2 * g);
        }
        let a: i128 = dir.dot(&dir);
        let ocd: i128 = oc.dot(&dir);
        let occ: i128 = oc.dot(&oc);
        proof {
            let g = FX_GEOM_BOUND as int;
            let one = FX_ONE as int;
            let m_ocd = 3 * ((2 * g * g) / one);
            lemma_fx_mul_mag(2 * one, ocd as int, 2 * one, m_ocd);
            lemma_fx_mul_mag(self.radius as int, self.radius as int, g, g);
        }
        let b: i128 = fx_mul(2 * FX_ONE, ocd);
        let rr: i128 = fx_mul(self.radius, self.radius);
        let c: i128 = occ - rr;
        proof {
            let g = FX_GEOM_BOUND as int;
            let one = FX_ONE as int;
            let m_ocd = 3 * ((2 * g * g) / one);
            let m_a = 3 * ((g * g) / one);
            let m_occ = 3 * ((2 * g * (2 * g)) / one);
            let m_b = (2 * one * m_ocd) / one;
            let m_c = m_occ + (g * g) / one;
            assert(m_b == 216172782113783808 && m_c == 234187180623265792 && m_a == 54043195528445952);
            assert(-m_b <= b <= m_b);
            assert(-m_c <= c <= m_c);
            lemma_fx_mul_mag(b as int, b as int, m_b, m_b);
            lemma_fx_mul_mag(4 * one, a as int, 4 * one, m_a);
            let m_4a = (4 * one * m_a) / one;
            assert(m_4a == 216172782113783808);
            lemma_fx_mul_mag(fx_mul_s(4 * one, a as int), c as int, m_4a, m_c);
            assert(-713053462628379038341895553024 <= fx_mul_s(b as int, b as int) <= 713053462628379038341895553024);
            assert(-772474584514077291537053515776
                <= fx_mul_s(fx_mul_s(4 * one, a as int), c as int)
                <= 772474584514077291537053515776);
        }
        let fourac: i128 = fx_mul(fx_mul(4 * FX_ONE, a), c);
        let discriminant: i128 = fx_mul(b, b) - fourac;
        if discriminant > 0 {
            let sq: i128 = fx_sqrt(discriminant);
            let den: i128 = fx_mul(2 * FX_ONE, a);
            proof {
                lemma_fx_square_nonneg(dir.x as int);
                lemma_fx_square_nonneg(dir.y as int);
                lemma_fx_square_nonneg(dir.z as int);
                let one = FX_ONE as int;
                let g = FX_GEOM_BOUND as int;
                let m_a = 3 * ((g * g) / one);
                lemma_fx_mul_mag(2 * one, a as int, 2 * one, m_a);
            }
            let num1: i128 = 0 - b - sq;
            let t: i128 = fx_div(num1, den);
            if t < t_max && t > t_min {
                proof {
                    self.lemma_accepted_root_moderate(t as int, den as int, num1 as int, t_max as int);
                    assert(t == self.t1_s(*ray));
                }
                return Some(self.make_record(ray, t));
            }
            let num2: i128 = 0 - b + sq;
            let t: i128 = fx_div(num2, den);
            if t < t_max && t > t_min {
                proof {
                    self.lemma_accepted_root_moderate(t as int, den as int, num2 as int, t_max as int);
                    assert(t == self.t2_s(*ray));
                }
                return Some(self.make_record(ray, t));
            }
            None
        } else {
            None
        }
    }
}

/// Root magnitude cap for an accepted intersection parameter: 2^88.
pub const FX_ROOT_CAP: i128 = 0x10000000000000000000000;

/// The nearer root never exceeds the farther one (with a degenerate leading
/// coefficient both are the division sentinel).
pub proof fn lemma_sphere_roots_ordered(s: Sphere, ray: Ray)
    ensures
        s.t1_s(ray) <= s.t2_s(ray),
{
    let one = FX_ONE as int;
    lemma_fx_square_nonneg(ray.b.x as int);
    lemma_fx_square_nonneg(ray.b.y as int);
    lemma_fx_square_nonneg(ray.b.z as int);
    let qa = s.qa_s(ray);
    assert(2 * one * qa >= 0) by (nonlinear_arith)
        requires qa >= 0 && one > 0;
    lemma_tdiv_mag(2 * one * qa, one);
    let den = fx_mul_s(2 * one, qa);
    let disc = s.disc_s(ray);
    if disc * one >= 0 {
        lemma_isqrt_bounds(disc * one);
    }
    let sq = fx_sqrt_s(disc);
    let num1 = 0 - s.qb_s(ray) - sq;
    let num2 = 0 - s.qb_s(ray) + sq;
    if den != 0 {
        vstd::arithmetic::mul::lemma_mul_inequality(num1, num2, one);
        lemma_tdiv_ordered(num1 * one, num2 * one, den);
    }
}

/// A reported normal points along the hit point's offset from the center for
/// a positive radius (outward) and against it for a negative one (inward):
/// the normal is the offset scaled by the reciprocal radius, sign and all.
pub proof fn lemma_hit_normal_orientation(s: Sphere, ray: Ray, t_min: i128, t_max: i128)
    requires
        s.wf(),
        ray_in_bounds(ray),
    ensures
        s.sphere_hit_s(ray, t_min as int, t_max as int) matches Some(h) ==> {
            &&& (s.radius > 0 ==> h.normal.dot_s(h.p.sub_s(s.center)) >= 0)
            &&& (s.radius < 0 ==> h.normal.dot_s(h.p.sub_s(s.center)) <= 0)
        },
{
    if s.sphere_hit_s(ray, t_min as int, t_max as int) is Some {
        let g = FX_GEOM_BOUND as int;
        let one = FX_ONE as int;
        lemma_dot_mag(ray.b, ray.b, g, g);
        lemma_dot_mag(s.oc_s(ray), ray.b, 2 * g, g);
        lemma_dot_mag(s.oc_s(ray), s.oc_s(ray), 2 * g, 2 * g);
        let m_ocd = 3 * ((2 * g * g) / one);
        lemma_fx_mul_mag(2 * one, s.oc_s(ray).dot_s(ray.b), 2 * one, m_ocd);
        lemma_fx_mul_mag(s.radius as int, s.radius as int, g, g);
        let m_b = (2 * one * m_ocd) / one;
        assert(m_b == 216172782113783808);
        let qb = s.qb_s(ray);
        let qc = s.qc_s(ray);
        let m_c = 3 * ((2 * g * (2 * g)) / one) + (g * g) / one;
        let m_a = 3 * ((g * g) / one);
        lemma_fx_mul_mag(qb, qb, m_b, m_b);
        lemma_fx_mul_mag(4 * one, s.qa_s(ray), 4 * one, m_a);
        let m_4a = (4 * one * m_a) / one;
        assert(m_4a == 216172782113783808 && m_c == 234187180623265792);
        lemma_fx_mul_mag(fx_mul_s(4 * one, s.qa_s(ray)), qc, m_4a, m_c);
        let disc = s.disc_s(ray);
        assert(disc <= 1485528047142456329878949068800);
        lemma_isqrt_bounds(disc * one);
        let sq = fx_sqrt_s(disc);
        assert(sq < 0x1000000000000000) by (nonlinear_arith)
            requires
                sq >= 0,
                sq * sq <= disc * one,
                disc <= 1485528047142456329878949068800,
                one == 65536;
        // The accepted root came from a nondegenerate division, so it is
        // moderate.
        lemma_fx_square_nonneg(ray.b.x as int);
        lemma_fx_square_nonneg(ray.b.y as int);
        lemma_fx_square_nonneg(ray.b.z as int);
        assert(2 * one * s.qa_s(ray) >= 0) by (nonlinear_arith)
            requires s.qa_s(ray) >= 0 && one > 0;
        lemma_tdiv_mag(2 * one * s.qa_s(ray), one);
        let den = fx_mul_s(2 * one, s.qa_s(ray));
        let t = if t_min < s.t1_s(ray) < t_max as int {
            s.t1_s(ray)
        } else {
            s.t2_s(ray)
        };
        if den == 0 {
            assert(s.t1_s(ray) == FX_SENTINEL as int && s.t2_s(ray) == FX_SENTINEL as int);
            assert(false);
        }
        let num1 = 0 - qb - sq;
        let num2 = 0 - qb + sq;
        lemma_tdiv_mag(num1 * one, den);
        lemma_tdiv_mag(num2 * one, den);
        assert(-(FX_ROOT_CAP as int) <= num1 * one <= FX_ROOT_CAP as int
            && -(FX_ROOT_CAP as int) <= num2 * one <= FX_ROOT_CAP as int) by (nonlinear_arith)
            requires
                -216172782113783808 - 0x1000000000000000 <= num1 <= 216172782113783808
                    + 0x1000000000000000,
                -216172782113783808 - 0x1000000000000000 <= num2 <= 216172782113783808
                    + 0x1000000000000000,
                one == 65536,
                FX_ROOT_CAP as int == 0x10000000000000000000000;
        assert(-(FX_ROOT_CAP as int) <= t <= FX_ROOT_CAP as int);
        // The reported point's components stay in range, so the record's
        // normal is the exact quotient of its offset by the radius.
        lemma_fx_mul_mag(ray.b.x as int, t, g, FX_ROOT_CAP as int);
        lemma_fx_mul_mag(ray.b.y as int, t, g, FX_ROOT_CAP as int);
        lemma_fx_mul_mag(ray.b.z as int, t, g, FX_ROOT_CAP as int);
        let h = s.record_at_s(ray, t);
        let off = h.p.sub_s(s.center);
        crate::fx::lemma_fx_div_mag(off.x as int, s.radius as int);
        crate::fx::lemma_fx_div_mag(off.y as int, s.radius as int);
        crate::fx::lemma_fx_div_mag(off.z as int, s.radius as int);
        lemma_fx_div_mul_sign(off.x as int, s.radius as int);
        lemma_fx_div_mul_sign(off.y as int, s.radius as int);
        lemma_fx_div_mul_sign(off.z as int, s.radius as int);
    }
}

/// Shrinking the upper end of the interval never changes which root a hit
/// reports, only whether one is reported: a hit inside the smaller interval
/// is the same hit in the larger one; a hit in the larger interval survives
/// exactly when its parameter is below the smaller bound.
pub proof fn lemma_sphere_hit_restrict(s: Sphere, ray: Ray, t_min: int, m2: int, t_max: int)
    requires
        m2 <= t_max,
        i128::MIN as int <= t_min,
        t_max <= i128::MAX as int,
    ensures
        s.sphere_hit_s(ray, t_min, m2) matches Some(h) ==> s.sphere_hit_s(ray, t_min, t_max) == Some(h),
        s.sphere_hit_s(ray, t_min, t_max) matches Some(h)
            ==> ((h.t as int) < m2 ==> s.sphere_hit_s(ray, t_min, m2) == Some(h)),
        s.sphere_hit_s(ray, t_min, t_max) matches Some(h)
            ==> ((h.t as int) >= m2 ==> s.sphere_hit_s(ray, t_min, m2) is None),
        s.sphere_hit_s(ray, t_min, t_max) is None ==> s.sphere_hit_s(ray, t_min, m2) is None,
{
    lemma_sphere_roots_ordered(s, ray);
}

impl Sphere {
    /// An accepted root is moderate: the division that produced it had a
    /// positive denominator (the sentinel of a degenerate quadratic compares
    /// below no upper bound), so the root's magnitude is bounded by its
    /// scaled numerator.
    proof fn lemma_accepted_root_moderate(self, t: int, den: int, num: int, t_max: int)
        requires
            den >= 0,
            fits(num * (FX_ONE as int)),
            -(FX_ROOT_CAP as int) <= num * (FX_ONE as int) <= FX_ROOT_CAP as int,
            t == fx_div_s(num, den),
            t < t_max,
            t_max <= i128::MAX as int,
        ensures
            den > 0,
            -(FX_ROOT_CAP as int) <= t <= FX_ROOT_CAP as int,
    {
        if den == 0 {
            assert(t == FX_SENTINEL as int);
            assert(false);
        }
        lemma_tdiv_mag(num * (FX_ONE as int), den);
    }

    /// Builds the hit record for an accepted root.
    fn make_record(&self, ray: &Ray, t: i128) -> (r: HitRecord)
        requires
            self.wf(),
            ray_in_bounds(*ray),
            -FX_ROOT_CAP <= t <= FX_ROOT_CAP,
        ensures
            r == self.record_at_s(*ray, t as int),
            self.radius > 0 ==> r.normal.dot_s(r.p.sub_s(self.center)) >= 0,
            self.radius < 0 ==> r.normal.dot_s(r.p.sub_s(self.center)) <= 0,
    {
        proof {
            let g = FX_GEOM_BOUND as int;
            lemma_fx_mul_mag(ray.b.x as int, t as int, g, FX_ROOT_CAP as int);
            lemma_fx_mul_mag(ray.b.y as int, t as int, g, FX_ROOT_CAP as int);
            lemma_fx_mul_mag(ray.b.z as int, t as int, g, FX_ROOT_CAP as int);
        }
        let p = ray.point_at_parameter(t);
        let offset = p.sub(&self.center);
        proof {
            crate::fx::lemma_fx_div_mag(offset.x as int, self.radius as int);
            crate::fx::lemma_fx_div_mag(offset.y as int, self.radius as int);
            crate::fx::lemma_fx_div_mag(offset.z as int, self.radius as int);
        }
        let normal = offset.div(self.radius);
        proof {
            lemma_fx_div_mul_sign(offset.x as int, self.radius as int);
            lemma_fx_div_mul_sign(offset.y as int, self.radius as int);
            lemma_fx_div_mul_sign(offset.z as int, self.radius as int);
        }
        HitRecord { t, p, normal, material: self.material }
    }
}

} // verus!
