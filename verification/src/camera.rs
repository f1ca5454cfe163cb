//! The camera: an orthonormal basis aimed from a viewpoint at a target, an
//! image plane at the focus distance sized by the vertical field of view, and
//! a thin-lens aperture for depth of field (a zero aperture is a pinhole).

use vstd::prelude::*;
use crate::fx::{
    FX_ONE, tdiv, fx_mul_s, fx_div_s, fx_mul, fx_div, fx_int_div,
    lemma_fx_mul_mag, lemma_tdiv_mag,
};
use crate::vector::{Vector3, vb, FX_VEC_BOUND, FX_UNIT_CAP};
use crate::ray::Ray;
use crate::rng::random_fx;

verus! {

/// Bound on the camera's configuration scalars and points: 2^30.
pub const FX_CAM_BOUND: i128 = 0x40000000;

/// Clamp bound on the image plane's half height: 2^33, far beyond any
/// realistic field of view, reached only where rounding degenerates the
/// tangent's divisor.
pub const FX_TAN_CAP: i128 = 0x200000000;

/// Pi in fixed point.
pub const FX_PI: i128 = 205887;

/// The sine's Maclaurin series through the ninth power, in fixed point.
pub open spec fn sin_series_s(x: int) -> int {
    let x2 = fx_mul_s(x, x);
    let x3 = fx_mul_s(x2, x);
    let x5 = fx_mul_s(x3, x2);
    let x7 = fx_mul_s(x5, x2);
    let x9 = fx_mul_s(x7, x2);
    x - tdiv(x3, 6) + tdiv(x5, 120) - tdiv(x7, 5040) + tdiv(x9, 362880)
}

/// The cosine's Maclaurin series through the eighth power, in fixed point.
pub open spec fn cos_series_s(x: int) -> int {
    let x2 = fx_mul_s(x, x);
    let x4 = fx_mul_s(x2, x2);
    let x6 = fx_mul_s(x4, x2);
    let x8 = fx_mul_s(x6, x2);
    (FX_ONE as int) - tdiv(x2, 2) + tdiv(x4, 24) - tdiv(x6, 720) + tdiv(x8, 40320)
}

/// The image plane's half height: the tangent of half the vertical field of
/// view (in degrees), clamped against the degenerate rounding corner.
pub open spec fn half_height_s(vfov: int) -> int {
    let theta = fx_div_s(fx_mul_s(vfov, FX_PI as int), 180 * (FX_ONE as int));
    let half = fx_div_s(theta, 2 * (FX_ONE as int));
    let q = fx_div_s(sin_series_s(half), cos_series_s(half));
    if q < -(FX_TAN_CAP as int) {
        -(FX_TAN_CAP as int)
    } else if q > FX_TAN_CAP as int {
        FX_TAN_CAP as int
    } else {
        q
    }
}

/// A lens sample: strictly inside the unit disk in the camera plane.
pub open spec fn in_unit_disk(p: Vector3) -> bool {
    &&& p.dot_s(p) < FX_ONE
    &&& vb(p, FX_ONE as int)
    &&& p.z == 0
}

/// The ray cast for plane coordinates `(u, v)` and lens sample `d`.
pub open spec fn get_ray_s(cam: Camera, u: int, v: int, d: Vector3) -> Ray {
    let rd = d.scale_s(cam.lens_radius as int);
    let offset = cam.u.scale_s(rd.x as int).add_s(cam.v.scale_s(rd.y as int));
    Ray {
        a: cam.origin.add_s(offset),
        b: cam.lower_left_corner.add_s(cam.horizontal.scale_s(u)).add_s(
            cam.vertical.scale_s(v),
        ).sub_s(cam.origin).sub_s(offset),
    }
}

pub struct Camera {
    pub lower_left_corner: Vector3,
    pub horizontal: Vector3,
    pub vertical: Vector3,
    pub origin: Vector3,
    pub lens_radius: i128,
    pub u: Vector3,
    pub v: Vector3,
    pub w: Vector3,
}

impl Camera {
    /// Every derived field is moderate enough for ray generation.
    pub open spec fn wf(self) -> bool {
        &&& vb(self.lower_left_corner, FX_VEC_BOUND as int)
        &&& vb(self.horizontal, FX_VEC_BOUND as int)
        &&& vb(self.vertical, FX_VEC_BOUND as int)
        &&& vb(self.origin, FX_VEC_BOUND as int)
        &&& vb(self.u, FX_VEC_BOUND as int)
        &&& vb(self.v, FX_VEC_BOUND as int)
        &&& vb(self.w, FX_VEC_BOUND as int)
        &&& 0 <= self.lens_radius <= FX_CAM_BOUND
    }

    #[verifier::rlimit(100)]
    #[verifier::spinoff_prover]
    pub fn new(
        lookfrom: Vector3,
        lookat: Vector3,
        vup: Vector3,
        vfov: i128,
        aspect: i128,
        aperture: i128,
        focus_dist: i128,
    ) -> (cam: Camera)
        requires
            vb(lookfrom, FX_CAM_BOUND as int),
            vb(lookat, FX_CAM_BOUND as int),
            vb(vup, FX_CAM_BOUND as int),
            0 < vfov <= 160 * FX_ONE,
            0 < aspect <= 0x1000000,
            0 <= aperture <= FX_CAM_BOUND,
            0 <= focus_dist <= FX_CAM_BOUND,
            lookfrom.sub_s(lookat).norm_s() > 0,
            vup.cross_s(lookfrom.sub_s(lookat).unit_s()).norm_s() > 0,
        ensures
            cam.origin == lookfrom,
            cam.lens_radius == fx_div_s(aperture as int, 2 * (FX_ONE as int)),
            cam.w == lookfrom.sub_s(lookat).unit_s(),
            cam.u == vup.cross_s(cam.w).unit_s(),
            cam.v == cam.w.cross_s(cam.u),
            ({
                let hh = half_height_s(vfov as int);
                let hw = fx_mul_s(aspect as int, hh);
                &&& cam.horizontal == cam.u.scale_s(
                    fx_mul_s(fx_mul_s(2 * (FX_ONE as int), hw), focus_dist as int),
                )
                &&& cam.vertical == cam.v.scale_s(
                    fx_mul_s(fx_mul_s(2 * (FX_ONE as int), hh), focus_dist as int),
                )
                &&& cam.lower_left_corner == lookfrom.sub_s(
                    cam.u.scale_s(fx_mul_s(hw, focus_dist as int)),
                ).sub_s(cam.v.scale_s(fx_mul_s(hh, focus_dist as int))).sub_s(
                    cam.w.scale_s(focus_dist as int),
                )
            }),
            cam.wf(),
    {
        proof {
            lemma_fx_mul_mag(vfov as int, FX_PI as int, 160 * 65536int, FX_PI as int);
            lemma_tdiv_mag(fx_mul_s(vfov as int, FX_PI as int) * 65536, 180 * 65536int);
        }
        let theta: i128 = fx_div(fx_mul(vfov, FX_PI), 180 * FX_ONE);
        proof {
            lemma_tdiv_mag((theta as int) * 65536, 2 * 65536int);
        }
        let half: i128 = fx_div(theta, 2 * FX_ONE);
        let s: i128 = fx_sin(half);
        let c: i128 = fx_cos(half);
        let q: i128 = fx_div(s, c);
        let half_height: i128 = if q < -FX_TAN_CAP {
            -FX_TAN_CAP
        } else if q > FX_TAN_CAP {
            FX_TAN_CAP
        } else {
            q
        };
        proof {
            lemma_fx_mul_mag(aspect as int, half_height as int, 0x1000000, FX_TAN_CAP as int);
        }
        let half_width: i128 = fx_mul(aspect, half_height);

        let lens_radius: i128 = fx_div(aperture, 2 * FX_ONE);
        proof {
            lemma_tdiv_mag((aperture as int) * 65536, 2 * 65536int);
        }
        let origin = lookfrom;
        let w = lookfrom.sub(&lookat).unit_vector();
        proof {
            assert(w == lookfrom.sub_s(lookat).unit_s());
            assert(vb(w, FX_UNIT_CAP as int));
        }
        let cw = vup.cross(&w);
        proof {
            lemma_cross_mag(vup, w, FX_CAM_BOUND as int, FX_UNIT_CAP as int);
        }
        let cu = cw.unit_vector();
        proof {
            assert(cu == vup.cross_s(w).unit_s());
            assert(vb(cu, FX_UNIT_CAP as int));
        }
        let cv = w.cross(&cu);
        proof {
            lemma_cross_mag(w, cu, FX_UNIT_CAP as int, FX_UNIT_CAP as int);
            assert(vb(cv, 0x80000int));
        }
        proof {
            lemma_fx_mul_mag(half_width as int, focus_dist as int, 0x20000000000, FX_CAM_BOUND as int);
            lemma_fx_mul_mag(half_height as int, focus_dist as int, FX_TAN_CAP as int, FX_CAM_BOUND as int);
            lemma_fx_mul_mag(2 * 65536int, half_width as int, 2 * 65536int, 0x20000000000);
            lemma_fx_mul_mag(2 * 65536int, half_height as int, 2 * 65536int, FX_TAN_CAP as int);
            lemma_fx_mul_mag(
                fx_mul_s(2 * 65536int, half_width as int),
                focus_dist as int,
                0x40000000000,
                FX_CAM_BOUND as int,
            );
            lemma_fx_mul_mag(
                fx_mul_s(2 * 65536int, half_height as int),
                focus_dist as int,
                0x40000000000,
                FX_CAM_BOUND as int,
            );
            let m_wf = (0x20000000000int * (FX_CAM_BOUND as int)) / 65536;
            lemma_scale3_mag(cu, fx_mul_s(half_width as int, focus_dist as int), FX_UNIT_CAP as int, m_wf);
            lemma_scale3_mag(cv, fx_mul_s(half_height as int, focus_dist as int), 0x80000 as int, m_wf);
            lemma_scale3_mag(w, focus_dist as int, FX_UNIT_CAP as int, FX_CAM_BOUND as int);
            let m_2wf = (0x40000000000int * (FX_CAM_BOUND as int)) / 65536;
            lemma_scale3_mag(cu, fx_mul_s(fx_mul_s(2 * 65536int, half_width as int), focus_dist as int), FX_UNIT_CAP as int, m_2wf);
            lemma_scale3_mag(cv, fx_mul_s(fx_mul_s(2 * 65536int, half_height as int), focus_dist as int), 0x80000 as int, m_2wf);
        }
        let lower_left_corner = origin.sub(&cu.scale(fx_mul(half_width, focus_dist))).sub(
            &cv.scale(fx_mul(half_height, focus_dist)),
        ).sub(&w.scale(focus_dist));
        let horizontal = cu.scale(fx_mul(fx_mul(2 * FX_ONE, half_width), focus_dist));
        let vertical = cv.scale(fx_mul(fx_mul(2 * FX_ONE, half_height), focus_dist));
        Camera {
            lower_left_corner,
            horizontal,
            vertical,
            origin,
            lens_radius,
            u: cu,
            v: cv,
            w,
        }
    }

    /// The ray for normalized plane coordinates `(u, v)`, its origin offset
    /// by a random point on the lens disk.
    pub fn get_ray(&self, u: i128, v: i128) -> (r: Ray)
        requires
            self.wf(),
            0 <= u <= FX_ONE,
            0 <= v <= FX_ONE,
        ensures
            exists|d: Vector3| #[trigger] in_unit_disk(d) && r == get_ray_s(*self, u as int, v as int, d),
    {
        let d = random_in_unit_disk();
        proof {
            lemma_scale3_mag(d, self.lens_radius as int, FX_ONE as int, FX_CAM_BOUND as int);
        }
        let rd = d.scale(self.lens_radius);
        proof {
            lemma_scale3_mag(self.u, rd.x as int, FX_VEC_BOUND as int, FX_CAM_BOUND as int);
            lemma_scale3_mag(self.v, rd.y as int, FX_VEC_BOUND as int, FX_CAM_BOUND as int);
            lemma_scale3_mag(self.horizontal, u as int, FX_VEC_BOUND as int, FX_ONE as int);
            lemma_scale3_mag(self.vertical, v as int, FX_VEC_BOUND as int, FX_ONE as int);
        }
        let offset = self.u.scale(rd.x()).add(&self.v.scale(rd.y()));
        let r = Ray::new(
            self.origin.add(&offset),
            self.lower_left_corner.add(&self.horizontal.scale(u)).add(
                &self.vertical.scale(v),
            ).sub(&self.origin).sub(&offset),
        );
        proof {
            assert(in_unit_disk(d) && r == get_ray_s(*self, u as int, v as int, d));
        }
        r
    }
}

/// Componentwise magnitude bound for a cross product of bounded vectors.
proof fn lemma_cross_mag(u: Vector3, v: Vector3, mu: int, mv: int)
    requires
        vb(u, mu),
        vb(v, mv),
        0 <= mu,
        0 <= mv,
        mu * mv <= i128::MAX as int,
    ensures
        vb(u.cross_s(v), 2 * ((mu * mv) / (FX_ONE as int))),
{
    lemma_fx_mul_mag(u.x as int, v.y as int, mu, mv);
    lemma_fx_mul_mag(u.x as int, v.z as int, mu, mv);
    lemma_fx_mul_mag(u.y as int, v.x as int, mu, mv);
    lemma_fx_mul_mag(u.y as int, v.z as int, mu, mv);
    lemma_fx_mul_mag(u.z as int, v.x as int, mu, mv);
    lemma_fx_mul_mag(u.z as int, v.y as int, mu, mv);
    vstd::arithmetic::div_mod::lemma_div_is_ordered(mu * mv, i128::MAX as int, FX_ONE as int);
}

/// Componentwise magnitude bound for scaling a bounded vector by a bounded
/// scalar.
proof fn lemma_scale3_mag(p: Vector3, t: int, mp: int, mt: int)
    requires
        vb(p, mp),
        -mt <= t <= mt,
        0 <= mp,
        0 <= mt,
        mp * mt <= i128::MAX as int,
    ensures
        crate::fx::fits(p.x * t),
        crate::fx::fits(p.y * t),
        crate::fx::fits(p.z * t),
        vb(p.scale_s(t), (mp * mt) / (FX_ONE as int)),
{
    lemma_fx_mul_mag(p.x as int, t, mp, mt);
    lemma_fx_mul_mag(p.y as int, t, mp, mt);
    lemma_fx_mul_mag(p.z as int, t, mp, mt);
}

/// The fixed-point sine by series, for arguments up to about 1.5 radians.
fn fx_sin(x: i128) -> (r: i128)
    requires
        0 <= x <= 131072,
    ensures
        r == sin_series_s(x as int),
        -67108864 <= r <= 67108864,
{
    proof {
        lemma_fx_mul_mag(x as int, x as int, 131072, 131072);
        lemma_fx_mul_mag(262144, x as int, 262144, 131072);
        lemma_fx_mul_mag(524288, 262144, 524288, 262144);
        lemma_fx_mul_mag(2097152, 262144, 2097152, 262144);
        lemma_fx_mul_mag(8388608, 262144, 8388608, 262144);
    }
    let x2: i128 = fx_mul(x, x);
    proof {
        lemma_fx_mul_mag(x2 as int, x as int, 262144, 131072);
    }
    let x3: i128 = fx_mul(x2, x);
    proof {
        lemma_fx_mul_mag(x3 as int, x2 as int, 524288, 262144);
    }
    let x5: i128 = fx_mul(x3, x2);
    proof {
        lemma_fx_mul_mag(x5 as int, x2 as int, 2097152, 262144);
    }
    let x7: i128 = fx_mul(x5, x2);
    proof {
        lemma_fx_mul_mag(x7 as int, x2 as int, 8388608, 262144);
        lemma_tdiv_mag(x3 as int, 6);
        lemma_tdiv_mag(x5 as int, 120);
        lemma_tdiv_mag(x7 as int, 5040);
    }
    let x9: i128 = fx_mul(x7, x2);
    proof {
        lemma_tdiv_mag(x9 as int, 362880);
    }
    x - fx_int_div(x3, 6) + fx_int_div(x5, 120) - fx_int_div(x7, 5040) + fx_int_div(x9, 362880)
}

/// The fixed-point cosine by series, for arguments up to about 1.5 radians.
fn fx_cos(x: i128) -> (r: i128)
    requires
        0 <= x <= 131072,
    ensures
        r == cos_series_s(x as int),
        -67108864 <= r <= 67108864,
{
    proof {
        lemma_fx_mul_mag(x as int, x as int, 131072, 131072);
    }
    let x2: i128 = fx_mul(x, x);
    proof {
        lemma_fx_mul_mag(x2 as int, x2 as int, 262144, 262144);
    }
    let x4: i128 = fx_mul(x2, x2);
    proof {
        lemma_fx_mul_mag(x4 as int, x2 as int, 1048576, 262144);
    }
    let x6: i128 = fx_mul(x4, x2);
    proof {
        lemma_fx_mul_mag(x6 as int, x2 as int, 4194304, 262144);
        lemma_tdiv_mag(x2 as int, 2);
        lemma_tdiv_mag(x4 as int, 24);
        lemma_tdiv_mag(x6 as int, 720);
    }
    let x8: i128 = fx_mul(x6, x2);
    proof {
        lemma_tdiv_mag(x8 as int, 40320);
    }
    FX_ONE - fx_int_div(x2, 2) + fx_int_div(x4, 24) - fx_int_div(x6, 720) + fx_int_div(x8, 40320)
}

/// A point drawn uniformly from the open unit disk in the camera plane, by
/// rejection from the square (about a 79% acceptance rate per draw); the
/// never-reached retry bound falls back to the center.
fn random_in_unit_disk() -> (p: Vector3)
    ensures
        in_unit_disk(p),
{
    let mut p = random_square_point();
    let mut attempts: u32 = 65536;
    while attempts > 0
        invariant
            vb(p, FX_ONE as int),
            p.z == 0,
        decreases attempts,
    {
        if p.dot(&p) < FX_ONE {
            break;
        }
        p = random_square_point();
        attempts = attempts - 1;
    }
    if p.dot(&p) < FX_ONE {
        p
    } else {
        Vector3::new(0, 0, 0)
    }
}

/// A point uniform in the square `[-1, 1)^2` of the camera plane.
fn random_square_point() -> (p: Vector3)
    ensures
        vb(p, FX_ONE as int),
        p.z == 0,
{
    let x = 2 * random_fx() - FX_ONE;
    let y = 2 * random_fx() - FX_ONE;
    Vector3::new(x, y, 0)
}

} // verus!
