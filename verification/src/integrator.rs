//! The radiance integrator: trace a ray into the scene, scatter at the
//! nearest hit, recurse with compounded attenuation, and fall back to the sky
//! gradient on a miss. The recursion is cut off at a fixed depth.

use vstd::prelude::*;
use crate::fx::{FX_ONE, FX_HALF, fx_mul_s, fx_mul, lemma_fx_mul_unit};
use crate::vector::{Vector3, vb, FX_GEOM_BOUND};
use crate::ray::Ray;
use crate::hitable::{Hittable, FX_NORMAL_CAP};
use crate::material::{Material, Scatterable};
use crate::sphere::{Sphere, ray_in_bounds};
use crate::hitable_list::{HittableList, scene_hit_seq_s, lemma_scene_hit_nearest};

verus! {

/// Bounce budget: past this depth a path contributes nothing.
pub const MAX_DEPTH: u32 = 50;

/// Shadow-acne offset: hits nearer than about a thousandth are ignored.
pub const HIT_EPS: i128 = 64;

/// Sky-blue, the gradient's upper color.
pub const SKY_BLUE_G: i128 = 45875;

/// How far the sky blend leans toward blue: half of one plus the unit
/// direction's height, clamped into the unit interval (fixed-point
/// normalization can stray just outside it); a degenerate direction blends
/// to the top color.
pub open spec fn sky_blend_s(ray: Ray) -> int {
    if ray.b.norm_s() == 0 {
        FX_ONE as int
    } else {
        let raw = fx_mul_s(FX_HALF as int, ray.b.unit_s().y + FX_ONE);
        if raw < 0 {
            0
        } else if raw > FX_ONE {
            FX_ONE as int
        } else {
            raw
        }
    }
}

/// The background radiance of a missed ray: white at the horizon blending to
/// sky-blue above.
pub open spec fn sky_color_s(ray: Ray) -> Vector3 {
    let t = sky_blend_s(ray);
    let white = Vector3 { x: FX_ONE, y: FX_ONE, z: FX_ONE };
    let blue = Vector3 { x: FX_HALF, y: SKY_BLUE_G, z: FX_ONE };
    white.scale_s(FX_ONE - t).add_s(blue.scale_s(t))
}

/// True when every component of `v` has magnitude at most `m`.
fn vec_in_bounds(v: &Vector3, m: i128) -> (r: bool)
    requires
        0 <= m,
    ensures
        r == vb(*v, m as int),
{
    -m <= v.x && v.x <= m && -m <= v.y && v.y <= m && -m <= v.z && v.z <= m
}

/// A hit record's material is its sphere's.
proof fn lemma_sphere_hit_material(s: Sphere, ray: Ray, t_min: int, t_max: int)
    ensures
        s.sphere_hit_s(ray, t_min, t_max) matches Some(h) ==> h.material == s.material,
{
}

/// The radiance carried back along `ray`: black past the depth cutoff or for
/// an absorbed path, the attenuated recursive radiance after a scatter, the
/// sky gradient on a miss. Every channel stays inside the unit interval, and
/// one bounce off a diffuse or metal surface never exceeds that surface's
/// albedo in any channel.
pub fn color(ray: &Ray, world: &HittableList, depth: u32) -> (c: Vector3)
    requires
        world.wf(),
    ensures
        0 <= c.x <= FX_ONE,
        0 <= c.y <= FX_ONE,
        0 <= c.z <= FX_ONE,
        ray_in_bounds(*ray) ==> match scene_hit_seq_s(
            world.list@,
            *ray,
            HIT_EPS as int,
            i128::MAX as int,
        ) {
            Option::None => c == sky_color_s(*ray),
            Option::Some(h) => {
                &&& (depth >= MAX_DEPTH ==> c == (Vector3 { x: 0, y: 0, z: 0 }))
                &&& match h.material {
                    Material::Lambertian(inner) => c.x <= inner.albedo.x && c.y <= inner.albedo.y
                        && c.z <= inner.albedo.z,
                    Material::Metal(inner) => c.x <= inner.albedo.x && c.y <= inner.albedo.y
                        && c.z <= inner.albedo.z,
                    Material::Dielectric(_) => true,
                }
            },
        },
    decreases MAX_DEPTH - depth,
{
    let origin_ok = vec_in_bounds(&ray.origin(), FX_GEOM_BOUND);
    let direction_ok = vec_in_bounds(&ray.direction(), FX_GEOM_BOUND);
    if !(origin_ok && direction_ok) {
        // Out-of-range geometry contributes nothing rather than overflowing.
        return Vector3::new(0, 0, 0);
    }
    match world.hit(ray, HIT_EPS, i128::MAX) {
        Some(rec) => {
            proof {
                lemma_scene_hit_nearest(world.list@, *ray, HIT_EPS, i128::MAX);
                let j = choose|j: int|
                    0 <= j < world.list@.len()
                        && #[trigger] world.list@[j].sphere_hit_s(
                        *ray,
                        HIT_EPS as int,
                        i128::MAX as int,
                    ) == Some(rec);
                lemma_sphere_hit_material(world.list@[j], *ray, HIT_EPS as int, i128::MAX as int);
                assert(rec.material.wf());
            }
            if depth >= MAX_DEPTH {
                return Vector3::new(0, 0, 0);
            }
            let p_ok = vec_in_bounds(&rec.p(), FX_GEOM_BOUND);
            let normal_ok = vec_in_bounds(&rec.normal(), FX_NORMAL_CAP);
            if !(p_ok && normal_ok) {
                // A wildly out-of-range record scatters nothing.
                return Vector3::new(0, 0, 0);
            }
            match rec.material().scatter(ray, &rec) {
                Some((attenuation, scattered)) => {
                    proof {
                        assert(0 <= attenuation.x <= FX_ONE && 0 <= attenuation.y <= FX_ONE
                            && 0 <= attenuation.z <= FX_ONE);
                    }
                    let rest = color(&scattered, world, depth + 1);
                    proof {
                        lemma_fx_mul_unit(attenuation.x as int, rest.x as int);
                        lemma_fx_mul_unit(attenuation.y as int, rest.y as int);
                        lemma_fx_mul_unit(attenuation.z as int, rest.z as int);
                    }
                    attenuation.mul(&rest)
                },
                None => Vector3::new(0, 0, 0),
            }
        },
        None => {
            let dir = ray.direction();
            let t: i128;
            if dir.norm() == 0 {
                t = FX_ONE;
            } else {
                let unit_direction = dir.unit_vector();
                let raw = fx_mul(FX_HALF, unit_direction.y() + FX_ONE);
                t = if raw < 0 {
                    0
                } else if raw > FX_ONE {
                    FX_ONE
                } else {
                    raw
                };
            }
            let white = Vector3::new(FX_ONE, FX_ONE, FX_ONE);
            let blue = Vector3::new(FX_HALF, SKY_BLUE_G, FX_ONE);
            proof {
                lemma_fx_mul_unit(FX_ONE as int, (FX_ONE - t) as int);
                lemma_fx_mul_unit(FX_HALF as int, t as int);
                lemma_fx_mul_unit(SKY_BLUE_G as int, t as int);
                lemma_fx_mul_unit(FX_ONE as int, t as int);
                lemma_fx_mul_unit((FX_ONE - t) as int, FX_ONE as int);
                lemma_fx_mul_unit(t as int, FX_ONE as int);
            }
            white.scale(FX_ONE - t).add(&blue.scale(t))
        },
    }
}

} // verus!
