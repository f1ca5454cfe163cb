//! The book's showcase scene: a huge matte ground, a grid of small randomly
//! placed and randomly shaded spheres, and three large landmark spheres.

use vstd::prelude::*;
use crate::fx::{FX_ONE, fx_mul, lemma_fx_mul_unit, lemma_fx_mul_mag};
use crate::vector::{Vector3, vb, FX_GEOM_BOUND};
use crate::material::Material;
use crate::lambertian::Lambertian;
use crate::metal::Metal;
use crate::dielectric::Dielectric;
use crate::sphere::Sphere;
use crate::hitable_list::HittableList;
use crate::rng::random_fx;

verus! {

/// The matte ground: a sphere of radius one thousand, half a gray.
pub open spec fn ground_sphere_s() -> Sphere {
    Sphere {
        center: Vector3 { x: 0, y: -65536000i128, z: 0 },
        radius: 65536000,
        material: Material::Lambertian(Lambertian { albedo: Vector3 { x: 32768, y: 32768, z: 32768 } }),
    }
}

/// The central glass sphere.
pub open spec fn glass_sphere_s() -> Sphere {
    Sphere {
        center: Vector3 { x: 0, y: 65536, z: 0 },
        radius: 65536,
        material: Material::Dielectric(Dielectric { ri: 98304 }),
    }
}

/// The matte landmark sphere.
pub open spec fn matte_sphere_s() -> Sphere {
    Sphere {
        center: Vector3 { x: -262144i128, y: 65536, z: 0 },
        radius: 65536,
        material: Material::Lambertian(Lambertian { albedo: Vector3 { x: 26214, y: 26214, z: 6553 } }),
    }
}

/// The mirror landmark sphere.
pub open spec fn mirror_sphere_s() -> Sphere {
    Sphere {
        center: Vector3 { x: 262144, y: 65536, z: 0 },
        radius: 65536,
        material: Material::Metal(Metal { albedo: Vector3 { x: 45875, y: 39321, z: 32768 }, fuzz: 0 }),
    }
}

/// Builds the showcase scene: the ground first, then up to one small sphere
/// per grid cell (diffuse, metal or glass, by a weighted coin), then the
/// three landmarks. Every member is well formed, so the scene is ready for
/// the integrator.
pub fn random_scene() -> (world: HittableList)
    ensures
        world.wf(),
        world.list@.len() >= 4,
        world.list@[0] == ground_sphere_s(),
        world.list@[world.list@.len() - 3] == glass_sphere_s(),
        world.list@[world.list@.len() - 2] == matte_sphere_s(),
        world.list@[world.list@.len() - 1] == mirror_sphere_s(),
{
    let mut list = HittableList::new();
    list.add_sphere(Sphere::new(
        Vector3::new(0, -1000 * FX_ONE, 0),
        1000 * FX_ONE,
        Material::Lambertian(Lambertian::new(Vector3::new(32768, 32768, 32768))),
    ));
    let mut a: i128 = -11;
    while a < 11
        invariant
            list.wf(),
            list.list@.len() >= 1,
            list.list@[0] == ground_sphere_s(),
            -11 <= a <= 11,
        decreases 11 - a,
    {
        let mut b: i128 = -11;
        while b < 11
            invariant
                list.wf(),
                list.list@.len() >= 1,
                list.list@[0] == ground_sphere_s(),
                -11 <= a < 11,
                -11 <= b <= 11,
            decreases 11 - b,
        {
            let choose_mat: i128 = random_fx();
            let jx: i128 = random_fx();
            let jz: i128 = random_fx();
            proof {
                lemma_fx_mul_mag(58982, jx as int, 58982, 65536);
                lemma_fx_mul_mag(58982, jz as int, 58982, 65536);
                crate::fx::lemma_tdiv_mag(58982 * (jx as int), FX_ONE as int);
                crate::fx::lemma_tdiv_mag(58982 * (jz as int), FX_ONE as int);
            }
            let jitter_x: i128 = fx_mul(58982, jx);
            let jitter_z: i128 = fx_mul(58982, jz);
            let center = Vector3::new(a * FX_ONE + jitter_x, 13107, b * FX_ONE + jitter_z);
            proof {
                assert(vb(center, FX_GEOM_BOUND as int));
            }
            let anchor = Vector3::new(4 * FX_ONE, 13107, 0);
            let gap = center.sub(&anchor);
            if gap.length() > 58982 {
                if choose_mat < 52428 {
                    // Diffuse, with a squared-uniform tint per channel.
                    let r1: i128 = random_fx();
                    let r2: i128 = random_fx();
                    let g1: i128 = random_fx();
                    let g2: i128 = random_fx();
                    let b1: i128 = random_fx();
                    let b2: i128 = random_fx();
                    proof {
                        lemma_fx_mul_unit(r1 as int, r2 as int);
                        lemma_fx_mul_unit(g1 as int, g2 as int);
                        lemma_fx_mul_unit(b1 as int, b2 as int);
                    }
                    let albedo = Vector3::new(fx_mul(r1, r2), fx_mul(g1, g2), fx_mul(b1, b2));
                    list.add_sphere(Sphere::new(
                        center,
                        13107,
                        Material::Lambertian(Lambertian::new(albedo)),
                    ));
                } else if choose_mat < 62259 {
                    // Metal, with a bright tint and mild fuzz.
                    let r1: i128 = random_fx();
                    let g1: i128 = random_fx();
                    let b1: i128 = random_fx();
                    let f1: i128 = random_fx();
                    proof {
                        lemma_fx_mul_unit(32768, f1 as int);
                        lemma_fx_mul_mag(32768, (FX_ONE + r1) as int, 32768, 131072);
                        lemma_fx_mul_mag(32768, (FX_ONE + g1) as int, 32768, 131072);
                        lemma_fx_mul_mag(32768, (FX_ONE + b1) as int, 32768, 131072);
                        crate::fx::lemma_tdiv_mag(32768 * ((FX_ONE + r1) as int), FX_ONE as int);
                        crate::fx::lemma_tdiv_mag(32768 * ((FX_ONE + g1) as int), FX_ONE as int);
                        crate::fx::lemma_tdiv_mag(32768 * ((FX_ONE + b1) as int), FX_ONE as int);
                    }
                    let albedo = Vector3::new(
                        fx_mul(32768, FX_ONE + r1),
                        fx_mul(32768, FX_ONE + g1),
                        fx_mul(32768, FX_ONE + b1),
                    );
                    let fuzz = fx_mul(32768, f1);
                    list.add_sphere(Sphere::new(
                        center,
                        13107,
                        Material::Metal(Metal::new(albedo, fuzz)),
                    ));
                } else {
                    // Glass.
                    list.add_sphere(Sphere::new(
                        center,
                        13107,
                        Material::Dielectric(Dielectric::new(98304)),
                    ));
                }
            }
            b = b + 1;
        }
        a = a + 1;
    }
    list.add_sphere(Sphere::new(
        Vector3::new(0, FX_ONE, 0),
        FX_ONE,
        Material::Dielectric(Dielectric::new(98304)),
    ));
    list.add_sphere(Sphere::new(
        Vector3::new(-4 * FX_ONE, FX_ONE, 0),
        FX_ONE,
        Material::Lambertian(Lambertian::new(Vector3::new(26214, 26214, 6553))),
    ));
    list.add_sphere(Sphere::new(
        Vector3::new(4 * FX_ONE, FX_ONE, 0),
        FX_ONE,
        Material::Metal(Metal::new(Vector3::new(45875, 39321, 32768), 0)),
    ));
    list
}

} // verus!
