//! Scattering behavior of the three materials.

use raytracer::fx::FX_ONE;
use raytracer::vector::Vector3;
use raytracer::ray::Ray;
use raytracer::hitable::{HitRecord, Hittable};
use raytracer::sphere::Sphere;
use raytracer::material::{Material, Scatterable};
use raytracer::lambertian::{Lambertian, point_in_unit_sphere};
use raytracer::metal::{Metal, reflect};
use raytracer::dielectric::Dielectric;

#[test]
fn test_reflect() {
    let v: Vector3 = Vector3::new(FX_ONE, 2 * FX_ONE, 4 * FX_ONE);
    let n: Vector3 = Vector3::new(0, 0, 0);

    assert_eq!(reflect(&v, &n), v);
}

#[test]
fn test_point() {
    let vec: Vector3 = point_in_unit_sphere();
    assert_eq!(vec.dot(&Vector3::new(0, 0, 0)), 0);
}

#[test]
fn point_in_unit_sphere_is_interior() {
    for _ in 0..32 {
        let p = point_in_unit_sphere();
        assert!(p.dot(&p) < FX_ONE);
    }
}

#[test]
fn lambertian_always_scatters_with_albedo() {
    let albedo = Vector3::new(26214, 32768, 39321);
    let material = Material::Lambertian(Lambertian::new(albedo));
    let sphere = Sphere::new(Vector3::new(0, 0, -2 * FX_ONE), FX_ONE, material);
    let ray = Ray::new(Vector3::new(0, 0, 0), Vector3::new(0, 0, -FX_ONE));
    let rec = sphere.hit(&ray, 64, i128::MAX).unwrap();
    let (attenuation, scattered) = rec.material().scatter(&ray, &rec).unwrap();
    assert_eq!(attenuation, albedo);
    assert_eq!(scattered.origin(), rec.p());
}

#[test]
fn metal_with_zero_fuzz_is_a_perfect_mirror() {
    let material = Material::Metal(Metal::new(Vector3::new(52428, 52428, 52428), 0));
    let sphere = Sphere::new(Vector3::new(0, 0, -2 * FX_ONE), FX_ONE, material);
    let ray = Ray::new(Vector3::new(0, 0, 0), Vector3::new(0, 0, -FX_ONE));
    let rec = sphere.hit(&ray, 64, i128::MAX).unwrap();
    assert_eq!(rec.normal(), Vector3::new(0, 0, FX_ONE));
    let (_, scattered) = rec.material().scatter(&ray, &rec).unwrap();
    // Normal incidence: exactly the negated incoming direction.
    assert_eq!(scattered.direction(), Vector3::new(0, 0, FX_ONE));
}

#[test]
fn metal_new_clamps_fuzz_to_unit_interval() {
    let albedo = Vector3::new(52428, 52428, 52428);
    assert_eq!(Metal::new(albedo, 3 * FX_ONE).fuzz, FX_ONE);
    assert_eq!(Metal::new(albedo, -5).fuzz, 0);
    assert_eq!(Metal::new(albedo, 13107).fuzz, 13107);
}

#[test]
fn metal_absorbs_grazing_reflection() {
    // The reflected direction lies in the surface: no scatter.
    let metal = Metal::new(Vector3::new(52428, 52428, 52428), 0);
    let rec = HitRecord {
        t: FX_ONE,
        p: Vector3::new(0, 0, 0),
        normal: Vector3::new(0, 0, FX_ONE),
        material: Material::Metal(metal),
    };
    let ray = Ray::new(Vector3::new(-FX_ONE, 0, 0), Vector3::new(FX_ONE, 0, 0));
    assert!(metal.scatter(&ray, &rec).is_none());
}

#[test]
fn metal_absorbs_degenerate_direction() {
    let metal = Metal::new(Vector3::new(52428, 52428, 52428), 0);
    let rec = HitRecord {
        t: FX_ONE,
        p: Vector3::new(0, 0, 0),
        normal: Vector3::new(0, 0, FX_ONE),
        material: Material::Metal(metal),
    };
    let ray = Ray::new(Vector3::new(0, 0, FX_ONE), Vector3::new(0, 0, 0));
    assert!(metal.scatter(&ray, &rec).is_none());
}

#[test]
fn dielectric_total_internal_reflection_always_reflects() {
    // Inside glass (index 1.5), striking the boundary well past the critical
    // angle: the refraction discriminant is negative, so every draw reflects.
    let glass = Dielectric::new(98304);
    let rec = HitRecord {
        t: FX_ONE,
        p: Vector3::new(0, 0, 0),
        normal: Vector3::new(0, 0, FX_ONE),
        material: Material::Dielectric(glass),
    };
    let incoming = Ray::new(Vector3::new(-FX_ONE, 0, -19660), Vector3::new(FX_ONE, 0, 19660));
    let expected = reflect(&incoming.direction().unit_vector(), &rec.normal());
    for _ in 0..16 {
        let (attenuation, scattered) = glass.scatter(&incoming, &rec).unwrap();
        assert_eq!(attenuation, Vector3::new(FX_ONE, FX_ONE, FX_ONE));
        assert_eq!(scattered.direction(), expected);
        assert_eq!(scattered.origin(), rec.p());
    }
}

#[test]
fn dielectric_scatters_without_attenuation() {
    // Entering glass head-on: whichever branch the coin picks, the medium
    // absorbs nothing.
    let glass = Dielectric::new(98304);
    let rec = HitRecord {
        t: FX_ONE,
        p: Vector3::new(0, 0, -FX_ONE),
        normal: Vector3::new(0, 0, FX_ONE),
        material: Material::Dielectric(glass),
    };
    let incoming = Ray::new(Vector3::new(0, 0, 0), Vector3::new(0, 0, -FX_ONE));
    let (attenuation, _) = glass.scatter(&incoming, &rec).unwrap();
    assert_eq!(attenuation, Vector3::new(FX_ONE, FX_ONE, FX_ONE));
}
