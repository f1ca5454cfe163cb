//! Sphere intersection and nearest-hit aggregation over the scene.

use raytracer::fx::FX_ONE;
use raytracer::vector::Vector3;
use raytracer::ray::Ray;
use raytracer::hitable::{HitRecord, Hittable};
use raytracer::sphere::Sphere;
use raytracer::hitable_list::HittableList;
use raytracer::material::Material;
use raytracer::lambertian::Lambertian;

fn gray() -> Material {
    Material::Lambertian(Lambertian::new(Vector3::new(32768, 32768, 32768)))
}

#[test]
fn test_hit_record() {
    let hit_record = HitRecord::new();
    assert_eq!(hit_record.normal(), Vector3::new(0, 0, 0));
}

#[test]
fn sphere_hit_prefers_nearer_root() {
    // A ray down the axis pierces the sphere at parameters two and four.
    let sphere = Sphere::new(Vector3::new(0, 0, -3 * FX_ONE), FX_ONE, gray());
    let ray = Ray::new(Vector3::new(0, 0, 0), Vector3::new(0, 0, -FX_ONE));
    let hit = sphere.hit(&ray, 0, i128::MAX).unwrap();
    assert_eq!(hit.t, 2 * FX_ONE);
    assert_eq!(hit.p, Vector3::new(0, 0, -2 * FX_ONE));
    // Starting the interval past the nearer root yields the farther one.
    let hit2 = sphere.hit(&ray, 2 * FX_ONE + 64, i128::MAX).unwrap();
    assert_eq!(hit2.t, 4 * FX_ONE);
}

#[test]
fn sphere_tangent_and_miss_yield_no_hit() {
    let ray = Ray::new(Vector3::new(0, 0, 0), Vector3::new(0, 0, -FX_ONE));
    // Closest approach exactly the radius: a tangent counts as a miss.
    let tangent = Sphere::new(Vector3::new(FX_ONE, 0, -3 * FX_ONE), FX_ONE, gray());
    assert!(tangent.hit(&ray, 0, i128::MAX).is_none());
    // Closest approach beyond the radius.
    let wide = Sphere::new(Vector3::new(3 * FX_ONE, 0, -3 * FX_ONE), FX_ONE, gray());
    assert!(wide.hit(&ray, 0, i128::MAX).is_none());
}

#[test]
fn sphere_normal_is_unit_and_oriented() {
    // Axis-aligned hit: the normal is exactly unit and points outward.
    let sphere = Sphere::new(Vector3::new(0, 0, -3 * FX_ONE), FX_ONE, gray());
    let ray = Ray::new(Vector3::new(0, 0, 0), Vector3::new(0, 0, -FX_ONE));
    let hit = sphere.hit(&ray, 0, i128::MAX).unwrap();
    assert_eq!(hit.normal, Vector3::new(0, 0, FX_ONE));
    assert_eq!(hit.normal.norm(), FX_ONE);
    // Oblique hit: unit within fixed-point tolerance, still outward.
    let oblique = Ray::new(Vector3::new(0, 0, 0), Vector3::new(13107, 6553, -FX_ONE));
    let hit_o = sphere.hit(&oblique, 64, i128::MAX).unwrap();
    let n2 = hit_o.normal.norm();
    assert!((n2 - FX_ONE).abs() <= 300, "normal norm {} strays from one", n2);
    let outward = hit_o.p.sub(&Vector3::new(0, 0, -3 * FX_ONE));
    assert!(hit_o.normal.dot(&outward) > 0);
    // A negative radius flips the normal inward.
    let hollow = Sphere::new(Vector3::new(0, 0, -3 * FX_ONE), -FX_ONE, gray());
    let hit_h = hollow.hit(&ray, 0, i128::MAX).unwrap();
    assert_eq!(hit_h.normal, Vector3::new(0, 0, -FX_ONE));
}

#[test]
fn scene_reports_nearest_hit_in_either_order() {
    let near = Sphere::new(Vector3::new(0, 0, -3 * FX_ONE), FX_ONE, gray());
    let far = Sphere::new(Vector3::new(0, 0, -5 * FX_ONE), FX_ONE, gray());
    let ray = Ray::new(Vector3::new(0, 0, 0), Vector3::new(0, 0, -FX_ONE));

    let mut world_a = HittableList::new();
    world_a.add_sphere(near);
    world_a.add_sphere(far);
    let hit_a = world_a.hit(&ray, 64, i128::MAX).unwrap();

    let mut world_b = HittableList::new();
    world_b.add_sphere(far);
    world_b.add_sphere(near);
    let hit_b = world_b.hit(&ray, 64, i128::MAX).unwrap();

    assert_eq!(hit_a.t, 2 * FX_ONE);
    assert_eq!(hit_b.t, 2 * FX_ONE);
}

#[test]
fn scene_size_counts_members() {
    let mut world = HittableList::new();
    assert_eq!(world.size(), 0);
    world.add_sphere(Sphere::new(Vector3::new(0, 0, -3 * FX_ONE), FX_ONE, gray()));
    world.add_sphere(Sphere::new(Vector3::new(0, 0, -5 * FX_ONE), FX_ONE, gray()));
    assert_eq!(world.size(), 2);
    let ray = Ray::new(Vector3::new(0, 0, FX_ONE), Vector3::new(0, FX_ONE, 0));
    assert!(world.hit(&ray, 64, i128::MAX).is_none());
}

#[test]
fn ray_point_at_parameter_walks_the_ray() {
    let ray = Ray::new(Vector3::new(FX_ONE, 0, 0), Vector3::new(0, 0, -FX_ONE));
    assert_eq!(ray.origin(), Vector3::new(FX_ONE, 0, 0));
    assert_eq!(ray.direction(), Vector3::new(0, 0, -FX_ONE));
    assert_eq!(ray.point_at_parameter(2 * FX_ONE), Vector3::new(FX_ONE, 0, -2 * FX_ONE));
}
