//! The integrator end to end: energy bounds, depth cutoff, the sky gradient,
//! and a small full-frame trace.

use raytracer::fx::FX_ONE;
use raytracer::vector::Vector3;
use raytracer::ray::Ray;
use raytracer::sphere::Sphere;
use raytracer::hitable_list::HittableList;
use raytracer::material::Material;
use raytracer::lambertian::Lambertian;
use raytracer::metal::Metal;
use raytracer::camera::Camera;
use raytracer::integrator::color;
use raytracer::scenes::random_scene;

#[test]
fn color_never_amplifies_albedo() {
    // One bounce off a diffuse surface: each channel stays under the albedo.
    let albedo = Vector3::new(26214, 32768, 39321);
    let mut world = HittableList::new();
    world.add_sphere(Sphere::new(
        Vector3::new(0, 0, -2 * FX_ONE),
        FX_ONE,
        Material::Lambertian(Lambertian::new(albedo)),
    ));
    let ray = Ray::new(Vector3::new(0, 0, 0), Vector3::new(0, 0, -FX_ONE));
    for _ in 0..16 {
        let c = color(&ray, &world, 0);
        assert!(0 <= c.x && c.x <= albedo.x);
        assert!(0 <= c.y && c.y <= albedo.y);
        assert!(0 <= c.z && c.z <= albedo.z);
    }
}

#[test]
fn depth_cutoff_returns_black_between_mirrors() {
    // Two perfect mirrors face each other: the ray ricochets forever, and the
    // depth bound cuts the path off at black instead of diverging.
    let mirror = Material::Metal(Metal::new(Vector3::new(FX_ONE, FX_ONE, FX_ONE), 0));
    let mut world = HittableList::new();
    world.add_sphere(Sphere::new(Vector3::new(0, 0, 2 * FX_ONE), FX_ONE, mirror));
    world.add_sphere(Sphere::new(Vector3::new(0, 0, -2 * FX_ONE), FX_ONE, mirror));
    let ray = Ray::new(Vector3::new(0, 0, 0), Vector3::new(0, 0, -FX_ONE));
    let c = color(&ray, &world, 0);
    assert_eq!(c, Vector3::new(0, 0, 0));
}

#[test]
fn color_misses_give_the_sky_gradient() {
    let world = HittableList::new();
    // Straight up: the blend saturates toward sky blue.
    let up = Ray::new(Vector3::new(0, 0, 0), Vector3::new(0, FX_ONE, 0));
    let c_up = color(&up, &world, 0);
    assert_eq!(c_up.z, FX_ONE);
    assert!(c_up.x <= 33000);
    // Horizontal: halfway, noticeably whiter.
    let level = Ray::new(Vector3::new(0, 0, 0), Vector3::new(0, 0, -FX_ONE));
    let c_level = color(&level, &world, 0);
    assert_eq!(c_level.z, FX_ONE);
    assert!(c_level.x > c_up.x);
}

#[test]
fn pinhole_camera_rays_start_at_the_eye() {
    let cam = Camera::new(
        Vector3::new(0, 0, 0),
        Vector3::new(0, 0, -FX_ONE),
        Vector3::new(0, FX_ONE, 0),
        90 * FX_ONE,
        2 * FX_ONE,
        0,
        FX_ONE,
    );
    let ray = cam.get_ray(32768, 32768);
    assert_eq!(ray.origin(), Vector3::new(0, 0, 0));
    assert!(ray.direction().z() < 0);
    assert!(ray.direction().x().abs() < 2000);
    assert!(ray.direction().y().abs() < 2000);
}

#[test]
fn trace_small_frame_shows_sky_and_ground_bands() {
    // The classic two-sphere frame: matte ground below, a small matte sphere
    // ahead, sky above, through a pinhole camera looking down the axis.
    let mut world = HittableList::new();
    world.add_sphere(Sphere::new(
        Vector3::new(0, 0, -FX_ONE),
        32768,
        Material::Lambertian(Lambertian::new(Vector3::new(6553, 13107, 32768))),
    ));
    world.add_sphere(Sphere::new(
        Vector3::new(0, -6586368, -FX_ONE),
        100 * FX_ONE,
        Material::Lambertian(Lambertian::new(Vector3::new(52428, 52428, 0))),
    ));
    let cam = Camera::new(
        Vector3::new(0, 0, 0),
        Vector3::new(0, 0, -FX_ONE),
        Vector3::new(0, FX_ONE, 0),
        90 * FX_ONE,
        2 * FX_ONE,
        0,
        FX_ONE,
    );
    let nx: i128 = 200;
    let ny: i128 = 100;
    let mut top_lum: i128 = 0;
    let mut top_count: i128 = 0;
    let mut bottom_lum: i128 = 0;
    let mut bottom_count: i128 = 0;
    for j in 0..ny {
        for i in 0..nx {
            let u = ((2 * i + 1) * FX_ONE) / (2 * nx);
            let v = ((2 * j + 1) * FX_ONE) / (2 * ny);
            let ray = cam.get_ray(u, v);
            let c = color(&ray, &world, 0);
            if j >= 90 {
                // Sky band: misses are exact, blue saturated.
                assert_eq!(c.z, FX_ONE);
                top_lum += c.x + c.y + c.z;
                top_count += 1;
            }
            if j < 10 {
                // Ground band: the albedo has no blue at all.
                assert_eq!(c.z, 0);
                bottom_lum += c.x + c.y + c.z;
                bottom_count += 1;
            }
        }
    }
    assert_eq!(top_count, bottom_count);
    // The ground band is visibly darker than the sky band.
    assert!(bottom_lum < top_lum);
}

#[test]
fn random_scene_builds_a_ready_world() {
    let world = random_scene();
    assert!(world.size() >= 4);
    // The ground is always present: a ray straight down strikes it.
    let ray = Ray::new(
        Vector3::new(9 * FX_ONE, 2 * FX_ONE, 9 * FX_ONE),
        Vector3::new(0, -FX_ONE, 0),
    );
    let c = color(&ray, &world, 0);
    assert!(0 <= c.x && c.x <= FX_ONE);
    assert!(0 <= c.y && c.y <= FX_ONE);
    assert!(0 <= c.z && c.z <= FX_ONE);
}
