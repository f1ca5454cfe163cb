//! Vector arithmetic over the fixed-point representation (one = 65536).

use raytracer::fx::{FX_ONE, FX_SENTINEL};
use raytracer::vector::Vector3;

#[test]
fn test_xyz() {
    let vec: Vector3 = Vector3::new(78643, 222822, 439091);
    assert_eq!(vec.x(), 78643);
    assert_eq!(vec.y(), 222822);
    assert_eq!(vec.z(), 439091);
}

#[test]
fn test_rgb() {
    let vec: Vector3 = Vector3::new(13107, 26214, 48154);
    assert_eq!(vec.r(), 13107);
    assert_eq!(vec.g(), 26214);
    assert_eq!(vec.b(), 48154);
}

#[test]
fn test_add() {
    let vec_1: Vector3 = Vector3::new(13107, 26214, 45875);
    let vec_2: Vector3 = Vector3::new(6553, 19660, 19660);
    let vec_test: Vector3 = Vector3::new(19660, 45874, 65535);
    assert_eq!(vec_1.add(&vec_2), vec_test);
}

#[test]
fn test_sub() {
    let vec_1: Vector3 = Vector3::new(13107, 26214, 52428);
    let vec_2: Vector3 = Vector3::new(6553, 13107, 26214);
    let vec_test: Vector3 = Vector3::new(6554, 13107, 26214);
    assert_eq!(vec_1.sub(&vec_2), vec_test);
}

#[test]
fn test_mul() {
    let vec: Vector3 = Vector3::new(13107, 26214, 52428);
    let vec_mul: Vector3 = Vector3::new(2 * FX_ONE, FX_ONE, FX_ONE);
    assert_eq!(vec.scale(2 * FX_ONE), Vector3::new(26214, 52428, 104856));
    assert_eq!(vec.scale(2 * FX_ONE), Vector3::new(26214, 52428, 104856));
    assert_eq!(vec.mul(&vec_mul), Vector3::new(26214, 26214, 52428));
}

#[test]
fn test_div() {
    let vec: Vector3 = Vector3::new(13107, 26214, 52428);
    let vec_test: Vector3 = Vector3::new(6553, 13107, 26214);
    let vec_inf: Vector3 = Vector3::new(FX_SENTINEL, FX_SENTINEL, FX_SENTINEL);
    assert_eq!(vec.div(2 * FX_ONE), vec_test);
    assert_eq!(vec.div(0), vec_inf);
}

#[test]
fn test_len() {
    let vec: Vector3 = Vector3::new(0, 3 * FX_ONE, 4 * FX_ONE);
    assert_eq!(vec.length(), 5 * FX_ONE);
}

#[test]
fn test_unit() {
    let vec: Vector3 = Vector3::new(0, 3 * FX_ONE, 4 * FX_ONE);
    let unit_vec: Vector3 = Vector3::new(0, 39321, 52428);
    assert_eq!(vec.unit_vector(), unit_vec);
}

#[test]
fn test_dot() {
    let vec_1: Vector3 = Vector3::new(13107, 26214, 45875);
    let vec_2: Vector3 = Vector3::new(6553, 19660, 19660);
    assert_eq!(vec_1.dot(&vec_2), 22934);
}

#[test]
fn test_cross() {
    let vec_1: Vector3 = Vector3::new(3 * FX_ONE, -3 * FX_ONE, FX_ONE);
    let vec_2: Vector3 = Vector3::new(4 * FX_ONE, 9 * FX_ONE, 2 * FX_ONE);
    let vec_cross: Vector3 = Vector3::new(-15 * FX_ONE, -2 * FX_ONE, 39 * FX_ONE);
    assert_eq!(vec_1.cross(&vec_2), vec_cross);
}

#[test]
fn unit_of_zero_vector_is_sentinel() {
    let vec: Vector3 = Vector3::new(0, 0, 0);
    let unit_vec = vec.unit_vector();
    assert_eq!(unit_vec.x(), FX_SENTINEL);
}
