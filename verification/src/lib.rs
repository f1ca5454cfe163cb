//! A stochastic ray tracer for sphere scenes, written over fixed-point
//! arithmetic: camera ray generation with depth of field, nearest-hit
//! intersection, Lambertian / metal / dielectric scattering, and a recursive
//! radiance integrator with a depth cutoff.

pub mod fx;
pub mod vector;
pub mod ray;
pub mod rng;
pub mod hitable;
pub mod material;
pub mod lambertian;
pub mod metal;
pub mod dielectric;
pub mod sphere;
pub mod hitable_list;
pub mod integrator;
pub mod scenes;
pub mod camera;
