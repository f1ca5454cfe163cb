//! Rays: an origin and an unnormalized direction.

use vstd::prelude::*;
use crate::fx::{fits, fx_mul_s};
use crate::vector::Vector3;

verus! {

#[derive(Clone, Copy, Debug, PartialEq, Eq, Structural)]
pub struct Ray {
    pub a: Vector3,
    pub b: Vector3,
}

impl Ray {
    /// The point the parameter `t` reaches along the ray.
    pub open spec fn point_at_s(self, t: int) -> Vector3 {
        self.a.add_s(self.b.scale_s(t))
    }

    pub fn new(a: Vector3, b: Vector3) -> (r: Ray)
        ensures
            r == (Ray { a, b }),
    {
        Ray { a, b }
    }

    pub fn origin(&self) -> (r: Vector3)
        ensures
            r == self.a,
    {
        self.a
    }

    pub fn direction(&self) -> (r: Vector3)
        ensures
            r == self.b,
    {
        self.b
    }

    pub fn point_at_parameter(&self, t: i128) -> (r: Vector3)
        requires
            fits(self.b.x * t),
            fits(self.b.y * t),
            fits(self.b.z * t),
            fits(self.a.x + fx_mul_s(self.b.x as int, t as int)),
            fits(self.a.y + fx_mul_s(self.b.y as int, t as int)),
            fits(self.a.z + fx_mul_s(self.b.z as int, t as int)),
        ensures
            r == self.point_at_s(t as int),
    {
        let step = self.b.scale(t);
        self.a.add(&step)
    }
}

} // verus!
