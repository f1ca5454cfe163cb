//! Three-component fixed-point vectors, used interchangeably as points,
//! directions and RGB colors.

use vstd::prelude::*;
use crate::fx::{
    FX_ONE, fits, fx_mul_s, fx_div_s, fx_sqrt_s, tdiv, isqrt_s,
    fx_mul, fx_div, fx_sqrt,
    lemma_isqrt_bounds, lemma_tdiv_mag, lemma_tdiv_ordered, lemma_fx_mul_mag,
};

verus! {

/// Component bound under which dot, cross, norm and length are free of
/// overflow in the wide integer arithmetic: 2^60.
pub const FX_VEC_BOUND: i128 = 0x1000000000000000;

/// Twice the fixed-point one: the component magnitude that a normalized
/// nonzero vector never exceeds.
pub const FX_UNIT_CAP: i128 = 131072;

/// Component bound on scene geometry (origins, directions, centers, radii):
/// 2^35, about half a million in world units.
pub const FX_GEOM_BOUND: i128 = 0x800000000;

#[derive(Clone, Copy, Debug, PartialEq, Eq, Structural)]
pub struct Vector3 {
    pub x: i128,
    pub y: i128,
    pub z: i128,
}

/// True when every component of `v` has magnitude at most `m`.
pub open spec fn vb(v: Vector3, m: int) -> bool {
    &&& -m <= v.x <= m
    &&& -m <= v.y <= m
    &&& -m <= v.z <= m
}

/// A vector from mathematical components (meaningful when they fit in range).
pub open spec fn v3_s(x: int, y: int, z: int) -> Vector3 {
    Vector3 { x: x as i128, y: y as i128, z: z as i128 }
}

impl Vector3 {
    pub open spec fn add_s(self, o: Vector3) -> Vector3 {
        v3_s(self.x + o.x, self.y + o.y, self.z + o.z)
    }

    pub open spec fn sub_s(self, o: Vector3) -> Vector3 {
        v3_s(self.x - o.x, self.y - o.y, self.z - o.z)
    }

    pub open spec fn neg_s(self) -> Vector3 {
        v3_s(-self.x, -self.y, -self.z)
    }

    /// The component-wise fixed-point product.
    pub open spec fn mul_s(self, o: Vector3) -> Vector3 {
        v3_s(
            fx_mul_s(self.x as int, o.x as int),
            fx_mul_s(self.y as int, o.y as int),
            fx_mul_s(self.z as int, o.z as int),
        )
    }

    /// The vector scaled by the fixed-point scalar `t`.
    pub open spec fn scale_s(self, t: int) -> Vector3 {
        v3_s(
            fx_mul_s(self.x as int, t),
            fx_mul_s(self.y as int, t),
            fx_mul_s(self.z as int, t),
        )
    }

    /// The vector divided by the fixed-point scalar `t` (sentinel components
    /// for `t == 0`).
    pub open spec fn div_s(self, t: int) -> Vector3 {
        v3_s(
            fx_div_s(self.x as int, t),
            fx_div_s(self.y as int, t),
            fx_div_s(self.z as int, t),
        )
    }

    pub open spec fn dot_s(self, o: Vector3) -> int {
        fx_mul_s(self.x as int, o.x as int)
            + fx_mul_s(self.y as int, o.y as int)
            + fx_mul_s(self.z as int, o.z as int)
    }

    pub open spec fn cross_s(self, o: Vector3) -> Vector3 {
        v3_s(
            fx_mul_s(self.y as int, o.z as int) - fx_mul_s(self.z as int, o.y as int),
            fx_mul_s(self.z as int, o.x as int) - fx_mul_s(self.x as int, o.z as int),
            fx_mul_s(self.x as int, o.y as int) - fx_mul_s(self.y as int, o.x as int),
        )
    }

    /// The squared length.
    pub open spec fn norm_s(self) -> int {
        self.dot_s(self)
    }

    pub open spec fn length_s(self) -> int {
        fx_sqrt_s(self.norm_s())
    }

    pub open spec fn unit_s(self) -> Vector3 {
        self.div_s(self.length_s())
    }
}

/// A square term of a dot product is never negative.
pub proof fn lemma_fx_square_nonneg(a: int)
    ensures
        fx_mul_s(a, a) >= 0,
{
    assert(a * a >= 0) by (nonlinear_arith);
    lemma_tdiv_mag(a * a, FX_ONE as int);
}

/// Magnitude bound for a dot product of component-bounded vectors.
pub proof fn lemma_dot_mag(u: Vector3, v: Vector3, mu: int, mv: int)
    requires
        vb(u, mu),
        vb(v, mv),
        0 <= mu,
        0 <= mv,
    ensures
        -(3 * ((mu * mv) / (FX_ONE as int))) <= u.dot_s(v) <= 3 * ((mu * mv) / (FX_ONE as int)),
{
    lemma_fx_mul_mag(u.x as int, v.x as int, mu, mv);
    lemma_fx_mul_mag(u.y as int, v.y as int, mu, mv);
    lemma_fx_mul_mag(u.z as int, v.z as int, mu, mv);
}

/// A component of a normalized nonzero vector has magnitude at most twice
/// the fixed-point one.
proof fn lemma_unit_comp_bound(xc: int, norm: int, len: int)
    requires
        fx_mul_s(xc, xc) <= norm,
        norm >= 1,
        len == isqrt_s(norm * (FX_ONE as int)),
    ensures
        len >= 256,
        -(FX_UNIT_CAP as int) <= tdiv(xc * (FX_ONE as int), len) <= FX_UNIT_CAP as int,
{
    let one = FX_ONE as int;
    lemma_isqrt_bounds(norm * one);
    assert(norm * one >= one) by (nonlinear_arith)
        requires norm >= 1 && one == 65536;
    assert(len >= 256) by (nonlinear_arith)
        requires
            (len + 1) * (len + 1) > norm * one,
            norm * one >= 65536,
            len >= 0;

    // The squared component, rescaled, sits under the squared length bound.
    let sq = xc * xc;
    assert(xc * xc >= 0) by (nonlinear_arith);
    lemma_tdiv_mag(sq, one);
    vstd::arithmetic::div_mod::lemma_fundamental_div_mod(sq, one);
    vstd::arithmetic::div_mod::lemma_mod_division_less_than_divisor(sq, one);
    assert(fx_mul_s(xc, xc) * one > sq - one) by (nonlinear_arith)
        requires
            fx_mul_s(xc, xc) == sq / one,
            sq == one * (sq / one) + sq % one,
            0 <= sq % one < one,
            one > 0;
    assert(norm * one >= fx_mul_s(xc, xc) * one) by (nonlinear_arith)
        requires fx_mul_s(xc, xc) <= norm && one > 0;
    assert((len + 1) * (len + 1) > sq - one);

    // Hence the component magnitude is at most twice the length.
    let mx = if xc >= 0 { xc } else { -xc };
    assert(mx * mx == xc * xc) by (nonlinear_arith)
        requires mx == xc || mx == -xc;
    assert(mx <= 2 * len) by (nonlinear_arith)
        requires
            (len + 1) * (len + 1) > mx * mx - 65536,
            len >= 256,
            mx >= 0;

    // And dividing the rescaled component by the length keeps it under the cap.
    lemma_tdiv_mag(xc * one, len);
    assert(xc * one <= mx * one && -(mx * one) <= xc * one) by (nonlinear_arith)
        requires (mx == xc || mx == -xc) && mx >= 0 && one > 0;
    lemma_tdiv_ordered(xc * one, mx * one, len);
    lemma_tdiv_ordered(-(mx * one), xc * one, len);
    assert(mx * one <= (2 * len) * one) by (nonlinear_arith)
        requires mx <= 2 * len && one > 0;
    assert(mx * one <= len * (2 * one)) by (nonlinear_arith)
        requires mx <= 2 * len && one > 0 && mx >= 0;
    lemma_tdiv_ordered(mx * one, len * (2 * one), len);
    vstd::arithmetic::div_mod::lemma_div_multiples_vanish(2 * one, len);
    assert(len * (2 * one) > 0) by (nonlinear_arith)
        requires len > 0 && one > 0;
    assert(tdiv(len * (2 * one), len) == 2 * one);
    assert(tdiv(-(mx * one), len) == -tdiv(mx * one, len));
}

impl Vector3 {
    pub fn new(x: i128, y: i128, z: i128) -> (r: Vector3)
        ensures
            r == (Vector3 { x, y, z }),
    {
        Vector3 { x, y, z }
    }

    pub fn x(&self) -> (r: i128)
        ensures
            r == self.x,
    {
        self.x
    }

    pub fn y(&self) -> (r: i128)
        ensures
            r == self.y,
    {
        self.y
    }

    pub fn z(&self) -> (r: i128)
        ensures
            r == self.z,
    {
        self.z
    }

    pub fn r(&self) -> (r: i128)
        ensures
            r == self.x,
    {
        self.x
    }

    pub fn g(&self) -> (r: i128)
        ensures
            r == self.y,
    {
        self.y
    }

    pub fn b(&self) -> (r: i128)
        ensures
            r == self.z,
    {
        self.z
    }

    pub fn add(&self, o: &Vector3) -> (r: Vector3)
        requires
            fits(self.x + o.x),
            fits(self.y + o.y),
            fits(self.z + o.z),
        ensures
            r == self.add_s(*o),
    {
        Vector3 { x: self.x + o.x, y: self.y + o.y, z: self.z + o.z }
    }

    pub fn sub(&self, o: &Vector3) -> (r: Vector3)
        requires
            fits(self.x - o.x),
            fits(self.y - o.y),
            fits(self.z - o.z),
        ensures
            r == self.sub_s(*o),
    {
        Vector3 { x: self.x - o.x, y: self.y - o.y, z: self.z - o.z }
    }

    pub fn neg(&self) -> (r: Vector3)
        requires
            fits(self.x as int),
            fits(self.y as int),
            fits(self.z as int),
        ensures
            r == self.neg_s(),
    {
        Vector3 { x: -self.x, y: -self.y, z: -self.z }
    }

    /// The component-wise product, as colors multiply.
    pub fn mul(&self, o: &Vector3) -> (r: Vector3)
        requires
            fits(self.x * o.x),
            fits(self.y * o.y),
            fits(self.z * o.z),
        ensures
            r == self.mul_s(*o),
    {
        Vector3 {
            x: fx_mul(self.x, o.x),
            y: fx_mul(self.y, o.y),
            z: fx_mul(self.z, o.z),
        }
    }

    pub fn scale(&self, t: i128) -> (r: Vector3)
        requires
            fits(self.x * t),
            fits(self.y * t),
            fits(self.z * t),
        ensures
            r == self.scale_s(t as int),
    {
        Vector3 {
            x: fx_mul(self.x, t),
            y: fx_mul(self.y, t),
            z: fx_mul(self.z, t),
        }
    }

    pub fn div(&self, t: i128) -> (r: Vector3)
        requires
            fits(self.x * (FX_ONE as int)),
            fits(self.y * (FX_ONE as int)),
            fits(self.z * (FX_ONE as int)),
        ensures
            r == self.div_s(t as int),
    {
        Vector3 {
            x: fx_div(self.x, t),
            y: fx_div(self.y, t),
            z: fx_div(self.z, t),
        }
    }

    pub fn dot(&self, o: &Vector3) -> (r: i128)
        requires
            vb(*self, FX_VEC_BOUND as int),
            vb(*o, FX_VEC_BOUND as int),
        ensures
            r == self.dot_s(*o),
    {
        proof {
            let m = FX_VEC_BOUND as int;
            lemma_fx_mul_mag(self.x as int, o.x as int, m, m);
            lemma_fx_mul_mag(self.y as int, o.y as int, m, m);
            lemma_fx_mul_mag(self.z as int, o.z as int, m, m);
        }
        fx_mul(self.x, o.x) + fx_mul(self.y, o.y) + fx_mul(self.z, o.z)
    }

    pub fn cross(&self, o: &Vector3) -> (r: Vector3)
        requires
            vb(*self, FX_VEC_BOUND as int),
            vb(*o, FX_VEC_BOUND as int),
        ensures
            r == self.cross_s(*o),
    {
        proof {
            let m = FX_VEC_BOUND as int;
            lemma_fx_mul_mag(self.x as int, o.x as int, m, m);
            lemma_fx_mul_mag(self.x as int, o.y as int, m, m);
            lemma_fx_mul_mag(self.x as int, o.z as int, m, m);
            lemma_fx_mul_mag(self.y as int, o.x as int, m, m);
            lemma_fx_mul_mag(self.y as int, o.z as int, m, m);
            lemma_fx_mul_mag(self.z as int, o.x as int, m, m);
            lemma_fx_mul_mag(self.z as int, o.y as int, m, m);
        }
        Vector3 {
            x: fx_mul(self.y, o.z) - fx_mul(self.z, o.y),
            y: fx_mul(self.z, o.x) - fx_mul(self.x, o.z),
            z: fx_mul(self.x, o.y) - fx_mul(self.y, o.x),
        }
    }

    /// The squared length.
    pub fn norm(&self) -> (r: i128)
        requires
            vb(*self, FX_VEC_BOUND as int),
        ensures
            r == self.norm_s(),
            r >= 0,
    {
        proof {
            lemma_fx_square_nonneg(self.x as int);
            lemma_fx_square_nonneg(self.y as int);
            lemma_fx_square_nonneg(self.z as int);
        }
        self.dot(self)
    }

    pub fn length(&self) -> (r: i128)
        requires
            vb(*self, FX_VEC_BOUND as int),
        ensures
            r == self.length_s(),
            r >= 0,
    {
        let n = self.norm();
        proof {
            lemma_dot_mag(*self, *self, FX_VEC_BOUND as int, FX_VEC_BOUND as int);
        }
        fx_sqrt(n)
    }

    /// The direction scaled to unit length; a zero-length vector yields
    /// sentinel components, never an undefined value.
    pub fn unit_vector(&self) -> (r: Vector3)
        requires
            vb(*self, FX_VEC_BOUND as int),
        ensures
            r == self.unit_s(),
            self.norm_s() > 0 ==> vb(r, FX_UNIT_CAP as int),
    {
        let len = self.length();
        let r = self.div(len);
        proof {
            if self.norm_s() > 0 {
                lemma_fx_square_nonneg(self.x as int);
                lemma_fx_square_nonneg(self.y as int);
                lemma_fx_square_nonneg(self.z as int);
                lemma_unit_comp_bound(self.x as int, self.norm_s(), len as int);
                lemma_unit_comp_bound(self.y as int, self.norm_s(), len as int);
                lemma_unit_comp_bound(self.z as int, self.norm_s(), len as int);
            }
        }
        r
    }
}

} // verus!
