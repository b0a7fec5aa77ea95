//! Three-component vectors of fixed-point scalars.

use super::scalar::{isqrt, saturate, wide_isqrt, wide_product, Scalar};
use vstd::prelude::*;

verus! {

/// A vector, or a point, in space.
#[derive(Clone, Copy, Debug, PartialEq, Eq, Structural)]
pub struct Vec3 {
    pub x: Scalar,
    pub y: Scalar,
    pub z: Scalar,
}

/// The sum of the squares of three raw coordinates.
pub open spec fn square_sum(x: int, y: int, z: int) -> int {
    x * x + y * y + z * z
}

/// The exact square of a raw value.
fn wide_square(a: i64) -> (s: u128)
    ensures
        s == a as int * a as int,
        s <= 0x4000_0000_0000_0000_0000_0000_0000_0000,
{
    proof {
        assert(0 <= a as int * a as int) by (nonlinear_arith);
    }
    wide_product(a, a) as u128
}

impl Vec3 {
    /// The vector with the given coordinates.
    pub open spec fn spec_new(x: Scalar, y: Scalar, z: Scalar) -> Vec3 {
        Vec3 { x, y, z }
    }

    /// The vector with the given coordinates.
    #[verifier::when_used_as_spec(spec_new)]
    pub fn new(x: Scalar, y: Scalar, z: Scalar) -> (r: Vec3)
        ensures
            r == Vec3::spec_new(x, y, z),
    {
        Vec3 { x, y, z }
    }

    /// The vector with the given raw coordinates.
    pub open spec fn spec_from_raw(x: i64, y: i64, z: i64) -> Vec3 {
        Vec3 { x: Scalar { raw: x }, y: Scalar { raw: y }, z: Scalar { raw: z } }
    }

    /// The vector with the given raw coordinates.
    #[verifier::when_used_as_spec(spec_from_raw)]
    pub fn from_raw(x: i64, y: i64, z: i64) -> (r: Vec3)
        ensures
            r == Vec3::spec_from_raw(x, y, z),
    {
        Vec3 { x: Scalar { raw: x }, y: Scalar { raw: y }, z: Scalar { raw: z } }
    }

    /// The zero vector.
    pub open spec fn spec_zero() -> Vec3 {
        Vec3 { x: Scalar::zero(), y: Scalar::zero(), z: Scalar::zero() }
    }

    /// The zero vector.
    #[verifier::when_used_as_spec(spec_zero)]
    pub fn zero() -> (r: Vec3)
        ensures
            r == Vec3::spec_zero(),
    {
        Vec3 { x: Scalar::zero(), y: Scalar::zero(), z: Scalar::zero() }
    }

    /// The vector with every coordinate one.
    pub open spec fn spec_one() -> Vec3 {
        Vec3 { x: Scalar::one(), y: Scalar::one(), z: Scalar::one() }
    }

    /// The vector with every coordinate one.
    #[verifier::when_used_as_spec(spec_one)]
    pub fn one() -> (r: Vec3)
        ensures
            r == Vec3::spec_one(),
    {
        Vec3 { x: Scalar::one(), y: Scalar::one(), z: Scalar::one() }
    }

    /// The sum, coordinate by coordinate.
    pub open spec fn spec_add(self, rhs: Vec3) -> Vec3 {
        Vec3 { x: self.x.add(rhs.x), y: self.y.add(rhs.y), z: self.z.add(rhs.z) }
    }

    /// The sum, coordinate by coordinate.
    #[verifier::when_used_as_spec(spec_add)]
    pub fn add(self, rhs: Vec3) -> (r: Vec3)
        ensures
            r == self.spec_add(rhs),
    {
        Vec3 { x: self.x.add(rhs.x), y: self.y.add(rhs.y), z: self.z.add(rhs.z) }
    }

    /// The difference, coordinate by coordinate.
    pub open spec fn spec_sub(self, rhs: Vec3) -> Vec3 {
        Vec3 { x: self.x.sub(rhs.x), y: self.y.sub(rhs.y), z: self.z.sub(rhs.z) }
    }

    /// The difference, coordinate by coordinate.
    #[verifier::when_used_as_spec(spec_sub)]
    pub fn sub(self, rhs: Vec3) -> (r: Vec3)
        ensures
            r == self.spec_sub(rhs),
    {
        Vec3 { x: self.x.sub(rhs.x), y: self.y.sub(rhs.y), z: self.z.sub(rhs.z) }
    }

    /// The vector stretched by `factor`.
    pub open spec fn spec_scale(self, factor: Scalar) -> Vec3 {
        Vec3 { x: self.x.mul(factor), y: self.y.mul(factor), z: self.z.mul(factor) }
    }

    /// The vector stretched by `factor`.
    #[verifier::when_used_as_spec(spec_scale)]
    pub fn scale(self, factor: Scalar) -> (r: Vec3)
        ensures
            r == self.spec_scale(factor),
    {
        Vec3 { x: self.x.mul(factor), y: self.y.mul(factor), z: self.z.mul(factor) }
    }

    /// The vector with every coordinate divided by `divisor`.
    pub open spec fn spec_div(self, divisor: Scalar) -> Vec3 {
        Vec3 { x: self.x.div(divisor), y: self.y.div(divisor), z: self.z.div(divisor) }
    }

    /// The vector with every coordinate divided by `divisor`.
    #[verifier::when_used_as_spec(spec_div)]
    pub fn div(self, divisor: Scalar) -> (r: Vec3)
        ensures
            r == self.spec_div(divisor),
    {
        Vec3 { x: self.x.div(divisor), y: self.y.div(divisor), z: self.z.div(divisor) }
    }

    /// The vector times `numerator / denominator`, each coordinate rounded once.
    pub open spec fn spec_scale_ratio(self, numerator: Scalar, denominator: Scalar) -> Vec3 {
        Vec3 {
            x: self.x.mul_div(numerator, denominator),
            y: self.y.mul_div(numerator, denominator),
            z: self.z.mul_div(numerator, denominator),
        }
    }

    /// The vector times `numerator / denominator`, each coordinate rounded once.
    #[verifier::when_used_as_spec(spec_scale_ratio)]
    pub fn scale_ratio(self, numerator: Scalar, denominator: Scalar) -> (r: Vec3)
        ensures
            r == self.spec_scale_ratio(numerator, denominator),
    {
        Vec3 {
            x: self.x.mul_div(numerator, denominator),
            y: self.y.mul_div(numerator, denominator),
            z: self.z.mul_div(numerator, denominator),
        }
    }

    /// The inner product: the sum of the three rounded products.
    pub open spec fn spec_dot(self, rhs: Vec3) -> Scalar {
        self.x.mul(rhs.x).add(self.y.mul(rhs.y)).add(self.z.mul(rhs.z))
    }

    /// The inner product: the sum of the three rounded products.
    #[verifier::when_used_as_spec(spec_dot)]
    pub fn dot(self, rhs: Vec3) -> (r: Scalar)
        ensures
            r == self.spec_dot(rhs),
    {
        self.x.mul(rhs.x).add(self.y.mul(rhs.y)).add(self.z.mul(rhs.z))
    }

    /// The Euclidean length: the square root of the exact sum of squares,
    /// rounded down to a raw unit and saturated.
    pub open spec fn spec_mag(self) -> Scalar {
        Scalar {
            raw: saturate(
                isqrt(square_sum(self.x.raw as int, self.y.raw as int, self.z.raw as int)),
            ),
        }
    }

    /// The Euclidean length: the square root of the exact sum of squares,
    /// rounded down to a raw unit and saturated.
    #[verifier::when_used_as_spec(spec_mag)]
    pub fn mag(self) -> (r: Scalar)
        ensures
            r == self.spec_mag(),
            r.raw >= 0,
    {
        let total: u128 = wide_square(self.x.raw) + wide_square(self.y.raw) + wide_square(
            self.z.raw,
        );
        let root: u64 = wide_isqrt(total);
        if root > 9223372036854775807u64 {
            Scalar { raw: i64::MAX }
        } else {
            Scalar { raw: root as i64 }
        }
    }

    /// The distance between two points.
    pub open spec fn spec_dist(self, other: Vec3) -> Scalar {
        other.sub(self).mag()
    }

    /// The distance between two points.
    #[verifier::when_used_as_spec(spec_dist)]
    pub fn dist(self, other: Vec3) -> (r: Scalar)
        ensures
            r == self.spec_dist(other),
            r.raw >= 0,
    {
        other.sub(self).mag()
    }
}

/// A vector in homogeneous coordinates.
#[derive(Clone, Copy, Debug, PartialEq, Eq, Structural)]
pub struct Vec4 {
    pub x: Scalar,
    pub y: Scalar,
    pub z: Scalar,
    pub w: Scalar,
}

impl Vec4 {
    /// The vector with the given coordinates.
    pub open spec fn spec_new(x: Scalar, y: Scalar, z: Scalar, w: Scalar) -> Vec4 {
        Vec4 { x, y, z, w }
    }

    /// The vector with the given coordinates.
    #[verifier::when_used_as_spec(spec_new)]
    pub fn new(x: Scalar, y: Scalar, z: Scalar, w: Scalar) -> (r: Vec4)
        ensures
            r == Vec4::spec_new(x, y, z, w),
    {
        Vec4 { x, y, z, w }
    }

    /// The direction `v`: a homogeneous vector that translations leave alone.
    pub open spec fn spec_direction(v: Vec3) -> Vec4 {
        Vec4 { x: v.x, y: v.y, z: v.z, w: Scalar::zero() }
    }

    /// The direction `v`: a homogeneous vector that translations leave alone.
    #[verifier::when_used_as_spec(spec_direction)]
    pub fn direction(v: Vec3) -> (r: Vec4)
        ensures
            r == Vec4::spec_direction(v),
    {
        Vec4 { x: v.x, y: v.y, z: v.z, w: Scalar::zero() }
    }

    /// The point `v`.
    pub open spec fn spec_point(v: Vec3) -> Vec4 {
        Vec4 { x: v.x, y: v.y, z: v.z, w: Scalar::one() }
    }

    /// The point `v`.
    #[verifier::when_used_as_spec(spec_point)]
    pub fn point(v: Vec3) -> (r: Vec4)
        ensures
            r == Vec4::spec_point(v),
    {
        Vec4 { x: v.x, y: v.y, z: v.z, w: Scalar::one() }
    }

    /// The first three coordinates.
    pub open spec fn spec_xyz(self) -> Vec3 {
        Vec3 { x: self.x, y: self.y, z: self.z }
    }

    /// The first three coordinates.
    #[verifier::when_used_as_spec(spec_xyz)]
    pub fn xyz(self) -> (r: Vec3)
        ensures
            r == self.spec_xyz(),
    {
        Vec3 { x: self.x, y: self.y, z: self.z }
    }

    pub open spec fn spec_add(self, rhs: Vec4) -> Vec4 {
        Vec4 {
            x: self.x.add(rhs.x),
            y: self.y.add(rhs.y),
            z: self.z.add(rhs.z),
            w: self.w.add(rhs.w),
        }
    }

    /// The sum, coordinate by coordinate.
    #[verifier::when_used_as_spec(spec_add)]
    pub fn add(self, rhs: Vec4) -> (r: Vec4)
        ensures
            r == self.spec_add(rhs),
    {
        Vec4 {
            x: self.x.add(rhs.x),
            y: self.y.add(rhs.y),
            z: self.z.add(rhs.z),
            w: self.w.add(rhs.w),
        }
    }

    pub open spec fn spec_scale(self, factor: Scalar) -> Vec4 {
        Vec4 {
            x: self.x.mul(factor),
            y: self.y.mul(factor),
            z: self.z.mul(factor),
            w: self.w.mul(factor),
        }
    }

    /// The vector stretched by `factor`.
    #[verifier::when_used_as_spec(spec_scale)]
    pub fn scale(self, factor: Scalar) -> (r: Vec4)
        ensures
            r == self.spec_scale(factor),
    {
        Vec4 {
            x: self.x.mul(factor),
            y: self.y.mul(factor),
            z: self.z.mul(factor),
            w: self.w.mul(factor),
        }
    }
}

} // verus!
