//! Quaternions and the rotation matrices they stand for.

use super::scalar::Scalar;
use super::vec3::Vec3;
use vstd::prelude::*;

verus! {

/// A quaternion `w + xi + yj + zk`; a rotation when its norm is one.
#[derive(Clone, Copy, Debug, PartialEq, Eq, Structural)]
pub struct Quat {
    pub x: Scalar,
    pub y: Scalar,
    pub z: Scalar,
    pub w: Scalar,
}

/// A 3x3 matrix, held as its three columns.
#[derive(Clone, Copy, Debug, PartialEq, Eq, Structural)]
pub struct Mat3 {
    pub x: Vec3,
    pub y: Vec3,
    pub z: Vec3,
}

/// `1 - 2 * (a + b)`, the shape of a diagonal entry of a rotation matrix.
pub open spec fn spec_diagonal(a: Scalar, b: Scalar) -> Scalar {
    Scalar::one().sub(a.add(b).double())
}

/// `1 - 2 * (a + b)`, the shape of a diagonal entry of a rotation matrix.
#[verifier::when_used_as_spec(spec_diagonal)]
pub fn diagonal(a: Scalar, b: Scalar) -> (r: Scalar)
    ensures
        r == spec_diagonal(a, b),
{
    Scalar::one().sub(a.add(b).double())
}

/// Twice the square root of `1 + major - minor_a - minor_b`: the divisor that
/// recovers a quaternion from the matrix entries.
pub open spec fn spec_pivot(major: Scalar, minor_a: Scalar, minor_b: Scalar) -> Scalar {
    Scalar::one().add(major).sub(minor_a).sub(minor_b).sqrt().double()
}

/// Twice the square root of `1 + major - minor_a - minor_b`: the divisor that
/// recovers a quaternion from the matrix entries.
#[verifier::when_used_as_spec(spec_pivot)]
pub fn pivot(major: Scalar, minor_a: Scalar, minor_b: Scalar) -> (r: Scalar)
    ensures
        r == spec_pivot(major, minor_a, minor_b),
{
    Scalar::one().add(major).sub(minor_a).sub(minor_b).sqrt().double()
}

/// A quarter of `s`.
pub open spec fn spec_quarter(s: Scalar) -> Scalar {
    s.div(Scalar::from_int(4))
}

/// A quarter of `s`.
#[verifier::when_used_as_spec(spec_quarter)]
pub fn quarter(s: Scalar) -> (r: Scalar)
    ensures
        r == spec_quarter(s),
{
    s.div(Scalar::from_int(4))
}

impl Quat {
    /// The quaternion with the given parts.
    pub open spec fn spec_new(x: Scalar, y: Scalar, z: Scalar, w: Scalar) -> Quat {
        Quat { x, y, z, w }
    }

    /// The quaternion with the given parts.
    #[verifier::when_used_as_spec(spec_new)]
    pub fn new(x: Scalar, y: Scalar, z: Scalar, w: Scalar) -> (r: Quat)
        ensures
            r == Quat::spec_new(x, y, z, w),
    {
        Quat { x, y, z, w }
    }

    /// The identity rotation.
    pub open spec fn spec_id() -> Quat {
        Quat { x: Scalar::zero(), y: Scalar::zero(), z: Scalar::zero(), w: Scalar::one() }
    }

    /// The identity rotation.
    #[verifier::when_used_as_spec(spec_id)]
    pub fn id() -> (r: Quat)
        ensures
            r == Quat::spec_id(),
    {
        Quat { x: Scalar::zero(), y: Scalar::zero(), z: Scalar::zero(), w: Scalar::one() }
    }

    /// The rotation matrix of the quaternion, taken as a unit quaternion.
    pub open spec fn spec_to_mat3(self) -> Mat3 {
        let xx = self.x.mul(self.x);
        let yy = self.y.mul(self.y);
        let zz = self.z.mul(self.z);
        let xy = self.x.mul(self.y);
        let xz = self.x.mul(self.z);
        let yz = self.y.mul(self.z);
        let wx = self.w.mul(self.x);
        let wy = self.w.mul(self.y);
        let wz = self.w.mul(self.z);
        Mat3 {
            x: Vec3 { x: diagonal(yy, zz), y: xy.add(wz).double(), z: xz.sub(wy).double() },
            y: Vec3 { x: xy.sub(wz).double(), y: diagonal(xx, zz), z: yz.add(wx).double() },
            z: Vec3 { x: xz.add(wy).double(), y: yz.sub(wx).double(), z: diagonal(xx, yy) },
        }
    }

    /// The rotation matrix of the quaternion, taken as a unit quaternion.
    #[verifier::when_used_as_spec(spec_to_mat3)]
    pub fn to_mat3(self) -> (r: Mat3)
        ensures
            r == self.spec_to_mat3(),
    {
        let xx = self.x.mul(self.x);
        let yy = self.y.mul(self.y);
        let zz = self.z.mul(self.z);
        let xy = self.x.mul(self.y);
        let xz = self.x.mul(self.z);
        let yz = self.y.mul(self.z);
        let wx = self.w.mul(self.x);
        let wy = self.w.mul(self.y);
        let wz = self.w.mul(self.z);
        Mat3 {
            x: Vec3 { x: diagonal(yy, zz), y: xy.add(wz).double(), z: xz.sub(wy).double() },
            y: Vec3 { x: xy.sub(wz).double(), y: diagonal(xx, zz), z: yz.add(wx).double() },
            z: Vec3 { x: xz.add(wy).double(), y: yz.sub(wx).double(), z: diagonal(xx, yy) },
        }
    }
}

impl Mat3 {
    /// The identity matrix.
    pub open spec fn spec_id() -> Mat3 {
        Mat3 {
            x: Vec3 { x: Scalar::one(), y: Scalar::zero(), z: Scalar::zero() },
            y: Vec3 { x: Scalar::zero(), y: Scalar::one(), z: Scalar::zero() },
            z: Vec3 { x: Scalar::zero(), y: Scalar::zero(), z: Scalar::one() },
        }
    }

    /// The identity matrix.
    #[verifier::when_used_as_spec(spec_id)]
    pub fn id() -> (r: Mat3)
        ensures
            r == Mat3::spec_id(),
    {
        Mat3 {
            x: Vec3 { x: Scalar::one(), y: Scalar::zero(), z: Scalar::zero() },
            y: Vec3 { x: Scalar::zero(), y: Scalar::one(), z: Scalar::zero() },
            z: Vec3 { x: Scalar::zero(), y: Scalar::zero(), z: Scalar::one() },
        }
    }

    /// The sum of the diagonal.
    pub open spec fn spec_trace(self) -> Scalar {
        self.x.x.add(self.y.y).add(self.z.z)
    }

    /// The sum of the diagonal.
    #[verifier::when_used_as_spec(spec_trace)]
    pub fn trace(self) -> (r: Scalar)
        ensures
            r == self.spec_trace(),
    {
        self.x.x.add(self.y.y).add(self.z.z)
    }

    /// The quaternion of a rotation matrix. The divisor is taken from the
    /// trace where that is positive and from the largest diagonal entry
    /// otherwise, so that it stays away from zero.
    #[verifier::opaque]
    pub open spec fn spec_to_quat(self) -> Quat {
        if self.trace().is_positive() {
            let s = Scalar::one().add(self.trace()).sqrt().double();
            Quat {
                x: self.y.z.sub(self.z.y).div(s),
                y: self.z.x.sub(self.x.z).div(s),
                z: self.x.y.sub(self.y.x).div(s),
                w: quarter(s),
            }
        } else if self.y.y.lt(self.x.x) && self.z.z.lt(self.x.x) {
            let s = pivot(self.x.x, self.y.y, self.z.z);
            Quat {
                x: quarter(s),
                y: self.y.x.add(self.x.y).div(s),
                z: self.z.x.add(self.x.z).div(s),
                w: self.y.z.sub(self.z.y).div(s),
            }
        } else if self.z.z.lt(self.y.y) {
            let s = pivot(self.y.y, self.x.x, self.z.z);
            Quat {
                x: self.y.x.add(self.x.y).div(s),
                y: quarter(s),
                z: self.z.y.add(self.y.z).div(s),
                w: self.z.x.sub(self.x.z).div(s),
            }
        } else {
            let s = pivot(self.z.z, self.x.x, self.y.y);
            Quat {
                x: self.z.x.add(self.x.z).div(s),
                y: self.z.y.add(self.y.z).div(s),
                z: quarter(s),
                w: self.x.y.sub(self.y.x).div(s),
            }
        }
    }

    /// The quaternion of a rotation matrix. The divisor is taken from the
    /// trace where that is positive and from the largest diagonal entry
    /// otherwise, so that it stays away from zero.
    #[verifier::when_used_as_spec(spec_to_quat)]
    pub fn to_quat(self) -> (r: Quat)
        ensures
            r == self.spec_to_quat(),
    {
        proof {
            reveal(Mat3::spec_to_quat);
        }
        if self.trace().is_positive() {
            let s = Scalar::one().add(self.trace()).sqrt().double();
            Quat {
                x: self.y.z.sub(self.z.y).div(s),
                y: self.z.x.sub(self.x.z).div(s),
                z: self.x.y.sub(self.y.x).div(s),
                w: quarter(s),
            }
        } else if self.y.y.lt(self.x.x) && self.z.z.lt(self.x.x) {
            let s = pivot(self.x.x, self.y.y, self.z.z);
            Quat {
                x: quarter(s),
                y: self.y.x.add(self.x.y).div(s),
                z: self.z.x.add(self.x.z).div(s),
                w: self.y.z.sub(self.z.y).div(s),
            }
        } else if self.z.z.lt(self.y.y) {
            let s = pivot(self.y.y, self.x.x, self.z.z);
            Quat {
                x: self.y.x.add(self.x.y).div(s),
                y: quarter(s),
                z: self.z.y.add(self.y.z).div(s),
                w: self.z.x.sub(self.x.z).div(s),
            }
        } else {
            let s = pivot(self.z.z, self.x.x, self.y.y);
            Quat {
                x: self.z.x.add(self.x.z).div(s),
                y: self.z.y.add(self.y.z).div(s),
                z: quarter(s),
                w: self.x.y.sub(self.y.x).div(s),
            }
        }
    }
}

impl Quat {
    /// The identity quaternion stands for the identity matrix.
    pub proof fn lemma_identity_to_matrix()
        ensures
            Quat::id().to_mat3() == Mat3::id(),
    {
        Scalar::zero().lemma_mul_zero_one();
        Scalar::one().lemma_mul_zero_one();
    }
}

} // verus!
