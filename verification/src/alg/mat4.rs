//! 4x4 matrices for affine transforms.

use super::quat::{Mat3, Quat};
use super::scalar::Scalar;
use super::vec3::{Vec3, Vec4};
use vstd::prelude::*;

verus! {

/// A 4x4 matrix, held as its four columns.
#[derive(Clone, Copy, Debug, PartialEq, Eq, Structural)]
pub struct Mat4 {
    pub x: Vec4,
    pub y: Vec4,
    pub z: Vec4,
    pub w: Vec4,
}

impl Mat4 {
    /// The identity matrix.
    pub open spec fn spec_id() -> Mat4 {
        Mat4 {
            x: Vec4 { x: Scalar::one(), y: Scalar::zero(), z: Scalar::zero(), w: Scalar::zero() },
            y: Vec4 { x: Scalar::zero(), y: Scalar::one(), z: Scalar::zero(), w: Scalar::zero() },
            z: Vec4 { x: Scalar::zero(), y: Scalar::zero(), z: Scalar::one(), w: Scalar::zero() },
            w: Vec4 { x: Scalar::zero(), y: Scalar::zero(), z: Scalar::zero(), w: Scalar::one() },
        }
    }

    /// The identity matrix.
    #[verifier::when_used_as_spec(spec_id)]
    pub fn id() -> (r: Mat4)
        ensures
            r == Mat4::spec_id(),
    {
        Mat4 {
            x: Vec4 { x: Scalar::one(), y: Scalar::zero(), z: Scalar::zero(), w: Scalar::zero() },
            y: Vec4 { x: Scalar::zero(), y: Scalar::one(), z: Scalar::zero(), w: Scalar::zero() },
            z: Vec4 { x: Scalar::zero(), y: Scalar::zero(), z: Scalar::one(), w: Scalar::zero() },
            w: Vec4 { x: Scalar::zero(), y: Scalar::zero(), z: Scalar::zero(), w: Scalar::one() },
        }
    }

    /// The matrix that scales by `scale`, then rotates by `orientation`, then
    /// moves by `position`.
    #[verifier::opaque]
    pub open spec fn spec_transform(position: Vec3, orientation: Quat, scale: Vec3) -> Mat4 {
        let rotation = orientation.to_mat3();
        Mat4 {
            x: Vec4::direction(rotation.x.scale(scale.x)),
            y: Vec4::direction(rotation.y.scale(scale.y)),
            z: Vec4::direction(rotation.z.scale(scale.z)),
            w: Vec4::point(position),
        }
    }

    /// The matrix that scales by `scale`, then rotates by `orientation`, then
    /// moves by `position`.
    #[verifier::when_used_as_spec(spec_transform)]
    pub fn transform(position: Vec3, orientation: Quat, scale: Vec3) -> (r: Mat4)
        ensures
            r == Mat4::spec_transform(position, orientation, scale),
    {
        proof {
            reveal(Mat4::spec_transform);
        }
        let rotation = orientation.to_mat3();
        Mat4 {
            x: Vec4::direction(rotation.x.scale(scale.x)),
            y: Vec4::direction(rotation.y.scale(scale.y)),
            z: Vec4::direction(rotation.z.scale(scale.z)),
            w: Vec4::point(position),
        }
    }

    /// The matrix applied to a homogeneous vector: the columns combined with
    /// the coordinates of `v` as weights.
    pub open spec fn spec_apply(self, v: Vec4) -> Vec4 {
        self.x.scale(v.x).add(self.y.scale(v.y)).add(self.z.scale(v.z)).add(self.w.scale(v.w))
    }

    /// The matrix applied to a homogeneous vector: the columns combined with
    /// the coordinates of `v` as weights.
    #[verifier::when_used_as_spec(spec_apply)]
    pub fn apply(self, v: Vec4) -> (r: Vec4)
        ensures
            r == self.spec_apply(v),
    {
        self.x.scale(v.x).add(self.y.scale(v.y)).add(self.z.scale(v.z)).add(self.w.scale(v.w))
    }

    /// The matrix product `self * rhs`: `rhs` acts first.
    #[verifier::opaque]
    pub open spec fn spec_mul(self, rhs: Mat4) -> Mat4 {
        Mat4 {
            x: self.apply(rhs.x),
            y: self.apply(rhs.y),
            z: self.apply(rhs.z),
            w: self.apply(rhs.w),
        }
    }

    /// The matrix product `self * rhs`: `rhs` acts first.
    #[verifier::when_used_as_spec(spec_mul)]
    pub fn mul(self, rhs: Mat4) -> (r: Mat4)
        ensures
            r == self.spec_mul(rhs),
    {
        proof {
            reveal(Mat4::spec_mul);
        }
        Mat4 {
            x: self.apply(rhs.x),
            y: self.apply(rhs.y),
            z: self.apply(rhs.z),
            w: self.apply(rhs.w),
        }
    }

    /// The image of the point `p`.
    pub open spec fn spec_mul_point(self, p: Vec3) -> Vec3 {
        self.apply(Vec4::point(p)).xyz()
    }

    /// The image of the point `p`.
    #[verifier::when_used_as_spec(spec_mul_point)]
    pub fn mul_point(self, p: Vec3) -> (r: Vec3)
        ensures
            r == self.spec_mul_point(p),
    {
        self.apply(Vec4::point(p)).xyz()
    }

    /// The translation column: where the matrix sends the origin.
    pub open spec fn spec_translation(self) -> Vec3 {
        self.w.xyz()
    }

    /// The translation column: where the matrix sends the origin.
    #[verifier::when_used_as_spec(spec_translation)]
    pub fn translation(self) -> (r: Vec3)
        ensures
            r == self.spec_translation(),
    {
        self.w.xyz()
    }

    /// The scale of the transform: the lengths of its three axis columns.
    #[verifier::opaque]
    pub open spec fn spec_to_scale(self) -> Vec3 {
        Vec3 { x: self.x.xyz().mag(), y: self.y.xyz().mag(), z: self.z.xyz().mag() }
    }

    /// The scale of the transform: the lengths of its three axis columns.
    #[verifier::when_used_as_spec(spec_to_scale)]
    pub fn to_scale(self) -> (r: Vec3)
        ensures
            r == self.spec_to_scale(),
    {
        proof {
            reveal(Mat4::spec_to_scale);
        }
        Vec3 { x: self.x.xyz().mag(), y: self.y.xyz().mag(), z: self.z.xyz().mag() }
    }

    /// The rotation part: the axis columns, each divided by its entry of `scale`.
    #[verifier::opaque]
    pub open spec fn spec_to_rotation_raw(self, scale: Vec3) -> Mat3 {
        Mat3 {
            x: self.x.xyz().div(scale.x),
            y: self.y.xyz().div(scale.y),
            z: self.z.xyz().div(scale.z),
        }
    }

    /// The rotation part: the axis columns, each divided by its entry of `scale`.
    #[verifier::when_used_as_spec(spec_to_rotation_raw)]
    pub fn to_rotation_raw(self, scale: Vec3) -> (r: Mat3)
        ensures
            r == self.spec_to_rotation_raw(scale),
    {
        proof {
            reveal(Mat4::spec_to_rotation_raw);
        }
        Mat3 {
            x: self.x.xyz().div(scale.x),
            y: self.y.xyz().div(scale.y),
            z: self.z.xyz().div(scale.z),
        }
    }
}

impl Mat4 {
    /// The matrix of no move, no turn and unit scale is the identity matrix.
    pub proof fn lemma_blank_is_identity()
        ensures
            Mat4::transform(Vec3::zero(), Quat::id(), Vec3::one()) == Mat4::id(),
    {
        reveal(Mat4::spec_transform);
        Quat::lemma_identity_to_matrix();
        Scalar::one().lemma_mul_zero_one();
    }

    /// The origin goes where the translation column says.
    pub proof fn lemma_image_of_origin(self)
        ensures
            self.mul_point(Vec3::zero()) == self.translation(),
    {
        self.x.x.lemma_mul_zero_one();
        self.x.y.lemma_mul_zero_one();
        self.x.z.lemma_mul_zero_one();
        self.y.x.lemma_mul_zero_one();
        self.y.y.lemma_mul_zero_one();
        self.y.z.lemma_mul_zero_one();
        self.z.x.lemma_mul_zero_one();
        self.z.y.lemma_mul_zero_one();
        self.z.z.lemma_mul_zero_one();
        self.w.x.lemma_mul_zero_one();
        self.w.y.lemma_mul_zero_one();
        self.w.z.lemma_mul_zero_one();
    }
}

} // verus!
