//! Scale, rotation and position come back out of the matrix they made.

use crate::alg::mat4::Mat4;
use crate::alg::quat::{Mat3, Quat};
use crate::alg::scalar::{
    lemma_isqrt_of_square, lemma_ratio_of_multiple, lemma_ratio_of_zero, Scalar,
    ONE_RAW,
};
use crate::alg::vec3::Vec3;
use vstd::prelude::*;

verus! {

/// The identity matrix gives the identity quaternion back.
pub proof fn lemma_identity_to_quaternion()
    ensures
        Mat3::id().to_quat() == Quat::id(),
{
    reveal(Mat3::spec_to_quat);
    let four = Scalar::one().add(Mat3::id().trace());
    assert(four.raw == 4 * ONE_RAW);
    assert(four.raw * ONE_RAW == (2 * ONE_RAW) * (2 * ONE_RAW)) by (nonlinear_arith)
        requires
            four.raw == 4 * ONE_RAW,
    ;
    lemma_isqrt_of_square(2 * ONE_RAW);
    let s = four.sqrt().double();
    assert(s.raw == 4 * ONE_RAW);
    assert(Scalar::from_int(4).raw == 4 * ONE_RAW);
    assert(s.raw * ONE_RAW == ONE_RAW * (4 * ONE_RAW)) by (nonlinear_arith)
        requires
            s.raw == 4 * ONE_RAW,
    ;
    lemma_ratio_of_multiple(ONE_RAW as int, 4 * ONE_RAW);
    assert(0 * ONE_RAW == 0);
    lemma_ratio_of_zero(s.raw as int);
}

/// A vector along the x axis that is `s > 0` long has the length `s`, and
/// divided by `s` it is the unit vector.
proof fn lemma_axis_column(s: Scalar)
    requires
        s.raw > 0,
    ensures
        Vec3::new(s, Scalar::zero(), Scalar::zero()).mag() == s,
        Vec3::new(Scalar::zero(), s, Scalar::zero()).mag() == s,
        Vec3::new(Scalar::zero(), Scalar::zero(), s).mag() == s,
        s.div(s) == Scalar::one(),
        Scalar::zero().div(s) == Scalar::zero(),
        Scalar::one().mul(s) == s,
        Scalar::zero().mul(s) == Scalar::zero(),
{
    lemma_isqrt_of_square(s.raw as int);
    assert(0 * 0 == 0);
    assert(s.raw * ONE_RAW == ONE_RAW * s.raw) by (nonlinear_arith);
    lemma_ratio_of_multiple(ONE_RAW as int, s.raw as int);
    s.lemma_zero_div();
    s.lemma_mul_zero_one();
}

/// Decomposition undoes composition for an unrotated transform with
/// positive scales: the scale comes back as the lengths of the columns, the
/// identity rotation from the columns divided by the scale, and the position
/// from the translation column.
pub proof fn lemma_round_trip(position: Vec3, scale: Vec3)
    requires
        scale.x.raw > 0,
        scale.y.raw > 0,
        scale.z.raw > 0,
    ensures
        Mat4::transform(position, Quat::id(), scale).to_scale() == scale,
        Mat4::transform(position, Quat::id(), scale).to_rotation_raw(scale).to_quat()
            == Quat::id(),
        Mat4::transform(position, Quat::id(), scale).translation() == position,
{
    reveal(Mat4::spec_transform);
    reveal(Mat4::spec_to_scale);
    reveal(Mat4::spec_to_rotation_raw);
    Quat::lemma_identity_to_matrix();
    lemma_identity_to_quaternion();
    lemma_axis_column(scale.x);
    lemma_axis_column(scale.y);
    lemma_axis_column(scale.z);
    let m = Mat4::transform(position, Quat::id(), scale);
    assert(m.x.xyz() == Vec3::new(scale.x, Scalar::zero(), Scalar::zero()));
    assert(m.y.xyz() == Vec3::new(Scalar::zero(), scale.y, Scalar::zero()));
    assert(m.z.xyz() == Vec3::new(Scalar::zero(), Scalar::zero(), scale.z));
    assert(m.to_rotation_raw(scale) == Mat3::id());
}

} // verus!
