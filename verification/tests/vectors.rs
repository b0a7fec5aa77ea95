use softbody::alg::mat4::Mat4;
use softbody::alg::plane::Plane;
use softbody::alg::quat::{Mat3, Quat};
use softbody::alg::scalar::{Scalar, ONE_RAW};
use softbody::alg::vec3::{Vec3, Vec4};

fn s(v: f64) -> Scalar {
    Scalar::from_raw((v * ONE_RAW as f64).round() as i64)
}

fn v(x: f64, y: f64, z: f64) -> Vec3 {
    Vec3::new(s(x), s(y), s(z))
}

fn close(a: Scalar, b: f64) -> bool {
    (a.raw as f64 / ONE_RAW as f64 - b).abs() < 1e-6
}

#[test]
fn vector_arithmetic() {
    assert_eq!(v(1.0, 2.0, 3.0).add(v(0.5, -2.0, 1.0)), v(1.5, 0.0, 4.0));
    assert_eq!(v(1.0, 2.0, 3.0).sub(v(0.5, -2.0, 1.0)), v(0.5, 4.0, 2.0));
    assert_eq!(v(1.0, 2.0, 3.0).scale(s(-2.0)), v(-2.0, -4.0, -6.0));
    assert_eq!(v(1.0, 2.0, 3.0).div(s(4.0)), v(0.25, 0.5, 0.75));
    assert_eq!(v(1.0, 2.0, 3.0).scale_ratio(s(3.0), s(4.0)), v(0.75, 1.5, 2.25));
    assert_eq!(v(1.0, 2.0, 3.0).dot(v(4.0, -5.0, 6.0)), s(12.0));
    assert_eq!(Vec3::zero(), v(0.0, 0.0, 0.0));
    assert_eq!(Vec3::one(), v(1.0, 1.0, 1.0));
    assert_eq!(Vec3::from_raw(1, 2, 3).z.raw, 3);
}

#[test]
fn length_is_the_root_of_the_exact_square_sum() {
    assert_eq!(v(3.0, 4.0, 0.0).mag(), s(5.0));
    assert_eq!(v(0.0, 0.0, -7.5).mag(), s(7.5));
    assert_eq!(Vec3::zero().mag(), Scalar::zero());
    // A vector far shorter than the square root of a raw unit keeps its length.
    assert_eq!(Vec3::from_raw(3, 4, 0).mag().raw, 5);
    assert_eq!(Vec3::from_raw(1, 1, 1).mag().raw, 1);
    assert_eq!(v(1.0, 2.0, 2.0).dist(v(1.0, 2.0, 4.5)), s(2.5));
}

#[test]
fn length_saturates() {
    let far = Vec3::from_raw(i64::MIN, i64::MIN, i64::MIN);
    assert_eq!(far.mag().raw, i64::MAX);
    let long = Vec3::from_raw(i64::MAX, 0, 0);
    assert_eq!(long.mag().raw, i64::MAX);
}

#[test]
fn homogeneous_vectors() {
    let p = Vec4::point(v(1.0, 2.0, 3.0));
    let d = Vec4::direction(v(1.0, 2.0, 3.0));
    assert_eq!(p.w, Scalar::one());
    assert_eq!(d.w, Scalar::zero());
    assert_eq!(p.xyz(), v(1.0, 2.0, 3.0));
    assert_eq!(p.add(d), Vec4::new(s(2.0), s(4.0), s(6.0), s(1.0)));
    assert_eq!(p.scale(s(2.0)), Vec4::new(s(2.0), s(4.0), s(6.0), s(2.0)));
}

#[test]
fn identity_quaternion_gives_identity_matrix() {
    assert_eq!(Quat::id().to_mat3(), Mat3::id());
    assert_eq!(Mat3::id().to_quat(), Quat::id());
    assert_eq!(Mat3::id().trace(), s(3.0));
}

#[test]
fn quarter_turn_about_z() {
    // cos(45 deg) = sin(45 deg) = sqrt(1/2)
    let h = (0.5f64).sqrt();
    let q = Quat::new(s(0.0), s(0.0), s(h), s(h));
    let m = q.to_mat3();
    // x axis goes to y, y axis to minus x.
    assert!(close(m.x.x, 0.0) && close(m.x.y, 1.0) && close(m.x.z, 0.0));
    assert!(close(m.y.x, -1.0) && close(m.y.y, 0.0) && close(m.y.z, 0.0));
    assert!(close(m.z.x, 0.0) && close(m.z.y, 0.0) && close(m.z.z, 1.0));
    let back = m.to_quat();
    assert!(close(back.x, 0.0) && close(back.y, 0.0) && close(back.z, h) && close(back.w, h));
}

#[test]
fn half_turns_use_the_largest_diagonal_entry() {
    // Half turns have trace -1, so the quaternion comes from the diagonal.
    let about_x = Quat::new(s(1.0), s(0.0), s(0.0), s(0.0));
    assert_eq!(about_x.to_mat3().to_quat(), about_x);
    let about_y = Quat::new(s(0.0), s(1.0), s(0.0), s(0.0));
    assert_eq!(about_y.to_mat3().to_quat(), about_y);
    let about_z = Quat::new(s(0.0), s(0.0), s(1.0), s(0.0));
    assert_eq!(about_z.to_mat3().to_quat(), about_z);
}

#[test]
fn transform_matrix_scales_rotates_moves() {
    let h = (0.5f64).sqrt();
    let q = Quat::new(s(0.0), s(0.0), s(h), s(h));
    let m = Mat4::transform(v(10.0, 20.0, 30.0), q, v(2.0, 3.0, 4.0));
    // (1, 0, 0) is scaled to (2, 0, 0), turned to (0, 2, 0), moved to (10, 22, 30).
    let image = m.mul_point(v(1.0, 0.0, 0.0));
    assert!(close(image.x, 10.0) && close(image.y, 22.0) && close(image.z, 30.0));
    assert_eq!(m.translation(), v(10.0, 20.0, 30.0));
    assert_eq!(m.mul_point(Vec3::zero()), v(10.0, 20.0, 30.0));
    let scale = m.to_scale();
    assert!(close(scale.x, 2.0) && close(scale.y, 3.0) && close(scale.z, 4.0));
    let back = m.to_rotation_raw(scale).to_quat();
    assert!(close(back.x, 0.0) && close(back.y, 0.0) && close(back.z, h) && close(back.w, h));
}

#[test]
fn matrix_product_applies_right_factor_first() {
    let a = Mat4::transform(v(1.0, 0.0, 0.0), Quat::id(), v(2.0, 2.0, 2.0));
    let b = Mat4::transform(v(0.0, 5.0, 0.0), Quat::id(), Vec3::one());
    // b moves the origin to (0, 5, 0); a doubles it and moves it by (1, 0, 0).
    assert_eq!(a.mul(b).translation(), v(1.0, 10.0, 0.0));
    assert_eq!(b.mul(a).translation(), v(1.0, 5.0, 0.0));
    assert_eq!(Mat4::id().mul(a), a);
    assert_eq!(a.mul(Mat4::id()), a);
    assert_eq!(a.apply(Vec4::direction(v(1.0, 1.0, 1.0))).xyz(), v(2.0, 2.0, 2.0));
}

#[test]
fn decomposition_round_trips_for_identity_and_axis_aligned_scales() {
    let m = Mat4::transform(v(-1.0, 2.5, 3.0), Quat::id(), v(2.0, 0.5, 7.0));
    let scale = m.to_scale();
    assert_eq!(scale, v(2.0, 0.5, 7.0));
    assert_eq!(m.to_rotation_raw(scale).to_quat(), Quat::id());
    assert_eq!(m.translation(), v(-1.0, 2.5, 3.0));
    let unit = Mat4::transform(Vec3::zero(), Quat::id(), Vec3::one());
    assert_eq!(unit, Mat4::id());
    assert_eq!(unit.to_scale(), Vec3::one());
    assert_eq!(unit.to_rotation_raw(Vec3::one()).to_quat(), Quat::id());
}

#[test]
fn plane_distance_and_reflection() {
    let ground = Plane::new(v(0.0, 1.0, 0.0), s(0.0));
    assert_eq!(ground.distance(v(3.0, -1.0, 2.0)), s(-1.0));
    assert_eq!(ground.reflect(v(3.0, -1.0, 2.0)), v(3.0, 1.0, 2.0));
    assert_eq!(ground.reflect(v(3.0, 0.5, 2.0)), v(3.0, 0.5, 2.0));
    // A point on the plane counts as behind it; mirrored, it stays where it is.
    assert_eq!(ground.reflect(v(3.0, 0.0, 2.0)), v(3.0, 0.0, 2.0));
    let wall = Plane::new(v(-1.0, 0.0, 0.0), s(4.0));
    assert_eq!(wall.distance(v(5.0, 0.0, 0.0)), s(-1.0));
    assert_eq!(wall.reflect(v(5.0, 1.0, 1.0)), v(3.0, 1.0, 1.0));
}
