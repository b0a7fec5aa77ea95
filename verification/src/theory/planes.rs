//! Planes keep particles on their free side.

use crate::alg::plane::Plane;
use crate::alg::scalar::{lemma_floor_quotient_bounds, magnitude, Scalar, ONE_RAW};
use crate::alg::vec3::Vec3;
use crate::components::softbody::{plane_applied, relaxed_once, Particle, Rod};
use vstd::prelude::*;

verus! {

/// The largest raw coordinate and plane offset for which the theorems on
/// planes are stated: 2^58, far inside the range where nothing saturates.
pub const PLANE_REACH: i64 = 0x0400_0000_0000_0000;

/// `s` is one or minus one.
pub open spec fn is_unit(s: Scalar) -> bool {
    s.raw == ONE_RAW || s.raw == -ONE_RAW
}

/// The normal of the plane is a coordinate axis or its opposite, so that it
/// has length one exactly.
pub open spec fn axis_aligned(plane: Plane) -> bool {
    let n = plane.normal;
    ||| is_unit(n.x) && n.y.raw == 0 && n.z.raw == 0
    ||| n.x.raw == 0 && is_unit(n.y) && n.z.raw == 0
    ||| n.x.raw == 0 && n.y.raw == 0 && is_unit(n.z)
}

/// The raw value is within `PLANE_REACH` of zero.
pub open spec fn within_reach(s: Scalar) -> bool {
    -PLANE_REACH <= s.raw <= PLANE_REACH
}

/// The point and the plane are within reach of each other.
pub open spec fn in_reach(plane: Plane, p: Vec3) -> bool {
    &&& within_reach(plane.offset)
    &&& within_reach(p.x)
    &&& within_reach(p.y)
    &&& within_reach(p.z)
}

/// A plane leaves no point behind it: where a point in reach of an
/// axis-aligned plane lies after the plane acted, the signed distance is not
/// negative. A point that lay behind the plane is as far in front of it now.
pub proof fn lemma_reflect_clears_plane(plane: Plane, p: Vec3)
    requires
        axis_aligned(plane),
        in_reach(plane, p),
    ensures
        plane.distance(plane.reflect(p)).raw >= 0,
        !plane.distance(p).is_positive() ==> plane.distance(plane.reflect(p)).raw
            == -plane.distance(p).raw,
{
    let n = plane.normal;
    let d = plane.distance(p);
    assert(Scalar::from_int(2).raw == 2 * ONE_RAW);
    if !d.is_positive() {
        let twice = n.scale(Scalar::from_int(2));
        let push = twice.scale(d);
        let q = p.sub(push);
        p.x.lemma_mul_zero_one();
        p.y.lemma_mul_zero_one();
        p.z.lemma_mul_zero_one();
        q.x.lemma_mul_zero_one();
        q.y.lemma_mul_zero_one();
        q.z.lemma_mul_zero_one();
        if is_unit(n.x) {
            lemma_axis(n.x, p.x, plane.offset);
        } else if is_unit(n.y) {
            lemma_axis(n.y, p.y, plane.offset);
        } else {
            lemma_axis(n.z, p.z, plane.offset);
        }
        assert(plane.reflect(p) == q);
    }
}

/// The arithmetic of a reflection along the one axis that the normal has.
proof fn lemma_axis(n: Scalar, c: Scalar, offset: Scalar)
    requires
        is_unit(n),
        within_reach(c),
        within_reach(offset),
    ensures
        ({
            let d = n.mul(c).add(offset);
            let moved = c.sub(n.mul(Scalar::from_int(2)).mul(d));
            d.raw <= 0 ==> n.mul(moved).add(offset).raw == -d.raw
        }),
{
    let sign: int = if n.raw > 0 { 1 } else { -1 };
    let two = Scalar::from_int(2);
    assert(two.raw == 2 * ONE_RAW);
    c.lemma_mul_by_whole(sign, n);
    let d = n.mul(c).add(offset);
    assert(d.raw == sign * c.raw + offset.raw);
    n.lemma_mul_by_whole(2, two);
    let twice = n.mul(two);
    assert(twice.raw == (2 * sign) * ONE_RAW);
    d.lemma_mul_by_whole(2 * sign, twice);
    assert(d.raw * (2 * sign) == 2 * sign * d.raw) by (nonlinear_arith);
    let moved = c.sub(twice.mul(d));
    assert(moved.raw == c.raw - 2 * sign * d.raw);
    moved.lemma_mul_by_whole(sign, n);
}

/// After one relaxation pass of a body without rods against one axis-aligned
/// plane, no particle in reach is behind the plane.
pub proof fn lemma_pass_clears_plane(particles: Seq<Particle>, plane: Plane, i: int)
    requires
        axis_aligned(plane),
        0 <= i < particles.len(),
        in_reach(plane, particles[i].position),
    ensures
        plane.distance(
            relaxed_once(particles, Seq::<Rod>::empty(), seq![plane])[i].position,
        ).raw >= 0,
{
    lemma_reflect_clears_plane(plane, particles[i].position);
    let planes = seq![plane];
    reveal_with_fuel(crate::components::softbody::planes_applied, 2);
    reveal_with_fuel(crate::components::softbody::rods_relaxed, 1);
    assert(relaxed_once(particles, Seq::<Rod>::empty(), planes) == plane_applied(
        particles,
        plane,
    ));
}

/// The normal is about one long: no coordinate is beyond one, and the square
/// of its length is at least seven eighths. Every unit vector is, however
/// its coordinates were rounded.
pub open spec fn nearly_unit(n: Vec3) -> bool {
    &&& -ONE_RAW <= n.x.raw <= ONE_RAW
    &&& -ONE_RAW <= n.y.raw <= ONE_RAW
    &&& -ONE_RAW <= n.z.raw <= ONE_RAW
    &&& 8 * (n.x.raw * n.x.raw + n.y.raw * n.y.raw + n.z.raw * n.z.raw) >= 7 * (ONE_RAW
        * ONE_RAW)
}

/// One coordinate of a reflection, with `s` raw units in one whole, `n` the
/// coordinate of the normal, `p` that of the point and `d <= 0` the distance:
/// how much the rounded product of normal and point gains.
proof fn lemma_reflected_coordinate(s: int, n: int, p: int, d: int)
    requires
        s >= 1,
        -s <= n <= s,
        d <= 0,
    ensures
        ({
            let before = (n * p) / s;
            let push = ((2 * n) * d) / s;
            let after = (n * (p - push)) / s;
            s * s * after > s * s * before - 2 * (n * n) * d - 2 * (s * s)
        }),
{
    let before = (n * p) / s;
    let push = ((2 * n) * d) / s;
    let q = p - push;
    let after = (n * q) / s;
    lemma_floor_quotient_bounds(n * p, s);
    lemma_floor_quotient_bounds((2 * n) * d, s);
    lemma_floor_quotient_bounds(n * q, s);
    let r = (2 * n) * d - s * push;
    assert(0 <= r < s);
    assert(n * q == n * p - n * push) by (nonlinear_arith)
        requires
            q == p - push,
    ;
    assert(s * (n * q) == s * (n * p) - s * (n * push)) by (nonlinear_arith)
        requires
            n * q == n * p - n * push,
    ;
    assert(s * (n * push) == n * (s * push)) by (nonlinear_arith);
    assert(n * (s * push) == n * ((2 * n) * d) - n * r) by (nonlinear_arith)
        requires
            s * push == (2 * n) * d - r,
    ;
    assert(n * ((2 * n) * d) == 2 * (n * n) * d) by (nonlinear_arith);
    assert(s * (n * q) == s * (n * p) - 2 * (n * n) * d + n * r);
    assert(n * r >= -(s * s)) by (nonlinear_arith)
        requires
            -s <= n <= s,
            0 <= r < s,
    ;
    assert(s * (n * p) >= s * (s * before)) by (nonlinear_arith)
        requires
            s * before <= n * p,
            s >= 1,
    ;
    assert(s * (s * after) > s * (n * q) - s * s) by (nonlinear_arith)
        requires
            n * q < s * after + s,
            s >= 1,
    ;
    assert(s * (s * after) == s * s * after && s * (s * before) == s * s * before)
        by (nonlinear_arith);
}

/// The raw product of two raw values, rounded down to a raw unit.
pub open spec fn rounded(a: int, b: int) -> int {
    (a * b) / (ONE_RAW as int)
}

/// No coordinate of the normal is beyond one.
pub open spec fn short_normal(n: Vec3) -> bool {
    &&& -ONE_RAW <= n.x.raw <= ONE_RAW
    &&& -ONE_RAW <= n.y.raw <= ONE_RAW
    &&& -ONE_RAW <= n.z.raw <= ONE_RAW
}

/// The distance of a point within `reach` raw units of the origin from a
/// plane with an offset within `PLANE_REACH` is not saturated.
proof fn lemma_distance_in_raw(plane: Plane, p: Vec3, reach: int)
    requires
        short_normal(plane.normal),
        0 <= reach <= 0x2800_0000_0000_0000,
        -reach <= p.x.raw <= reach,
        -reach <= p.y.raw <= reach,
        -reach <= p.z.raw <= reach,
        within_reach(plane.offset),
    ensures
        plane.distance(p).raw == rounded(plane.normal.x.raw as int, p.x.raw as int) + rounded(
            plane.normal.y.raw as int,
            p.y.raw as int,
        ) + rounded(plane.normal.z.raw as int, p.z.raw as int) + plane.offset.raw,
        -3 * reach - 3 - PLANE_REACH <= plane.distance(p).raw <= 3 * reach + PLANE_REACH,
{
    lemma_rounded_product(plane.normal.x, p.x, 1);
    lemma_rounded_product(plane.normal.y, p.y, 1);
    lemma_rounded_product(plane.normal.z, p.z, 1);
}

/// What a plane adds to a point behind it at the distance `d`, no deeper
/// than 2^61 raw units: along each axis twice the coordinate of the normal
/// times `d`, rounded down. Nothing saturates.
proof fn lemma_push_in_raw(n: Vec3, d: Scalar)
    requires
        short_normal(n),
        -0x2000_0000_0000_0000 <= d.raw <= 0,
    ensures
        ({
            let push = n.scale(Scalar::from_int(2)).scale(d);
            &&& push.x.raw == rounded(2 * n.x.raw, d.raw as int)
            &&& push.y.raw == rounded(2 * n.y.raw, d.raw as int)
            &&& push.z.raw == rounded(2 * n.z.raw, d.raw as int)
            &&& 2 * d.raw - 1 <= push.x.raw <= -2 * d.raw
            &&& 2 * d.raw - 1 <= push.y.raw <= -2 * d.raw
            &&& 2 * d.raw - 1 <= push.z.raw <= -2 * d.raw
        }),
{
    let two = Scalar::from_int(2);
    assert(two.raw == 2 * ONE_RAW);
    n.x.lemma_mul_by_whole(2, two);
    n.y.lemma_mul_by_whole(2, two);
    n.z.lemma_mul_by_whole(2, two);
    let twice = n.scale(two);
    lemma_rounded_product(twice.x, d, 2);
    lemma_rounded_product(twice.y, d, 2);
    lemma_rounded_product(twice.z, d, 2);
}

/// The gain of a reflection in whole numbers: the sum of the three rounded
/// products after it, against the sum before it.
proof fn lemma_reflection_gain(
    s: int,
    nx: int,
    ny: int,
    nz: int,
    px: int,
    py: int,
    pz: int,
    d: int,
) -> (gain: int)
    requires
        s >= 1,
        -s <= nx <= s,
        -s <= ny <= s,
        -s <= nz <= s,
        8 * (nx * nx + ny * ny + nz * nz) >= 7 * (s * s),
        d <= 0,
    ensures
        gain == (nx * (px - ((2 * nx) * d) / s)) / s + (ny * (py - ((2 * ny) * d) / s)) / s + (nz
            * (pz - ((2 * nz) * d) / s)) / s - ((nx * px) / s + (ny * py) / s + (nz * pz) / s),
        4 * gain > -7 * d - 24,
{
    let bx = (nx * px) / s;
    let by = (ny * py) / s;
    let bz = (nz * pz) / s;
    let ax = (nx * (px - ((2 * nx) * d) / s)) / s;
    let ay = (ny * (py - ((2 * ny) * d) / s)) / s;
    let az = (nz * (pz - ((2 * nz) * d) / s)) / s;
    lemma_reflected_coordinate(s, nx, px, d);
    lemma_reflected_coordinate(s, ny, py, d);
    lemma_reflected_coordinate(s, nz, pz, d);
    let ss = s * s;
    let square = nx * nx + ny * ny + nz * nz;
    let gain = ax + ay + az - (bx + by + bz);
    assert(ss * gain == ss * ax + ss * ay + ss * az - ss * bx - ss * by - ss * bz)
        by (nonlinear_arith)
        requires
            gain == ax + ay + az - (bx + by + bz),
    ;
    assert(2 * square * d == 2 * (nx * nx) * d + 2 * (ny * ny) * d + 2 * (nz * nz) * d)
        by (nonlinear_arith)
        requires
            square == nx * nx + ny * ny + nz * nz,
    ;
    assert(ss * gain > -(2 * square * d) - 6 * ss);
    assert(4 * gain > -7 * d - 24) by (nonlinear_arith)
        requires
            ss * gain > -(2 * square * d) - 6 * ss,
            8 * square >= 7 * ss,
            d <= 0,
            ss == s * s,
            s >= 1,
    ;
    gain
}

/// A plane whose normal is about one long leaves a point in reach at most 5
/// raw units behind it, and none at all that lay 8 raw units or more behind
/// it: what is lost is lost to rounding.
pub proof fn lemma_reflect_nearly_clears_plane(plane: Plane, p: Vec3)
    requires
        nearly_unit(plane.normal),
        in_reach(plane, p),
    ensures
        plane.distance(plane.reflect(p)).raw >= -5,
        plane.distance(p).raw <= -8 || plane.distance(p).raw > 0 ==> plane.distance(
            plane.reflect(p),
        ).raw >= 0,
{
    let n = plane.normal;
    let distance = plane.distance(p);
    lemma_distance_in_raw(plane, p, PLANE_REACH as int);
    if distance.raw <= 0 {
        lemma_push_in_raw(n, distance);
        let push = n.scale(Scalar::from_int(2)).scale(distance);
        let q = p.sub(push);
        assert(plane.reflect(p) == q);
        assert(q.x.raw == p.x.raw - push.x.raw);
        assert(q.y.raw == p.y.raw - push.y.raw);
        assert(q.z.raw == p.z.raw - push.z.raw);
        lemma_distance_in_raw(plane, q, 0x2800_0000_0000_0000);
        let gain = lemma_reflection_gain(
            ONE_RAW as int,
            n.x.raw as int,
            n.y.raw as int,
            n.z.raw as int,
            p.x.raw as int,
            p.y.raw as int,
            p.z.raw as int,
            distance.raw as int,
        );
        assert(plane.distance(q).raw - distance.raw == gain);
    }
}

/// The product of `a`, at most `k` wholes, and `b` is the rounded-down
/// quotient of the raw product, within `k` times `b` and a raw unit of zero.
/// It is not saturated where that bound is in range.
proof fn lemma_rounded_product(a: Scalar, b: Scalar, k: int)
    requires
        1 <= k <= 2,
        -k * ONE_RAW <= a.raw <= k * ONE_RAW,
        k * magnitude(b.raw as int) < 0x7fff_ffff_ffff_ffff,
    ensures
        a.mul(b).raw == (a.raw * b.raw) / (ONE_RAW as int),
        -(k * magnitude(b.raw as int)) - 1 <= a.mul(b).raw <= k * magnitude(b.raw as int),
{
    let s = ONE_RAW as int;
    let m = magnitude(b.raw as int);
    lemma_floor_quotient_bounds(a.raw * b.raw, s);
    let q = (a.raw * b.raw) / s;
    assert(-(k * s * m) <= a.raw * b.raw <= k * s * m) by (nonlinear_arith)
        requires
            -k * s <= a.raw <= k * s,
            -m <= b.raw <= m,
            m >= 0,
            s >= 1,
            k >= 1,
    ;
    assert(q <= k * m) by (nonlinear_arith)
        requires
            s * q <= a.raw * b.raw,
            a.raw * b.raw <= k * s * m,
            s >= 1,
    ;
    assert(q >= -(k * m) - 1) by (nonlinear_arith)
        requires
            a.raw * b.raw < s * q + s,
            a.raw * b.raw >= -(k * s * m),
            s >= 1,
    ;
}

/// After one relaxation pass of a body without rods against one plane whose
/// normal is about one long, no particle in reach is more than 5 raw units
/// behind the plane.
pub proof fn lemma_pass_nearly_clears_plane(particles: Seq<Particle>, plane: Plane, i: int)
    requires
        nearly_unit(plane.normal),
        0 <= i < particles.len(),
        in_reach(plane, particles[i].position),
    ensures
        plane.distance(
            relaxed_once(particles, Seq::<Rod>::empty(), seq![plane])[i].position,
        ).raw >= -5,
{
    lemma_reflect_nearly_clears_plane(plane, particles[i].position);
    let planes = seq![plane];
    reveal_with_fuel(crate::components::softbody::planes_applied, 2);
    reveal_with_fuel(crate::components::softbody::rods_relaxed, 1);
    assert(relaxed_once(particles, Seq::<Rod>::empty(), planes) == plane_applied(
        particles,
        plane,
    ));
}

} // verus!
