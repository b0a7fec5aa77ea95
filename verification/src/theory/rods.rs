//! A rod brings its two ends to its length.

use crate::alg::plane::Plane;
use crate::alg::scalar::{
    is_root_of, isqrt, lemma_floor_quotient_bounds, lemma_isqrt_exists, magnitude,
};
use crate::alg::vec3::{square_sum, Vec3};
use crate::components::softbody::{planes_applied, relaxed, rods_relaxed, Particle, Rod};
use vstd::prelude::*;

verus! {

/// A coordinate is no longer than the vector: `|a| <= d` where `d` is the
/// integer square root of a sum of squares that holds `a * a`.
proof fn lemma_coordinate_below_length(a: int, rest: int, d: int)
    requires
        rest >= 0,
        is_root_of(d, a * a + rest),
    ensures
        -d <= a <= d,
{
    assert(a * a < (d + 1) * (d + 1));
    if a > d {
        assert(a * a >= (d + 1) * (d + 1)) by (nonlinear_arith)
            requires
                a >= d + 1,
                d >= 0,
        ;
    }
    if a < -d {
        assert(a * a >= (d + 1) * (d + 1)) by (nonlinear_arith)
            requires
                a <= -(d + 1),
                d >= 0,
        ;
    }
}

/// One coordinate of the new offset, scaled by the old distance `d`: with
/// the correction `q` the floor of `a * (l - d) / (2 * d)`, the new
/// coordinate `a + 2 * q` times `d` is `a * l - t` for a remainder `t` in
/// `[0, 2 * d)`. Its square and its bounds follow.
proof fn lemma_scaled_coordinate(a: int, q: int, d: int, l: int) -> (t: int)
    requires
        d >= 1,
        l >= 0,
        -d <= a <= d,
        q == (a * (l - d)) / (2 * d),
    ensures
        0 <= t < 2 * d,
        d * (a + 2 * q) == a * l - t,
        d * d * ((a + 2 * q) * (a + 2 * q)) == l * l * (a * a) - 2 * l * (a * t) + t * t,
        -2 * (d * d) <= a * t <= 2 * (d * d),
        0 <= t * t <= 4 * (d * d),
{
    lemma_floor_quotient_bounds(a * (l - d), 2 * d);
    let t = a * (l - d) - (2 * d) * q;
    assert(d * (a + 2 * q) == a * l - t) by (nonlinear_arith)
        requires
            t == a * (l - d) - (2 * d) * q,
    ;
    let n = a + 2 * q;
    assert(d * d * (n * n) == (d * n) * (d * n)) by (nonlinear_arith);
    assert((a * l - t) * (a * l - t) == l * l * (a * a) - 2 * l * (a * t) + t * t)
        by (nonlinear_arith);
    assert(-2 * (d * d) <= a * t <= 2 * (d * d)) by (nonlinear_arith)
        requires
            -d <= a <= d,
            0 <= t < 2 * d,
            d >= 1,
    ;
    assert(0 <= t * t <= 4 * (d * d)) by (nonlinear_arith)
        requires
            0 <= t < 2 * d,
    ;
    t
}

/// What one pass does to the distance of the two ends of a rod, in raw units.
/// The offset `(a, b, c)` has the integer length `d >= 1`; the rod has the
/// length `l >= 25`; the corrections are the floors that the rod computes.
/// Then the new length `e` is at least `l - 7`, and `d * e < l * d + l + 6 * d`:
/// the new length is below `l + l / d + 6`.
pub proof fn lemma_pass_on_lengths(
    a: int,
    b: int,
    c: int,
    d: int,
    l: int,
    qa: int,
    qb: int,
    qc: int,
    e: int,
)
    requires
        d >= 1,
        l >= 25,
        is_root_of(d, square_sum(a, b, c)),
        qa == (a * (l - d)) / (2 * d),
        qb == (b * (l - d)) / (2 * d),
        qc == (c * (l - d)) / (2 * d),
        is_root_of(e, square_sum(a + 2 * qa, b + 2 * qb, c + 2 * qc)),
    ensures
        l - 7 <= e,
        d * e < l * d + l + 6 * d,
{
    let n = square_sum(a, b, c);
    let m = square_sum(a + 2 * qa, b + 2 * qb, c + 2 * qc);
    assert(a * a >= 0 && b * b >= 0 && c * c >= 0) by (nonlinear_arith);
    lemma_coordinate_below_length(a, b * b + c * c, d);
    lemma_coordinate_below_length(b, a * a + c * c, d);
    lemma_coordinate_below_length(c, a * a + b * b, d);
    let ta = lemma_scaled_coordinate(a, qa, d, l);
    let tb = lemma_scaled_coordinate(b, qb, d, l);
    let tc = lemma_scaled_coordinate(c, qc, d, l);
    let dd = d * d;
    let ll = l * l;
    let cross = a * ta + b * tb + c * tc;
    let tail = ta * ta + tb * tb + tc * tc;
    let sa = (a + 2 * qa) * (a + 2 * qa);
    let sb = (b + 2 * qb) * (b + 2 * qb);
    let sc = (c + 2 * qc) * (c + 2 * qc);
    assert(dd * m == dd * sa + dd * sb + dd * sc) by (nonlinear_arith)
        requires
            m == sa + sb + sc,
    ;
    assert(ll * n == ll * (a * a) + ll * (b * b) + ll * (c * c)) by (nonlinear_arith)
        requires
            n == a * a + b * b + c * c,
    ;
    assert(2 * l * cross == 2 * l * (a * ta) + 2 * l * (b * tb) + 2 * l * (c * tc))
        by (nonlinear_arith)
        requires
            cross == a * ta + b * tb + c * tc,
    ;
    assert(dd * m == ll * n - 2 * l * cross + tail);
    assert(-6 * dd <= cross <= 6 * dd);
    assert(0 <= tail <= 12 * dd);
    assert(dd >= 1) by (nonlinear_arith)
        requires
            d >= 1,
            dd == d * d,
    ;
    // The lower bound.
    assert(dd * m >= dd * ((l - 7) * (l - 7))) by (nonlinear_arith)
        requires
            dd * m == ll * n - 2 * l * cross + tail,
            cross <= 6 * dd,
            tail >= 0,
            n >= dd,
            ll == l * l,
            l >= 25,
            dd >= 1,
    ;
    assert(m >= (l - 7) * (l - 7)) by (nonlinear_arith)
        requires
            dd * m >= dd * ((l - 7) * (l - 7)),
            dd >= 1,
    ;
    if e < l - 7 {
        assert((e + 1) * (e + 1) <= (l - 7) * (l - 7)) by (nonlinear_arith)
            requires
                0 <= e,
                e + 1 <= l - 7,
        ;
    }
    // The upper bound.
    let top = l * (d + 1) + 6 * d;
    assert(dd * m < top * top) by (nonlinear_arith)
        requires
            dd * m == ll * n - 2 * l * cross + tail,
            cross >= -6 * dd,
            tail <= 12 * dd,
            n < (d + 1) * (d + 1),
            ll == l * l,
            dd == d * d,
            top == l * (d + 1) + 6 * d,
            l >= 25,
            d >= 1,
    ;
    assert((d * e) * (d * e) <= dd * m) by (nonlinear_arith)
        requires
            e * e <= m,
            dd == d * d,
            dd >= 1,
    ;
    if d * e >= top {
        assert((d * e) * (d * e) >= top * top) by (nonlinear_arith)
            requires
                d * e >= top,
                top >= 0,
        ;
    }
    assert(top == l * d + l + 6 * d) by (nonlinear_arith)
        requires
            top == l * (d + 1) + 6 * d,
    ;
}

/// The largest raw coordinate and rod length for which convergence is
/// stated: 2^57, so far inside the range that no pass saturates.
pub const ROD_REACH: i64 = 0x0200_0000_0000_0000;

/// The shortest rod for which convergence is stated, in raw units.
pub const SHORTEST_ROD: i64 = 25;

/// How near to the length of the rod, in raw units, its ends come.
pub const ROD_TOLERANCE: i64 = 7;

/// Every raw coordinate of `v` is within `bound` of zero.
pub open spec fn within(v: Vec3, bound: int) -> bool {
    &&& -bound <= v.x.raw <= bound
    &&& -bound <= v.y.raw <= bound
    &&& -bound <= v.z.raw <= bound
}

/// The length of a vector whose raw coordinates are within 2^62 is not
/// saturated: it is the integer square root of the sum of their squares.
pub proof fn lemma_length_is_exact(v: Vec3)
    requires
        within(v, 0x4000_0000_0000_0000),
    ensures
        is_root_of(
            v.mag().raw as int,
            square_sum(v.x.raw as int, v.y.raw as int, v.z.raw as int),
        ),
{
    let x = v.x.raw as int;
    let y = v.y.raw as int;
    let z = v.z.raw as int;
    let n = square_sum(x, y, z);
    assert(0 <= x * x <= 0x4000_0000_0000_0000 * 0x4000_0000_0000_0000) by (nonlinear_arith)
        requires
            -0x4000_0000_0000_0000 <= x <= 0x4000_0000_0000_0000,
    ;
    assert(0 <= y * y <= 0x4000_0000_0000_0000 * 0x4000_0000_0000_0000) by (nonlinear_arith)
        requires
            -0x4000_0000_0000_0000 <= y <= 0x4000_0000_0000_0000,
    ;
    assert(0 <= z * z <= 0x4000_0000_0000_0000 * 0x4000_0000_0000_0000) by (nonlinear_arith)
        requires
            -0x4000_0000_0000_0000 <= z <= 0x4000_0000_0000_0000,
    ;
    lemma_isqrt_exists(n);
    let r = isqrt(n);
    if r >= 0x7fff_ffff_ffff_ffff {
        assert(r * r >= 0x7fff_ffff_ffff_ffff * 0x7fff_ffff_ffff_ffff) by (nonlinear_arith)
            requires
                r >= 0x7fff_ffff_ffff_ffff,
        ;
    }
}

/// Half the correction is no longer than half the error of the rod: with
/// `q` the floor of `a * g / (2 * d)` and `|a| <= d`, twice `q` lies within
/// `|g| + 2` of zero.
proof fn lemma_correction_is_short(a: int, g: int, d: int, q: int)
    requires
        d >= 1,
        -d <= a <= d,
        q == (a * g) / (2 * d),
    ensures
        -(magnitude(g) + 2) <= 2 * q <= magnitude(g),
{
    lemma_floor_quotient_bounds(a * g, 2 * d);
    let m = magnitude(g);
    assert(-(d * m) <= a * g <= d * m) by (nonlinear_arith)
        requires
            -d <= a <= d,
            -m <= g <= m,
            d >= 1,
            m >= 0,
    ;
    assert(2 * q <= m) by (nonlinear_arith)
        requires
            (2 * d) * q <= a * g,
            a * g <= d * m,
            d >= 1,
    ;
    assert(-(m + 2) <= 2 * q) by (nonlinear_arith)
        requires
            a * g < (2 * d) * q + 2 * d,
            -(d * m) <= a * g,
            d >= 1,
    ;
}

/// No coordinate of the new offset is longer than the rod and two raw units.
proof fn lemma_new_coordinate_is_short(a: int, q: int, d: int, l: int)
    requires
        d >= 1,
        l >= 0,
        -d <= a <= d,
        q == (a * (l - d)) / (2 * d),
    ensures
        -(l + 2) <= a + 2 * q <= l + 2,
{
    let t = lemma_scaled_coordinate(a, q, d, l);
    let n = a + 2 * q;
    assert(-(d * l) <= a * l <= d * l) by (nonlinear_arith)
        requires
            -d <= a <= d,
            l >= 0,
    ;
    assert(n <= l) by (nonlinear_arith)
        requires
            d * n <= d * l,
            d >= 1,
    ;
    assert(-(l + 2) <= n) by (nonlinear_arith)
        requires
            d * n > -(d * l) - 2 * d,
            d >= 1,
    ;
}

/// One pass of a rod on its two ends, both within `bound <= 2^60` of the
/// origin and apart by `d >= 1` raw units: nothing saturates; each end moves
/// by at most half the error and a raw unit along each axis; both move by the
/// same amount in opposite directions, so that their middle stays; and the
/// new distance `e` has `l - 7 <= e` and `d * e < l * d + l + 6 * d`.
pub proof fn lemma_rod_step(rod: Rod, left: Vec3, right: Vec3, bound: int)
    requires
        0 <= bound <= 0x1000_0000_0000_0000,
        within(left, bound),
        within(right, bound),
        25 <= rod.length.raw <= ROD_REACH,
        left.dist(right).raw >= 1,
    ensures
        ({
            let c = rod.correction(left, right);
            let d = left.dist(right).raw as int;
            let e = left.sub(c).dist(right.add(c)).raw as int;
            let l = rod.length.raw as int;
            let step = (magnitude(l - d) + 2) / 2;
            &&& l - 7 <= e
            &&& d * e < l * d + l + 6 * d
            &&& within(left.sub(c), bound + step)
            &&& within(right.add(c), bound + step)
            &&& d < 4 * bound
            &&& left.sub(c).x.raw + right.add(c).x.raw == left.x.raw + right.x.raw
            &&& left.sub(c).y.raw + right.add(c).y.raw == left.y.raw + right.y.raw
            &&& left.sub(c).z.raw + right.add(c).z.raw == left.z.raw + right.z.raw
        }),
{
    let l = rod.length.raw as int;
    let offset = right.sub(left);
    let a = offset.x.raw as int;
    let b = offset.y.raw as int;
    let c = offset.z.raw as int;
    assert(a == right.x.raw - left.x.raw);
    assert(b == right.y.raw - left.y.raw);
    assert(c == right.z.raw - left.z.raw);
    lemma_length_is_exact(offset);
    let d = offset.mag().raw as int;
    assert(d == left.dist(right).raw);
    assert(a * a >= 0 && b * b >= 0 && c * c >= 0) by (nonlinear_arith);
    lemma_coordinate_below_length(a, b * b + c * c, d);
    lemma_coordinate_below_length(b, a * a + c * c, d);
    lemma_coordinate_below_length(c, a * a + b * b, d);
    // The distance is below twice the largest coordinate of the offset.
    assert(d < 4 * bound) by {
        if d >= 4 * bound {
            assert(d * d > 3 * ((2 * bound) * (2 * bound))) by (nonlinear_arith)
                requires
                    d >= 4 * bound,
                    d >= 1,
                    bound >= 0,
            ;
            assert(a * a <= (2 * bound) * (2 * bound)) by (nonlinear_arith)
                requires
                    -2 * bound <= a <= 2 * bound,
            ;
            assert(b * b <= (2 * bound) * (2 * bound)) by (nonlinear_arith)
                requires
                    -2 * bound <= b <= 2 * bound,
            ;
            assert(c * c <= (2 * bound) * (2 * bound)) by (nonlinear_arith)
                requires
                    -2 * bound <= c <= 2 * bound,
            ;
        }
    }
    let gap = rod.length.sub(offset.mag());
    let g = l - d;
    assert(gap.raw == g);
    let twice = offset.mag().double();
    assert(twice.raw == 2 * d);
    let push = rod.correction(left, right);
    assert(push == offset.scale_ratio(gap, twice));
    let qa = (a * g) / (2 * d);
    let qb = (b * g) / (2 * d);
    let qc = (c * g) / (2 * d);
    lemma_correction_is_short(a, g, d, qa);
    lemma_correction_is_short(b, g, d, qb);
    lemma_correction_is_short(c, g, d, qc);
    assert(push.x.raw == qa);
    assert(push.y.raw == qb);
    assert(push.z.raw == qc);
    let new_left = left.sub(push);
    let new_right = right.add(push);
    let new_offset = new_right.sub(new_left);
    lemma_new_coordinate_is_short(a, qa, d, l);
    lemma_new_coordinate_is_short(b, qb, d, l);
    lemma_new_coordinate_is_short(c, qc, d, l);
    assert(new_offset.x.raw == a + 2 * qa);
    assert(new_offset.y.raw == b + 2 * qb);
    assert(new_offset.z.raw == c + 2 * qc);
    lemma_length_is_exact(new_offset);
    let e = new_offset.mag().raw as int;
    assert(e == new_left.dist(new_right).raw);
    lemma_pass_on_lengths(a, b, c, d, l, qa, qb, qc, e);
}

/// The two ends of `rod`, in raw units apart.
pub open spec fn span(particles: Seq<Particle>, rod: Rod) -> int {
    particles[rod.left as int].position.dist(particles[rod.right as int].position).raw as int
}

/// Both ends of `rod` are within `bound` of the origin.
pub open spec fn ends_within(particles: Seq<Particle>, rod: Rod, bound: int) -> bool {
    &&& within(particles[rod.left as int].position, bound)
    &&& within(particles[rod.right as int].position, bound)
}

/// How far from the origin the ends of a rod may be after `passes` passes
/// that began within `ROD_REACH`.
pub open spec fn reach_after(passes: nat) -> int {
    if passes == 0 {
        ROD_REACH as int
    } else if passes == 1 {
        4 * ROD_REACH
    } else {
        5 * ROD_REACH + 5 * passes
    }
}

/// Where the ends of a rod stand after `passes` passes: one pass brings
/// their distance above `l - 7` and below `2 * l + 6`, and from the second
/// pass on it stays within 7 raw units of `l`.
pub open spec fn settling(particles: Seq<Particle>, rod: Rod, passes: nat) -> bool {
    let d = span(particles, rod);
    let l = rod.length.raw as int;
    &&& rod.fits(particles.len())
    &&& ends_within(particles, rod, reach_after(passes))
    &&& d >= 1
    &&& passes >= 1 ==> l - 7 <= d <= 2 * l + 6
    &&& passes >= 2 ==> d <= l + 7
}

/// A pass of a body with one rod and no plane is that rod acting once.
pub proof fn lemma_single_rod_pass(particles: Seq<Particle>, rod: Rod)
    ensures
        crate::components::softbody::relaxed_once(particles, seq![rod], Seq::<Plane>::empty())
            == rod.relaxed(particles),
{
    reveal_with_fuel(rods_relaxed, 2);
    reveal_with_fuel(planes_applied, 1);
    assert(seq![rod][0] == rod);
}

/// One more pass keeps the ends of the rod settling.
pub proof fn lemma_settling_step(particles: Seq<Particle>, rod: Rod, passes: nat)
    requires
        settling(particles, rod, passes),
        rod.left != rod.right,
        25 <= rod.length.raw <= ROD_REACH,
        passes <= u32::MAX,
    ensures
        settling(rod.relaxed(particles), rod, passes + 1),
{
    let left = particles[rod.left as int].position;
    let right = particles[rod.right as int].position;
    let bound = reach_after(passes);
    lemma_rod_step(rod, left, right, bound);
    let c = rod.correction(left, right);
    let next = rod.relaxed(particles);
    assert(next[rod.left as int].position == left.sub(c));
    assert(next[rod.right as int].position == right.add(c));
    let d = span(particles, rod);
    let e = span(next, rod);
    let l = rod.length.raw as int;
    assert(e == left.sub(c).dist(right.add(c)).raw);
    if passes == 0 {
        assert(e < 2 * l + 6) by (nonlinear_arith)
            requires
                d * e < l * d + l + 6 * d,
                d >= 1,
                l >= 0,
                e >= 0,
        ;
    } else {
        assert(e < l + 8) by (nonlinear_arith)
            requires
                d * e < l * d + l + 6 * d,
                d >= l - 7,
                l >= 25,
                e >= 0,
        ;
    }
}

/// Rod constraint convergence. Two distinct particles, joined by one rod and
/// bound by nothing else, start apart by any distance of at least one raw
/// unit, stretched or compressed; both are within `ROD_REACH` of the origin,
/// and the rod is between `SHORTEST_ROD` and `ROD_REACH` long. After two or
/// more relaxation passes their distance is within `ROD_TOLERANCE` raw units
/// of the length of the rod, which is less than two billionths of a whole.
pub proof fn lemma_rod_converges(particles: Seq<Particle>, rod: Rod, passes: nat)
    requires
        rod.fits(particles.len()),
        rod.left != rod.right,
        ends_within(particles, rod, ROD_REACH as int),
        SHORTEST_ROD <= rod.length.raw <= ROD_REACH,
        span(particles, rod) >= 1,
        2 <= passes <= u32::MAX,
    ensures
        rod.length.raw - ROD_TOLERANCE <= span(
            relaxed(particles, seq![rod], Seq::<Plane>::empty(), passes),
            rod,
        ) <= rod.length.raw + ROD_TOLERANCE,
{
    lemma_rod_settles(particles, rod, passes);
}

/// After any number of passes the ends of the rod are settling.
proof fn lemma_rod_settles(particles: Seq<Particle>, rod: Rod, passes: nat)
    requires
        settling(particles, rod, 0),
        rod.left != rod.right,
        25 <= rod.length.raw <= ROD_REACH,
        passes <= u32::MAX,
    ensures
        settling(relaxed(particles, seq![rod], Seq::<Plane>::empty(), passes), rod, passes),
    decreases passes,
{
    if passes > 0 {
        let earlier = relaxed(particles, seq![rod], Seq::<Plane>::empty(), (passes - 1) as nat);
        lemma_rod_settles(particles, rod, (passes - 1) as nat);
        lemma_single_rod_pass(earlier, rod);
        lemma_settling_step(earlier, rod, (passes - 1) as nat);
    }
}

} // verus!
