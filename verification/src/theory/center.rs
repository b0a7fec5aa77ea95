//! The center of a body is the mean of its particles.

use crate::alg::scalar::{lemma_floor_quotient_bounds, ratio, saturate};
use crate::components::softbody::{coordinate, coordinate_sum, mean_position, Particle};
use vstd::prelude::*;

verus! {

/// A sum of `k` raw coordinates is at least `k` times the least raw value and
/// at most `k` times the greatest.
pub proof fn lemma_coordinate_sum_bounds(particles: Seq<Particle>, axis: int, k: nat)
    requires
        k <= particles.len(),
    ensures
        k * i64::MIN <= coordinate_sum(particles, axis, k) <= k * i64::MAX,
    decreases k,
{
    if k > 0 {
        lemma_coordinate_sum_bounds(particles, axis, (k - 1) as nat);
        let c = coordinate(particles[k - 1].position, axis);
        assert(i64::MIN <= c <= i64::MAX);
        assert(k * i64::MIN == (k - 1) * i64::MIN + i64::MIN) by (nonlinear_arith);
        assert(k * i64::MAX == (k - 1) * i64::MAX + i64::MAX) by (nonlinear_arith);
    } else {
        assert(0 * i64::MIN == 0 && 0 * i64::MAX == 0) by (nonlinear_arith);
    }
}

/// The mean never saturates, and it is the arithmetic mean rounded down: for
/// every axis, `n` times the coordinate of the mean is at most the sum of the
/// `n` coordinates, and less than a raw unit on each particle short of it.
pub proof fn lemma_mean_is_floor_of_average(particles: Seq<Particle>, axis: int)
    requires
        particles.len() > 0,
        0 <= axis <= 2,
    ensures
        ({
            let n = particles.len() as int;
            let sum = coordinate_sum(particles, axis, particles.len());
            let mean = coordinate(mean_position(particles), axis);
            n * mean <= sum < n * mean + n
        }),
{
    let n = particles.len() as int;
    lemma_mean_coordinates(particles, axis);
    let sum = coordinate_sum(particles, axis, particles.len());
    lemma_coordinate_sum_bounds(particles, axis, particles.len());
    lemma_floor_quotient_bounds(sum, n);
    let q = sum / n;
    assert(i64::MIN <= q <= i64::MAX) by (nonlinear_arith)
        requires
            n > 0,
            n * q <= sum < n * q + n,
            n * i64::MIN <= sum <= n * i64::MAX,
    ;
}

/// The coordinate of the mean along `axis` is the quotient of the sum along
/// that axis.
proof fn lemma_mean_coordinates(particles: Seq<Particle>, axis: int)
    requires
        0 <= axis <= 2,
    ensures
        coordinate(mean_position(particles), axis) == ratio(
            coordinate_sum(particles, axis, particles.len()),
            particles.len() as int,
        ),
{
}

/// The mean of one particle is its position.
pub proof fn lemma_mean_of_one(particle: Particle)
    ensures
        mean_position(seq![particle]) == particle.position,
{
    let particles = seq![particle];
    reveal_with_fuel(coordinate_sum, 2);
    assert(particles[0] == particle);
    assert(coordinate_sum(particles, 0, 1) == particle.position.x.raw);
    assert(coordinate_sum(particles, 1, 1) == particle.position.y.raw);
    assert(coordinate_sum(particles, 2, 1) == particle.position.z.raw);
    assert(saturate(particle.position.x.raw as int) == particle.position.x.raw);
}

} // verus!
