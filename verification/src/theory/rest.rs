//! A body at rest stays at rest, and its offsets vanish.

use crate::alg::plane::Plane;
use crate::alg::scalar::{lemma_ratio_of_zero, Scalar};
use crate::alg::vec3::Vec3;
use crate::components::softbody::{
    acceleration, bindings_fit, integrated, mean_position, plane_applied, planes_applied, relaxed,
    relaxed_once, rods_relaxed, InstanceView, ManagerView, Particle, Rod, MAX_SOFTBODY_VERT,
};
use crate::FIXED_DT_RAW;
use vstd::prelude::*;

verus! {

/// Without a force there is no acceleration, whatever the mass.
pub proof fn lemma_no_force_no_acceleration(mass: Scalar)
    ensures
        acceleration(Vec3::zero(), mass) == Vec3::zero(),
{
    mass.lemma_zero_div();
    Scalar::from_raw(FIXED_DT_RAW).lemma_mul_zero_one();
}

/// Without a force, integration is a function of the present and the last
/// position alone: the particle moves on by the step it made before.
pub proof fn lemma_free_integration(particle: Particle, mass: Scalar)
    ensures
        particle.integrated(acceleration(Vec3::zero(), mass)) == (Particle {
            position: particle.position.add(particle.position.sub(particle.last)),
            last: particle.position,
        }),
{
    lemma_no_force_no_acceleration(mass);
}

/// Every particle rests: it is where it was a step ago.
pub open spec fn still(particles: Seq<Particle>) -> bool {
    forall|i: int|
        0 <= i < particles.len() ==> (#[trigger] particles[i]).last == particles[i].position
}

/// Every rod is as long as its ends are apart.
pub open spec fn relaxed_rods(particles: Seq<Particle>, rods: Seq<Rod>) -> bool {
    forall|k: int|
        0 <= k < rods.len() ==> (#[trigger] rods[k]).fits(particles.len()) && rods[k].length
            == particles[rods[k].left as int].position.dist(
            particles[rods[k].right as int].position,
        )
}

/// Every particle is on the free side of every plane.
pub open spec fn clear_of(particles: Seq<Particle>, planes: Seq<Plane>) -> bool {
    forall|i: int, k: int|
        0 <= i < particles.len() && 0 <= k < planes.len() ==> (#[trigger] planes[k]).distance(
            (#[trigger] particles[i]).position,
        ).is_positive()
}

/// A rod that is as long as its ends are apart moves nothing.
pub proof fn lemma_relaxed_rod_rests(rod: Rod, particles: Seq<Particle>)
    requires
        rod.fits(particles.len()),
        rod.length == particles[rod.left as int].position.dist(
            particles[rod.right as int].position,
        ),
    ensures
        rod.relaxed(particles) == particles,
{
    let left = particles[rod.left as int].position;
    let right = particles[rod.right as int].position;
    let offset = right.sub(left);
    let distance = offset.mag();
    let gap = rod.length.sub(distance);
    assert(gap.raw == 0);
    assert(offset.x.raw * gap.raw == 0) by (nonlinear_arith)
        requires
            gap.raw == 0,
    ;
    assert(offset.y.raw * gap.raw == 0) by (nonlinear_arith)
        requires
            gap.raw == 0,
    ;
    assert(offset.z.raw * gap.raw == 0) by (nonlinear_arith)
        requires
            gap.raw == 0,
    ;
    lemma_ratio_of_zero(distance.double().raw as int);
    assert(rod.correction(left, right) == Vec3::zero());
    assert(rod.relaxed(particles) =~= particles);
}

/// Rods that are all relaxed move nothing.
pub proof fn lemma_relaxed_rods_rest(particles: Seq<Particle>, rods: Seq<Rod>, k: nat)
    requires
        relaxed_rods(particles, rods),
        k <= rods.len(),
    ensures
        rods_relaxed(particles, rods, k) == particles,
    decreases k,
{
    if k > 0 {
        lemma_relaxed_rods_rest(particles, rods, (k - 1) as nat);
        lemma_relaxed_rod_rests(rods[k - 1], particles);
    }
}

/// Planes that all particles are clear of move nothing.
pub proof fn lemma_clear_planes_rest(particles: Seq<Particle>, planes: Seq<Plane>, k: nat)
    requires
        clear_of(particles, planes),
        k <= planes.len(),
    ensures
        planes_applied(particles, planes, k) == particles,
    decreases k,
{
    if k > 0 {
        lemma_clear_planes_rest(particles, planes, (k - 1) as nat);
        let plane = planes[k - 1];
        assert forall|i: int| 0 <= i < particles.len() implies particles[i].moved_to(
            plane.reflect(particles[i].position),
        ) == particles[i] by {
            assert(plane.distance(particles[i].position).is_positive());
        }
        assert(plane_applied(particles, plane) =~= particles);
    }
}

/// Relaxation moves nothing where all rods are relaxed and all planes clear.
pub proof fn lemma_relaxation_rests(
    particles: Seq<Particle>,
    rods: Seq<Rod>,
    planes: Seq<Plane>,
    passes: nat,
)
    requires
        relaxed_rods(particles, rods),
        clear_of(particles, planes),
    ensures
        relaxed(particles, rods, planes, passes) == particles,
    decreases passes,
{
    if passes > 0 {
        lemma_relaxation_rests(particles, rods, planes, (passes - 1) as nat);
        lemma_relaxed_rods_rest(particles, rods, rods.len());
        lemma_clear_planes_rest(particles, planes, planes.len());
        assert(relaxed_once(particles, rods, planes) == particles);
    }
}

/// The body is at rest among the planes: no force acts on it, no particle
/// moves, no rod is strained and no plane is touched.
pub open spec fn at_rest(body: InstanceView, planes: Seq<Plane>) -> bool {
    &&& body.force == Vec3::zero()
    &&& still(body.particles)
    &&& relaxed_rods(body.particles, body.rods)
    &&& clear_of(body.particles, planes)
}

/// A body at rest stays at rest: a step moves none of its particles, and
/// puts its center at their mean.
pub proof fn lemma_rest_is_kept(body: InstanceView, planes: Seq<Plane>)
    requires
        at_rest(body, planes),
    ensures
        body.stepped(planes).particles == body.particles,
        body.stepped(planes).center == mean_position(body.particles),
        at_rest(body.stepped(planes), planes),
{
    lemma_no_force_no_acceleration(body.mass);
    assert(integrated(body.particles, Vec3::zero()) =~= body.particles);
    lemma_relaxation_rests(
        body.particles,
        body.rods,
        planes,
        crate::components::softbody::ITERATIONS as nat,
    );
}

/// Every particle is at its place in the rest pose.
pub open spec fn in_rest_pose(body: InstanceView) -> bool {
    &&& body.particles.len() == body.model.len()
    &&& forall|i: int|
        0 <= i < body.particles.len() ==> (#[trigger] body.particles[i]).position == body.model[i]
}

/// In the rest pose every offset is the opposite of the center, so that with
/// the center at the origin every offset is zero.
pub proof fn lemma_offsets_vanish_in_rest_pose(body: InstanceView, k: int)
    requires
        in_rest_pose(body),
        body.center == Vec3::zero(),
        0 <= k < body.particles.len(),
    ensures
        body.offset(k) == Vec3::zero(),
{
    assert(body.particles[k].position == body.model[k]);
}

/// A body that was just built is in its rest pose with its center at the
/// origin: all its offsets are zero.
pub proof fn lemma_new_body_has_no_offsets(
    mass: Scalar,
    points: Seq<Vec3>,
    bindings: Seq<(usize, usize)>,
    k: int,
)
    requires
        0 <= k < points.len(),
    ensures
        InstanceView::built(mass, points, bindings).offset(k) == Vec3::zero(),
        in_rest_pose(InstanceView::built(mass, points, bindings)),
{
    let body = InstanceView::built(mass, points, bindings);
    lemma_offsets_vanish_in_rest_pose(body, k);
}

/// A new body is at rest wherever no plane touches it.
pub proof fn lemma_new_body_is_at_rest(
    mass: Scalar,
    points: Seq<Vec3>,
    bindings: Seq<(usize, usize)>,
    planes: Seq<Plane>,
)
    requires
        bindings_fit(bindings, points.len()),
        clear_of(InstanceView::built(mass, points, bindings).particles, planes),
    ensures
        at_rest(InstanceView::built(mass, points, bindings), planes),
{
    let body = InstanceView::built(mass, points, bindings);
    assert forall|k: int| 0 <= k < body.rods.len() implies (#[trigger] body.rods[k]).fits(
        body.particles.len(),
    ) && body.rods[k].length == body.particles[body.rods[k].left as int].position.dist(
        body.particles[body.rods[k].right as int].position,
    ) by {
        assert(bindings[k].0 < points.len());
    }
}

/// The offsets that a manager hands out are all zero for a body that stays
/// in its rest pose while it is stepped, if the mean of that pose is the
/// origin.
pub proof fn lemma_offsets_stay_zero(manager: ManagerView, slot: int, k: int)
    requires
        0 <= slot < manager.instances.len(),
        manager.instances[slot] is Some,
        at_rest(manager.instances[slot].unwrap(), manager.planes),
        in_rest_pose(manager.instances[slot].unwrap()),
        mean_position(manager.instances[slot].unwrap().particles) == Vec3::zero(),
        0 <= k < MAX_SOFTBODY_VERT,
    ensures
        manager.stepped().offsets(slot)[k] == Vec3::zero(),
{
    let body = manager.instances[slot].unwrap();
    lemma_rest_is_kept(body, manager.planes);
    let next = body.stepped(manager.planes);
    assert(manager.stepped().instances[slot] == Some(next));
    if k < next.particles.len() {
        lemma_offsets_vanish_in_rest_pose(next, k);
    }
}

} // verus!
