//! Deformable bodies: point masses held together by rods, kept out of planes.

use super::transform;
use super::Component;
use crate::alg::plane::Plane;
use crate::alg::scalar::{ratio, wide_ratio, Scalar};
use crate::alg::vec3::Vec3;
use crate::entity::Handle;
use crate::FIXED_DT_RAW;
use vstd::prelude::*;

verus! {

/// How often the constraints are relaxed in one step. The stiffness of a body
/// depends on this number.
pub const ITERATIONS: usize = 10;

/// The most particles that one body may have.
pub const MAX_SOFTBODY_VERT: usize = 8;

/// A point mass in Verlet form: where it is and where it was a step ago.
#[derive(Clone, Copy, Debug, PartialEq, Eq, Structural)]
pub struct Particle {
    pub position: Vec3,
    pub last: Vec3,
}

impl Particle {
    /// A particle at rest at `position`.
    pub open spec fn spec_new(position: Vec3) -> Particle {
        Particle { position, last: position }
    }

    /// A particle at rest at `position`.
    #[verifier::when_used_as_spec(spec_new)]
    pub fn new(position: Vec3) -> (r: Particle)
        ensures
            r == Particle::spec_new(position),
    {
        Particle { position, last: position }
    }

    /// The particle moved to `position`, with its past unchanged.
    pub open spec fn spec_moved_to(self, position: Vec3) -> Particle {
        Particle { position, last: self.last }
    }

    /// The particle moved to `position`, with its past unchanged.
    #[verifier::when_used_as_spec(spec_moved_to)]
    pub fn moved_to(self, position: Vec3) -> (r: Particle)
        ensures
            r == self.spec_moved_to(position),
    {
        Particle { position, last: self.last }
    }

    /// The particle one step later under Position Verlet: it keeps the
    /// velocity `position - last` and gains `acceleration`, which already
    /// holds the factor of the squared time step.
    pub open spec fn spec_integrated(self, acceleration: Vec3) -> Particle {
        Particle {
            position: self.position.add(self.position.sub(self.last)).add(acceleration),
            last: self.position,
        }
    }

    /// The particle one step later under Position Verlet: it keeps the
    /// velocity `position - last` and gains `acceleration`, which already
    /// holds the factor of the squared time step.
    #[verifier::when_used_as_spec(spec_integrated)]
    pub fn integrated(self, acceleration: Vec3) -> (r: Particle)
        ensures
            r == self.spec_integrated(acceleration),
    {
        let velocity = self.position.sub(self.last);
        Particle { position: self.position.add(velocity).add(acceleration), last: self.position }
    }
}

/// A rod: it holds the particles `left` and `right` of one body at the
/// distance `length`.
#[derive(Clone, Copy, Debug, PartialEq, Eq, Structural)]
pub struct Rod {
    pub left: usize,
    pub right: usize,
    pub length: Scalar,
}

impl Rod {
    /// The rod between two particles, as long as they are apart now.
    pub open spec fn between(left: usize, right: usize, particles: Seq<Particle>) -> Rod {
        Rod {
            left,
            right,
            length: particles[left as int].position.dist(particles[right as int].position),
        }
    }

    /// The rod between the particles `left` and `right`, with their present
    /// distance as its length.
    pub fn new(left: usize, right: usize, particles: &[Particle]) -> (r: Rod)
        requires
            left < particles@.len(),
            right < particles@.len(),
        ensures
            r == Rod::between(left, right, particles@),
    {
        let length = particles[left].position.dist(particles[right].position);
        Rod { left, right, length }
    }

    /// Both ends are particles of a body with `count` particles.
    pub open spec fn fits(self, count: nat) -> bool {
        self.left < count && self.right < count
    }

    /// The move that brings each end halfway back to the rod's length: the
    /// offset from left to right, times `(length - distance) / (2 * distance)`.
    /// The left end moves against it and the right end along it. Ends that
    /// coincide give no direction and are not moved.
    pub open spec fn spec_correction(self, left: Vec3, right: Vec3) -> Vec3 {
        let offset = right.sub(left);
        let distance = offset.mag();
        offset.scale_ratio(self.length.sub(distance), distance.double())
    }

    /// The move that brings each end halfway back to the rod's length: the
    /// offset from left to right, times `(length - distance) / (2 * distance)`.
    /// The left end moves against it and the right end along it. Ends that
    /// coincide give no direction and are not moved.
    #[verifier::when_used_as_spec(spec_correction)]
    pub fn correction(self, left: Vec3, right: Vec3) -> (r: Vec3)
        ensures
            r == self.spec_correction(left, right),
    {
        let offset = right.sub(left);
        let distance = offset.mag();
        offset.scale_ratio(self.length.sub(distance), distance.double())
    }

    /// The particles after this rod pulled or pushed its two ends. Both ends
    /// move by the same amount, whatever the body weighs.
    pub open spec fn relaxed(self, particles: Seq<Particle>) -> Seq<Particle> {
        let left = particles[self.left as int].position;
        let right = particles[self.right as int].position;
        let correction = self.correction(left, right);
        let first = particles.update(
            self.left as int,
            particles[self.left as int].moved_to(left.sub(correction)),
        );
        first.update(self.right as int, first[self.right as int].moved_to(right.add(correction)))
    }

    /// Moves the two ends of the rod towards its length.
    pub fn relax(self, particles: &mut Vec<Particle>)
        requires
            self.fits(old(particles)@.len()),
        ensures
            final(particles)@ == self.relaxed(old(particles)@),
    {
        let left = particles[self.left].position;
        let right = particles[self.right].position;
        let correction = self.correction(left, right);
        let moved_left = particles[self.left].moved_to(left.sub(correction));
        particles[self.left] = moved_left;
        let moved_right = particles[self.right].moved_to(right.add(correction));
        particles[self.right] = moved_right;
    }
}

/// The particles after the first `k` of `rods` acted, one after the other.
pub open spec fn rods_relaxed(particles: Seq<Particle>, rods: Seq<Rod>, k: nat) -> Seq<Particle>
    decreases k,
{
    if k == 0 {
        particles
    } else {
        rods[k - 1].relaxed(rods_relaxed(particles, rods, (k - 1) as nat))
    }
}

/// The particles after `plane` mirrored those on or behind it to its free side.
pub open spec fn plane_applied(particles: Seq<Particle>, plane: Plane) -> Seq<Particle> {
    Seq::new(particles.len(), |i: int| particles[i].moved_to(plane.reflect(particles[i].position)))
}

/// The particles after the first `k` of `planes` acted, one after the other.
pub open spec fn planes_applied(particles: Seq<Particle>, planes: Seq<Plane>, k: nat) -> Seq<
    Particle,
>
    decreases k,
{
    if k == 0 {
        particles
    } else {
        plane_applied(planes_applied(particles, planes, (k - 1) as nat), planes[k - 1])
    }
}

/// One relaxation pass: all rods, then all planes.
pub open spec fn relaxed_once(particles: Seq<Particle>, rods: Seq<Rod>, planes: Seq<Plane>) -> Seq<
    Particle,
> {
    planes_applied(rods_relaxed(particles, rods, rods.len()), planes, planes.len())
}

/// The particles after `passes` relaxation passes.
pub open spec fn relaxed(
    particles: Seq<Particle>,
    rods: Seq<Rod>,
    planes: Seq<Plane>,
    passes: nat,
) -> Seq<Particle>
    decreases passes,
{
    if passes == 0 {
        particles
    } else {
        relaxed_once(relaxed(particles, rods, planes, (passes - 1) as nat), rods, planes)
    }
}

/// Rods move particles and add or remove none.
pub proof fn lemma_rods_relaxed_len(particles: Seq<Particle>, rods: Seq<Rod>, k: nat)
    requires
        k <= rods.len(),
        forall|j: int| 0 <= j < rods.len() ==> (#[trigger] rods[j]).fits(particles.len()),
    ensures
        rods_relaxed(particles, rods, k).len() == particles.len(),
    decreases k,
{
    if k > 0 {
        lemma_rods_relaxed_len(particles, rods, (k - 1) as nat);
    }
}

/// Planes move particles and add or remove none.
pub proof fn lemma_planes_applied_len(particles: Seq<Particle>, planes: Seq<Plane>, k: nat)
    ensures
        planes_applied(particles, planes, k).len() == particles.len(),
    decreases k,
{
    if k > 0 {
        lemma_planes_applied_len(particles, planes, (k - 1) as nat);
    }
}

/// Relaxation moves particles and adds or removes none.
pub proof fn lemma_relaxed_len(
    particles: Seq<Particle>,
    rods: Seq<Rod>,
    planes: Seq<Plane>,
    passes: nat,
)
    requires
        forall|j: int| 0 <= j < rods.len() ==> (#[trigger] rods[j]).fits(particles.len()),
    ensures
        relaxed(particles, rods, planes, passes).len() == particles.len(),
    decreases passes,
{
    if passes > 0 {
        lemma_relaxed_len(particles, rods, planes, (passes - 1) as nat);
        let earlier = relaxed(particles, rods, planes, (passes - 1) as nat);
        lemma_rods_relaxed_len(earlier, rods, rods.len());
        lemma_planes_applied_len(rods_relaxed(earlier, rods, rods.len()), planes, planes.len());
    }
}

/// Every particle integrated with the same acceleration.
pub open spec fn integrated(particles: Seq<Particle>, acceleration: Vec3) -> Seq<Particle> {
    Seq::new(particles.len(), |i: int| particles[i].integrated(acceleration))
}

/// What a force does to a body of the given mass in one step: `force / mass`
/// times the square of the time step.
pub open spec fn spec_acceleration(force: Vec3, mass: Scalar) -> Vec3 {
    force.div(mass).scale(Scalar::from_raw(FIXED_DT_RAW)).scale(Scalar::from_raw(FIXED_DT_RAW))
}

/// What a force does to a body of the given mass in one step: `force / mass`
/// times the square of the time step.
#[verifier::when_used_as_spec(spec_acceleration)]
pub fn acceleration(force: Vec3, mass: Scalar) -> (r: Vec3)
    ensures
        r == spec_acceleration(force, mass),
{
    force.div(mass).scale(Scalar::from_raw(FIXED_DT_RAW)).scale(Scalar::from_raw(FIXED_DT_RAW))
}

/// The raw coordinate of `v` along `axis`: 0 for x, 1 for y, otherwise z.
pub open spec fn coordinate(v: Vec3, axis: int) -> int {
    if axis == 0 {
        v.x.raw as int
    } else if axis == 1 {
        v.y.raw as int
    } else {
        v.z.raw as int
    }
}

/// The exact sum of the raw coordinates along `axis` of the first `k` positions.
pub open spec fn coordinate_sum(particles: Seq<Particle>, axis: int, k: nat) -> int
    decreases k,
{
    if k == 0 {
        0
    } else {
        coordinate_sum(particles, axis, (k - 1) as nat) + coordinate(
            particles[k - 1].position,
            axis,
        )
    }
}

/// The arithmetic mean of the positions: along each axis the exact sum of the
/// coordinates, divided by the number of particles and rounded down to a raw
/// unit. Without particles it is the zero vector.
pub open spec fn mean_position(particles: Seq<Particle>) -> Vec3 {
    let n = particles.len();
    Vec3 {
        x: Scalar { raw: ratio(coordinate_sum(particles, 0, n), n as int) },
        y: Scalar { raw: ratio(coordinate_sum(particles, 1, n), n as int) },
        z: Scalar { raw: ratio(coordinate_sum(particles, 2, n), n as int) },
    }
}

/// Moves every end of every rod towards the rod's length, rod by rod.
pub fn relax_rods(particles: &mut Vec<Particle>, rods: &[Rod])
    requires
        forall|k: int| 0 <= k < rods@.len() ==> (#[trigger] rods@[k]).fits(old(particles)@.len()),
    ensures
        final(particles)@ == rods_relaxed(old(particles)@, rods@, rods@.len()),
        final(particles)@.len() == old(particles)@.len(),
{
    let mut k: usize = 0;
    while k < rods.len()
        invariant
            k <= rods@.len(),
            particles@.len() == old(particles)@.len(),
            particles@ == rods_relaxed(old(particles)@, rods@, k as nat),
            forall|j: int| 0 <= j < rods@.len() ==> (#[trigger] rods@[j]).fits(particles@.len()),
        decreases rods@.len() - k,
    {
        let rod = rods[k];
        rod.relax(particles);
        k += 1;
    }
}

/// Mirrors every particle that lies on or behind `plane` to its free side.
pub fn apply_plane(particles: &mut Vec<Particle>, plane: Plane)
    ensures
        final(particles)@ == plane_applied(old(particles)@, plane),
        final(particles)@.len() == old(particles)@.len(),
{
    let mut i: usize = 0;
    while i < particles.len()
        invariant
            i <= particles@.len(),
            particles@.len() == old(particles)@.len(),
            forall|j: int|
                0 <= j < i ==> particles@[j] == old(particles)@[j].moved_to(
                    plane.reflect(old(particles)@[j].position),
                ),
            forall|j: int| i <= j < particles@.len() ==> particles@[j] == old(particles)@[j],
        decreases particles@.len() - i,
    {
        let moved = particles[i].moved_to(plane.reflect(particles[i].position));
        particles[i] = moved;
        i += 1;
    }
    assert(particles@ =~= plane_applied(old(particles)@, plane));
}

/// Applies every plane in turn.
pub fn apply_planes(particles: &mut Vec<Particle>, planes: &[Plane])
    ensures
        final(particles)@ == planes_applied(old(particles)@, planes@, planes@.len()),
        final(particles)@.len() == old(particles)@.len(),
{
    let mut k: usize = 0;
    while k < planes.len()
        invariant
            k <= planes@.len(),
            particles@.len() == old(particles)@.len(),
            particles@ == planes_applied(old(particles)@, planes@, k as nat),
        decreases planes@.len() - k,
    {
        apply_plane(particles, planes[k]);
        k += 1;
    }
}

/// Relaxes the constraints `passes` times: in each pass the rods first, then
/// the planes, so that a rod may push a particle into a plane only until the
/// end of the pass.
pub fn relax(particles: &mut Vec<Particle>, rods: &[Rod], planes: &[Plane], passes: usize)
    requires
        forall|k: int| 0 <= k < rods@.len() ==> (#[trigger] rods@[k]).fits(old(particles)@.len()),
    ensures
        final(particles)@ == relaxed(old(particles)@, rods@, planes@, passes as nat),
        final(particles)@.len() == old(particles)@.len(),
{
    let mut pass: usize = 0;
    while pass < passes
        invariant
            pass <= passes,
            particles@.len() == old(particles)@.len(),
            particles@ == relaxed(old(particles)@, rods@, planes@, pass as nat),
            forall|j: int| 0 <= j < rods@.len() ==> (#[trigger] rods@[j]).fits(particles@.len()),
        decreases passes - pass,
    {
        relax_rods(particles, rods);
        apply_planes(particles, planes);
        pass += 1;
    }
}

/// Integrates every particle by one step.
pub fn integrate(particles: &mut Vec<Particle>, acceleration: Vec3)
    ensures
        final(particles)@ == integrated(old(particles)@, acceleration),
        final(particles)@.len() == old(particles)@.len(),
{
    let mut i: usize = 0;
    while i < particles.len()
        invariant
            i <= particles@.len(),
            particles@.len() == old(particles)@.len(),
            forall|j: int|
                0 <= j < i ==> particles@[j] == old(particles)@[j].integrated(acceleration),
            forall|j: int| i <= j < particles@.len() ==> particles@[j] == old(particles)@[j],
        decreases particles@.len() - i,
    {
        let next = particles[i].integrated(acceleration);
        particles[i] = next;
        i += 1;
    }
    assert(particles@ =~= integrated(old(particles)@, acceleration));
}

/// The mean position of at most `MAX_SOFTBODY_VERT` particles.
pub fn center_of(particles: &[Particle]) -> (r: Vec3)
    requires
        particles@.len() <= MAX_SOFTBODY_VERT,
    ensures
        r == mean_position(particles@),
{
    let mut sum_x: i128 = 0;
    let mut sum_y: i128 = 0;
    let mut sum_z: i128 = 0;
    let mut i: usize = 0;
    while i < particles.len()
        invariant
            i <= particles@.len() <= MAX_SOFTBODY_VERT,
            sum_x == coordinate_sum(particles@, 0, i as nat),
            sum_y == coordinate_sum(particles@, 1, i as nat),
            sum_z == coordinate_sum(particles@, 2, i as nat),
            -0x8000_0000_0000_0000 * i <= sum_x <= 0x8000_0000_0000_0000 * i,
            -0x8000_0000_0000_0000 * i <= sum_y <= 0x8000_0000_0000_0000 * i,
            -0x8000_0000_0000_0000 * i <= sum_z <= 0x8000_0000_0000_0000 * i,
        decreases particles@.len() - i,
    {
        let position = particles[i].position;
        sum_x = sum_x + position.x.raw as i128;
        sum_y = sum_y + position.y.raw as i128;
        sum_z = sum_z + position.z.raw as i128;
        i += 1;
    }
    let n: i128 = particles.len() as i128;
    Vec3 {
        x: Scalar { raw: wide_ratio(sum_x, n) },
        y: Scalar { raw: wide_ratio(sum_y, n) },
        z: Scalar { raw: wide_ratio(sum_z, n) },
    }
}

/// One deformable body.
pub struct Instance {
    pub particles: Vec<Particle>,
    pub rods: Vec<Rod>,
    pub mass: Scalar,
    pub force: Vec3,
    pub center: Vec3,
    pub model: Vec<Vec3>,
}

/// The mathematical value of an `Instance`.
pub ghost struct InstanceView {
    pub particles: Seq<Particle>,
    pub rods: Seq<Rod>,
    pub mass: Scalar,
    pub force: Vec3,
    pub center: Vec3,
    pub model: Seq<Vec3>,
}

impl View for Instance {
    type V = InstanceView;

    open spec fn view(&self) -> InstanceView {
        InstanceView {
            particles: self.particles@,
            rods: self.rods@,
            mass: self.mass,
            force: self.force,
            center: self.center,
            model: self.model@,
        }
    }
}

/// Every binding names two of `count` points.
pub open spec fn bindings_fit(bindings: Seq<(usize, usize)>, count: nat) -> bool {
    forall|k: int|
        0 <= k < bindings.len() ==> (#[trigger] bindings[k]).0 < count && bindings[k].1 < count
}

impl InstanceView {
    /// The body has a rest position for each particle, no more particles than
    /// a body may have, and rods between its own particles only.
    pub open spec fn wf(self) -> bool {
        &&& self.particles.len() == self.model.len()
        &&& self.particles.len() <= MAX_SOFTBODY_VERT
        &&& forall|k: int|
            0 <= k < self.rods.len() ==> (#[trigger] self.rods[k]).fits(self.particles.len())
    }

    /// The body built from a rest pose: a particle at rest at every point, and
    /// for every binding a rod as long as its two points are apart. No force
    /// acts on it yet, and its center has not been computed.
    pub open spec fn built(mass: Scalar, points: Seq<Vec3>, bindings: Seq<(usize, usize)>)
        -> InstanceView {
        let particles = Seq::new(points.len(), |i: int| Particle::new(points[i]));
        InstanceView {
            particles,
            rods: Seq::new(
                bindings.len(),
                |k: int| Rod::between(bindings[k].0, bindings[k].1, particles),
            ),
            mass,
            force: Vec3::zero(),
            center: Vec3::zero(),
            model: points,
        }
    }

    /// The body under another force.
    pub open spec fn with_force(self, force: Vec3) -> InstanceView {
        InstanceView { force, ..self }
    }

    /// How far particle `index` is from where the rest pose, moved to the
    /// center, would have it.
    pub open spec fn offset(self, index: int) -> Vec3 {
        self.particles[index].position.sub(self.center).sub(self.model[index])
    }

    /// The particles one step later: integrated under the body's force, then
    /// relaxed `ITERATIONS` times.
    pub open spec fn stepped_particles(self, planes: Seq<Plane>) -> Seq<Particle> {
        relaxed(
            integrated(self.particles, acceleration(self.force, self.mass)),
            self.rods,
            planes,
            ITERATIONS as nat,
        )
    }

    /// The body one step later. Its center is the mean of the new positions.
    pub open spec fn stepped(self, planes: Seq<Plane>) -> InstanceView {
        let particles = self.stepped_particles(planes);
        InstanceView { particles, center: mean_position(particles), ..self }
    }
}

impl Instance {
    /// Builds a body from its rest pose `points` and the pairs of points that
    /// rods hold together.
    pub fn new(mass: Scalar, points: &[Vec3], bindings: &[(usize, usize)]) -> (r: Instance)
        requires
            points@.len() <= MAX_SOFTBODY_VERT,
            bindings_fit(bindings@, points@.len()),
        ensures
            r@ == InstanceView::built(mass, points@, bindings@),
            r@.wf(),
    {
        let mut particles: Vec<Particle> = Vec::with_capacity(points.len());
        let mut model: Vec<Vec3> = Vec::with_capacity(points.len());
        let mut rods: Vec<Rod> = Vec::with_capacity(bindings.len());
        let mut i: usize = 0;
        while i < points.len()
            invariant
                i <= points@.len(),
                particles@.len() == i,
                model@.len() == i,
                forall|j: int| 0 <= j < i ==> particles@[j] == Particle::new(points@[j]),
                forall|j: int| 0 <= j < i ==> model@[j] == points@[j],
            decreases points@.len() - i,
        {
            particles.push(Particle::new(points[i]));
            model.push(points[i]);
            i += 1;
        }
        let mut k: usize = 0;
        while k < bindings.len()
            invariant
                k <= bindings@.len(),
                particles@.len() == points@.len(),
                bindings_fit(bindings@, points@.len()),
                rods@.len() == k,
                forall|j: int|
                    0 <= j < k ==> rods@[j] == Rod::between(
                        bindings@[j].0,
                        bindings@[j].1,
                        particles@,
                    ),
            decreases bindings@.len() - k,
        {
            let binding = bindings[k];
            rods.push(Rod::new(binding.0, binding.1, particles.as_slice()));
            k += 1;
        }
        let r = Instance {
            particles,
            rods,
            mass,
            force: Vec3::zero(),
            center: Vec3::zero(),
            model,
        };
        proof {
            let built = InstanceView::built(mass, points@, bindings@);
            assert(r@.particles =~= built.particles);
            assert(r@.rods =~= built.rods);
            assert(r@.model =~= built.model);
        }
        r
    }

    /// The offset of particle `index`, by which a renderer deforms the vertex
    /// that belongs to it.
    pub fn offset(&self, index: usize) -> (r: Vec3)
        requires
            self@.wf(),
            index < self@.particles.len(),
        ensures
            r == self@.offset(index as int),
    {
        self.particles[index].position.sub(self.center).sub(self.model[index])
    }

    /// Advances the body by one time step among `planes`.
    pub fn step(&mut self, planes: &[Plane])
        requires
            old(self)@.wf(),
            old(self)@.mass.is_positive(),
        ensures
            final(self)@ == old(self)@.stepped(planes@),
            final(self)@.wf(),
            final(self)@.center == mean_position(final(self)@.particles),
    {
        let acceleration = acceleration(self.force, self.mass);
        integrate(&mut self.particles, acceleration);
        assert(self.rods@ == old(self)@.rods);
        relax(&mut self.particles, self.rods.as_slice(), planes, ITERATIONS);
        self.center = center_of(self.particles.as_slice());
    }
}

/// A joint between the bodies in the slots `left` and `right`: for each axis
/// the least and the greatest angle, in degrees, that the one may be turned
/// against the other.
#[derive(Clone, Copy, Debug, PartialEq, Eq, Structural)]
pub struct Joint {
    pub left: usize,
    pub right: usize,
    pub x: AngleRange,
    pub y: AngleRange,
    pub z: AngleRange,
}

impl Joint {
    /// The joint between the bodies of `a` and `b` with the given ranges.
    pub open spec fn between(
        a: Handle,
        b: Handle,
        x: AngleRange,
        y: AngleRange,
        z: AngleRange,
    ) -> Joint {
        Joint { left: a.get_index() as usize, right: b.get_index() as usize, x, y, z }
    }
}

/// A range of angles in degrees, from `min` to `max`.
#[derive(Clone, Copy, Debug, PartialEq, Eq, Structural)]
pub struct AngleRange {
    pub min: Scalar,
    pub max: Scalar,
}

impl AngleRange {
    /// The range from `min` to `max`.
    pub open spec fn spec_new(min: Scalar, max: Scalar) -> AngleRange {
        AngleRange { min, max }
    }

    /// The range from `min` to `max`.
    #[verifier::when_used_as_spec(spec_new)]
    pub fn new(min: Scalar, max: Scalar) -> (r: AngleRange)
        ensures
            r == AngleRange::spec_new(min, max),
    {
        AngleRange { min, max }
    }

    /// The least angle is not above the greatest.
    pub open spec fn spec_ordered(self) -> bool {
        self.min.raw <= self.max.raw
    }

    /// The least angle is not above the greatest.
    #[verifier::when_used_as_spec(spec_ordered)]
    pub fn ordered(self) -> (r: bool)
        ensures
            r == self.spec_ordered(),
    {
        !self.max.lt(self.min)
    }
}

/// Why a joint was refused.
#[derive(Clone, Copy, Debug, PartialEq, Eq, Structural)]
pub enum JointError {
    /// The least angle of some axis is above its greatest.
    InvertedRange,
}

/// The corners of a limb: a box about the origin that reaches `radius` times
/// `scale` along each axis. Corner `i` is on the far side along x where `i`
/// has the bit 4, along y where it has the bit 2 and along z where it has
/// the bit 1.
pub open spec fn limb_points(radius: Scalar, scale: Vec3) -> Seq<Vec3> {
    let far = scale.scale(radius);
    let near = Vec3 { x: far.x.neg(), y: far.y.neg(), z: far.z.neg() };
    seq![
        Vec3 { x: near.x, y: near.y, z: near.z },
        Vec3 { x: near.x, y: near.y, z: far.z },
        Vec3 { x: near.x, y: far.y, z: near.z },
        Vec3 { x: near.x, y: far.y, z: far.z },
        Vec3 { x: far.x, y: near.y, z: near.z },
        Vec3 { x: far.x, y: near.y, z: far.z },
        Vec3 { x: far.x, y: far.y, z: near.z },
        Vec3 { x: far.x, y: far.y, z: far.z },
    ]
}

/// The rods of a limb: one between every two of its eight corners, which
/// makes the box as stiff as rods can make it.
pub open spec fn limb_bindings() -> Seq<(usize, usize)> {
    seq![
        (0usize, 1usize),
        (0usize, 2usize),
        (0usize, 3usize),
        (0usize, 4usize),
        (0usize, 5usize),
        (0usize, 6usize),
        (0usize, 7usize),
        (1usize, 2usize),
        (1usize, 3usize),
        (1usize, 4usize),
        (1usize, 5usize),
        (1usize, 6usize),
        (1usize, 7usize),
        (2usize, 3usize),
        (2usize, 4usize),
        (2usize, 5usize),
        (2usize, 6usize),
        (2usize, 7usize),
        (3usize, 4usize),
        (3usize, 5usize),
        (3usize, 6usize),
        (3usize, 7usize),
        (4usize, 5usize),
        (4usize, 6usize),
        (4usize, 7usize),
        (5usize, 6usize),
        (5usize, 7usize),
        (6usize, 7usize),
    ]
}

/// The center of a body, where the slot holds one, is the mean of its
/// particles.
pub open spec fn centered(slot: Option<InstanceView>) -> bool {
    match slot {
        Some(body) => body.center == mean_position(body.particles),
        None => true,
    }
}

/// What a slot of the manager holds.
pub open spec fn slot_view(slot: Option<Instance>) -> Option<InstanceView> {
    match slot {
        Some(instance) => Some(instance@),
        None => None,
    }
}

/// The body in the slot, where there is one, is well formed.
pub open spec fn slot_wf(slot: Option<InstanceView>) -> bool {
    match slot {
        Some(body) => body.wf(),
        None => true,
    }
}

/// The body in the slot, where there is one, has a positive mass and, in a
/// transform manager with `transforms` slots, a transform at `index`.
pub open spec fn slot_ready(slot: Option<InstanceView>, index: int, transforms: nat) -> bool {
    match slot {
        Some(body) => body.mass.is_positive() && index < transforms,
        None => true,
    }
}

/// The slot one step later among `planes`.
pub open spec fn slot_stepped(slot: Option<InstanceView>, planes: Seq<Plane>) -> Option<
    InstanceView,
> {
    match slot {
        Some(body) => Some(body.stepped(planes)),
        None => None,
    }
}

/// The center of the body in the slot, where there is one.
pub open spec fn slot_center(slot: Option<InstanceView>) -> Option<Vec3> {
    match slot {
        Some(body) => Some(body.center),
        None => None,
    }
}

/// The slot with the force on its body replaced, where there is one.
pub open spec fn slot_with_force(slot: Option<InstanceView>, force: Vec3) -> Option<
    InstanceView,
> {
    match slot {
        Some(body) => Some(body.with_force(force)),
        None => None,
    }
}

/// Steps the body in a slot, if there is one, and gives its new center.
fn step_slot(slot: &mut Option<Instance>, planes: &[Plane]) -> (center: Option<Vec3>)
    requires
        slot_wf(slot_view(*old(slot))),
        slot_ready(slot_view(*old(slot)), 0, 1),
    ensures
        slot_view(*final(slot)) == slot_stepped(slot_view(*old(slot)), planes@),
        center == slot_center(slot_view(*final(slot))),
        slot_wf(slot_view(*final(slot))),
{
    match slot {
        Some(instance) => {
            instance.step(planes);
            Some(instance.center)
        },
        None => None,
    }
}

/// The deformable bodies of all entities, and the planes that bound them all.
pub struct Manager {
    instances: Vec<Option<Instance>>,
    planes: Vec<Plane>,
    joints: Vec<Joint>,
}

/// The mathematical value of a `Manager`.
pub ghost struct ManagerView {
    pub instances: Seq<Option<InstanceView>>,
    pub planes: Seq<Plane>,
    pub joints: Seq<Joint>,
}

impl View for Manager {
    type V = ManagerView;

    closed spec fn view(&self) -> ManagerView {
        ManagerView {
            instances: Seq::new(self.instances@.len(), |i: int| slot_view(self.instances@[i])),
            planes: self.planes@,
            joints: self.joints@,
        }
    }
}

impl ManagerView {
    /// Every body is well formed.
    pub open spec fn wf(self) -> bool {
        forall|i: int| 0 <= i < self.instances.len() ==> slot_wf(#[trigger] self.instances[i])
    }

    /// Stepping can go ahead: every body has a positive mass and a slot in a
    /// transform manager with `transforms` slots.
    pub open spec fn ready(self, transforms: nat) -> bool {
        forall|i: int|
            0 <= i < self.instances.len() ==> slot_ready(
                #[trigger] self.instances[i],
                i,
                transforms,
            )
    }

    /// The offsets of the body in slot `slot`: for each of its particles the
    /// offset, and zero beyond them; all zero where there is no such body.
    pub open spec fn offsets(self, slot: int) -> Seq<Vec3> {
        Seq::new(
            MAX_SOFTBODY_VERT as nat,
            |k: int|
                if 0 <= slot < self.instances.len() {
                    match self.instances[slot] {
                        Some(instance) => if k < instance.particles.len() {
                            instance.offset(k)
                        } else {
                            Vec3::zero()
                        },
                        None => Vec3::zero(),
                    }
                } else {
                    Vec3::zero()
                },
        )
    }

    /// The slot one step later.
    pub open spec fn stepped_slot(self, slot: int) -> Option<InstanceView> {
        slot_stepped(self.instances[slot], self.planes)
    }

    /// The manager one step later: every body stepped, the planes and the
    /// joints as before. Joints are kept and not yet enforced.
    pub open spec fn stepped(self) -> ManagerView {
        ManagerView {
            instances: Seq::new(self.instances.len(), |i: int| self.stepped_slot(i)),
            planes: self.planes,
            joints: self.joints,
        }
    }

    /// The transforms after the bodies in the slots from `from` up to, and
    /// without, `to` were stepped.
    pub open spec fn moved_transforms(
        self,
        before: Seq<transform::TransformView>,
        from: int,
        to: int,
    ) -> Seq<transform::TransformView> {
        Seq::new(
            before.len(),
            |j: int|
                if from <= j < to {
                    self.moved_transform(before[j], j)
                } else {
                    before[j]
                },
        )
    }

    /// The transform in slot `slot` after the step: where a body sits in the
    /// same slot, its new center was written as the position.
    pub open spec fn moved_transform(self, before: transform::TransformView, slot: int)
        -> transform::TransformView {
        if 0 <= slot < self.instances.len() {
            match self.instances[slot] {
                Some(instance) => before.with_position(instance.stepped(self.planes).center),
                None => before,
            }
        } else {
            before
        }
    }
}

impl Manager {
    /// An empty manager with room for `instance_hint` bodies and `plane_hint`
    /// planes.
    pub fn new(instance_hint: usize, plane_hint: usize) -> (r: Manager)
        ensures
            r@.wf(),
            r@.instances == Seq::<Option<InstanceView>>::empty(),
            r@.planes == Seq::<Plane>::empty(),
            r@.joints == Seq::<Joint>::empty(),
    {
        let r = Manager {
            instances: Vec::with_capacity(instance_hint),
            planes: Vec::with_capacity(plane_hint),
            joints: Vec::new(),
        };
        assert(r@.instances =~= Seq::<Option<InstanceView>>::empty());
        r
    }

    /// Gives the registered entity a body, in place of any it had.
    pub fn init_instance(
        &mut self,
        entity: Handle,
        mass: Scalar,
        points: &[Vec3],
        bindings: &[(usize, usize)],
    )
        requires
            old(self)@.wf(),
            entity.slot() < old(self)@.instances.len(),
            points@.len() <= MAX_SOFTBODY_VERT,
            bindings_fit(bindings@, points@.len()),
        ensures
            final(self)@.wf(),
            final(self)@.planes == old(self)@.planes,
            final(self)@.joints == old(self)@.joints,
            final(self)@.instances == old(self)@.instances.update(
                entity.slot(),
                Some(InstanceView::built(mass, points@, bindings@)),
            ),
    {
        let i = entity.get_index() as usize;
        let ghost before = self@;
        self.instances[i] = Some(Instance::new(mass, points, bindings));
        proof {
            assert(self@.instances =~= before.instances.update(
                i as int,
                Some(InstanceView::built(mass, points@, bindings@)),
            ));
        }
    }

    /// Replaces the force on the body of a registered entity. The force stays
    /// until it is replaced again. A slot without a body stays without one.
    pub fn set(&mut self, entity: Handle, force: Vec3)
        requires
            old(self)@.wf(),
            entity.slot() < old(self)@.instances.len(),
        ensures
            final(self)@.wf(),
            final(self)@.planes == old(self)@.planes,
            final(self)@.joints == old(self)@.joints,
            final(self)@.instances == old(self)@.instances.update(
                entity.slot(),
                slot_with_force(old(self)@.instances[entity.slot()], force),
            ),
    {
        let i = entity.get_index() as usize;
        let ghost before = self@;
        match &mut self.instances[i] {
            Some(instance) => {
                instance.force = force;
                proof {
                    assert(self@.instances =~= before.instances.update(
                        i as int,
                        slot_with_force(before.instances[i as int], force),
                    ));
                }
            },
            None => {
                proof {
                    assert(self@.instances =~= before.instances.update(
                        i as int,
                        slot_with_force(before.instances[i as int], force),
                    ));
                }
            },
        }
    }

    /// The offsets of the entity's particles, for a renderer to deform the
    /// entity's mesh. Entries beyond the particles are zero, and so is every
    /// entry for an entity without a body, registered or not.
    pub fn get_offsets(&self, entity: Handle) -> (r: [Vec3; MAX_SOFTBODY_VERT])
        requires
            self@.wf(),
        ensures
            r@ == self@.offsets(entity.slot()),
    {
        let i = entity.get_index() as usize;
        let mut offsets = [Vec3::zero(); MAX_SOFTBODY_VERT];
        if i >= self.instances.len() {
            assert(offsets@ =~= self@.offsets(i as int));
            return offsets;
        }
        match &self.instances[i] {
            Some(instance) => {
                assert(self@.instances[i as int] == Some(instance@));
                let mut k: usize = 0;
                while k < instance.particles.len()
                    invariant
                        instance@.wf(),
                        k <= instance@.particles.len(),
                        forall|j: int| 0 <= j < k ==> offsets@[j] == instance@.offset(j),
                        forall|j: int| k <= j < MAX_SOFTBODY_VERT ==> offsets@[j] == Vec3::zero(),
                    decreases instance@.particles.len() - k,
                {
                    offsets[k] = instance.offset(k);
                    k += 1;
                }
                assert(offsets@ =~= self@.offsets(i as int));
            },
            None => {
                assert(offsets@ =~= self@.offsets(i as int));
            },
        }
        offsets
    }

    /// Adds a plane. The planes bound every body of the manager.
    pub fn add_plane(&mut self, plane: Plane)
        ensures
            final(self)@.instances == old(self)@.instances,
            final(self)@.planes == old(self)@.planes.push(plane),
            final(self)@.joints == old(self)@.joints,
    {
        self.planes.push(plane);
        assert(self@.instances =~= old(self)@.instances);
    }

    /// Gives the registered entity the body of a limb: a box of eight
    /// particles about the origin, `radius` times `scale` in each direction,
    /// with a rod between every two of them.
    pub fn init_limb(&mut self, entity: Handle, mass: Scalar, radius: Scalar, scale: Vec3)
        requires
            old(self)@.wf(),
            entity.slot() < old(self)@.instances.len(),
        ensures
            final(self)@.wf(),
            final(self)@.planes == old(self)@.planes,
            final(self)@.joints == old(self)@.joints,
            final(self)@.instances == old(self)@.instances.update(
                entity.slot(),
                Some(InstanceView::built(mass, limb_points(radius, scale), limb_bindings())),
            ),
    {
        let far = scale.scale(radius);
        let near = Vec3 { x: far.x.neg(), y: far.y.neg(), z: far.z.neg() };
        let points: [Vec3; 8] = [
            Vec3 { x: near.x, y: near.y, z: near.z },
            Vec3 { x: near.x, y: near.y, z: far.z },
            Vec3 { x: near.x, y: far.y, z: near.z },
            Vec3 { x: near.x, y: far.y, z: far.z },
            Vec3 { x: far.x, y: near.y, z: near.z },
            Vec3 { x: far.x, y: near.y, z: far.z },
            Vec3 { x: far.x, y: far.y, z: near.z },
            Vec3 { x: far.x, y: far.y, z: far.z },
        ];
        let bindings: [(usize, usize); 28] = [
            (0, 1),
            (0, 2),
            (0, 3),
            (0, 4),
            (0, 5),
            (0, 6),
            (0, 7),
            (1, 2),
            (1, 3),
            (1, 4),
            (1, 5),
            (1, 6),
            (1, 7),
            (2, 3),
            (2, 4),
            (2, 5),
            (2, 6),
            (2, 7),
            (3, 4),
            (3, 5),
            (3, 6),
            (3, 7),
            (4, 5),
            (4, 6),
            (4, 7),
            (5, 6),
            (5, 7),
            (6, 7),
        ];
        proof {
            assert(points@ =~= limb_points(radius, scale));
            assert(bindings@ =~= limb_bindings());
        }
        self.init_instance(entity, mass, points.as_slice(), bindings.as_slice());
    }

    /// Records a joint between the bodies of two registered entities, with
    /// the range of angles in degrees for each axis. A range whose least
    /// angle is above its greatest is refused, and nothing is recorded.
    /// Joints are data for now: no step enforces them.
    pub fn add_joint(
        &mut self,
        a: Handle,
        b: Handle,
        x_range: AngleRange,
        y_range: AngleRange,
        z_range: AngleRange,
    ) -> (r: Result<(), JointError>)
        requires
            a.slot() < old(self)@.instances.len(),
            b.slot() < old(self)@.instances.len(),
        ensures
            final(self)@.instances == old(self)@.instances,
            final(self)@.planes == old(self)@.planes,
            r is Ok <==> x_range.ordered() && y_range.ordered() && z_range.ordered(),
            r is Ok ==> final(self)@.joints == old(self)@.joints.push(
                Joint::between(a, b, x_range, y_range, z_range),
            ),
            r is Err ==> final(self)@.joints == old(self)@.joints,
    {
        if !(x_range.ordered() && y_range.ordered() && z_range.ordered()) {
            return Err(JointError::InvertedRange);
        }
        self.joints.push(
            Joint {
                left: a.get_index() as usize,
                right: b.get_index() as usize,
                x: x_range,
                y: y_range,
                z: z_range,
            },
        );
        assert(self@.instances =~= old(self)@.instances);
        Ok(())
    }

    /// The joints recorded so far, in the order in which they came.
    pub fn joints(&self) -> (r: &[Joint])
        ensures
            r@ == self@.joints,
    {
        self.joints.as_slice()
    }

    /// Whether `simulate` may be called with a transform manager that has
    /// `transforms` slots.
    pub fn ready(&self, transforms: usize) -> (r: bool)
        ensures
            r == self@.ready(transforms as nat),
    {
        let mut i: usize = 0;
        while i < self.instances.len()
            invariant
                i <= self@.instances.len(),
                self@.instances.len() == self.instances@.len(),
                forall|j: int|
                    0 <= j < i ==> match #[trigger] self@.instances[j] {
                        Some(instance) => instance.mass.is_positive() && j < transforms,
                        None => true,
                    },
            decreases self.instances@.len() - i,
        {
            match &self.instances[i] {
                Some(instance) => {
                    assert(self@.instances[i as int] == Some(instance@));
                    if !(instance.mass.is_positive() && i < transforms) {
                        return false;
                    }
                },
                None => {
                    assert(self@.instances[i as int] is None);
                },
            }
            i += 1;
        }
        true
    }

    /// Steps the body in slot `i`, if there is one, and writes its new center
    /// into the transform of the same slot.
    fn simulate_slot(&mut self, transforms: &mut transform::Manager, i: usize)
        requires
            i < old(self)@.instances.len(),
            old(self)@.wf(),
            old(transforms).wf(),
            slot_ready(old(self)@.instances[i as int], i as int, old(transforms)@.len()),
        ensures
            final(self)@.wf(),
            final(self)@.planes == old(self)@.planes,
            final(self)@.joints == old(self)@.joints,
            final(self)@.instances == old(self)@.instances.update(
                i as int,
                old(self)@.stepped_slot(i as int),
            ),
            final(transforms).wf(),
            final(transforms)@ == old(self)@.moved_transforms(
                old(transforms)@,
                i as int,
                i as int + 1,
            ),
    {
        let ghost before = self@;
        let ghost transforms_before = transforms@;
        assert(before.instances[i as int] == slot_view(self.instances@[i as int]));
        let center = step_slot(&mut self.instances[i], self.planes.as_slice());
        match center {
            Some(center) => {
                transforms.set_position_raw(i, center);
            },
            None => {},
        }
        proof {
            assert(self@.instances =~= before.instances.update(
                i as int,
                before.stepped_slot(i as int),
            ));
            assert(transforms@ =~= before.moved_transforms(
                transforms_before,
                i as int,
                i as int + 1,
            ));
        }
    }

    /// Advances every body by one fixed time step and writes its new center
    /// into the transform of the same slot.
    pub fn simulate(&mut self, transforms: &mut transform::Manager)
        requires
            old(self)@.wf(),
            old(transforms).wf(),
            old(self)@.ready(old(transforms)@.len()),
        ensures
            final(self)@ == old(self)@.stepped(),
            final(self)@.wf(),
            forall|i: int|
                0 <= i < final(self)@.instances.len() ==> centered(
                    #[trigger] final(self)@.instances[i],
                ),
            final(transforms).wf(),
            final(transforms)@ == old(self)@.moved_transforms(
                old(transforms)@,
                0,
                old(self)@.instances.len() as int,
            ),
    {
        let ghost before = self@;
        let ghost transforms_before = transforms@;
        let count = self.instances.len();
        let mut i: usize = 0;
        while i < count
            invariant
                i <= count,
                count == before.instances.len(),
                self@.instances.len() == before.instances.len(),
                self@.planes == before.planes,
                self@.joints == before.joints,
                self@.wf(),
                before.ready(transforms_before.len()),
                transforms.wf(),
                transforms@ == before.moved_transforms(transforms_before, 0, i as int),
                forall|j: int| 0 <= j < i ==> self@.instances[j] == before.stepped_slot(j),
                forall|j: int|
                    i <= j < before.instances.len() ==> self@.instances[j] == before.instances[j],
            decreases count - i,
        {
            assert(self@.instances[i as int] == before.instances[i as int]);
            assert(self@.stepped_slot(i as int) == before.stepped_slot(i as int));
            self.simulate_slot(transforms, i);
            proof {
                assert(transforms@ =~= before.moved_transforms(
                    transforms_before,
                    0,
                    i as int + 1,
                ));
            }
            i += 1;
        }
        proof {
            assert(self@.instances =~= before.stepped().instances);
        }
    }
}

impl Component for Manager {
    open spec fn valid(&self) -> bool {
        self@.wf()
    }

    open spec fn slots(&self) -> nat {
        self@.instances.len()
    }

    /// New slots hold no body.
    fn register(&mut self, entity: Handle)
        ensures
            final(self)@.planes == old(self)@.planes,
            final(self)@.joints == old(self)@.joints,
            forall|i: int|
                0 <= i < old(self)@.instances.len() ==> final(self)@.instances[i]
                    == old(self)@.instances[i],
            forall|i: int|
                old(self)@.instances.len() <= i < final(self)@.instances.len()
                    ==> final(self)@.instances[i] is None,
    {
        let i = entity.get_index() as usize;
        while i >= self.instances.len()
            invariant
                self@.wf(),
                self@.planes == old(self)@.planes,
                self@.joints == old(self)@.joints,
                old(self)@.instances.len() <= self@.instances.len(),
                self@.instances.len() <= old(self)@.instances.len() || self@.instances.len() <= i
                    + 1,
                forall|j: int|
                    0 <= j < old(self)@.instances.len() ==> self@.instances[j]
                        == old(self)@.instances[j],
                forall|j: int|
                    old(self)@.instances.len() <= j < self@.instances.len()
                        ==> self@.instances[j] is None,
            decreases i + 1 - self.instances.len(),
        {
            let ghost before = self@;
            self.instances.push(None);
            proof {
                assert(self@.instances =~= before.instances.push(None));
            }
        }
    }

    fn count(&self) -> (n: usize) {
        self.instances.len()
    }
}

} // verus!
