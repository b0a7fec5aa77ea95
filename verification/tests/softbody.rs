use softbody::alg::plane::Plane;
use softbody::alg::scalar::{Scalar, ONE_RAW};
use softbody::alg::vec3::Vec3;
use softbody::components::softbody::{
    acceleration, apply_plane, apply_planes, center_of, integrate, relax, relax_rods, AngleRange,
    Instance, Joint, JointError, Manager, Particle, Rod, ITERATIONS, MAX_SOFTBODY_VERT,
};
use softbody::components::transform;
use softbody::components::Component;
use softbody::entity::Handle;
use softbody::FIXED_DT_RAW;

fn s(v: f64) -> Scalar {
    Scalar::from_raw((v * ONE_RAW as f64).round() as i64)
}

fn v(x: f64, y: f64, z: f64) -> Vec3 {
    Vec3::new(s(x), s(y), s(z))
}

fn to_f64(a: Scalar) -> f64 {
    a.raw as f64 / ONE_RAW as f64
}

fn distance(a: Vec3, b: Vec3) -> f64 {
    to_f64(a.dist(b))
}

fn pair(a: Vec3, b: Vec3) -> Vec<Particle> {
    vec![Particle::new(a), Particle::new(b)]
}

#[test]
fn rod_at_rest_is_stable() {
    let mut particles = pair(v(0.0, 0.0, 0.0), v(1.0, 0.0, 0.0));
    let rod = Rod::new(0, 1, &particles);
    assert_eq!(rod.length, s(1.0));
    relax(&mut particles, &[rod], &[], ITERATIONS);
    assert!((distance(particles[0].position, particles[1].position) - 1.0).abs() <= 1e-4);
    assert_eq!(particles[0].position, v(0.0, 0.0, 0.0));
    assert_eq!(particles[1].position, v(1.0, 0.0, 0.0));
}

#[test]
fn particle_below_ground_is_reflected() {
    let mut particles = vec![Particle::new(v(0.0, -1.0, 0.0))];
    let ground = Plane::new(v(0.0, 1.0, 0.0), s(0.0));
    relax(&mut particles, &[], &[ground], 1);
    assert_eq!(particles[0].position, v(0.0, 1.0, 0.0));
    assert!(!ground.distance(particles[0].position).lt(Scalar::zero()));
}

#[test]
fn stretched_rod_converges() {
    let mut particles = pair(v(0.0, 0.0, 0.0), v(3.0, 4.0, 0.0));
    let rod = Rod { left: 0, right: 1, length: s(2.0) };
    relax(&mut particles, &[rod], &[], ITERATIONS);
    assert!((distance(particles[0].position, particles[1].position) - 2.0).abs() <= 1e-6);
    // Both ends moved by the same amount: the middle stays.
    let middle = particles[0].position.add(particles[1].position);
    assert!((to_f64(middle.x) - 3.0).abs() <= 1e-6 && (to_f64(middle.y) - 4.0).abs() <= 1e-6);
}

#[test]
fn compressed_rod_converges() {
    let mut particles = pair(v(1.0, 1.0, 1.0), v(1.0, 1.25, 1.0));
    let rod = Rod { left: 0, right: 1, length: s(3.0) };
    relax(&mut particles, &[rod], &[], ITERATIONS);
    assert!((distance(particles[0].position, particles[1].position) - 3.0).abs() <= 1e-6);
}

#[test]
fn one_rod_pass_moves_both_ends_half_the_error() {
    let mut particles = pair(v(0.0, 0.0, 0.0), v(4.0, 0.0, 0.0));
    let rod = Rod { left: 0, right: 1, length: s(2.0) };
    assert_eq!(rod.correction(v(0.0, 0.0, 0.0), v(4.0, 0.0, 0.0)), v(-1.0, 0.0, 0.0));
    rod.relax(&mut particles);
    assert_eq!(particles[0].position, v(1.0, 0.0, 0.0));
    assert_eq!(particles[1].position, v(3.0, 0.0, 0.0));
    assert_eq!(particles[0].last, v(0.0, 0.0, 0.0));
}

#[test]
fn coinciding_ends_are_left_alone() {
    let mut particles = pair(v(1.0, 2.0, 3.0), v(1.0, 2.0, 3.0));
    let rod = Rod { left: 0, right: 1, length: s(1.0) };
    rod.relax(&mut particles);
    assert_eq!(particles[0].position, v(1.0, 2.0, 3.0));
    assert_eq!(particles[1].position, v(1.0, 2.0, 3.0));
}

#[test]
fn rods_act_in_order() {
    let mut particles = vec![
        Particle::new(v(0.0, 0.0, 0.0)),
        Particle::new(v(2.0, 0.0, 0.0)),
        Particle::new(v(4.0, 0.0, 0.0)),
    ];
    let rods = [
        Rod { left: 0, right: 1, length: s(1.0) },
        Rod { left: 1, right: 2, length: s(1.0) },
    ];
    relax_rods(&mut particles, &rods);
    // First rod: 0 -> 0.5, 1 -> 1.5. Second rod sees 1.5 and 4: error 1.5.
    assert_eq!(particles[0].position, v(0.5, 0.0, 0.0));
    assert_eq!(particles[1].position, v(2.25, 0.0, 0.0));
    assert_eq!(particles[2].position, v(3.25, 0.0, 0.0));
}

#[test]
fn planes_follow_rods_within_a_pass() {
    // The rod pushes the left end below the ground; the plane brings it back.
    let mut particles = pair(v(0.0, 0.5, 0.0), v(0.0, 1.5, 0.0));
    let rod = Rod { left: 0, right: 1, length: s(3.0) };
    let ground = Plane::new(v(0.0, 1.0, 0.0), s(0.0));
    relax(&mut particles, &[rod], &[ground], 1);
    assert_eq!(particles[0].position, v(0.0, 0.5, 0.0));
    assert_eq!(particles[1].position, v(0.0, 2.5, 0.0));
}

#[test]
fn several_planes_apply_in_turn() {
    let mut particles = vec![Particle::new(v(-1.0, -2.0, 0.0)), Particle::new(v(1.0, 1.0, 0.0))];
    let ground = Plane::new(v(0.0, 1.0, 0.0), s(0.0));
    let wall = Plane::new(v(1.0, 0.0, 0.0), s(0.0));
    apply_planes(&mut particles, &[ground, wall]);
    assert_eq!(particles[0].position, v(1.0, 2.0, 0.0));
    assert_eq!(particles[1].position, v(1.0, 1.0, 0.0));
    let mut single = vec![Particle::new(v(0.0, -0.25, 0.0))];
    apply_plane(&mut single, ground);
    assert_eq!(single[0].position, v(0.0, 0.25, 0.0));
    assert_eq!(single[0].last, v(0.0, -0.25, 0.0));
}

#[test]
fn integration_keeps_velocity_and_adds_acceleration() {
    let moving = Particle { position: v(1.0, 1.0, 1.0), last: v(0.5, 1.0, 2.0) };
    let next = moving.integrated(v(0.0, -0.25, 0.0));
    assert_eq!(next.position, v(1.5, 0.75, 0.0));
    assert_eq!(next.last, v(1.0, 1.0, 1.0));
    let mut particles = vec![moving, Particle::new(v(0.0, 0.0, 0.0))];
    integrate(&mut particles, v(0.0, -0.25, 0.0));
    assert_eq!(particles[0], next);
    assert_eq!(particles[1].position, v(0.0, -0.25, 0.0));
}

#[test]
fn acceleration_is_force_over_mass_times_step_squared() {
    let dt = Scalar::from_raw(FIXED_DT_RAW);
    assert!((to_f64(dt) - 1.0 / 60.0).abs() < 1e-9);
    let a = acceleration(v(0.0, -36.0, 0.0), s(2.0));
    assert_eq!(a, v(0.0, -18.0, 0.0).scale(dt).scale(dt));
    assert!((to_f64(a.y) + 18.0 / 3600.0).abs() < 1e-8);
    assert_eq!(acceleration(Vec3::zero(), s(2.0)), Vec3::zero());
}

#[test]
fn center_is_the_mean_for_one_two_and_many() {
    assert_eq!(center_of(&[Particle::new(v(1.0, 2.0, 3.0))]), v(1.0, 2.0, 3.0));
    assert_eq!(center_of(&pair(v(1.0, 2.0, 3.0), v(2.0, 0.0, -3.0))), v(1.5, 1.0, 0.0));
    let many: Vec<Particle> =
        (0..8).map(|i| Particle::new(v(i as f64, 2.0 * i as f64, -(i as f64)))).collect();
    assert_eq!(center_of(&many), v(3.5, 7.0, -3.5));
    assert_eq!(center_of(&[]), Vec3::zero());
    // The mean is rounded down to a raw unit.
    let odd = [Particle::new(Vec3::from_raw(1, -1, 0)), Particle::new(Vec3::from_raw(0, 0, 0))];
    assert_eq!(center_of(&odd), Vec3::from_raw(0, -1, 0));
}

#[test]
fn instance_is_built_from_points_and_bindings() {
    let points = [v(0.0, 0.0, 0.0), v(3.0, 0.0, 0.0), v(3.0, 4.0, 0.0)];
    let instance = Instance::new(s(2.0), &points, &[(0, 1), (0, 2), (2, 1)]);
    assert_eq!(instance.particles.len(), 3);
    assert_eq!(instance.particles[2], Particle::new(v(3.0, 4.0, 0.0)));
    assert_eq!(instance.model, points.to_vec());
    assert_eq!(instance.rods.len(), 3);
    assert_eq!(instance.rods[0], Rod { left: 0, right: 1, length: s(3.0) });
    assert_eq!(instance.rods[1], Rod { left: 0, right: 2, length: s(5.0) });
    assert_eq!(instance.rods[2], Rod { left: 2, right: 1, length: s(4.0) });
    assert_eq!(instance.mass, s(2.0));
    assert_eq!(instance.force, Vec3::zero());
    assert_eq!(instance.center, Vec3::zero());
    assert_eq!(instance.offset(1), Vec3::zero());
}

fn triangle() -> (Manager, transform::Manager, Handle) {
    let entity = Handle::new(2);
    let mut bodies = Manager::new(4, 2);
    let mut transforms = transform::Manager::new(4);
    bodies.register(entity);
    transforms.register(entity);
    let points = [v(-1.0, 2.0, 0.0), v(1.0, 2.0, 0.0), v(0.0, 2.0, 1.5)];
    bodies.init_instance(entity, s(1.0), &points, &[(0, 1), (1, 2), (2, 0)]);
    (bodies, transforms, entity)
}

#[test]
fn register_grows_storage_and_keeps_it() {
    let mut bodies = Manager::new(0, 0);
    assert_eq!(bodies.count(), 0);
    bodies.register(Handle::new(3));
    assert_eq!(bodies.count(), 4);
    bodies.register(Handle::new(1));
    assert_eq!(bodies.count(), 4);
    bodies.register(Handle::new(4));
    assert_eq!(bodies.count(), 5);
}

#[test]
fn offsets_are_zero_without_a_body() {
    let mut bodies = Manager::new(0, 0);
    let zeros = [Vec3::zero(); MAX_SOFTBODY_VERT];
    assert_eq!(bodies.get_offsets(Handle::new(7)), zeros);
    bodies.register(Handle::new(7));
    assert_eq!(bodies.get_offsets(Handle::new(7)), zeros);
    assert_eq!(bodies.get_offsets(Handle::new(3)), zeros);
}

#[test]
fn offsets_are_zero_at_rest() {
    let (bodies, _, entity) = triangle();
    assert_eq!(bodies.get_offsets(entity), [Vec3::zero(); MAX_SOFTBODY_VERT]);
}

#[test]
fn simulate_at_rest_moves_nothing_and_writes_the_center() {
    let (mut bodies, mut transforms, entity) = triangle();
    assert!(bodies.ready(transforms.count()));
    bodies.simulate(&mut transforms);
    let center = v(0.0, 2.0, 0.5);
    assert_eq!(transforms.get_position(entity), center);
    // Every particle is still at its rest position, so its offset is minus the center.
    let offsets = bodies.get_offsets(entity);
    for k in 0..3 {
        assert_eq!(offsets[k], Vec3::zero().sub(center));
    }
    for k in 3..MAX_SOFTBODY_VERT {
        assert_eq!(offsets[k], Vec3::zero());
    }
    // Transforms of entities without a body are left alone.
    assert_eq!(transforms.get_position(Handle::new(0)), Vec3::zero());
}

#[test]
fn equal_starts_give_equal_trajectories() {
    let (mut first, mut first_transforms, entity) = triangle();
    let (mut second, mut second_transforms, _) = triangle();
    let ground = Plane::new(v(0.0, 1.0, 0.0), s(0.0));
    first.add_plane(ground);
    second.add_plane(ground);
    first.set(entity, v(0.5, -9.8, 0.0));
    second.set(entity, v(0.5, -9.8, 0.0));
    for _ in 0..120 {
        first.simulate(&mut first_transforms);
        second.simulate(&mut second_transforms);
        assert_eq!(first.get_offsets(entity), second.get_offsets(entity));
        assert_eq!(first_transforms.get_position(entity), second_transforms.get_position(entity));
    }
}

#[test]
fn body_falls_and_stays_above_the_ground() {
    let (mut bodies, mut transforms, entity) = triangle();
    bodies.add_plane(Plane::new(v(0.0, 1.0, 0.0), s(0.0)));
    bodies.set(entity, v(0.0, -9.8, 0.0));
    bodies.simulate(&mut transforms);
    let after_one = to_f64(transforms.get_position(entity).y);
    assert!((after_one - (2.0 - 9.8 / 3600.0)).abs() < 1e-6);
    let mut lowest = after_one;
    for _ in 0..600 {
        bodies.simulate(&mut transforms);
        lowest = lowest.min(to_f64(transforms.get_position(entity).y));
    }
    assert!(lowest >= 0.0);
    assert!(lowest < 1.0);
}

#[test]
fn last_force_wins() {
    let (mut bodies, mut transforms, entity) = triangle();
    bodies.set(entity, v(0.0, -9.8, 0.0));
    bodies.set(entity, v(3600.0, 0.0, 0.0));
    bodies.simulate(&mut transforms);
    let position = transforms.get_position(entity);
    assert!((to_f64(position.x) - 1.0).abs() < 1e-5);
    assert!((to_f64(position.y) - 2.0).abs() < 1e-9);
    // Setting the force of an entity without a body changes nothing.
    bodies.set(Handle::new(0), v(1.0, 1.0, 1.0));
    assert_eq!(bodies.get_offsets(Handle::new(0)), [Vec3::zero(); MAX_SOFTBODY_VERT]);
}

#[test]
fn not_ready_without_mass_or_transform() {
    let (bodies, _, entity) = triangle();
    assert!(!bodies.ready(2));
    assert!(bodies.ready(3));
    let mut weightless = Manager::new(1, 0);
    weightless.register(entity);
    weightless.init_instance(entity, Scalar::zero(), &[v(0.0, 0.0, 0.0)], &[]);
    assert!(!weightless.ready(8));
}

#[test]
fn skewed_rod_settles_within_seven_raw_units() {
    for (start, end, length) in [
        (v(0.0, 0.0, 0.0), v(0.3, -0.7, 1.9), 5.0),
        (v(-4.0, 2.0, 1.0), v(6.0, -3.0, 2.5), 0.125),
        (Vec3::from_raw(0, 0, 0), Vec3::from_raw(1, 0, 0), 1000.0),
        (Vec3::from_raw(5, 5, 5), Vec3::from_raw(4, 6, 5), 25.0 / ONE_RAW as f64),
    ] {
        let mut particles = pair(start, end);
        let rod = Rod { left: 0, right: 1, length: s(length) };
        relax(&mut particles, &[rod], &[], 2);
        let apart = particles[0].position.dist(particles[1].position).raw;
        assert!((apart - rod.length.raw).abs() <= 7);
        relax(&mut particles, &[rod], &[], ITERATIONS);
        let apart = particles[0].position.dist(particles[1].position).raw;
        assert!((apart - rod.length.raw).abs() <= 7);
    }
}

#[test]
fn limb_is_a_box_about_the_origin() {
    let entity = Handle::new(0);
    let mut bodies = Manager::new(1, 0);
    let mut transforms = transform::Manager::new(1);
    bodies.register(entity);
    transforms.register(entity);
    bodies.init_limb(entity, s(3.0), s(0.5), v(1.0, 4.0, 2.0));
    assert_eq!(bodies.get_offsets(entity), [Vec3::zero(); MAX_SOFTBODY_VERT]);
    bodies.simulate(&mut transforms);
    // At rest nothing moves, and the center of the box is the origin.
    assert_eq!(transforms.get_position(entity), Vec3::zero());
    assert_eq!(bodies.get_offsets(entity), [Vec3::zero(); MAX_SOFTBODY_VERT]);
    // Pushed, the corners move together: the offsets stay small.
    bodies.set(entity, v(36000.0, 0.0, 0.0));
    bodies.simulate(&mut transforms);
    let moved = transforms.get_position(entity);
    assert!((to_f64(moved.x) - 36000.0 / 3.0 / 3600.0).abs() < 1e-5);
    for offset in bodies.get_offsets(entity) {
        assert!(to_f64(offset.x).abs() < 1e-6);
        assert!(to_f64(offset.y).abs() < 1e-6);
        assert!(to_f64(offset.z).abs() < 1e-6);
    }
}

#[test]
fn limb_has_eight_corners_and_a_rod_for_each_pair() {
    let points = [
        v(-0.5, -2.0, -1.0),
        v(-0.5, -2.0, 1.0),
        v(-0.5, 2.0, -1.0),
        v(-0.5, 2.0, 1.0),
        v(0.5, -2.0, -1.0),
        v(0.5, -2.0, 1.0),
        v(0.5, 2.0, -1.0),
        v(0.5, 2.0, 1.0),
    ];
    let mut bindings = Vec::new();
    for i in 0..8 {
        for j in i + 1..8 {
            bindings.push((i, j));
        }
    }
    assert_eq!(bindings.len(), 28);
    let entity = Handle::new(0);
    let mut by_hand = Manager::new(1, 0);
    let mut limb = Manager::new(1, 0);
    by_hand.register(entity);
    limb.register(entity);
    by_hand.init_instance(entity, s(1.0), &points, &bindings);
    limb.init_limb(entity, s(1.0), s(0.5), v(1.0, 4.0, 2.0));
    let mut first = transform::Manager::new(1);
    let mut second = transform::Manager::new(1);
    first.register(entity);
    second.register(entity);
    let ground = Plane::new(v(0.0, 1.0, 0.0), s(1.5));
    by_hand.add_plane(ground);
    limb.add_plane(ground);
    by_hand.set(entity, v(1.0, -9.8, 0.5));
    limb.set(entity, v(1.0, -9.8, 0.5));
    for _ in 0..30 {
        by_hand.simulate(&mut first);
        limb.simulate(&mut second);
    }
    assert_eq!(by_hand.get_offsets(entity), limb.get_offsets(entity));
    assert_eq!(first.get_position(entity), second.get_position(entity));
}

#[test]
fn joints_are_recorded_in_order() {
    let mut bodies = Manager::new(2, 0);
    bodies.register(Handle::new(1));
    assert!(bodies.joints().is_empty());
    let narrow = AngleRange::new(s(-10.0), s(10.0));
    let wide = AngleRange::new(s(-90.0), s(45.0));
    let fixed = AngleRange::new(s(0.0), s(0.0));
    assert_eq!(bodies.add_joint(Handle::new(0), Handle::new(1), narrow, wide, fixed), Ok(()));
    assert_eq!(bodies.add_joint(Handle::new(1), Handle::new(0), fixed, fixed, wide), Ok(()));
    assert_eq!(
        bodies.joints().to_vec(),
        vec![
            Joint { left: 0, right: 1, x: narrow, y: wide, z: fixed },
            Joint { left: 1, right: 0, x: fixed, y: fixed, z: wide },
        ]
    );
}

#[test]
fn inverted_joint_range_is_refused() {
    let mut bodies = Manager::new(2, 0);
    bodies.register(Handle::new(1));
    let good = AngleRange::new(s(-10.0), s(10.0));
    let bad = AngleRange::new(s(10.0), s(-10.0));
    assert!(good.ordered());
    assert!(!bad.ordered());
    for (x, y, z) in [(bad, good, good), (good, bad, good), (good, good, bad)] {
        assert_eq!(
            bodies.add_joint(Handle::new(0), Handle::new(1), x, y, z),
            Err(JointError::InvertedRange)
        );
    }
    assert!(bodies.joints().is_empty());
}

#[test]
fn plane_pass_leaves_no_particle_behind() {
    let planes = [
        Plane::new(v(0.0, 1.0, 0.0), s(2.0)),
        Plane::new(v(-1.0, 0.0, 0.0), s(-3.0)),
        Plane::new(v(0.0, 0.0, 1.0), s(0.0)),
    ];
    let points = [v(0.0, -5.0, 0.0), v(7.5, 1.0, -0.25), v(-4.0, -2.0, 9.0), v(-3.0, -2.0, 0.0)];
    for plane in planes {
        let mut particles: Vec<Particle> = points.iter().map(|p| Particle::new(*p)).collect();
        relax(&mut particles, &[], &[plane], 1);
        for particle in &particles {
            assert!(plane.distance(particle.position).raw >= 0);
        }
    }
}

#[test]
fn skewed_plane_leaves_a_particle_at_most_five_raw_units_behind() {
    // A normal of length one up to rounding, and a particle one raw unit behind the plane:
    // the push along each axis is lost to rounding, and the particle stays where it is.
    let plane = Plane::new(
        Vec3::from_raw(-2336545962, -3508401303, -823660944),
        Scalar::from_raw(-1423716174),
    );
    let p = Vec3::from_raw(2433591976, -5719498718, 10034812142);
    assert_eq!(plane.distance(p).raw, -1);
    assert_eq!(plane.distance(plane.reflect(p)).raw, -1);
    // Deeper behind the plane, the particle comes out in front.
    let normal = v(0.6, 0.0, 0.8);
    let slope = Plane::new(normal, s(-0.5));
    for depth in [8i64, 9, 100, 1 << 20, 1 << 32, 1 << 40] {
        let on_plane = v(0.3, 7.0, 0.4);
        let behind = on_plane.sub(normal.scale(Scalar::from_raw(depth + 4)));
        let before = slope.distance(behind).raw;
        assert!(before <= -8);
        assert!(slope.distance(slope.reflect(behind)).raw >= 0);
    }
    for depth in 0..8i64 {
        let behind = v(0.3, 7.0, 0.4).sub(normal.scale(Scalar::from_raw(depth)));
        assert!(slope.distance(slope.reflect(behind)).raw >= -5);
    }
}

#[test]
fn instance_steps_on_its_own() {
    let points = [v(0.0, 1.0, 0.0), v(2.0, 1.0, 0.0)];
    let mut body = Instance::new(s(2.0), &points, &[(0, 1)]);
    body.force = v(0.0, -7200.0, 0.0);
    body.step(&[]);
    // The acceleration is 3600 / 3600 = 1 length unit per step, up to the rounding of the step.
    assert!((to_f64(body.center.x) - 1.0).abs() < 1e-9);
    assert!((to_f64(body.center.y) - 0.0).abs() < 1e-5);
    assert_eq!(body.center, center_of(&body.particles));
    assert_eq!(body.particles[0].last, points[0]);
    assert_eq!(body.particles[1].last, points[1]);
    assert_eq!(body.offset(0), body.particles[0].position.sub(body.center).sub(points[0]));
    assert_eq!(body.model, points.to_vec());
    assert_eq!(body.mass, s(2.0));
}

#[test]
fn body_without_particles_has_its_center_at_the_origin() {
    let entity = Handle::new(0);
    let mut bodies = Manager::new(1, 0);
    let mut transforms = transform::Manager::new(1);
    bodies.register(entity);
    transforms.register(entity);
    transforms.set_position(entity, v(1.0, 2.0, 3.0));
    bodies.init_instance(entity, s(1.0), &[], &[]);
    bodies.simulate(&mut transforms);
    assert_eq!(transforms.get_position(entity), Vec3::zero());
    assert_eq!(bodies.get_offsets(entity), [Vec3::zero(); MAX_SOFTBODY_VERT]);
}

#[test]
fn init_instance_replaces_a_body() {
    let (mut bodies, mut transforms, entity) = triangle();
    bodies.set(entity, v(1.0, 0.0, 0.0));
    bodies.init_instance(entity, s(1.0), &[v(5.0, 5.0, 5.0)], &[]);
    bodies.simulate(&mut transforms);
    // The new body has no force on it and rests.
    assert_eq!(transforms.get_position(entity), v(5.0, 5.0, 5.0));
}
