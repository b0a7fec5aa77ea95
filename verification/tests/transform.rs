use softbody::alg::mat4::Mat4;
use softbody::alg::quat::Quat;
use softbody::alg::scalar::{Scalar, ONE_RAW};
use softbody::alg::vec3::Vec3;
use softbody::components::transform::{HierarchyError, Manager, Transform};
use softbody::components::Component;
use softbody::entity::Handle;

fn s(v: f64) -> Scalar {
    Scalar::from_raw((v * ONE_RAW as f64).round() as i64)
}

fn v(x: f64, y: f64, z: f64) -> Vec3 {
    Vec3::new(s(x), s(y), s(z))
}

fn close(a: Vec3, x: f64, y: f64, z: f64) -> bool {
    let to_f64 = |c: Scalar| c.raw as f64 / ONE_RAW as f64;
    (to_f64(a.x) - x).abs() < 1e-6
        && (to_f64(a.y) - y).abs() < 1e-6
        && (to_f64(a.z) - z).abs() < 1e-6
}

fn quarter_turn_z() -> Quat {
    let h = (0.5f64).sqrt();
    Quat::new(s(0.0), s(0.0), s(h), s(h))
}

#[test]
fn blank_transform() {
    let blank = Transform::blank(4);
    assert_eq!(blank.position, Vec3::zero());
    assert_eq!(blank.local_position, Vec3::zero());
    assert_eq!(blank.orientation, Quat::id());
    assert_eq!(blank.local_orientation, Quat::id());
    assert_eq!(blank.scale, Vec3::one());
    assert_eq!(blank.local_scale, Vec3::one());
    assert_eq!(blank.parent, None);
    assert!(blank.children.is_empty());
    assert_eq!(blank.cached_transform, Mat4::id());
}

#[test]
fn register_fills_with_blank_transforms() {
    let mut transforms = Manager::new(0);
    assert_eq!(transforms.count(), 0);
    transforms.register(Handle::new(2));
    assert_eq!(transforms.count(), 3);
    assert_eq!(transforms.get(Handle::new(1)), (Vec3::zero(), Quat::id(), Vec3::one()));
    transforms.set_position(Handle::new(1), v(1.0, 2.0, 3.0));
    transforms.register(Handle::new(0));
    transforms.register(Handle::new(2));
    assert_eq!(transforms.count(), 3);
    assert_eq!(transforms.get_position(Handle::new(1)), v(1.0, 2.0, 3.0));
}

#[test]
fn setters_and_getters() {
    let mut transforms = Manager::new(2);
    let entity = Handle::new(1);
    transforms.register(entity);
    transforms.set(entity, v(1.0, 2.0, 3.0), quarter_turn_z(), v(2.0, 2.0, 2.0));
    assert_eq!(transforms.get(entity), (v(1.0, 2.0, 3.0), quarter_turn_z(), v(2.0, 2.0, 2.0)));
    transforms.set_position(entity, v(4.0, 5.0, 6.0));
    transforms.set_orientation(entity, Quat::id());
    transforms.set_scale(entity, v(1.0, 2.0, 3.0));
    assert_eq!(transforms.get_position(entity), v(4.0, 5.0, 6.0));
    assert_eq!(transforms.get_orientation(entity), Quat::id());
    assert_eq!(transforms.get_scale(entity), v(1.0, 2.0, 3.0));
    assert_eq!(transforms.get(Handle::new(0)), (Vec3::zero(), Quat::id(), Vec3::one()));
}

#[test]
fn parent_refuses_cycles_and_second_parents() {
    let mut transforms = Manager::new(4);
    transforms.register(Handle::new(3));
    let (a, b, c, d) = (Handle::new(0), Handle::new(1), Handle::new(2), Handle::new(3));
    assert_eq!(transforms.parent(a, a), Err(HierarchyError::Cycle));
    assert_eq!(transforms.parent(b, a), Ok(()));
    assert_eq!(transforms.parent(c, b), Ok(()));
    assert_eq!(transforms.parent(a, c), Err(HierarchyError::Cycle));
    assert_eq!(transforms.parent(a, b), Err(HierarchyError::Cycle));
    assert_eq!(transforms.parent(c, a), Err(HierarchyError::HasParent));
    assert_eq!(transforms.parent(b, d), Err(HierarchyError::HasParent));
    assert_eq!(transforms.parent(d, c), Ok(()));
    assert_eq!(transforms.parent(a, d), Err(HierarchyError::Cycle));
}

#[test]
fn parenting_rebuilds_no_cache() {
    let mut transforms = Manager::new(2);
    let (root, child) = (Handle::new(0), Handle::new(1));
    transforms.register(child);
    transforms.set_position(root, v(10.0, 0.0, 0.0));
    transforms.set_position(child, v(1.0, 0.0, 0.0));
    assert_eq!(transforms.parent(child, root), Ok(()));
    assert_eq!(transforms.get_position(child), v(1.0, 0.0, 0.0));
    transforms.update_cached(child);
    assert_eq!(transforms.get_position(child), v(11.0, 0.0, 0.0));
}

#[test]
fn update_cached_composes_with_the_parent() {
    let mut transforms = Manager::new(2);
    let (root, child) = (Handle::new(0), Handle::new(1));
    transforms.register(child);
    transforms.set(root, v(10.0, 0.0, 0.0), quarter_turn_z(), v(2.0, 2.0, 2.0));
    transforms.set(child, v(1.0, 0.0, 0.0), Quat::id(), v(1.0, 3.0, 1.0));
    assert_eq!(transforms.parent(child, root), Ok(()));
    transforms.update_cached(child);
    // (1, 0, 0) is doubled, turned to (0, 2, 0) and moved by (10, 0, 0).
    let (position, orientation, scale) = transforms.get(child);
    assert!(close(position, 10.0, 2.0, 0.0));
    assert!(close(scale, 2.0, 6.0, 2.0));
    let h = (0.5f64).sqrt();
    assert!(close(Vec3::new(orientation.x, orientation.y, orientation.z), 0.0, 0.0, h));
    assert!((orientation.w.raw as f64 / ONE_RAW as f64 - h).abs() < 1e-6);
}

fn chain(locals: [(Vec3, Quat, Vec3); 3]) -> (Manager, [Handle; 3]) {
    let mut transforms = Manager::new(3);
    let handles = [Handle::new(0), Handle::new(1), Handle::new(2)];
    transforms.register(handles[2]);
    for i in 0..3 {
        transforms.set(handles[i], locals[i].0, locals[i].1, locals[i].2);
    }
    assert_eq!(transforms.parent(handles[1], handles[0]), Ok(()));
    assert_eq!(transforms.parent(handles[2], handles[1]), Ok(()));
    (transforms, handles)
}

fn product(locals: [(Vec3, Quat, Vec3); 3]) -> Mat4 {
    let matrix = |l: (Vec3, Quat, Vec3)| Mat4::transform(l.0, l.1, l.2);
    matrix(locals[0]).mul(matrix(locals[1])).mul(matrix(locals[2]))
}

#[test]
fn hierarchy_propagates_translations() {
    let locals = [
        (v(1.0, 0.0, 0.0), Quat::id(), Vec3::one()),
        (v(0.0, 2.0, 0.0), Quat::id(), Vec3::one()),
        (v(0.0, 0.0, 3.0), Quat::id(), Vec3::one()),
    ];
    let (mut transforms, handles) = chain(locals);
    transforms.update_children(handles[0]);
    assert_eq!(transforms.get_position(handles[1]), v(1.0, 2.0, 0.0));
    assert_eq!(transforms.get_position(handles[2]), v(1.0, 2.0, 3.0));
    assert_eq!(transforms.get_position(handles[2]), product(locals).mul_point(Vec3::zero()));
}

#[test]
fn hierarchy_propagates_scale_and_rotation() {
    let locals = [
        (v(1.0, 0.0, 0.0), quarter_turn_z(), v(2.0, 1.0, 1.0)),
        (v(0.0, 2.0, 0.0), Quat::id(), v(1.0, 3.0, 0.5)),
        (v(1.0, 1.0, 3.0), quarter_turn_z(), v(1.0, 1.0, 4.0)),
    ];
    let (mut transforms, handles) = chain(locals);
    transforms.update_children(handles[0]);
    let leaf = transforms.get_position(handles[2]);
    assert_eq!(leaf, product(locals).mul_point(Vec3::zero()));
    // mid: (0, 2, 0) scaled by (2, 1, 1), turned to (-2, 0, 0), moved to (-1, 0, 0).
    assert!(close(transforms.get_position(handles[1]), -1.0, 0.0, 0.0));
    // leaf in mid's frame: (1, 1, 3) scaled by (1, 3, 0.5) = (1, 3, 1.5), moved to (1, 5, 1.5);
    // in the world: scaled to (2, 5, 1.5), turned to (-5, 2, 1.5), moved to (-4, 2, 1.5).
    assert!(close(leaf, -4.0, 2.0, 1.5));
}

#[test]
fn update_children_leaves_the_rest_alone() {
    let mut transforms = Manager::new(5);
    transforms.register(Handle::new(4));
    let h = |i: u32| Handle::new(i);
    for i in 0..5 {
        transforms.set_position(h(i), v(i as f64 + 1.0, 0.0, 0.0));
    }
    // 0 <- 1 <- 2, 0 <- 3, and 4 alone.
    assert_eq!(transforms.parent(h(1), h(0)), Ok(()));
    assert_eq!(transforms.parent(h(2), h(1)), Ok(()));
    assert_eq!(transforms.parent(h(3), h(0)), Ok(()));
    transforms.update_children(h(1));
    // Only 2 was rebuilt, under the cache of 1, which does not know of 0 yet.
    assert_eq!(transforms.get_position(h(1)), v(2.0, 0.0, 0.0));
    assert_eq!(transforms.get_position(h(2)), v(5.0, 0.0, 0.0));
    assert_eq!(transforms.get_position(h(3)), v(4.0, 0.0, 0.0));
    transforms.update_children(h(0));
    assert_eq!(transforms.get_position(h(0)), v(1.0, 0.0, 0.0));
    assert_eq!(transforms.get_position(h(1)), v(3.0, 0.0, 0.0));
    assert_eq!(transforms.get_position(h(2)), v(6.0, 0.0, 0.0));
    assert_eq!(transforms.get_position(h(3)), v(5.0, 0.0, 0.0));
    assert_eq!(transforms.get_position(h(4)), v(5.0, 0.0, 0.0));
    // Moving the root shows in the descendants only after the next update.
    transforms.set_position(h(0), v(0.0, 1.0, 0.0));
    assert_eq!(transforms.get_position(h(2)), v(6.0, 0.0, 0.0));
    transforms.update_children(h(0));
    assert_eq!(transforms.get_position(h(2)), v(5.0, 1.0, 0.0));
}

#[test]
fn handle_carries_its_index() {
    assert_eq!(Handle::new(7).get_index(), 7);
    assert_eq!(Handle::new(0), Handle::new(0));
    assert_ne!(Handle::new(0), Handle::new(1));
}

#[test]
fn transform_rebuilds_its_cache_under_a_parent_matrix() {
    let mut child = Transform::blank(0);
    child.local_position = v(0.0, 1.0, 0.0);
    child.local_scale = v(1.0, 1.0, 5.0);
    let parent = Mat4::transform(v(3.0, 0.0, 0.0), Quat::id(), v(2.0, 2.0, 2.0));
    child.update_cached(parent);
    assert_eq!(child.position, v(3.0, 2.0, 0.0));
    assert_eq!(child.scale, v(2.0, 2.0, 10.0));
    assert_eq!(child.orientation, Quat::id());
    assert_eq!(child.cached_transform, parent.mul(Mat4::transform(
        v(0.0, 1.0, 0.0),
        Quat::id(),
        v(1.0, 1.0, 5.0),
    )));
    // What was authored stays.
    assert_eq!(child.local_position, v(0.0, 1.0, 0.0));
    assert_eq!(child.local_scale, v(1.0, 1.0, 5.0));
}

#[test]
fn writing_a_root_rebuilds_its_matrix_for_its_children() {
    let mut transforms = Manager::new(2);
    let (root, child) = (Handle::new(0), Handle::new(1));
    transforms.register(child);
    transforms.set_position(child, v(0.0, 0.0, 1.0));
    assert_eq!(transforms.parent(child, root), Ok(()));
    transforms.set_scale(root, v(3.0, 3.0, 3.0));
    transforms.update_children(root);
    assert_eq!(transforms.get_position(child), v(0.0, 0.0, 3.0));
    assert_eq!(transforms.get_scale(child), v(3.0, 3.0, 3.0));
    transforms.set_orientation(root, quarter_turn_z());
    transforms.set_position(root, v(1.0, 1.0, 1.0));
    transforms.update_children(root);
    assert!(close(transforms.get_position(child), 1.0, 1.0, 4.0));
    // Writing a child sets what it is relative to its parent.
    transforms.set_position(child, v(1.0, 0.0, 0.0));
    assert_eq!(transforms.get_position(child), v(1.0, 0.0, 0.0));
    transforms.update_cached(child);
    assert!(close(transforms.get_position(child), 1.0, 4.0, 1.0));
}
