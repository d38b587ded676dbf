use flying_dragon::{Node, Scene, SceneError, Variant, ROOT};
use glam::{EulerRot, Mat4, Quat, Vec3};

type Params = ([f32; 4], f32);

fn close(a: Mat4, b: Mat4) -> bool {
    a.abs_diff_eq(b, 1e-5)
}

#[test]
fn new_scene_holds_only_the_root_group() {
    let scene: Scene<Params> = Scene::new(4, 2);
    assert_eq!(scene.nodes.len(), 1);
    assert!(matches!(scene.node(ROOT).variant, Variant::Group));
    assert!(scene.node(ROOT).parent.is_none());
    assert_eq!(scene.base, Mat4::IDENTITY);
    assert_eq!(scene.entity_count, 0);
    assert_eq!(scene.light_count, 0);
}

#[test]
fn new_node_has_identity_transform() {
    let n: Node<Params> = Node::new();
    assert_eq!(n.translation, Vec3::ZERO);
    assert_eq!(n.scale, Vec3::ONE);
    assert_eq!(n.rotation, Quat::IDENTITY);
    assert_eq!(n.calculate_transform(), Mat4::IDENTITY);
    assert!(n.children.is_empty());
    assert!(n.parent.is_none());
}

#[test]
fn node_constructors_set_the_payload() {
    let l: Node<Params> = Node::new_light(([1.0, 0.0, 0.0, 0.5], 4200.0));
    match l.variant {
        Variant::Light((c, r)) => {
            assert_eq!(c, [1.0, 0.0, 0.0, 0.5]);
            assert_eq!(r, 4200.0);
        }
        _ => panic!("not a light"),
    }
    let e: Node<Params> = Node::new_entity(3, 7);
    assert!(matches!(e.variant, Variant::Entity(3, 7)));
}

#[test]
fn calculate_transform_is_translation_rotation_scale() {
    let mut n: Node<Params> = Node::new();
    n.translate(Vec3::new(1.0, 2.0, 3.0));
    n.scale(Vec3::new(2.0, 2.0, 2.0));
    n.rotate_quat(Quat::from_rotation_z(std::f32::consts::FRAC_PI_2));
    // x axis: rotated (1,0,0) scaled by 2 -> (0,2,0); y axis -> (-2,0,0).
    let expected = Mat4::from_cols_array(&[
        0.0, 2.0, 0.0, 0.0, //
        -2.0, 0.0, 0.0, 0.0, //
        0.0, 0.0, 2.0, 0.0, //
        1.0, 2.0, 3.0, 1.0,
    ]);
    assert!(close(n.calculate_transform(), expected));
}

#[test]
fn rotate_uses_xyz_euler_angles() {
    let mut n: Node<Params> = Node::new();
    n.rotate(Vec3::new(0.3, -0.2, 1.1));
    let expected = Quat::from_euler(EulerRot::XYZ, 0.3, -0.2, 1.1);
    assert!(n.rotation.abs_diff_eq(expected, 1e-6));
    assert!(!n.rotation.abs_diff_eq(Quat::IDENTITY, 1e-3));
}

#[test]
fn node_add_child_appends_handle() {
    let mut n: Node<Params> = Node::new();
    n.add_child(4);
    n.add_child(2);
    assert_eq!(n.children, vec![4, 2]);
}

#[test]
fn insert_gives_consecutive_handles() {
    let mut scene: Scene<Params> = Scene::new(4, 2);
    assert_eq!(scene.insert(Node::new()), Ok(1));
    assert_eq!(scene.insert(Node::new_entity(0, 0)), Ok(2));
    assert_eq!(scene.insert(Node::new_light(([1.0; 4], 1.0))), Ok(3));
    assert_eq!(scene.entity_count, 1);
    assert_eq!(scene.light_count, 1);
    assert!(scene.node(2).parent.is_none());
}

#[test]
fn insert_rejects_linked_node() {
    let mut scene: Scene<Params> = Scene::new(4, 2);
    let mut n: Node<Params> = Node::new();
    n.add_child(0);
    assert_eq!(scene.insert(n), Err(SceneError::NodeLinked));
    let mut m: Node<Params> = Node::new();
    m.parent = Some(0);
    assert_eq!(scene.insert(m), Err(SceneError::NodeLinked));
    assert_eq!(scene.nodes.len(), 1);
}

#[test]
fn add_attaches_under_root() {
    let mut scene: Scene<Params> = Scene::new(4, 2);
    let a = scene.add(Node::new_entity(1, 2)).unwrap();
    let b = scene.add(Node::new()).unwrap();
    assert_eq!(scene.node(ROOT).children, vec![a, b]);
    assert_eq!(scene.node(a).parent, Some(ROOT));
    assert_eq!(scene.node(b).parent, Some(ROOT));
}

#[test]
fn add_child_errors() {
    let mut scene: Scene<Params> = Scene::new(4, 2);
    let a = scene.insert(Node::new()).unwrap();
    let b = scene.insert(Node::new()).unwrap();
    assert_eq!(scene.add_child(a, 9), Err(SceneError::UnknownNode));
    assert_eq!(scene.add_child(9, a), Err(SceneError::UnknownNode));
    assert_eq!(scene.add_child(b, a), Err(SceneError::ParentNotEarlier));
    assert_eq!(scene.add_child(a, a), Err(SceneError::ParentNotEarlier));
    assert_eq!(scene.add_child(a, ROOT), Err(SceneError::ParentNotEarlier));
    assert_eq!(scene.add_child(a, b), Ok(()));
    assert_eq!(scene.add_child(ROOT, b), Err(SceneError::AlreadyAttached));
    assert_eq!(scene.node(a).children, vec![b]);
    assert_eq!(scene.node(b).parent, Some(a));
}

#[test]
fn light_capacity_is_enforced() {
    let mut scene: Scene<Params> = Scene::new(4, 1);
    assert!(scene.add(Node::new_light(([1.0; 4], 1.0))).is_ok());
    assert_eq!(scene.add(Node::new_light(([1.0; 4], 1.0))), Err(SceneError::LightCapacity));
    assert_eq!(scene.light_count, 1);
    assert_eq!(scene.nodes.len(), 2);
}

#[test]
fn setters_change_one_node() {
    let mut scene: Scene<Params> = Scene::new(4, 2);
    let a = scene.add(Node::new_entity(0, 0)).unwrap();
    let q = Quat::from_rotation_y(0.5);
    assert_eq!(
        scene.set_local_transform(a, Vec3::new(1.0, 2.0, 3.0), q, Vec3::splat(3.0)),
        Ok(())
    );
    assert_eq!(scene.node(a).translation, Vec3::new(1.0, 2.0, 3.0));
    assert_eq!(scene.node(a).rotation, q);
    assert_eq!(scene.node(a).scale, Vec3::splat(3.0));
    assert_eq!(scene.translate(a, Vec3::new(0.0, 1.0, 0.0)), Ok(()));
    assert_eq!(scene.node(a).translation, Vec3::new(0.0, 1.0, 0.0));
    assert_eq!(scene.node(a).rotation, q);
    assert_eq!(scene.rotate(a, Vec3::new(0.0, 0.0, 1.0)), Ok(()));
    assert!(scene
        .node(a)
        .rotation
        .abs_diff_eq(Quat::from_euler(EulerRot::XYZ, 0.0, 0.0, 1.0), 1e-6));
    assert_eq!(scene.translate(5, Vec3::ZERO), Err(SceneError::UnknownNode));
    assert_eq!(scene.rotate(5, Vec3::ZERO), Err(SceneError::UnknownNode));
    assert_eq!(
        scene.set_local_transform(5, Vec3::ZERO, Quat::IDENTITY, Vec3::ONE),
        Err(SceneError::UnknownNode)
    );
}
