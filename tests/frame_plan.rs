use flying_dragon::frame::STEPS_PER_DRAW;
use flying_dragon::{
    align_to, FrameStep, InstanceLayout, LayoutError, Node, OrbitRig, RigPose, Scene, SceneError,
    Variant, MAX_ENTITY, MAX_LIGHT, ROOT,
};
use glam::{Mat4, Quat, Vec3};

type Params = ([f32; 4], f32);

fn layout() -> InstanceLayout {
    InstanceLayout::new(64, 256, MAX_ENTITY).unwrap()
}

fn close(a: Mat4, b: Mat4) -> bool {
    a.abs_diff_eq(b, 1e-5)
}

#[test]
fn world_transform_of_three_level_chain() {
    let mut scene: Scene<Params> = Scene::new(MAX_ENTITY, MAX_LIGHT);
    let a = scene.add(Node::new_entity(0, 0)).unwrap();
    scene.translate(a, Vec3::new(1.0, 0.0, 0.0)).unwrap();
    let b = scene.insert(Node::new_entity(0, 0)).unwrap();
    scene
        .set_local_transform(
            b,
            Vec3::ZERO,
            Quat::from_rotation_z(std::f32::consts::FRAC_PI_2),
            Vec3::splat(2.0),
        )
        .unwrap();
    scene.add_child(a, b).unwrap();
    let c = scene.insert(Node::new_entity(1, 0)).unwrap();
    scene.translate(c, Vec3::new(0.0, 1.0, 0.0)).unwrap();
    scene.add_child(b, c).unwrap();

    let plan = scene.flatten(&layout());
    assert_eq!(plan.draws.len(), 3);
    let find = |n: usize| plan.draws.iter().find(|d| d.node == n).unwrap();
    // Hand-computed: C's origin is moved up by 1, scaled by 2, turned a quarter
    // about Z, then moved right by 1.
    let expected_c = Mat4::from_cols_array(&[
        0.0, 2.0, 0.0, 0.0, //
        -2.0, 0.0, 0.0, 0.0, //
        0.0, 0.0, 2.0, 0.0, //
        -1.0, 0.0, 0.0, 1.0,
    ]);
    assert!(close(find(c).world, expected_c));
    assert!(close(find(a).world, Mat4::from_translation(Vec3::new(1.0, 0.0, 0.0))));
    // Each world transform is the parent's times the node's local one.
    assert_eq!(find(c).world, find(b).world * scene.node(c).calculate_transform());
    assert_eq!(find(b).world, find(a).world * scene.node(b).calculate_transform());
    assert_eq!(find(a).world, Mat4::IDENTITY * scene.node(a).calculate_transform());
}

#[test]
fn draw_rotation_is_rotation_of_world() {
    let mut scene: Scene<Params> = Scene::new(4, 1);
    let q = Quat::from_rotation_x(0.7);
    let a = scene.add(Node::new_entity(5, 6)).unwrap();
    scene
        .set_local_transform(a, Vec3::new(3.0, 4.0, 5.0), q, Vec3::ONE)
        .unwrap();
    let plan = scene.flatten(&InstanceLayout::new(64, 256, 4).unwrap());
    let d = &plan.draws[0];
    assert_eq!(d.node, a);
    assert_eq!(d.mesh, 5);
    assert_eq!(d.material, 6);
    assert!(close(d.rotation, Mat4::from_quat(q)));
    assert_eq!(d.rotation.w_axis, glam::Vec4::W);
    assert!(!close(d.rotation, d.world));
}

#[test]
fn one_light_record_per_light_at_world_translation() {
    let mut scene: Scene<Params> = Scene::new(MAX_ENTITY, MAX_LIGHT);
    let g = scene.add(Node::new()).unwrap();
    scene.translate(g, Vec3::new(10.0, 0.0, 0.0)).unwrap();
    let l1 = scene.insert(Node::new_light(([1.0, 0.0, 0.0, 0.5], 4200.0))).unwrap();
    scene.translate(l1, Vec3::new(0.0, 5.0, 0.0)).unwrap();
    scene.add_child(g, l1).unwrap();
    let l2 = scene.add(Node::new_light(([0.0, 1.0, 0.0, 0.5], 100.0))).unwrap();
    scene.translate(l2, Vec3::new(-1.0, -2.0, -3.0)).unwrap();
    // A light that is not under the root is not part of the frame.
    let loose = scene.insert(Node::new_light(([0.0, 0.0, 1.0, 0.5], 1.0))).unwrap();

    let plan = scene.flatten(&layout());
    assert_eq!(plan.lights.len(), 2);
    assert!(plan.draws.is_empty());
    let find = |n: usize| plan.lights.iter().find(|l| l.node == n).unwrap();
    assert!(find(l1).position.abs_diff_eq(Vec3::new(10.0, 5.0, 0.0), 1e-5));
    assert_eq!(find(l1).params, ([1.0, 0.0, 0.0, 0.5], 4200.0));
    assert!(find(l2).position.abs_diff_eq(Vec3::new(-1.0, -2.0, -3.0), 1e-5));
    assert_eq!(find(l2).params.1, 100.0);
    assert!(plan.lights.iter().all(|l| l.node != loose));
}

#[test]
fn instance_offsets_are_aligned_and_disjoint() {
    let mut scene: Scene<Params> = Scene::new(16, 1);
    for _ in 0..5 {
        scene.add(Node::new_entity(0, 0)).unwrap();
    }
    let lay = InstanceLayout::new(64, 256, 16).unwrap();
    assert_eq!(lay.stride, 256);
    assert_eq!(lay.buffer_size(), 16 * 256);
    let plan = scene.flatten(&lay);
    assert_eq!(plan.draws.len(), 5);
    for (k, d) in plan.draws.iter().enumerate() {
        assert_eq!(d.offset, k as u64 * 256);
        assert_eq!(d.offset % 256, 0);
        assert_eq!(lay.offset(k), d.offset);
    }
    for w in plan.draws.windows(2) {
        assert!(w[1].offset - w[0].offset >= 64);
    }
}

#[test]
fn layout_stride_rounds_up() {
    let lay = InstanceLayout::new(100, 64, 3).unwrap();
    assert_eq!(lay.stride, 128);
    assert_eq!(lay.offset(2), 256);
    assert_eq!(lay.buffer_size(), 384);
    let exact = InstanceLayout::new(64, 64, 3).unwrap();
    assert_eq!(exact.stride, 64);
}

#[test]
fn layout_errors() {
    assert_eq!(InstanceLayout::new(0, 256, 3).unwrap_err(), LayoutError::EmptyRecord);
    assert_eq!(InstanceLayout::new(64, 0, 3).unwrap_err(), LayoutError::ZeroAlignment);
    assert_eq!(
        InstanceLayout::new(64, 256, usize::MAX).unwrap_err(),
        LayoutError::TooLarge
    );
    assert_eq!(
        InstanceLayout::new(u64::MAX - 1, 256, 1).unwrap_err(),
        LayoutError::TooLarge
    );
}

#[test]
fn align_to_values() {
    assert_eq!(align_to(253, 16), Some(256));
    assert_eq!(align_to(256, 16), Some(256));
    assert_eq!(align_to(0, 16), Some(0));
    assert_eq!(align_to(64, 256), Some(256));
    assert_eq!(align_to(5, 0), None);
    assert_eq!(align_to(u64::MAX, 2), None);
}

fn orbit_pose(time: f32, radius: f32) -> RigPose {
    let dir = Vec3::new(
        (0.00058 * time).sin(),
        (0.00076 * time).sin(),
        (0.00042 * time).sin(),
    )
    .normalize();
    RigPose {
        light_translation: dir * radius,
        marker_angles: Vec3::new(0.1 * time, 0.2 * time, 0.3 * time),
    }
}

#[test]
fn repeated_update_gives_same_world_transforms() {
    let mut scene: Scene<Params> = Scene::new(8, 4);
    let rig = scene
        .add_light_rig(([1.0, 0.0, 0.0, 0.5], 4200.0), 0, 1, Vec3::new(0.0, -2.0, 0.0), 6000)
        .unwrap();
    let pose = orbit_pose(1234.0, 70.0);
    scene.apply_pose(&rig, &pose).unwrap();
    let once = scene.flatten(&layout());
    scene.apply_pose(&rig, &pose).unwrap();
    let twice = scene.flatten(&layout());
    assert_eq!(once.draws.len(), twice.draws.len());
    for (a, b) in once.draws.iter().zip(twice.draws.iter()) {
        assert_eq!(a.world, b.world);
        assert_eq!(a.rotation, b.rotation);
    }
    assert_eq!(once.lights[0].position, twice.lights[0].position);
}

#[test]
fn orbiting_light_stays_on_its_sphere() {
    let radius = 70.0;
    let center = Vec3::new(4.0, -3.0, 2.0);
    let mut scene: Scene<Params> = Scene::new(MAX_ENTITY, MAX_LIGHT);
    let e = scene.add(Node::new_entity(0, 0)).unwrap();
    scene
        .set_local_transform(e, Vec3::ZERO, Quat::IDENTITY, Vec3::ONE)
        .unwrap();
    let group = scene.add(Node::new()).unwrap();
    scene.translate(group, center).unwrap();
    let light = scene.insert(Node::new_light(([0.0, 1.0, 0.0, 0.5], 4200.0))).unwrap();
    scene.add_child(group, light).unwrap();
    let marker = scene.insert(Node::new_entity(1, 1)).unwrap();
    scene.add_child(light, marker).unwrap();
    let rig = OrbitRig { light, marker, time_offset: 0 };
    scene.apply_pose(&rig, &orbit_pose(1000.0, radius)).unwrap();

    let plan = scene.flatten(&layout());
    assert_eq!(plan.lights.len(), 1);
    let p = plan.lights[0].position;
    assert!(((p - center).length() - radius).abs() < 1e-3);
    let d = plan.draws.iter().find(|d| d.node == e).unwrap();
    assert_eq!(d.world, Mat4::IDENTITY);
}

#[test]
fn adding_past_entity_capacity_fails_once() {
    let mut scene: Scene<Params> = Scene::new(MAX_ENTITY, MAX_LIGHT);
    let first = scene.add(Node::new_entity(0, 0)).unwrap();
    scene.translate(first, Vec3::new(1.0, 2.0, 3.0)).unwrap();
    let mut failures = 0;
    for _ in 1..MAX_ENTITY + 1 {
        match scene.add(Node::new_entity(0, 0)) {
            Ok(_) => {}
            Err(e) => {
                assert_eq!(e, SceneError::EntityCapacity);
                failures += 1;
            }
        }
    }
    assert_eq!(failures, 1);
    assert_eq!(scene.entity_count, MAX_ENTITY);
    assert_eq!(scene.node(first).translation, Vec3::new(1.0, 2.0, 3.0));
    let plan = scene.flatten(&layout());
    assert_eq!(plan.draws.len(), MAX_ENTITY);
    let d = plan.draws.iter().find(|d| d.node == first).unwrap();
    assert!(close(d.world, Mat4::from_translation(Vec3::new(1.0, 2.0, 3.0))));
    assert!(plan.draws.iter().all(|d| d.offset < layout().buffer_size()));
}

#[test]
fn light_rig_structure() {
    let mut scene: Scene<Params> = Scene::new(8, 1);
    let rig = scene
        .add_light_rig(([0.0, 0.0, 1.0, 0.5], 4200.0), 2, 3, Vec3::new(0.0, -2.0, 0.0), 4400)
        .unwrap();
    assert_eq!(rig, OrbitRig { light: 1, marker: 2, time_offset: 4400 });
    assert_eq!(scene.node(ROOT).children, vec![1]);
    assert_eq!(scene.node(1).children, vec![2]);
    assert_eq!(scene.node(2).parent, Some(1));
    assert!(matches!(scene.node(1).variant, Variant::Light(_)));
    assert!(matches!(scene.node(2).variant, Variant::Entity(2, 3)));
    assert_eq!(scene.node(2).translation, Vec3::new(0.0, -2.0, 0.0));
    assert_eq!(
        scene.add_light_rig(([0.0; 4], 1.0), 2, 3, Vec3::ZERO, 0),
        Err(SceneError::LightCapacity)
    );
    assert_eq!(scene.nodes.len(), 3);
    let bad = OrbitRig { light: 9, marker: 2, time_offset: 0 };
    assert_eq!(
        scene.apply_pose(&bad, &orbit_pose(0.0, 1.0)),
        Err(SceneError::UnknownNode)
    );
}

#[test]
fn light_rig_needs_entity_room() {
    let mut scene: Scene<Params> = Scene::new(0, 2);
    assert_eq!(
        scene.add_light_rig(([0.0; 4], 1.0), 0, 0, Vec3::ZERO, 0),
        Err(SceneError::EntityCapacity)
    );
    assert_eq!(scene.light_count, 0);
}

#[test]
fn frame_steps_follow_draw_list() {
    let mut scene: Scene<Params> = Scene::new(4, 1);
    scene.add(Node::new_entity(7, 8)).unwrap();
    scene.add(Node::new_entity(9, 8)).unwrap();
    let plan = scene.flatten(&InstanceLayout::new(64, 256, 4).unwrap());
    let steps = plan.steps();
    assert_eq!(steps.len(), 2 * STEPS_PER_DRAW);
    for (i, d) in plan.draws.iter().enumerate() {
        let s = &steps[i * STEPS_PER_DRAW..(i + 1) * STEPS_PER_DRAW];
        assert_eq!(s[0], FrameStep::Bind { material: 8, offset: d.offset });
        assert_eq!(s[1], FrameStep::UploadCamera { material: 8 });
        assert_eq!(s[2], FrameStep::UploadLights { material: 8 });
        assert_eq!(s[3], FrameStep::UploadTime { material: 8 });
        assert_eq!(s[4], FrameStep::UploadTransform { material: 8, offset: d.offset, item: i });
        assert_eq!(s[5], FrameStep::UploadRotation { material: 8, offset: d.offset, item: i });
        assert_eq!(s[6], FrameStep::Draw { mesh: d.mesh });
    }
    let empty: Scene<Params> = Scene::new(4, 1);
    assert!(empty.flatten(&InstanceLayout::new(64, 256, 4).unwrap()).steps().is_empty());
}
