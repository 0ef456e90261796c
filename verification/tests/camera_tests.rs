use gloom_rs::camera::Camera;
use gloom_rs::draw::DrawCall;
use gloom_rs::frame::{Engine, NodeUpdate};
use gloom_rs::input::{Key, KeySet};
use gloom_rs::scene::Scene;
use nalgebra_glm::{identity, perspective, rotation, translation, vec1, vec3, Mat4, Vec3};

fn test_camera() -> Camera {
    let home: Mat4 = identity();
    Camera::new(
        home,
        vec3(0.0, -40.0, 0.0),
        vec3(0.0, 40.0, 0.0),
        vec3(40.0, 0.0, 0.0),
        vec3(-40.0, 0.0, 0.0),
        vec3(0.0, 0.0, 40.0),
        vec3(0.0, 0.0, -40.0),
        rotation(0.03, &vec3(-10.0, 0.0, 0.0)),
        rotation(0.03, &vec3(10.0, 0.0, 0.0)),
        rotation(0.03, &vec3(0.0, -10.0, 0.0)),
        rotation(0.03, &vec3(0.0, 10.0, 0.0)),
    )
}

#[test]
fn translation_key_scales_with_delta_time() {
    let mut cam = test_camera();
    let mut keys = KeySet::new();
    keys.press(Key::W);
    cam.apply_keys(&keys, &vec1(0.5));
    let expected = translation(&(vec3(0.0, -40.0, 0.0) * 0.5)) * identity::<f32, 4>();
    assert_eq!(cam.trans, expected);
}

#[test]
fn rotation_key_is_fixed_increment() {
    let mut cam = test_camera();
    let mut keys = KeySet::new();
    keys.press(Key::Up);
    // the increment is deliberately independent of the frame's delta time
    cam.apply_keys(&keys, &vec1(0.25));
    let first = cam.trans;
    let mut cam2 = test_camera();
    cam2.apply_keys(&keys, &vec1(0.9));
    assert_eq!(first, cam2.trans);
    let expected = rotation(0.03, &vec3(-10.0, 0.0, 0.0)) * identity::<f32, 4>();
    assert_eq!(first, expected);
}

#[test]
fn reset_key_restores_home() {
    let mut cam = test_camera();
    let mut keys = KeySet::new();
    keys.press(Key::W);
    keys.press(Key::Left);
    cam.apply_keys(&keys, &vec1(0.1));
    assert_ne!(cam.trans, identity::<f32, 4>());
    let mut reset = KeySet::new();
    reset.press(Key::R);
    cam.apply_keys(&reset, &vec1(0.1));
    assert_eq!(cam.trans, identity::<f32, 4>());
}

#[test]
fn keys_apply_in_press_order() {
    let mut cam = test_camera();
    let mut keys = KeySet::new();
    keys.press(Key::W);
    keys.press(Key::Up);
    let dt = vec1(0.5);
    cam.apply_keys(&keys, &dt);
    let step = translation(&(vec3(0.0, -40.0, 0.0) * 0.5)) * identity::<f32, 4>();
    let expected = rotation(0.03, &vec3(-10.0, 0.0, 0.0)) * step;
    assert_eq!(cam.trans, expected);
}

#[test]
fn frame_collects_draw_calls_under_view_projection() {
    let mut scene = Scene::new();
    let root = scene.create();
    let body = scene.create_with_geometry(11, 240);
    scene.add_child(root, body);
    scene.set_position(body, vec3(0.0, 2.0, 0.0));

    let persp: Mat4 = perspective(16.0 / 9.0, std::f32::consts::PI / 2.0, 1.0, 1000.0);
    let offset: Mat4 = translation(&vec3(-10.0, 0.0, -10.0));
    let seed: Mat4 = identity();
    let mut engine = Engine::new(scene, test_camera(), persp, offset, seed, root);

    let keys = KeySet::new();
    let updates: Vec<NodeUpdate> = Vec::new();
    let calls: Vec<DrawCall> = engine.frame(&keys, &vec1(0.016), &updates);

    assert_eq!(calls.len(), 1);
    assert_eq!(calls[0].vao_id, 11);
    assert_eq!(calls[0].index_count, 240);
    let vp = (persp * engine.camera.trans) * offset;
    assert_eq!(calls[0].model, translation(&vec3(0.0, 2.0, 0.0)));
    assert_eq!(calls[0].mvp, vp * calls[0].model);
}

#[test]
fn frame_applies_animation_updates() {
    let mut scene = Scene::new();
    let root = scene.create();
    let rotor = scene.create_with_geometry(3, 90);
    scene.add_child(root, rotor);

    let seed: Mat4 = identity();
    let offset: Mat4 = identity();
    let persp: Mat4 = identity();
    let mut engine = Engine::new(scene, test_camera(), persp, offset, seed, root);

    let keys = KeySet::new();
    let new_pos: Vec3 = vec3(3.0, 0.0, -1.0);
    let updates = vec![NodeUpdate::Position(rotor, new_pos)];
    let calls = engine.frame(&keys, &vec1(0.02), &updates);

    assert_eq!(calls.len(), 1);
    assert_eq!(calls[0].model, translation(&new_pos));
}
