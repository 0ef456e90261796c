use gloom_rs::draw::DrawCall;
use gloom_rs::scene::Scene;
use nalgebra_glm::{identity, rotation, scaling, translation, vec3, Mat4, Vec3};

/// The node's local matrix, built with the same calls in the same order as
/// the library's propagation pass.
fn expected_local(pos: &Vec3, rot: &Vec3, scale: &Vec3, refp: &Vec3) -> Mat4 {
    let mut t: Mat4 = translation(&(-refp));
    t = scaling(scale) * t;
    t = rotation(rot[0], &vec3(1.0, 0.0, 0.0)) * t;
    t = rotation(rot[1], &vec3(0.0, 1.0, 0.0)) * t;
    t = rotation(rot[2], &vec3(0.0, 0.0, 1.0)) * t;
    t = translation(refp) * t;
    t = translation(pos) * t;
    t
}

#[test]
fn end_to_end_translation_chain() {
    let mut scene = Scene::new();
    let root = scene.create();
    let child = scene.create();
    let grandchild = scene.create();
    scene.set_position(child, vec3(1.0, 0.0, 0.0));
    scene.set_rotation(child, vec3(0.0, 0.0, 0.0));
    scene.set_scale(child, vec3(1.0, 1.0, 1.0));
    scene.set_reference_point(child, vec3(0.0, 0.0, 0.0));
    scene.set_position(grandchild, vec3(0.0, 1.0, 0.0));
    scene.add_child(root, child);
    scene.add_child(child, grandchild);

    let seed: Mat4 = identity();
    scene.update_node_transformations(root, &seed);

    assert_eq!(
        *scene.current_transformation_matrix(child),
        translation(&vec3(1.0, 0.0, 0.0))
    );
    assert_eq!(
        *scene.current_transformation_matrix(grandchild),
        translation(&vec3(1.0, 1.0, 0.0))
    );
}

#[test]
fn depth_three_composition_known_values() {
    let mut scene = Scene::new();
    let root = scene.create();
    let a = scene.create();
    let b = scene.create();
    scene.add_child(root, a);
    scene.add_child(a, b);

    let a_pos = vec3(1.5, -2.0, 3.25);
    let a_rot = vec3(0.3, -0.7, 1.1);
    let a_scale = vec3(2.0, 0.5, 1.25);
    let a_ref = vec3(0.25, 2.3, -0.5);
    scene.set_position(a, a_pos);
    scene.set_rotation(a, a_rot);
    scene.set_scale(a, a_scale);
    scene.set_reference_point(a, a_ref);

    let b_pos = vec3(-0.5, 4.0, 0.125);
    let b_rot = vec3(-1.2, 0.4, 0.9);
    let b_scale = vec3(1.5, 3.0, 0.75);
    let b_ref = vec3(1.0, -1.0, 2.0);
    scene.set_position(b, b_pos);
    scene.set_rotation(b, b_rot);
    scene.set_scale(b, b_scale);
    scene.set_reference_point(b, b_ref);

    let seed: Mat4 = identity();
    scene.update_node_transformations(root, &seed);

    let root_m = *scene.current_transformation_matrix(root);
    let a_expected = root_m * expected_local(&a_pos, &a_rot, &a_scale, &a_ref);
    assert_eq!(*scene.current_transformation_matrix(a), a_expected);
    let b_expected = a_expected * expected_local(&b_pos, &b_rot, &b_scale, &b_ref);
    assert_eq!(*scene.current_transformation_matrix(b), b_expected);
}

#[test]
fn propagation_is_idempotent() {
    let mut scene = Scene::new();
    let root = scene.create();
    let a = scene.create_with_geometry(7, 36);
    scene.add_child(root, a);
    scene.set_position(a, vec3(0.1, 0.2, 0.3));
    scene.set_rotation(a, vec3(0.4, 0.5, 0.6));

    let seed: Mat4 = identity();
    scene.update_node_transformations(root, &seed);
    let first = *scene.current_transformation_matrix(a);
    scene.update_node_transformations(root, &seed);
    let second = *scene.current_transformation_matrix(a);
    assert_eq!(first, second);
}

#[test]
fn draw_calls_match_geometry_nodes() {
    let mut scene = Scene::new();
    let root = scene.create();
    let terrain = scene.create_with_geometry(1, 300);
    let body = scene.create_with_geometry(2, 600);
    let group = scene.create();
    let rotor = scene.create_with_geometry(3, 90);
    scene.add_child(root, terrain);
    scene.add_child(terrain, body);
    scene.add_child(body, group);
    scene.add_child(body, rotor);

    let seed: Mat4 = identity();
    scene.update_node_transformations(root, &seed);

    let vp: Mat4 = translation(&vec3(0.0, 0.0, -3.0));
    let mut calls: Vec<DrawCall> = Vec::new();
    scene.draw_scene(root, &vp, &mut calls);

    // three of the five nodes carry geometry; root and the group draw nothing
    assert_eq!(calls.len(), 3);
    assert_eq!(calls[0].vao_id, 1);
    assert_eq!(calls[0].index_count, 300);
    assert_eq!(calls[1].vao_id, 2);
    assert_eq!(calls[1].index_count, 600);
    assert_eq!(calls[2].vao_id, 3);
    assert_eq!(calls[2].index_count, 90);
    for call in &calls {
        assert_eq!(call.mvp, vp * call.model);
    }
}

#[test]
fn empty_leaf_draws_nothing_and_leaves_siblings_alone() {
    let mut scene = Scene::new();
    let root = scene.create();
    let sibling = scene.create_with_geometry(5, 60);
    scene.add_child(root, sibling);
    scene.set_position(sibling, vec3(2.0, 0.0, 1.0));

    let seed: Mat4 = identity();
    scene.update_node_transformations(root, &seed);
    let before = *scene.current_transformation_matrix(sibling);

    // attach an empty group leaf beside the sibling and run the frame again
    let leaf = scene.create();
    scene.add_child(root, leaf);
    scene.update_node_transformations(root, &seed);
    let after = *scene.current_transformation_matrix(sibling);
    assert_eq!(before, after);

    let vp: Mat4 = identity();
    let mut leaf_calls: Vec<DrawCall> = Vec::new();
    scene.draw_scene(leaf, &vp, &mut leaf_calls);
    assert_eq!(leaf_calls.len(), 0);

    let mut all_calls: Vec<DrawCall> = Vec::new();
    scene.draw_scene(root, &vp, &mut all_calls);
    assert_eq!(all_calls.len(), 1);
}

#[test]
fn child_matrix_reflects_latest_parent_fields() {
    let mut scene = Scene::new();
    let root = scene.create();
    let parent = scene.create();
    let child = scene.create_with_geometry(9, 30);
    scene.add_child(root, parent);
    scene.set_position(parent, vec3(1.0, 0.0, 0.0));
    scene.set_position(child, vec3(0.0, 0.5, 0.0));

    let seed: Mat4 = identity();
    scene.update_node_transformations(root, &seed);

    // attach the child only now, move the parent, and propagate again:
    // the child's matrix follows the parent's newest position
    scene.add_child(parent, child);
    scene.set_position(parent, vec3(0.0, 0.0, 7.0));
    scene.update_node_transformations(root, &seed);

    let expected = translation(&vec3(0.0, 0.0, 7.0)) * translation(&vec3(0.0, 0.5, 0.0));
    assert_eq!(*scene.current_transformation_matrix(child), expected);
}

#[test]
fn reference_point_pivots_scaling() {
    let mut scene = Scene::new();
    let root = scene.create();
    let node = scene.create_with_geometry(4, 12);
    scene.add_child(root, node);
    scene.set_scale(node, vec3(2.0, 2.0, 2.0));
    scene.set_reference_point(node, vec3(1.0, 0.0, 0.0));

    let seed: Mat4 = identity();
    scene.update_node_transformations(root, &seed);

    let expected = expected_local(
        &vec3(0.0, 0.0, 0.0),
        &vec3(0.0, 0.0, 0.0),
        &vec3(2.0, 2.0, 2.0),
        &vec3(1.0, 0.0, 0.0),
    );
    assert_eq!(*scene.current_transformation_matrix(node), expected);
    // the pivot at (1,0,0) stays fixed: scaling about it maps it to itself
    let pivot = expected * nalgebra_glm::vec4(1.0, 0.0, 0.0, 1.0);
    assert_eq!(pivot, nalgebra_glm::vec4(1.0, 0.0, 0.0, 1.0));
}
