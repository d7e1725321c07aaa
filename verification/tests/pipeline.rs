//! Exercises the matrix construction, the camera update and the
//! end-to-end frame, with exact expected values.

use sphere_cast::camera::{ndc_of_pixel, pixel_of_ndc, Camera, InputSnapshot, HEIGHT, NUM_PIXELS, WIDTH};
use sphere_cast::fixed::{SCALE, WORLD_BOUND};
use sphere_cast::mat::{m4_identity, m4_invert, m4_transform_dir, Mat4};
use sphere_cast::renderer::Renderer;
use sphere_cast::utils::Ray;
use sphere_cast::vec::Vec3;

fn no_input() -> InputSnapshot {
    InputSnapshot {
        mouse_x: 0,
        mouse_y: 0,
        look_held: false,
        key_w: false,
        key_s: false,
        key_a: false,
        key_d: false,
        key_q: false,
        key_e: false,
    }
}

#[test]
fn identity_inverts_to_identity() {
    let id = m4_identity();
    assert_eq!(m4_invert(&id), Some(id));
}

#[test]
fn uniform_scale_inverts_exactly() {
    let mut m = m4_identity();
    m.m00 = 2 * SCALE;
    m.m11 = 2 * SCALE;
    m.m22 = 2 * SCALE;
    m.m33 = 2 * SCALE;
    let inv = m4_invert(&m).unwrap();
    let mut expected = m4_identity();
    expected.m00 = SCALE / 2;
    expected.m11 = SCALE / 2;
    expected.m22 = SCALE / 2;
    expected.m33 = SCALE / 2;
    assert_eq!(inv, expected);
}

#[test]
fn singular_matrix_reports_failure() {
    let mut m = m4_identity();
    m.m00 = 0; // a zero row's worth: kill one pivot entirely
    m.m01 = 0;
    m.m02 = 0;
    m.m03 = 0;
    assert_eq!(m4_invert(&m), None);
}

#[test]
fn transform_dir_by_identity_is_exact() {
    let id = m4_identity();
    let v = Vec3 { x: 12345, y: -678, z: 91011 };
    assert_eq!(m4_transform_dir(&id, v), v);
}

#[test]
fn ndc_of_known_pixels() {
    assert_eq!(ndc_of_pixel(0, WIDTH), -SCALE);
    assert_eq!(ndc_of_pixel(400, WIDTH), 0);
    assert_eq!(ndc_of_pixel(300, HEIGHT), 0);
    assert_eq!(ndc_of_pixel(799, WIDTH), 65372);
}

#[test]
fn ndc_round_trip_recovers_every_pixel() {
    for x in 0..WIDTH {
        let v = ndc_of_pixel(x, WIDTH);
        assert_eq!(pixel_of_ndc(v, WIDTH), x);
    }
    for y in 0..HEIGHT {
        let v = ndc_of_pixel(y, HEIGHT);
        assert_eq!(pixel_of_ndc(v, HEIGHT), y);
    }
}

#[test]
fn new_camera_matches_reference_initial_state() {
    let cam = Camera::new(2949120, 6554, 100 * SCALE);
    assert_eq!(cam.vertical_fov, 2949120);
    assert_eq!(cam.get_camera_position(), Vec3 { x: 0, y: 0, z: -SCALE });
    assert_eq!(cam.cam_dir, Vec3 { x: 0, y: 0, z: 3 * SCALE });
    assert_eq!(cam.view, m4_identity());
    assert_eq!(cam.inverse_view, m4_identity());
    assert_eq!(cam.ray_directions.len(), NUM_PIXELS);
    assert_eq!(cam.get_ray_direction(123), Vec3 { x: 0, y: 0, z: 0 });
}

#[test]
fn forward_key_moves_linearly() {
    // speed 5.0, timestep 1.0 s, forward (0, 0, 3): each update adds
    // exactly (0, 0, 15.0) while the direction is untouched.
    let mut cam = Camera::new(2949120, 6554, 100 * SCALE);
    let mut inp = no_input();
    inp.key_w = true;
    for _ in 0..3 {
        cam.on_update(SCALE, &inp);
    }
    assert_eq!(cam.get_camera_position(), Vec3 { x: 0, y: 0, z: -65536 + 3 * 983040 });
    assert_eq!(cam.cam_dir, Vec3 { x: 0, y: 0, z: 3 * SCALE });
}

#[test]
fn translation_clamps_at_world_edge() {
    let mut cam = Camera::new(2949120, 6554, 100 * SCALE);
    cam.cam_pos = Vec3 { x: 0, y: 0, z: WORLD_BOUND - 1000 };
    let mut inp = no_input();
    inp.key_w = true;
    cam.on_update(SCALE, &inp); // one 15-unit step over the edge
    assert_eq!(cam.get_camera_position(), Vec3 { x: 0, y: 0, z: WORLD_BOUND });
}

#[test]
fn opposite_keys_suppress_each_other() {
    // W held suppresses S in the same frame: the net motion is forward.
    let mut cam = Camera::new(2949120, 6554, 100 * SCALE);
    let mut inp = no_input();
    inp.key_w = true;
    inp.key_s = true;
    cam.on_update(SCALE, &inp);
    assert_eq!(cam.get_camera_position(), Vec3 { x: 0, y: 0, z: -65536 + 983040 });
}

#[test]
fn no_input_leaves_view_state_bit_identical() {
    let mut cam = Camera::new(2949120, 6554, 100 * SCALE);
    // one effective update so the view state is no longer the initial one
    let mut walk = no_input();
    walk.key_w = true;
    cam.on_update(SCALE, &walk);
    let view_before = cam.view;
    let inverse_before = cam.inverse_view;
    let cache_before = cam.ray_directions.clone();
    let pos_before = cam.get_camera_position();
    // a frame with zero mouse delta and no keys held
    let flags = cam.on_update(SCALE, &no_input());
    assert_eq!(flags, vec![true, false]);
    assert_eq!(cam.view, view_before);
    assert_eq!(cam.inverse_view, inverse_before);
    assert_eq!(cam.ray_directions, cache_before);
    assert_eq!(cam.get_camera_position(), pos_before);
}

#[test]
fn look_button_sets_cursor_flags_and_rotates() {
    let mut cam = Camera::new(2949120, 6554, 100 * SCALE);
    let mut inp = no_input();
    inp.look_held = true;
    inp.mouse_x = 400 * SCALE; // a large delta against last position 0
    let dir_before = cam.cam_dir;
    let flags = cam.on_update(0, &inp);
    assert_eq!(flags, vec![false, true]);
    assert_ne!(cam.cam_dir, dir_before);
}

#[test]
fn mouse_move_without_button_does_not_rotate() {
    let mut cam = Camera::new(2949120, 6554, 100 * SCALE);
    let mut inp = no_input();
    inp.mouse_x = 400 * SCALE;
    let dir_before = cam.cam_dir;
    cam.on_update(0, &inp);
    assert_eq!(cam.cam_dir, dir_before);
    assert_eq!(cam.last_mouse_x, 400 * SCALE);
}

#[test]
fn view_matrix_of_axis_pose_is_exact() {
    // eye (0, 0, -3), forward direction along +z
    let mut cam = Camera::new(2949120, 6554, 100 * SCALE);
    cam.cam_pos = Vec3 { x: 0, y: 0, z: -3 * SCALE };
    cam.cam_dir = Vec3 { x: 0, y: 0, z: 3 * SCALE };
    cam.recalculate_view();
    let expected = Mat4 {
        m00: -SCALE, m01: 0, m02: 0, m03: 0,
        m10: 0, m11: SCALE, m12: 0, m13: 0,
        m20: 0, m21: 0, m22: -SCALE, m23: -3 * SCALE,
        m30: 0, m31: 0, m32: 0, m33: SCALE,
    };
    assert_eq!(cam.view, expected);
    let expected_inverse = Mat4 {
        m00: -SCALE, m01: 0, m02: 0, m03: 0,
        m10: 0, m11: SCALE, m12: 0, m13: 0,
        m20: 0, m21: 0, m22: -SCALE, m23: -3 * SCALE,
        m30: 0, m31: 0, m32: 0, m33: SCALE,
    };
    assert_eq!(cam.inverse_view, expected_inverse);
}

#[test]
fn degenerate_pose_keeps_previous_view_state() {
    // forward exactly parallel to world up: the right vector's cross
    // product degenerates, and the view state must stay what it was.
    let mut cam = Camera::new(2949120, 6554, 100 * SCALE);
    cam.cam_pos = Vec3 { x: 0, y: 0, z: -3 * SCALE };
    cam.cam_dir = Vec3 { x: 0, y: 3 * SCALE, z: 0 };
    let view_before = cam.view;
    let inverse_before = cam.inverse_view;
    cam.recalculate_view();
    assert_eq!(cam.view, view_before);
    assert_eq!(cam.inverse_view, inverse_before);
}

#[test]
fn end_to_end_center_hits_lit_corner_misses() {
    // camera three units back on the sphere's axis, looking along +z
    // at the half-unit sphere centered at the origin: the center pixel
    // shades lit magenta, a corner pixel misses and stays black.
    let mut cam = Camera::new(2949120, 6554, 100 * SCALE);
    cam.cam_pos = Vec3 { x: 0, y: 0, z: -3 * SCALE };
    cam.cam_dir = Vec3 { x: 0, y: 0, z: 3 * SCALE };
    cam.recalculate_view();
    cam.recalculate_ray_directions();
    let renderer = Renderer::new(800 * SCALE, 600 * SCALE, cam);
    let frame = renderer.render();
    assert_eq!(frame.len(), 4 * NUM_PIXELS);
    let center = 400 + 300 * WIDTH;
    assert_eq!(
        &frame[4 * center..4 * center + 4],
        &[147u8, 0, 147, 255],
    );
    let corner = 0;
    assert_eq!(&frame[4 * corner..4 * corner + 4], &[0u8, 0, 0, 255]);
    // the frame agrees with tracing the cached ray by hand
    let ray = Ray {
        origin: renderer.camera.get_camera_position(),
        direction: renderer.camera.get_ray_direction(center),
    };
    let color = Renderer::trace_ray(ray);
    assert_eq!(color, Vec3 { x: 37837, y: 0, z: 37837 });
}
