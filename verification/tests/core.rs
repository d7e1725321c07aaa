//! Exercises the fixed-point scalar and vector primitives.

use sphere_cast::fixed::{color_byte, fx_div, fx_mul, fx_sqrt, SCALE};
use sphere_cast::vec::{v3_cross, v3_dot, v3_normalize, Vec3};
use sphere_cast::utils::{log_error, quaternion_cross, quaternion_normalize, Quat};

#[test]
fn fx_mul_exact_products() {
    assert_eq!(fx_mul(SCALE, SCALE), SCALE);
    assert_eq!(fx_mul(32768, 32768), 16384); // 0.5 * 0.5 == 0.25
    assert_eq!(fx_mul(3 * SCALE, 2 * SCALE), 6 * SCALE);
    // truncation is toward zero on both sides
    assert_eq!(fx_mul(-98304, 32768), -49152); // -1.5 * 0.5 == -0.75
    assert_eq!(fx_mul(1, 1), 0); // underflow rounds to zero
}

#[test]
fn fx_div_exact_quotients() {
    assert_eq!(fx_div(SCALE, 2 * SCALE), 32768); // 1 / 2 == 0.5
    assert_eq!(fx_div(6 * SCALE, 3 * SCALE), 2 * SCALE);
    // -1 / 3 truncates toward zero
    assert_eq!(fx_div(-SCALE, 3 * SCALE), -21845);
    assert_eq!(fx_div(SCALE, 3 * SCALE), 21845);
}

#[test]
fn fx_sqrt_exact_and_rounded() {
    assert_eq!(fx_sqrt(0), 0);
    assert_eq!(fx_sqrt(SCALE), SCALE); // sqrt(1) == 1
    assert_eq!(fx_sqrt(4 * SCALE), 2 * SCALE);
    assert_eq!(fx_sqrt(2 * SCALE), 92681); // sqrt(2) rounded down
    assert_eq!(fx_sqrt(16384), 32768); // sqrt(0.25) == 0.5
}

#[test]
fn color_byte_rounds_and_clamps() {
    assert_eq!(color_byte(0), 0);
    assert_eq!(color_byte(-SCALE), 0);
    assert_eq!(color_byte(SCALE), 255);
    assert_eq!(color_byte(2 * SCALE), 255);
    assert_eq!(color_byte(32768), 128); // round(0.5 * 255 + 0.5)
}

#[test]
fn dot_and_cross_known_values() {
    let x = Vec3 { x: SCALE, y: 0, z: 0 };
    let y = Vec3 { x: 0, y: SCALE, z: 0 };
    let z = Vec3 { x: 0, y: 0, z: SCALE };
    assert_eq!(v3_dot(x, x), SCALE);
    assert_eq!(v3_dot(x, y), 0);
    assert_eq!(v3_cross(x, y), z);
    assert_eq!(v3_cross(y, x), Vec3 { x: 0, y: 0, z: -SCALE });
    let a = Vec3 { x: SCALE, y: 2 * SCALE, z: 3 * SCALE };
    let b = Vec3 { x: 4 * SCALE, y: 5 * SCALE, z: 6 * SCALE };
    assert_eq!(v3_dot(a, b), 32 * SCALE);
}

#[test]
fn normalize_axis_vector_is_exact() {
    let v = Vec3 { x: 3 * SCALE, y: 0, z: 0 };
    assert_eq!(v3_normalize(v), Vec3 { x: SCALE, y: 0, z: 0 });
    let w = Vec3 { x: 0, y: 0, z: -32768 };
    assert_eq!(v3_normalize(w), Vec3 { x: 0, y: 0, z: -SCALE });
}

#[test]
fn quaternion_identity_product() {
    let identity = Quat { s: SCALE, x: 0, y: 0, z: 0 };
    let q = Quat { s: 12345, x: -678, y: 910, z: 11213 };
    assert_eq!(quaternion_cross(identity, q), q);
    assert_eq!(quaternion_cross(q, identity), q);
}

#[test]
fn quaternion_normalize_scales_to_unit() {
    let q = Quat { s: 2 * SCALE, x: 0, y: 0, z: 0 };
    let n = quaternion_normalize(q);
    assert_eq!(n, Quat { s: SCALE, x: 0, y: 0, z: 0 });
}

#[test]
fn quaternion_hamilton_anticommutes_on_axes() {
    // i * j == k, j * i == -k
    let i = Quat { s: 0, x: SCALE, y: 0, z: 0 };
    let j = Quat { s: 0, x: 0, y: SCALE, z: 0 };
    let k = Quat { s: 0, x: 0, y: 0, z: SCALE };
    assert_eq!(quaternion_cross(i, j), k);
    let m = quaternion_cross(j, i);
    assert_eq!(m, Quat { s: 0, x: 0, y: 0, z: -SCALE });
}

#[test]
fn rotation_by_identity_quaternion_is_exact() {
    let identity = Quat { s: SCALE, x: 0, y: 0, z: 0 };
    let v = Vec3 { x: 123456, y: -789, z: 65536 };
    assert_eq!(sphere_cast::utils::quat_rotate(identity, v), v);
}

#[test]
fn zero_angle_gives_identity_quaternion() {
    let axis = Vec3 { x: 0, y: SCALE, z: 0 };
    let q = sphere_cast::utils::quat_from_axis_angle(axis, 0);
    assert_eq!(q, Quat { s: SCALE, x: 0, y: 0, z: 0 });
}

#[test]
fn log_error_formats_the_chain() {
    let causes = vec![String::from("disk gone"), String::from("cable unplugged")];
    let lines = log_error("render", "surface lost", &causes);
    assert_eq!(lines.len(), 3);
    assert_eq!(lines[0], "render() failed: surface lost");
    assert_eq!(lines[1], "  Caused by: disk gone");
    assert_eq!(lines[2], "  Caused by: cable unplugged");
}

#[test]
fn log_error_without_causes() {
    let causes: Vec<String> = Vec::new();
    let lines = log_error("draw_frame", "out of memory", &causes);
    assert_eq!(lines, vec![String::from("draw_frame() failed: out of memory")]);
}
