//! Exercises the ray/sphere tracer on exact scenarios.

use sphere_cast::fixed::{fx_div, fx_mul, fx_sqrt, SCALE};
use sphere_cast::renderer::{Renderer, RADIUS};
use sphere_cast::utils::Ray;
use sphere_cast::vec::{v3_add, v3_dot, v3_neg, v3_normalize, v3_scale, Vec3};

#[test]
fn trace_is_deterministic() {
    let ray = Ray {
        origin: Vec3 { x: 123, y: -456, z: -3 * SCALE },
        direction: Vec3 { x: 789, y: 1011, z: SCALE },
    };
    let first = Renderer::trace_ray(ray);
    let second = Renderer::trace_ray(ray);
    assert_eq!(first, second);
}

#[test]
fn ray_at_center_hits_with_zero_incidence() {
    // aimed exactly at the sphere center from outside: the surface
    // normal at the near hit is exactly opposite the ray direction.
    let o = Vec3 { x: 0, y: 0, z: -SCALE };
    let d = Vec3 { x: 0, y: 0, z: SCALE };
    let a = v3_dot(d, d);
    let b = 2 * v3_dot(o, d);
    let c = v3_dot(o, o) - fx_mul(RADIUS, RADIUS);
    let disc = fx_mul(b, b) - 4 * fx_mul(a, c);
    assert!(disc > 0);
    let t = fx_div(-b - fx_sqrt(disc), 2 * a);
    assert_eq!(t, SCALE / 2); // enters the sphere half a unit in
    let hit = v3_add(o, v3_scale(d, t));
    assert_eq!(hit, Vec3 { x: 0, y: 0, z: -RADIUS });
    let normal = v3_normalize(hit);
    assert_eq!(normal, v3_neg(v3_normalize(d)));
}

#[test]
fn tangent_ray_counts_as_hit() {
    // origin half a unit off axis: the discriminant is exactly zero,
    // the single repeated root touches the sphere at (0.5, 0, 0), and
    // the output is the lit color, not black.
    let o = Vec3 { x: RADIUS, y: 0, z: -SCALE };
    let d = Vec3 { x: 0, y: 0, z: SCALE };
    let a = v3_dot(d, d);
    let b = 2 * v3_dot(o, d);
    let c = v3_dot(o, o) - fx_mul(RADIUS, RADIUS);
    assert_eq!(fx_mul(b, b) - 4 * fx_mul(a, c), 0);
    let color = Renderer::trace_ray(Ray { origin: o, direction: d });
    assert_eq!(color, Vec3 { x: 37837, y: 0, z: 37837 });
}

#[test]
fn missing_ray_is_black() {
    let o = Vec3 { x: 0, y: 0, z: -2 * SCALE };
    let d = Vec3 { x: SCALE, y: 0, z: 0 };
    let color = Renderer::trace_ray(Ray { origin: o, direction: d });
    assert_eq!(color, Vec3 { x: 0, y: 0, z: 0 });
}

#[test]
fn degenerate_direction_is_black() {
    let o = Vec3 { x: 0, y: 0, z: -2 * SCALE };
    let d = Vec3 { x: 0, y: 0, z: 0 };
    let color = Renderer::trace_ray(Ray { origin: o, direction: d });
    assert_eq!(color, Vec3 { x: 0, y: 0, z: 0 });
}

#[test]
fn unlit_hit_is_black() {
    // the near surface of the sphere as seen from (0, 0, -1) along +z
    // faces away from the light, so the shaded color is black even
    // though the ray hits.
    let o = Vec3 { x: 0, y: 0, z: -SCALE };
    let d = Vec3 { x: 0, y: 0, z: SCALE };
    let color = Renderer::trace_ray(Ray { origin: o, direction: d });
    assert_eq!(color, Vec3 { x: 0, y: 0, z: 0 });
}
