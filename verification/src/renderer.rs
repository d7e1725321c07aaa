//! The tracer and the frame compositor: the analytic intersection of a
//! view ray with the scene sphere, its Lambert shading, and the
//! row-major RGBA frame assembled from the camera's cached rays.

use vstd::prelude::*;
use vstd::arithmetic::div_mod::lemma_div_by_multiple;
use crate::fixed::{
    is_sqrt_floor,
    byte_of_s, fx_mul_s, fx_div_s, fx_sqrt_s, lemma_fx_mul_bound, lemma_fx_div_bound,
    lemma_sqrt_floor_exists, lemma_fx_square_nonneg, fx_mul, fx_div, fx_sqrt, color_byte, SCALE,
    WORLD_BOUND,
};
use crate::vec::{
    Vec3, V3, in_box, add_v, neg_v, scale_v, dot_v, norm_v, clamp_v, lemma_dot_fits, v3_add,
    v3_neg, v3_scale, v3_dot, v3_normalize, v3_clamp,
};
use crate::camera::{Camera, InputSnapshot, input_wf, update_rel, TS_MAX, NUM_PIXELS};
use crate::utils::Ray;

verus! {

/// The scene sphere's radius, 0.5 in fixed point.  Its center is the
/// world origin.
pub const RADIUS: i64 = 32768;

/// The sphere's base color: magenta, `(1, 0, 1)` in fixed point.
pub open spec fn albedo_s() -> V3 {
    V3 { x: SCALE as int, y: 0, z: SCALE as int }
}

/// The directional light: `(-1, -1, -1)` normalized (and clamped into
/// the guard box the shader works in).
pub open spec fn light_s() -> V3 {
    clamp_v(
        norm_v(V3 { x: -(SCALE as int), y: -(SCALE as int), z: -(SCALE as int) }),
        2 * (SCALE as int),
    )
}

/// The quadratic's discriminant for a ray against the sphere:
/// `b^2 - 4 a c` with `a = d.d`, `b = 2 o.d`, `c = o.o - r^2`.
pub open spec fn disc_s(o: V3, d: V3) -> int {
    let a = dot_v(d, d);
    let b = 2 * dot_v(o, d);
    let c = dot_v(o, o) - fx_mul_s(RADIUS as int, RADIUS as int);
    fx_mul_s(b, b) - 4 * fx_mul_s(a, c)
}

/// The near root `(-b - sqrt(disc)) / (2 a)`: the first surface the
/// ray meets.
pub open spec fn t_near_s(o: V3, d: V3) -> int {
    let a = dot_v(d, d);
    let b = 2 * dot_v(o, d);
    fx_div_s(-b - fx_sqrt_s(disc_s(o, d)), 2 * a)
}

/// The far root `(-b + sqrt(disc)) / (2 a)`, computed for completeness
/// but unused by the shading: the tracer does single-surface shading.
pub open spec fn t_far_s(o: V3, d: V3) -> int {
    let a = dot_v(d, d);
    let b = 2 * dot_v(o, d);
    fx_div_s(-b + fx_sqrt_s(disc_s(o, d)), 2 * a)
}

/// The shaded color of the hit at parameter `t`: the surface normal is
/// the normalized hit point (the sphere is centered at the origin),
/// and the color is the albedo scaled by the Lambert factor
/// `n . -l` clamped into `[0, 1]`, so each color component stays a
/// linear value in `[0, 1]`.  A hit point too close to the origin to
/// normalize shades black.
pub open spec fn shade_s(o: V3, d: V3, t: int) -> V3 {
    let hp = add_v(o, scale_v(d, t));
    if dot_v(hp, hp) < 1 {
        V3 { x: 0, y: 0, z: 0 }
    } else {
        let n = clamp_v(norm_v(hp), 2 * (SCALE as int));
        let lam = dot_v(n, neg_v(light_s()));
        let lam2 = if lam < 0 {
            0
        } else if lam > SCALE as int {
            SCALE as int
        } else {
            lam
        };
        scale_v(albedo_s(), lam2)
    }
}

/// The tracer: black when the ray misses (negative discriminant), the
/// shaded near hit otherwise.  A tangent ray (discriminant exactly
/// zero) has one repeated root and counts as a hit.  A degenerate ray
/// direction, or a hit parameter beyond the world box, is a miss.
pub open spec fn trace_s(o: V3, d: V3) -> V3 {
    let black = V3 { x: 0, y: 0, z: 0 };
    if dot_v(d, d) < 1 {
        black
    } else if disc_s(o, d) < 0 {
        black
    } else {
        let t = t_near_s(o, d);
        if t < -(WORLD_BOUND as int) || t > WORLD_BOUND as int {
            black
        } else {
            shade_s(o, d, t)
        }
    }
}

/// The frame compositor: iterates the pixels row-major, reads the
/// camera's position and cached ray direction for each, traces, and
/// writes RGBA with alpha fixed at 255.
///
/// No aspect-ratio correction is applied anywhere on this path: the
/// cache builder must not apply one, and since the cached direction is
/// looked up purely by pixel index, a correction here could not reach
/// the output either — the sphere renders elliptical on a non-square
/// output, a deliberate property of this minimal core.
pub struct Renderer {
    pub window_width: i64,
    pub window_height: i64,
    pub camera: Camera,
}

impl Renderer {
    /// Builds a renderer over a window extent (fixed point) and a camera.
    pub fn new(window_width: i64, window_height: i64, camera: Camera) -> (r: Renderer)
        ensures
            r.window_width == window_width,
            r.window_height == window_height,
            r.camera == camera,
    {
        Renderer { window_width, window_height, camera }
    }

    /// Forwards the frame's timestep and input to the camera.
    pub fn on_update(&mut self, timestep: i64, input: &InputSnapshot)
        requires
            old(self).camera.wf(),
            input_wf(*input),
            0 <= timestep as int <= TS_MAX as int,
        ensures
            final(self).camera.wf(),
            update_rel(old(self).camera, final(self).camera, timestep as int, *input),
            final(self).window_width == old(self).window_width,
            final(self).window_height == old(self).window_height,
    {
        let _flags: Vec<bool> = self.camera.on_update(timestep, input);
    }

    /// Traces one ray against the scene sphere and shades the hit.
    /// The color's components are linear values in `[0, 1]`: green is
    /// zero and red equals blue, the magenta albedo scaled by the
    /// clamped Lambert intensity.
    pub fn trace_ray(ray: Ray) -> (color: Vec3)
        requires
            in_box(ray.origin@, WORLD_BOUND as int),
            in_box(ray.direction@, WORLD_BOUND as int),
        ensures
            color@ == trace_s(ray.origin@, ray.direction@),
            color@.y == 0,
            color@.x == color@.z,
            0 <= color@.x <= SCALE as int,
    {
        let o = ray.origin;
        let d = ray.direction;
        proof {
            lemma_trace_color_in_range(ray.origin@, ray.direction@);
        }
        proof {
            let wb = WORLD_BOUND as int;
            assert(((WORLD_BOUND as int) * (WORLD_BOUND as int)) / (SCALE as int)
                == 68719476736int) by (nonlinear_arith)
                requires
                    WORLD_BOUND == 67108864i64,
                    SCALE == 65536i64,
            ;
            lemma_dot_fits(d@, d@, wb, wb);
            lemma_dot_fits(o@, d@, wb, wb);
            lemma_dot_fits(o@, o@, wb, wb);
            lemma_fx_mul_bound(RADIUS as int, RADIUS as int, RADIUS as int, RADIUS as int);
            assert(((RADIUS as int) * (RADIUS as int)) / (SCALE as int) == 16384int)
                by (nonlinear_arith)
                requires
                    RADIUS == 32768i64,
                    SCALE == 65536i64,
            ;
        }
        let a: i64 = v3_dot(d, d);
        if a < 1 {
            return Vec3 { x: 0, y: 0, z: 0 };
        }
        let b: i64 = 2 * v3_dot(o, d);
        let c: i64 = v3_dot(o, o) - fx_mul(RADIUS, RADIUS);
        proof {
            lemma_fx_mul_bound(b as int, b as int, 412316860416, 412316860416);
            lemma_fx_mul_bound(a as int, c as int, 206158430208, 206158446592);
            assert((412316860416int * 412316860416) / (SCALE as int) <= 0x2400_0000_0000_0000)
                by (nonlinear_arith)
                requires
                    SCALE == 65536i64,
            ;
            assert((206158430208int * 206158446592) / (SCALE as int) <= 0xa00_0000_0000_0000)
                by (nonlinear_arith)
                requires
                    SCALE == 65536i64,
            ;
        }
        let disc: i64 = fx_mul(b, b) - 4 * fx_mul(a, c);
        if disc < 0 {
            return Vec3 { x: 0, y: 0, z: 0 };
        }
        let sq: i64 = fx_sqrt(disc);
        proof {
            assert((sq as int) * (sq as int) <= (disc as int) * (SCALE as int));
            assert(sq as int <= 0x100_0000_0000) by (nonlinear_arith)
                requires
                    0 <= sq as int,
                    (sq as int) * (sq as int) <= (disc as int) * (SCALE as int),
                    disc as int <= 0x4900_0000_0000_0000,
                    SCALE == 65536i64,
            ;
            lemma_fx_div_bound(-(b as int) - sq as int, 2 * a as int, 0x180_0000_0000);
            assert(0x180_0000_0000int * (SCALE as int) <= i64::MAX) by (nonlinear_arith)
                requires
                    SCALE == 65536i64,
            ;
        }
        let t: i64 = fx_div(-b - sq, 2 * a);
        if t < -WORLD_BOUND || t > WORLD_BOUND {
            return Vec3 { x: 0, y: 0, z: 0 };
        }
        proof {
            let wb = WORLD_BOUND as int;
            lemma_fx_mul_bound(d@.x, t as int, wb, wb);
            lemma_fx_mul_bound(d@.y, t as int, wb, wb);
            lemma_fx_mul_bound(d@.z, t as int, wb, wb);
        }
        let hp: Vec3 = v3_add(o, v3_scale(d, t));
        proof {
            let hb = 0x40_0000_0000int;
            assert(3 * ((hb * hb) / (SCALE as int)) <= i64::MAX) by (nonlinear_arith)
                requires
                    SCALE == 65536i64,
                    hb == 0x40_0000_0000int,
            ;
            lemma_dot_fits(hp@, hp@, hb, hb);
        }
        let hd: i64 = v3_dot(hp, hp);
        if hd < 1 {
            return Vec3 { x: 0, y: 0, z: 0 };
        }
        let n: Vec3 = v3_clamp(v3_normalize(hp), 2 * SCALE);
        let lv: Vec3 = Vec3 { x: -SCALE, y: -SCALE, z: -SCALE };
        proof {
            let s = SCALE as int;
            assert(3 * ((s * s) / s) <= i64::MAX) by (nonlinear_arith)
                requires
                    s == 65536int,
            ;
            lemma_dot_fits(lv@, lv@, s, s);
            lemma_fx_square_nonneg(lv@.x);
            lemma_fx_square_nonneg(lv@.y);
            lemma_fx_square_nonneg(lv@.z);
            assert(fx_mul_s(-s, -s) == s) by (nonlinear_arith)
                requires
                    s == 65536int,
            ;
        }
        let l: Vec3 = v3_clamp(v3_normalize(lv), 2 * SCALE);
        proof {
            let s2 = 2 * (SCALE as int);
            assert(3 * ((s2 * s2) / (SCALE as int)) <= i64::MAX) by (nonlinear_arith)
                requires
                    SCALE == 65536i64,
                    s2 == 131072int,
            ;
            lemma_dot_fits(n@, neg_v(l@), s2, s2);
        }
        let lam: i64 = v3_dot(n, v3_neg(l));
        let lam2: i64 = if lam < 0 {
            0
        } else if lam > SCALE {
            SCALE
        } else {
            lam
        };
        let albedo: Vec3 = Vec3 { x: SCALE, y: 0, z: SCALE };
        proof {
            lemma_fx_mul_bound(albedo@.x, lam2 as int, SCALE as int, 0xc0000);
            lemma_fx_mul_bound(albedo@.y, lam2 as int, SCALE as int, 0xc0000);
            lemma_fx_mul_bound(albedo@.z, lam2 as int, SCALE as int, 0xc0000);
        }
        v3_scale(albedo, lam2)
    }

    /// Renders the frame: for every pixel in row-major order, traces
    /// the camera's cached ray and writes the rounded 8-bit color,
    /// alpha 255.
    pub fn render(&self) -> (frame: Vec<u8>)
        requires
            self.camera.wf(),
        ensures
            frame@.len() == 4 * NUM_PIXELS as int,
            forall|i: int|
                0 <= i < NUM_PIXELS as int ==> {
                    let col = trace_s(
                        self.camera.cam_pos@,
                        (#[trigger] self.camera.ray_directions@[i])@,
                    );
                    &&& frame@[4 * i] == byte_of_s(col.x)
                    &&& frame@[4 * i + 1] == byte_of_s(col.y)
                    &&& frame@[4 * i + 2] == byte_of_s(col.z)
                    &&& frame@[4 * i + 3] == 255
                },
    {
        let mut frame: Vec<u8> = Vec::new();
        let origin: Vec3 = self.camera.get_camera_position();
        let mut i: usize = 0;
        while i < NUM_PIXELS
            invariant
                self.camera.wf(),
                0 <= i <= NUM_PIXELS,
                origin == self.camera.cam_pos,
                frame@.len() == 4 * i as int,
                forall|j: int|
                    0 <= j < i as int ==> {
                        let col = trace_s(
                            self.camera.cam_pos@,
                            (#[trigger] self.camera.ray_directions@[j])@,
                        );
                        &&& frame@[4 * j] == byte_of_s(col.x)
                        &&& frame@[4 * j + 1] == byte_of_s(col.y)
                        &&& frame@[4 * j + 2] == byte_of_s(col.z)
                        &&& frame@[4 * j + 3] == 255
                    },
            decreases NUM_PIXELS - i,
        {
            let dir: Vec3 = self.camera.get_ray_direction(i);
            let ray = Ray { origin, direction: dir };
            let color: Vec3 = Self::trace_ray(ray);
            frame.push(color_byte(color.x));
            frame.push(color_byte(color.y));
            frame.push(color_byte(color.z));
            frame.push(255u8);
            i = i + 1;
        }
        frame
    }
}

/// The tracer is pure: two equal rays always shade to the same color.
pub proof fn lemma_trace_deterministic(r1: Ray, r2: Ray)
    requires
        r1 == r2,
    ensures
        trace_s(r1.origin@, r1.direction@) == trace_s(r2.origin@, r2.direction@),
{
}

/// A ray aimed exactly at the sphere center from a whole-unit
/// distance outside the sphere, along the axis, hits it, and the
/// surface normal at the near hit is exactly opposite the normalized
/// ray direction: the incidence angle is zero.  (From a non-integer
/// distance the truncating arithmetic can move the normal by a raw
/// unit, so the law is stated for whole-unit distances.)
pub proof fn lemma_axis_ray_zero_incidence(m: int)
    requires
        1 <= m <= 1024,
    ensures
        ({
            let o = V3 { x: 0, y: 0, z: -m * (SCALE as int) };
            let d = V3 { x: 0, y: 0, z: SCALE as int };
            &&& disc_s(o, d) == SCALE as int
            &&& t_near_s(o, d) == m * (SCALE as int) - (crate::fixed::HALF_SCALE as int)
            &&& norm_v(add_v(o, scale_v(d, t_near_s(o, d)))) == neg_v(norm_v(d))
        }),
{
    let s = SCALE as int;
    let h = crate::fixed::HALF_SCALE as int;
    let o = V3 { x: 0, y: 0, z: -m * s };
    let d = V3 { x: 0, y: 0, z: s };
    lemma_div_by_multiple(s, s);
    lemma_div_by_multiple(m * s, s);
    lemma_div_by_multiple(m * (m * s), s);
    assert(0int / s == 0) by (nonlinear_arith)
        requires
            s == 65536int,
    ;
    assert(fx_mul_s(0, 0) == 0);
    // the quadratic's coefficients are exact
    assert((m * s) * s == -((-(m * s)) * s) && (m * s) * s == -((-m * s) * s)) by (nonlinear_arith);
    assert(fx_mul_s(o.z, d.z) == -(m * s)) by {
        assert((-m * s) * s < 0) by (nonlinear_arith)
            requires
                m >= 1,
                s == 65536int,
        ;
        assert((-((-m * s) * s)) / s == m * s) by {
            assert(-((-m * s) * s) == (m * s) * s) by (nonlinear_arith);
        }
    }
    let a = dot_v(d, d);
    let b = 2 * dot_v(o, d);
    assert(a == s);
    assert(b == -2 * (m * s));
    assert(fx_mul_s(o.z, o.z) == m * (m * s)) by {
        assert((-m * s) * (-m * s) == (m * (m * s)) * s) by (nonlinear_arith);
        assert(((m * (m * s)) * s) / s == m * (m * s));
    }
    let c = dot_v(o, o) - fx_mul_s(RADIUS as int, RADIUS as int);
    assert(fx_mul_s(RADIUS as int, RADIUS as int) == 16384) by {
        assert((32768int * 32768) / 65536 == 16384) by (nonlinear_arith);
    }
    assert(c == m * (m * s) - 16384);
    // the discriminant collapses to exactly one
    assert(fx_mul_s(b, b) == 4 * (m * (m * s))) by {
        lemma_div_by_multiple(4 * (m * (m * s)), s);
        assert(b * b == (4 * (m * (m * s))) * s) by (nonlinear_arith)
            requires
                b == -2 * (m * s),
        ;
        assert(b * b >= 0) by (nonlinear_arith);
    }
    assert(fx_mul_s(a, c) == m * (m * s) - 16384) by {
        assert(m * (m * s) >= s) by (nonlinear_arith)
            requires
                m >= 1,
                s == 65536int,
        ;
        lemma_div_by_multiple(m * (m * s) - 16384, s);
        assert(a * c == (m * (m * s) - 16384) * s) by (nonlinear_arith)
            requires
                a == s,
                c == m * (m * s) - 16384,
        ;
        assert(a * c >= 0) by (nonlinear_arith)
            requires
                a == 65536int,
                c == m * (m * s) - 16384,
                m >= 1,
                s == 65536int,
        ;
    }
    assert(disc_s(o, d) == s);
    // the square root of one is one
    lemma_sqrt_floor_exists(s * s);
    assert(is_sqrt_floor(s * s, s)) by (nonlinear_arith)
        requires
            s == 65536int,
    ;
    crate::fixed::lemma_sqrt_floor_unique(s * s, crate::fixed::sqrt_floor(s * s), s);
    assert(fx_sqrt_s(disc_s(o, d)) == s);
    // the near root lands exactly half a unit before the center
    let t = m * s - h;
    assert(t_near_s(o, d) == t) by {
        assert(-b - s == (2 * m - 1) * s) by (nonlinear_arith)
            requires
                b == -2 * (m * s),
        ;
        lemma_div_by_multiple((2 * m - 1) * h, 2 * s);
        assert(((2 * m - 1) * s) * s == ((2 * m - 1) * h) * (2 * s)) by (nonlinear_arith)
            requires
                s == 65536int,
                h == 32768int,
        ;
        assert(((2 * m - 1) * s) * s >= 0) by (nonlinear_arith)
            requires
                m >= 1,
                s == 65536int,
        ;
        assert((2 * m - 1) * h == t) by (nonlinear_arith)
            requires
                t == m * s - h,
                s == 65536int,
                h == 32768int,
        ;
    }
    // the hit point is exactly half a unit from the center, and its
    // normalization is the exact opposite of the normalized direction
    assert(fx_mul_s(d.z, t) == t) by {
        lemma_div_by_multiple(t, s);
        assert(s * t == t * s) by (nonlinear_arith);
        assert(s * t >= 0) by (nonlinear_arith)
            requires
                t == m * s - h,
                m >= 1,
                s == 65536int,
                h == 32768int,
        ;
    }
    assert(fx_mul_s(d.x, t) == 0 && fx_mul_s(d.y, t) == 0) by {
        assert(0int * t == 0) by (nonlinear_arith);
    }
    let hp = add_v(o, scale_v(d, t));
    assert(hp == (V3 { x: 0, y: 0, z: -h }));
    assert(fx_mul_s(-h, -h) == 16384) by {
        assert(((-32768int) * (-32768)) / 65536 == 16384) by (nonlinear_arith);
    }
    assert(dot_v(hp, hp) == 16384);
    lemma_sqrt_floor_exists(16384 * s);
    assert(is_sqrt_floor(16384 * s, h)) by (nonlinear_arith)
        requires
            s == 65536int,
            h == 32768int,
    ;
    crate::fixed::lemma_sqrt_floor_unique(16384 * s, crate::fixed::sqrt_floor(16384 * s), h);
    assert(fx_div_s(-h, h) == -s) by {
        lemma_div_by_multiple(s, h);
        assert(-(h * s) == (-h) * s && h * s == s * h) by (nonlinear_arith);
        assert((-h) * s < 0) by (nonlinear_arith)
            requires
                h == 32768int,
                s == 65536int,
        ;
    }
    assert(fx_div_s(0, h) == 0) by {
        assert(0int * s == 0) by (nonlinear_arith);
        assert(0int / h == 0) by (nonlinear_arith)
            requires
                h == 32768int,
        ;
    }
    assert(norm_v(hp) == (V3 { x: 0, y: 0, z: -s }));
    assert(fx_div_s(s, s) == s) by {
        assert(s * s >= 0) by (nonlinear_arith);
    }
    assert(fx_div_s(0, s) == 0) by {
        assert(0int * s == 0) by (nonlinear_arith);
    }
    assert(norm_v(d) == (V3 { x: 0, y: 0, z: s }));
}

/// A tangent ray — discriminant exactly zero — has one repeated root
/// (the near and far parameters coincide) and is treated as a hit: the
/// tracer shades it rather than returning the miss color, and when the
/// surface faces the light the shaded color is not black.
pub proof fn lemma_tangent_is_hit(o: V3, d: V3)
    requires
        1 <= dot_v(d, d),
        disc_s(o, d) == 0,
    ensures
        t_far_s(o, d) == t_near_s(o, d),
        -(WORLD_BOUND as int) <= t_near_s(o, d) <= WORLD_BOUND as int ==> trace_s(o, d)
            == shade_s(o, d, t_near_s(o, d)),
        ({
            let hp = add_v(o, scale_v(d, t_near_s(o, d)));
            &&& -(WORLD_BOUND as int) <= t_near_s(o, d) <= WORLD_BOUND as int
            &&& dot_v(hp, hp) >= 1
            &&& dot_v(clamp_v(norm_v(hp), 2 * (SCALE as int)), neg_v(light_s())) > 0
        }) ==> trace_s(o, d).x > 0,
{
    lemma_sqrt_floor_exists(0);
    crate::fixed::lemma_sqrt_floor_unique(0, fx_sqrt_s(0), 0);
    assert(fx_sqrt_s(disc_s(o, d)) == 0);
    let t = t_near_s(o, d);
    let hp = add_v(o, scale_v(d, t));
    if dot_v(hp, hp) >= 1 {
        let lam = dot_v(clamp_v(norm_v(hp), 2 * (SCALE as int)), neg_v(light_s()));
        if lam > 0 {
            let lam2 = if lam > SCALE as int {
                SCALE as int
            } else {
                lam
            };
            lemma_div_by_multiple(lam2, SCALE as int);
            assert(fx_mul_s(SCALE as int, lam2) == lam2);
        }
    }
}

/// The end-to-end scenario's center ray, evaluated at the contract
/// level: from three units back on the sphere's axis, the axis ray
/// hits the sphere and shades the lit magenta — albedo `(1, 0, 1)`
/// times the exact intensity `37837 / 65536` — not black.
pub proof fn lemma_scenario_center_pixel()
    ensures
        trace_s(V3 { x: 0, y: 0, z: -196608 }, V3 { x: 0, y: 0, z: -65536 }) == (V3 {
            x: 37837,
            y: 0,
            z: 37837,
        }),
{
    let o = V3 { x: 0, y: 0, z: -196608 };
    let d = V3 { x: 0, y: 0, z: -65536 };
    let s = SCALE as int;
    assert(0int / 65536 == 0) by (nonlinear_arith);
    assert(0int * 0 == 0 && 0int * (-229376) == 0 && 0int * 37837 == 0 && 0int * 65536 == 0)
        by (nonlinear_arith);
    assert(fx_mul_s(0, 0) == 0 && fx_mul_s(0, -229376) == 0 && fx_mul_s(0, 37837) == 0);
    assert(fx_mul_s(-65536, -65536) == 65536) by {
        assert((-65536int) * (-65536) == 4294967296) by (nonlinear_arith);
        crate::fixed::lemma_tdiv_exact(4294967296, 65536, 65536, 0);
        assert(65536int * 65536 + 0 == 4294967296) by (nonlinear_arith);
    }
    assert(fx_mul_s(-196608, -65536) == 196608) by {
        assert((-196608int) * (-65536) == 12884901888) by (nonlinear_arith);
        assert(196608int * 65536 + 0 == 12884901888) by (nonlinear_arith);
        crate::fixed::lemma_tdiv_exact(12884901888, 65536, 196608, 0);
    }
    assert(fx_mul_s(-196608, -196608) == 589824) by {
        assert((-196608int) * (-196608) == 38654705664) by (nonlinear_arith);
        assert(589824int * 65536 + 0 == 38654705664) by (nonlinear_arith);
        crate::fixed::lemma_tdiv_exact(38654705664, 65536, 589824, 0);
    }
    assert(fx_mul_s(32768, 32768) == 16384) by {
        assert(32768int * 32768 == 1073741824) by (nonlinear_arith);
        assert(16384int * 65536 + 0 == 1073741824) by (nonlinear_arith);
        crate::fixed::lemma_tdiv_exact(1073741824, 65536, 16384, 0);
    }
    assert(dot_v(d, d) == 65536);
    assert(dot_v(o, d) == 196608);
    assert(dot_v(o, o) == 589824);
    assert(disc_s(o, d) == 65536) by {
        assert(fx_mul_s(393216, 393216) == 2359296) by {
            assert(393216int * 393216 == 154618822656) by (nonlinear_arith);
            assert(2359296int * 65536 + 0 == 154618822656) by (nonlinear_arith);
            crate::fixed::lemma_tdiv_exact(154618822656, 65536, 2359296, 0);
        }
        assert(fx_mul_s(65536, 573440) == 573440) by {
            assert(65536int * 573440 == 37580963840) by (nonlinear_arith);
            assert(573440int * 65536 + 0 == 37580963840) by (nonlinear_arith);
            crate::fixed::lemma_tdiv_exact(37580963840, 65536, 573440, 0);
        }
    }
    assert(fx_sqrt_s(65536) == 65536) by {
        lemma_sqrt_floor_exists(65536 * s);
        assert(is_sqrt_floor(65536 * s, 65536)) by (nonlinear_arith)
            requires
                s == 65536int,
        ;
        crate::fixed::lemma_sqrt_floor_unique(
            65536 * s,
            crate::fixed::sqrt_floor(65536 * s),
            65536,
        );
    }
    assert(t_near_s(o, d) == -229376) by {
        assert(fx_div_s(-458752, 131072) == -229376) by {
            assert((-458752int) * 65536 == -30064771072) by (nonlinear_arith);
            assert(229376int * 131072 + 0 == 30064771072) by (nonlinear_arith);
            crate::fixed::lemma_tdiv_exact(-30064771072, 131072, 229376, 0);
        }
    }
    let hp = add_v(o, scale_v(d, t_near_s(o, d)));
    assert(fx_mul_s(-65536, -229376) == 229376) by {
        assert((-65536int) * (-229376) == 15032385536) by (nonlinear_arith);
        assert(229376int * 65536 + 0 == 15032385536) by (nonlinear_arith);
        crate::fixed::lemma_tdiv_exact(15032385536, 65536, 229376, 0);
    }
    assert(hp == (V3 { x: 0, y: 0, z: 32768 }));
    assert(dot_v(hp, hp) == 16384);
    assert(fx_sqrt_s(16384) == 32768) by {
        lemma_sqrt_floor_exists(16384 * s);
        assert(is_sqrt_floor(16384 * s, 32768)) by (nonlinear_arith)
            requires
                s == 65536int,
        ;
        crate::fixed::lemma_sqrt_floor_unique(
            16384 * s,
            crate::fixed::sqrt_floor(16384 * s),
            32768,
        );
    }
    assert(fx_div_s(0, 32768) == 0) by {
        assert(0int * 65536 == 0) by (nonlinear_arith);
        assert(0int / 32768 == 0) by (nonlinear_arith);
    }
    assert(fx_div_s(32768, 32768) == 65536) by {
        assert(32768int * 65536 == 2147483648) by (nonlinear_arith);
        assert(65536int * 32768 + 0 == 2147483648) by (nonlinear_arith);
        crate::fixed::lemma_tdiv_exact(2147483648, 32768, 65536, 0);
    }
    assert(clamp_v(norm_v(hp), 2 * s) == (V3 { x: 0, y: 0, z: 65536 }));
    assert(fx_sqrt_s(196608) == 113511) by {
        lemma_sqrt_floor_exists(196608 * s);
        assert(is_sqrt_floor(196608 * s, 113511)) by (nonlinear_arith)
            requires
                s == 65536int,
        ;
        crate::fixed::lemma_sqrt_floor_unique(
            196608 * s,
            crate::fixed::sqrt_floor(196608 * s),
            113511,
        );
    }
    assert(fx_div_s(-65536, 113511) == -37837) by {
        assert((-65536int) * 65536 == -4294967296) by (nonlinear_arith);
        assert(37837int * 113511 + 51589 == 4294967296) by (nonlinear_arith);
        crate::fixed::lemma_tdiv_exact(-4294967296, 113511, 37837, 51589);
    }
    assert(light_s() == (V3 { x: -37837, y: -37837, z: -37837 }));
    assert(fx_mul_s(65536, 37837) == 37837) by {
        assert(65536int * 37837 == 2479685632) by (nonlinear_arith);
        assert(37837int * 65536 + 0 == 2479685632) by (nonlinear_arith);
        crate::fixed::lemma_tdiv_exact(2479685632, 65536, 37837, 0);
    }
    assert(dot_v(clamp_v(norm_v(hp), 2 * s), neg_v(light_s())) == 37837);
}

/// The end-to-end scenario's corner ray, evaluated at the contract
/// level: from the same pose, the corner pixel's cached direction
/// misses the sphere — the discriminant is negative — and the traced
/// color is exact black.
pub proof fn lemma_scenario_corner_pixel()
    ensures
        disc_s(V3 { x: 0, y: 0, z: -196608 }, V3 { x: 37837, y: -37837, z: -37837 }) < 0,
        trace_s(V3 { x: 0, y: 0, z: -196608 }, V3 { x: 37837, y: -37837, z: -37837 }) == (V3 {
            x: 0,
            y: 0,
            z: 0,
        }),
{
    let o = V3 { x: 0, y: 0, z: -196608 };
    let d = V3 { x: 37837, y: -37837, z: -37837 };
    assert(0int / 65536 == 0) by (nonlinear_arith);
    assert(0int * 37837 == 0 && 0int * (-37837) == 0) by (nonlinear_arith);
    assert(fx_mul_s(0, 37837) == 0 && fx_mul_s(0, -37837) == 0);
    assert(fx_mul_s(37837, 37837) == 21845 && fx_mul_s(-37837, -37837) == 21845) by {
        assert(37837int * 37837 == 1431638569 && (-37837int) * (-37837) == 1431638569)
            by (nonlinear_arith);
        assert(21845int * 65536 + 4649 == 1431638569) by (nonlinear_arith);
        crate::fixed::lemma_tdiv_exact(1431638569, 65536, 21845, 4649);
    }
    assert(dot_v(d, d) == 65535);
    assert(fx_mul_s(-196608, -37837) == 113511) by {
        assert((-196608int) * (-37837) == 7439056896) by (nonlinear_arith);
        assert(113511int * 65536 + 0 == 7439056896) by (nonlinear_arith);
        crate::fixed::lemma_tdiv_exact(7439056896, 65536, 113511, 0);
    }
    assert(dot_v(o, d) == 113511);
    assert(fx_mul_s(-196608, -196608) == 589824) by {
        assert((-196608int) * (-196608) == 38654705664) by (nonlinear_arith);
        assert(589824int * 65536 + 0 == 38654705664) by (nonlinear_arith);
        crate::fixed::lemma_tdiv_exact(38654705664, 65536, 589824, 0);
    }
    assert(fx_mul_s(32768, 32768) == 16384) by {
        assert(32768int * 32768 == 1073741824) by (nonlinear_arith);
        assert(16384int * 65536 + 0 == 1073741824) by (nonlinear_arith);
        crate::fixed::lemma_tdiv_exact(1073741824, 65536, 16384, 0);
    }
    assert(dot_v(o, o) == 589824);
    assert(fx_mul_s(227022, 227022) == 786422) by {
        assert(227022int * 227022 == 51538988484) by (nonlinear_arith);
        assert(786422int * 65536 + 36292 == 51538988484) by (nonlinear_arith);
        crate::fixed::lemma_tdiv_exact(51538988484, 65536, 786422, 36292);
    }
    assert(fx_mul_s(65535, 573440) == 573431) by {
        assert(65535int * 573440 == 37580390400) by (nonlinear_arith);
        assert(573431int * 65536 + 16384 == 37580390400) by (nonlinear_arith);
        crate::fixed::lemma_tdiv_exact(37580390400, 65536, 573431, 16384);
    }
    assert(disc_s(o, d) == -1507302);
}

/// The scenario's exact channel bytes: the lit intensity `37837`
/// rounds to 147, a miss stays 0.
pub proof fn lemma_scenario_bytes()
    ensures
        byte_of_s(37837) == 147,
        byte_of_s(0) == 0,
{
    assert(37837int * 255 + 32768 == 9681203 && 147int * 65536 + 47411 == 9681203)
        by (nonlinear_arith);
    vstd::arithmetic::div_mod::lemma_fundamental_div_mod_converse(9681203, 65536, 147, 47411);
}

/// Every traced color is the magenta albedo scaled by an intensity in
/// `[0, 1]`: the green component is zero, red equals blue, and both
/// stay within one unit — with exact black for a miss.
pub proof fn lemma_trace_color_in_range(o: V3, d: V3)
    ensures
        trace_s(o, d).y == 0,
        trace_s(o, d).x == trace_s(o, d).z,
        0 <= trace_s(o, d).x <= SCALE as int,
{
    if dot_v(d, d) < 1 {
    } else if disc_s(o, d) < 0 {
    } else {
        let t = t_near_s(o, d);
        if t < -(WORLD_BOUND as int) || t > WORLD_BOUND as int {
        } else {
            let hp = add_v(o, scale_v(d, t));
            if dot_v(hp, hp) < 1 {
            } else {
                let n = clamp_v(norm_v(hp), 2 * (SCALE as int));
                let lam = dot_v(n, neg_v(light_s()));
                let lam2 = if lam < 0 {
                    0int
                } else if lam > SCALE as int {
                    SCALE as int
                } else {
                    lam
                };
                assert(0int * lam2 == 0) by (nonlinear_arith);
                assert(0int / (SCALE as int) == 0) by (nonlinear_arith)
                    requires
                        SCALE == 65536i64,
                ;
                lemma_div_by_multiple(lam2, SCALE as int);
                assert(fx_mul_s(SCALE as int, lam2) == lam2);
                assert(fx_mul_s(0, lam2) == 0);
            }
        }
    }
}

} // verus!
