//! The free-flying camera: pose state, the per-frame update from the
//! input snapshot, the view matrix and its inverse, and the cached
//! per-pixel ray directions.

use vstd::prelude::*;
use vstd::arithmetic::div_mod::{
    lemma_div_by_multiple, lemma_div_multiples_vanish_fancy, lemma_fundamental_div_mod,
    lemma_mod_division_less_than_divisor, lemma_multiply_divide_le, lemma_multiply_divide_lt,
    lemma_div_pos_is_pos,
};
use crate::fixed::{
    clamp_s, fx_mul_s, fx_div_s, fx_sqrt_s, tdiv, lemma_fx_mul_bound, lemma_tdiv_bound, fx_mul,
    clamp_fx, SCALE, HALF_SCALE, WORLD_BOUND,
};
use crate::vec::{
    Vec3, V3, in_box, add_v, sub_v, scale_v, dot_v, cross_v, norm_v, clamp_v, lemma_dot_fits,
    lemma_cross_fits, v3_add, v3_sub, v3_scale, v3_dot, v3_cross, v3_normalize, v3_clamp,
};
use crate::mat::{
    Mat4, M4, m4_in_box, m4_identity_s, m4_identity, det4_s, m4_inverse_s, inv_entries_fit,
    look_to_s, transform_dir_s, m4_invert, m4_look_to, m4_transform_dir, ENTRY_BOUND, INV_BOUND,
};
use crate::utils::{
    Q4, in_box4, quat_mul_s, quat_dot_s, quat_norm_s, from_axis_angle_s, quat_rotate_s,
    sin_small_s, quaternion_cross, quaternion_normalize, quat_from_axis_angle, quat_rotate,
};

verus! {

/// Output width in pixels.
pub const WIDTH: usize = 800;

/// Output height in pixels.
pub const HEIGHT: usize = 600;

/// One ray direction is cached per pixel.
pub const NUM_PIXELS: usize = WIDTH * HEIGHT;

/// Translation speed, units per second (5.0 in fixed point).
pub const SPEED: i64 = 327680;

/// Mouse delta sensitivity (0.002 in fixed point, rounded down).
pub const MOUSE_SENS: i64 = 131;

/// The further pitch/yaw factor on the scaled delta (0.3 in fixed
/// point, rounded to nearest).
pub const LOOK_FACTOR: i64 = 19661;

/// The largest accepted frame timestep, 16 seconds in fixed point.
pub const TS_MAX: i64 = 1048576;

/// Mouse positions handed in stay within this bound.
pub const MOUSE_BOUND: i64 = 1073741824;

/// A combined rotation quaternion is applied only when its normalized
/// components stay within this bound (16 whole units; a unit
/// quaternion is far inside it).
pub const ROT_BOX: i64 = 1048576;

/// What the camera reads of one frame's input: the mouse position in
/// fixed-point pixels, whether the look button is held, and the six
/// direction keys.
#[derive(Clone, Copy, PartialEq, Eq, Structural, Debug)]
pub struct InputSnapshot {
    pub mouse_x: i64,
    pub mouse_y: i64,
    pub look_held: bool,
    pub key_w: bool,
    pub key_s: bool,
    pub key_a: bool,
    pub key_d: bool,
    pub key_q: bool,
    pub key_e: bool,
}

/// The input values the camera accepts.
pub open spec fn input_wf(inp: InputSnapshot) -> bool {
    &&& -(MOUSE_BOUND as int) <= inp.mouse_x as int <= MOUSE_BOUND as int
    &&& -(MOUSE_BOUND as int) <= inp.mouse_y as int <= MOUSE_BOUND as int
}

/// The world up vector.
pub open spec fn up_s() -> V3 {
    V3 { x: 0, y: SCALE as int, z: 0 }
}

// ---------------------------------------------------------------------
// Pixel coordinates and normalized device coordinates.

/// Maps a pixel coordinate in `[0, extent)` to `[-1, 1)` in fixed
/// point: normalize to `[0, 1)`, then remap by `* 2 - 1`.
pub open spec fn ndc_s(x: int, extent: int) -> int {
    2 * tdiv(x * (SCALE as int), extent) - SCALE as int
}

/// Maps a normalized device coordinate back to a pixel coordinate,
/// rounding to the nearest pixel.
pub open spec fn pixel_of_ndc_s(v: int, extent: int) -> int {
    ((v + SCALE as int) * extent + SCALE as int) / (2 * SCALE as int)
}

/// Normalizes a pixel coordinate to a device coordinate in `[-1, 1)`.
pub fn ndc_of_pixel(x: usize, extent: usize) -> (r: i64)
    requires
        x < extent,
        extent <= 32768,
    ensures
        r as int == ndc_s(x as int, extent as int),
        -(SCALE as int) <= r as int <= SCALE as int,
{
    proof {
        assert(x as int * (SCALE as int) <= 0x8000_0000) by (nonlinear_arith)
            requires
                0 <= (x as int) < 32768,
                SCALE == 65536i64,
        ;
    }
    let xs: u64 = (x as u64) * (SCALE as u64);
    let q: u64 = xs / (extent as u64);
    proof {
        lemma_div_pos_is_pos(xs as int, extent as int);
        assert(xs as int <= extent as int * (SCALE as int)) by (nonlinear_arith)
            requires
                xs as int == x as int * (SCALE as int),
                x < extent,
                SCALE == 65536i64,
        ;
        lemma_multiply_divide_le(xs as int, extent as int, SCALE as int);
    }
    2 * (q as i64) - SCALE
}

/// Maps a device coordinate back to the pixel it came from, rounding
/// to the nearest pixel.
pub fn pixel_of_ndc(v: i64, extent: usize) -> (r: usize)
    requires
        -(SCALE as int) <= v as int <= SCALE as int,
        0 < extent <= 32768,
    ensures
        r as int == pixel_of_ndc_s(v as int, extent as int),
{
    let u: u64 = (v + SCALE) as u64;
    proof {
        assert(u as int * extent as int <= 0x1_0000_0000) by (nonlinear_arith)
            requires
                0 <= u as int <= 131072,
                0 < extent as int <= 32768,
        ;
    }
    let n: u64 = u * (extent as u64) + (SCALE as u64);
    let q: u64 = n / (2 * SCALE as u64);
    proof {
        lemma_div_pos_is_pos(n as int, 2 * SCALE as int);
        lemma_multiply_divide_le(n as int, 2 * (SCALE as int), 65536);
    }
    q as usize
}

/// Normalizing a pixel coordinate to a device coordinate and mapping
/// it back (with rounding to nearest) recovers the pixel exactly, for
/// any extent up to half the fixed-point scale.
pub proof fn lemma_ndc_round_trip(x: int, extent: int)
    requires
        0 <= x < extent,
        0 < extent <= 32768,
    ensures
        pixel_of_ndc_s(ndc_s(x, extent), extent) == x,
{
    let s = SCALE as int;
    lemma_fundamental_div_mod(x * s, extent);
    lemma_mod_division_less_than_divisor(x * s, extent);
    let q = (x * s) / extent;
    let r1 = (x * s) % extent;
    assert(x * s == extent * q + r1);
    assert((2 * q - s + s) * extent + s == 2 * (extent * q) + s) by (nonlinear_arith);
    assert(2 * (extent * q) + s == 2 * s * x + (s - 2 * r1));
    lemma_div_multiples_vanish_fancy(x, s - 2 * r1, 2 * s);
}

// ---------------------------------------------------------------------
// Mouse-look rotation.

/// The scaled mouse delta for one axis.
pub open spec fn delta_s(last: int, now: int) -> int {
    fx_mul_s(now - last, MOUSE_SENS as int)
}

/// The forward direction after one frame's mouse-look: pitch around
/// the current right vector and yaw around world up, combined by the
/// Hamilton product (pitch first), normalized, and applied to the
/// forward vector, which is then clamped into the world box.  The
/// angles are clamped to one radian a frame; a degenerate combined
/// rotation, a malformed normalization or a collapsed result leaves
/// the direction unchanged.
pub open spec fn rotated_dir_s(dir: V3, dx: int, dy: int) -> V3 {
    let right = cross_v(dir, up_s());
    let pitch = clamp_s(-fx_mul_s(dy, LOOK_FACTOR as int), SCALE as int);
    let yaw = clamp_s(-fx_mul_s(dx, LOOK_FACTOR as int), SCALE as int);
    let qp = from_axis_angle_s(right, pitch);
    let qy = from_axis_angle_s(up_s(), yaw);
    let qq = quat_mul_s(qp, qy);
    if quat_dot_s(qq, qq) < 1 {
        dir
    } else {
        let qn = quat_norm_s(qq);
        if !in_box4(qn, ROT_BOX as int) {
            dir
        } else {
            let nd = clamp_v(quat_rotate_s(qn, dir), WORLD_BOUND as int);
            if dot_v(nd, nd) < 1 {
                dir
            } else {
                nd
            }
        }
    }
}

/// Components of an axis-angle quaternion are bounded by the axis box
/// (vector part) and by two units (scalar part).
proof fn lemma_axis_quat_bounds(axis: V3, angle: int, ab: int)
    requires
        0 <= ab,
        in_box(axis, ab),
        -(SCALE as int) <= angle <= SCALE as int,
    ensures
        in_box4(
            from_axis_angle_s(axis, angle),
            if ab >= 0x2_0000 {
                ab
            } else {
                0x2_0000
            },
        ),
{
    let s = SCALE as int;
    lemma_fx_mul_bound(angle, HALF_SCALE as int, s, HALF_SCALE as int);
    let h = fx_mul_s(angle, HALF_SCALE as int);
    lemma_fx_mul_bound(h, h, 0x8000, 0x8000);
    lemma_fx_mul_bound(fx_mul_s(h, h), h, 0x4000, 0x8000);
    lemma_fx_mul_bound(fx_mul_s(h, h), fx_mul_s(h, h), 0x4000, 0x4000);
    lemma_tdiv_bound(fx_mul_s(fx_mul_s(h, h), h), 6, 0x2000);
    lemma_tdiv_bound(fx_mul_s(h, h), 2, 0x4000);
    lemma_tdiv_bound(fx_mul_s(fx_mul_s(h, h), fx_mul_s(h, h)), 24, 0x1000);
    let sn = sin_small_s(h);
    assert(-0xa000 <= sn <= 0xa000);
    lemma_fx_mul_bound(axis.x, sn, ab, 0x1_0000);
    lemma_fx_mul_bound(axis.y, sn, ab, 0x1_0000);
    lemma_fx_mul_bound(axis.z, sn, ab, 0x1_0000);
    lemma_div_by_multiple(ab, 0x1_0000);
}

/// Components of a Hamilton product are bounded by four times the
/// scaled product of the factors' boxes.
proof fn lemma_quat_mul_box(a: Q4, b: Q4, m1: int, m2: int)
    requires
        0 <= m1,
        0 <= m2,
        in_box4(a, m1),
        in_box4(b, m2),
    ensures
        in_box4(quat_mul_s(a, b), 4 * ((m1 * m2) / (SCALE as int))),
{
    lemma_fx_mul_bound(a.s, b.s, m1, m2);
    lemma_fx_mul_bound(a.s, b.x, m1, m2);
    lemma_fx_mul_bound(a.s, b.y, m1, m2);
    lemma_fx_mul_bound(a.s, b.z, m1, m2);
    lemma_fx_mul_bound(a.x, b.s, m1, m2);
    lemma_fx_mul_bound(a.x, b.x, m1, m2);
    lemma_fx_mul_bound(a.x, b.y, m1, m2);
    lemma_fx_mul_bound(a.x, b.z, m1, m2);
    lemma_fx_mul_bound(a.y, b.s, m1, m2);
    lemma_fx_mul_bound(a.y, b.x, m1, m2);
    lemma_fx_mul_bound(a.y, b.y, m1, m2);
    lemma_fx_mul_bound(a.y, b.z, m1, m2);
    lemma_fx_mul_bound(a.z, b.s, m1, m2);
    lemma_fx_mul_bound(a.z, b.x, m1, m2);
    lemma_fx_mul_bound(a.z, b.y, m1, m2);
    lemma_fx_mul_bound(a.z, b.z, m1, m2);
}

/// Applies one frame's mouse-look to the forward direction.
fn rotate_dir(dir: Vec3, dx: i64, dy: i64) -> (r: Vec3)
    requires
        in_box(dir@, WORLD_BOUND as int),
        -0x80_0000 <= dx as int <= 0x80_0000,
        -0x80_0000 <= dy as int <= 0x80_0000,
    ensures
        r@ == rotated_dir_s(dir@, dx as int, dy as int),
        in_box(r@, WORLD_BOUND as int),
{
    let up = Vec3 { x: 0, y: SCALE, z: 0 };
    proof {
        lemma_cross_fits(dir@, up@, WORLD_BOUND as int, SCALE as int);
        lemma_fx_mul_bound(dy as int, LOOK_FACTOR as int, 0x80_0000, 0x8000);
        lemma_fx_mul_bound(dx as int, LOOK_FACTOR as int, 0x80_0000, 0x8000);
    }
    let right = v3_cross(dir, up);
    let pitch: i64 = clamp_fx(-fx_mul(dy, LOOK_FACTOR), SCALE);
    let yaw: i64 = clamp_fx(-fx_mul(dx, LOOK_FACTOR), SCALE);
    proof {
        lemma_axis_quat_bounds(right@, pitch as int, 0x800_0000);
        lemma_axis_quat_bounds(up@, yaw as int, SCALE as int);
    }
    let qp = quat_from_axis_angle(right, pitch);
    let qy = quat_from_axis_angle(up, yaw);
    proof {
        lemma_quat_mul_box(qp@, qy@, 0x800_0000, 0x2_0000);
    }
    let qq = quaternion_cross(qp, qy);
    proof {
        let m = 0x4000_0000int;
        lemma_fx_mul_bound(qq@.s, qq@.s, m, m);
        lemma_fx_mul_bound(qq@.x, qq@.x, m, m);
        lemma_fx_mul_bound(qq@.y, qq@.y, m, m);
        lemma_fx_mul_bound(qq@.z, qq@.z, m, m);
    }
    let mag: i64 = fx_mul(qq.s, qq.s) + fx_mul(qq.x, qq.x) + fx_mul(qq.y, qq.y) + fx_mul(
        qq.z,
        qq.z,
    );
    if mag < 1 {
        return dir;
    }
    let qn = quaternion_normalize(qq);
    let rb: i64 = ROT_BOX;
    if qn.s < -rb || qn.s > rb || qn.x < -rb || qn.x > rb || qn.y < -rb || qn.y > rb || qn.z < -rb
        || qn.z > rb {
        return dir;
    }
    let rotated = quat_rotate(qn, dir);
    let nd = v3_clamp(rotated, WORLD_BOUND);
    proof {
        lemma_dot_fits(nd@, nd@, WORLD_BOUND as int, WORLD_BOUND as int);
    }
    let dd: i64 = v3_dot(nd, nd);
    if dd < 1 {
        dir
    } else {
        nd
    }
}

// ---------------------------------------------------------------------
// Keyboard translation.

/// One frame's keyboard translation, clamped into the world box after
/// each applied step.  Forward/back, left/right and up/down are
/// mutually exclusive pairs: the first key of a pair suppresses its
/// opposite.  Forward steps follow the (possibly just rotated) forward
/// direction; sideways steps follow the right vector derived before
/// rotation, so strafing is unaffected by the same frame's look.
pub open spec fn translate_s(pos: V3, fwd: V3, right: V3, amount: int, inp: InputSnapshot) -> V3 {
    let wb = WORLD_BOUND as int;
    let sf = scale_v(fwd, amount);
    let sr = scale_v(right, amount);
    let su = scale_v(up_s(), amount);
    let p1 = if inp.key_w {
        clamp_v(add_v(pos, sf), wb)
    } else if inp.key_s {
        clamp_v(sub_v(pos, sf), wb)
    } else {
        pos
    };
    let p2 = if inp.key_a {
        clamp_v(sub_v(p1, sr), wb)
    } else if inp.key_d {
        clamp_v(add_v(p1, sr), wb)
    } else {
        p1
    };
    if inp.key_q {
        clamp_v(sub_v(p2, su), wb)
    } else if inp.key_e {
        clamp_v(add_v(p2, su), wb)
    } else {
        p2
    }
}

/// Applies one frame's keyboard translation.
fn apply_translation(pos: Vec3, fwd: Vec3, right: Vec3, amount: i64, inp: &InputSnapshot) -> (r:
    Vec3)
    requires
        in_box(pos@, WORLD_BOUND as int),
        in_box(fwd@, WORLD_BOUND as int),
        in_box(right@, 0x800_0000),
        -0x80_0000 <= amount as int <= 0x80_0000,
    ensures
        r@ == translate_s(pos@, fwd@, right@, amount as int, *inp),
        in_box(r@, WORLD_BOUND as int),
{
    let wb: i64 = WORLD_BOUND;
    proof {
        lemma_fx_mul_bound(fwd@.x, amount as int, WORLD_BOUND as int, 0x80_0000);
        lemma_fx_mul_bound(fwd@.y, amount as int, WORLD_BOUND as int, 0x80_0000);
        lemma_fx_mul_bound(fwd@.z, amount as int, WORLD_BOUND as int, 0x80_0000);
        lemma_fx_mul_bound(right@.x, amount as int, 0x800_0000, 0x80_0000);
        lemma_fx_mul_bound(right@.y, amount as int, 0x800_0000, 0x80_0000);
        lemma_fx_mul_bound(right@.z, amount as int, 0x800_0000, 0x80_0000);
        lemma_fx_mul_bound(0, amount as int, 0x800_0000, 0x80_0000);
        lemma_fx_mul_bound(SCALE as int, amount as int, 0x800_0000, 0x80_0000);
    }
    let up = Vec3 { x: 0, y: SCALE, z: 0 };
    let sf = v3_scale(fwd, amount);
    let sr = v3_scale(right, amount);
    let su = v3_scale(up, amount);
    let p1 = if inp.key_w {
        v3_clamp(v3_add(pos, sf), wb)
    } else if inp.key_s {
        v3_clamp(v3_sub(pos, sf), wb)
    } else {
        pos
    };
    let p2 = if inp.key_a {
        v3_clamp(v3_sub(p1, sr), wb)
    } else if inp.key_d {
        v3_clamp(v3_add(p1, sr), wb)
    } else {
        p1
    };
    if inp.key_q {
        v3_clamp(v3_sub(p2, su), wb)
    } else if inp.key_e {
        v3_clamp(v3_add(p2, su), wb)
    } else {
        p2
    }
}

// ---------------------------------------------------------------------
// The per-frame pose update, assembled.

/// The forward direction after one frame.
pub open spec fn new_dir_s(dir: V3, last_x: int, last_y: int, inp: InputSnapshot) -> V3 {
    let dx = delta_s(last_x, inp.mouse_x as int);
    let dy = delta_s(last_y, inp.mouse_y as int);
    if inp.look_held && (dx != 0 || dy != 0) {
        rotated_dir_s(dir, dx, dy)
    } else {
        dir
    }
}

/// The position after one frame: translated along the new forward
/// direction and the right vector derived from the old one.
pub open spec fn new_pos_s(pos: V3, dir: V3, last_x: int, last_y: int, ts: int, inp: InputSnapshot)
    -> V3 {
    let nd = new_dir_s(dir, last_x, last_y, inp);
    let right = cross_v(dir, up_s());
    translate_s(pos, nd, right, fx_mul_s(SPEED as int, ts), inp)
}

/// Whether anything moved this frame: an effective look delta with
/// the look button held, or any direction key.
pub open spec fn moved_s(last_x: int, last_y: int, inp: InputSnapshot) -> bool {
    let dx = delta_s(last_x, inp.mouse_x as int);
    let dy = delta_s(last_y, inp.mouse_y as int);
    ||| inp.look_held && (dx != 0 || dy != 0)
    ||| inp.key_w
    ||| inp.key_s
    ||| inp.key_a
    ||| inp.key_d
    ||| inp.key_q
    ||| inp.key_e
}

/// What one frame's update does to a camera: the mouse position is
/// remembered, the pose follows the mouse-look and the keyboard, the
/// configuration is untouched, and the derived view state (view
/// matrix, inverse, ray cache) is refreshed as one unit exactly when
/// something moved — and left bit for bit alone when nothing did.
pub open spec fn update_rel(pre: Camera, post: Camera, ts: int, inp: InputSnapshot) -> bool {
    &&& post.last_mouse_x == inp.mouse_x
    &&& post.last_mouse_y == inp.mouse_y
    &&& post.cam_dir@ == new_dir_s(
        pre.cam_dir@,
        pre.last_mouse_x as int,
        pre.last_mouse_y as int,
        inp,
    )
    &&& post.cam_pos@ == new_pos_s(
        pre.cam_pos@,
        pre.cam_dir@,
        pre.last_mouse_x as int,
        pre.last_mouse_y as int,
        ts,
        inp,
    )
    &&& post.vertical_fov == pre.vertical_fov
    &&& post.near_clip == pre.near_clip
    &&& post.far_clip == pre.far_clip
    &&& moved_s(pre.last_mouse_x as int, pre.last_mouse_y as int, inp) ==> {
        let (v, iv, ok) = refreshed_view_s(post.cam_pos@, post.cam_dir@, pre.view@, pre.inverse_view@);
        &&& post.view@ == v
        &&& post.inverse_view@ == iv
        &&& (ok ==> cache_ok(post.ray_directions@, post.inverse_view@))
        &&& (!ok ==> post.ray_directions == pre.ray_directions)
    }
    &&& !moved_s(pre.last_mouse_x as int, pre.last_mouse_y as int, inp) ==> {
        &&& post.view == pre.view
        &&& post.inverse_view == pre.inverse_view
        &&& post.ray_directions == pre.ray_directions
    }
}

/// The view matrix and inverse after a recompute from the given pose:
/// the look-to matrix is built from the eye position, the forward
/// direction and world up; both matrices are replaced together when it
/// exists and inverts within range, both kept otherwise (the flag
/// tells which happened).
pub open spec fn refreshed_view_s(pos: V3, dir: V3, view: M4, inv: M4) -> (M4, M4, bool) {
    match look_to_s(pos, dir, up_s()) {
        Option::None => (view, inv, false),
        Option::Some(v) => if det4_s(v) != 0 && inv_entries_fit(v) {
            (v, m4_inverse_s(v), true)
        } else {
            (view, inv, false)
        },
    }
}

// ---------------------------------------------------------------------
// The ray-direction cache.

/// The cached ray direction for pixel `(x, y)`: the normalized device
/// coordinates become a clip-space direction with `z == 1` (its
/// `w == 1` divides out), which is normalized and taken through the
/// inverse view matrix with `w == 0`, then clamped into the world box.
pub open spec fn ray_dir_s(inv: M4, x: int, y: int) -> V3 {
    let target = V3 { x: ndc_s(x, WIDTH as int), y: ndc_s(y, HEIGHT as int), z: SCALE as int };
    let v = clamp_v(norm_v(target), 2 * (SCALE as int));
    clamp_v(transform_dir_s(inv, v), WORLD_BOUND as int)
}

/// The cache holds, for every pixel index `i`, the ray direction of
/// the pixel at column `i % WIDTH` and row `i / WIDTH`.
pub open spec fn cache_ok(cache: Seq<Vec3>, inv: M4) -> bool {
    &&& cache.len() == NUM_PIXELS as int
    &&& forall|i: int|
        0 <= i < NUM_PIXELS as int ==> (#[trigger] cache[i])@ == ray_dir_s(
            inv,
            i % (WIDTH as int),
            i / (WIDTH as int),
        )
}

/// Computes the ray direction for one pixel.
fn ray_dir_for(inv: &Mat4, x: usize, y: usize) -> (r: Vec3)
    requires
        m4_in_box(inv@, INV_BOUND as int),
        x < WIDTH,
        y < HEIGHT,
    ensures
        r@ == ray_dir_s(inv@, x as int, y as int),
        in_box(r@, WORLD_BOUND as int),
{
    let ncx: i64 = ndc_of_pixel(x, WIDTH);
    let ncy: i64 = ndc_of_pixel(y, HEIGHT);
    let target = Vec3 { x: ncx, y: ncy, z: SCALE };
    proof {
        let s = SCALE as int;
        lemma_dot_fits(target@, target@, s, s);
        assert(fx_mul_s(s, s) == s) by (nonlinear_arith)
            requires
                s == 65536int,
        ;
        crate::fixed::lemma_fx_square_nonneg(target@.x);
        crate::fixed::lemma_fx_square_nonneg(target@.y);
    }
    let v = v3_clamp(v3_normalize(target), 2 * SCALE);
    v3_clamp(m4_transform_dir(inv, v), WORLD_BOUND)
}

// ---------------------------------------------------------------------
// The camera itself.

/// The camera: configuration, pose, the last seen mouse position, and
/// the derived view state (view matrix, inverse view matrix, cached
/// ray directions), which always changes as one unit.
pub struct Camera {
    pub vertical_fov: i64,
    pub near_clip: i64,
    pub far_clip: i64,
    pub cam_pos: Vec3,
    pub cam_dir: Vec3,
    pub last_mouse_x: i64,
    pub last_mouse_y: i64,
    pub view: Mat4,
    pub inverse_view: Mat4,
    pub ray_directions: Vec<Vec3>,
}

/// The view matrix and the inverse view matrix always belong to one
/// pose: either both are still the initial identity pair, or the
/// inverse is exactly the inverse of the stored view matrix.
pub open spec fn view_state_consistent(view: M4, inv: M4) -> bool {
    ||| view == m4_identity_s() && inv == m4_identity_s()
    ||| det4_s(view) != 0 && inv_entries_fit(view) && inv == m4_inverse_s(view)
}

impl Camera {
    /// The camera's invariant: pose and cache inside the world box,
    /// matrices within the bounds that keep the pipeline overflow-free,
    /// and the inverse view matrix always matching the view matrix.
    pub open spec fn wf(&self) -> bool {
        &&& in_box(self.cam_pos@, WORLD_BOUND as int)
        &&& in_box(self.cam_dir@, WORLD_BOUND as int)
        &&& -(MOUSE_BOUND as int) <= self.last_mouse_x as int <= MOUSE_BOUND as int
        &&& -(MOUSE_BOUND as int) <= self.last_mouse_y as int <= MOUSE_BOUND as int
        &&& m4_in_box(self.view@, ENTRY_BOUND as int)
        &&& m4_in_box(self.inverse_view@, INV_BOUND as int)
        &&& view_state_consistent(self.view@, self.inverse_view@)
        &&& self.ray_directions@.len() == NUM_PIXELS as int
        &&& forall|i: int|
            0 <= i < NUM_PIXELS as int ==> in_box(
                (#[trigger] self.ray_directions@[i])@,
                WORLD_BOUND as int,
            )
    }

    /// Builds a camera with the given vertical field of view and clip
    /// distances, at the initial pose, with identity view state and a
    /// zeroed ray cache (regenerated on the first effective update).
    pub fn new(vfov: i64, nc: i64, fc: i64) -> (r: Camera)
        ensures
            r.wf(),
            r.vertical_fov == vfov,
            r.near_clip == nc,
            r.far_clip == fc,
            r.cam_pos@ == (V3 { x: 0, y: 0, z: -(SCALE as int) }),
            r.cam_dir@ == (V3 { x: 0, y: 0, z: 3 * SCALE as int }),
            r.last_mouse_x == 0,
            r.last_mouse_y == 0,
            r.view@ == m4_identity_s(),
            r.inverse_view@ == m4_identity_s(),
            r.ray_directions@.len() == NUM_PIXELS as int,
            forall|i: int|
                0 <= i < NUM_PIXELS as int ==> (#[trigger] r.ray_directions@[i])@ == (V3 {
                    x: 0,
                    y: 0,
                    z: 0,
                }),
    {
        let mut dirs: Vec<Vec3> = Vec::new();
        let mut i: usize = 0;
        while i < NUM_PIXELS
            invariant
                0 <= i <= NUM_PIXELS,
                dirs@.len() == i as int,
                forall|j: int|
                    0 <= j < i as int ==> (#[trigger] dirs@[j])@ == (V3 { x: 0, y: 0, z: 0 }),
            decreases NUM_PIXELS - i,
        {
            dirs.push(Vec3 { x: 0, y: 0, z: 0 });
            i = i + 1;
        }
        Camera {
            vertical_fov: vfov,
            near_clip: nc,
            far_clip: fc,
            cam_pos: Vec3 { x: 0, y: 0, z: -SCALE },
            cam_dir: Vec3 { x: 0, y: 0, z: 3 * SCALE },
            last_mouse_x: 0,
            last_mouse_y: 0,
            view: m4_identity(),
            inverse_view: m4_identity(),
            ray_directions: dirs,
        }
    }

    /// Recomputes the view matrix and its inverse from the current
    /// pose.  On a degenerate pose or a singular or out-of-range view
    /// matrix both are left untouched, so that they always correspond
    /// to one pose; the result says whether they were replaced.
    fn refresh_view(&mut self) -> (ok: bool)
        requires
            old(self).wf(),
        ensures
            final(self).wf(),
            (final(self).view@, final(self).inverse_view@, ok) == refreshed_view_s(
                old(self).cam_pos@,
                old(self).cam_dir@,
                old(self).view@,
                old(self).inverse_view@,
            ),
            final(self).cam_pos == old(self).cam_pos,
            final(self).cam_dir == old(self).cam_dir,
            final(self).last_mouse_x == old(self).last_mouse_x,
            final(self).last_mouse_y == old(self).last_mouse_y,
            final(self).ray_directions == old(self).ray_directions,
            final(self).vertical_fov == old(self).vertical_fov,
            final(self).near_clip == old(self).near_clip,
            final(self).far_clip == old(self).far_clip,
    {
        let up = Vec3 { x: 0, y: SCALE, z: 0 };
        match m4_look_to(self.cam_pos, self.cam_dir, up) {
            Option::Some(v) => {
                match m4_invert(&v) {
                    Option::Some(iv) => {
                        self.view = v;
                        self.inverse_view = iv;
                        true
                    },
                    Option::None => false,
                }
            },
            Option::None => false,
        }
    }

    /// Recomputes the view matrix and inverse view matrix from the
    /// current pose, leaving both untouched when the pose is
    /// degenerate or the matrix does not invert.
    pub fn recalculate_view(&mut self)
        requires
            old(self).wf(),
        ensures
            final(self).wf(),
            (final(self).view@, final(self).inverse_view@) == {
                let (v, iv, ok) = refreshed_view_s(
                    old(self).cam_pos@,
                    old(self).cam_dir@,
                    old(self).view@,
                    old(self).inverse_view@,
                );
                (v, iv)
            },
            final(self).cam_pos == old(self).cam_pos,
            final(self).cam_dir == old(self).cam_dir,
            final(self).ray_directions == old(self).ray_directions,
    {
        let _ok: bool = self.refresh_view();
    }

    /// Fully regenerates the cached ray direction of every pixel from
    /// the current inverse view matrix, row-major, at index
    /// `x + y * WIDTH`.
    pub fn recalculate_ray_directions(&mut self)
        requires
            old(self).wf(),
        ensures
            final(self).wf(),
            cache_ok(final(self).ray_directions@, final(self).inverse_view@),
            final(self).cam_pos == old(self).cam_pos,
            final(self).cam_dir == old(self).cam_dir,
            final(self).last_mouse_x == old(self).last_mouse_x,
            final(self).last_mouse_y == old(self).last_mouse_y,
            final(self).view == old(self).view,
            final(self).inverse_view == old(self).inverse_view,
            final(self).vertical_fov == old(self).vertical_fov,
            final(self).near_clip == old(self).near_clip,
            final(self).far_clip == old(self).far_clip,
    {
        let mut i: usize = 0;
        while i < NUM_PIXELS
            invariant
                old(self).wf(),
                0 <= i <= NUM_PIXELS,
                self.ray_directions@.len() == NUM_PIXELS as int,
                forall|j: int|
                    0 <= j < i as int ==> (#[trigger] self.ray_directions@[j])@ == ray_dir_s(
                        self.inverse_view@,
                        j % (WIDTH as int),
                        j / (WIDTH as int),
                    ),
                forall|j: int|
                    0 <= j < NUM_PIXELS as int ==> in_box(
                        (#[trigger] self.ray_directions@[j])@,
                        WORLD_BOUND as int,
                    ),
                self.cam_pos == old(self).cam_pos,
                self.cam_dir == old(self).cam_dir,
                self.last_mouse_x == old(self).last_mouse_x,
                self.last_mouse_y == old(self).last_mouse_y,
                self.view == old(self).view,
                self.inverse_view == old(self).inverse_view,
                self.vertical_fov == old(self).vertical_fov,
                self.near_clip == old(self).near_clip,
                self.far_clip == old(self).far_clip,
            decreases NUM_PIXELS - i,
        {
            let x: usize = i % WIDTH;
            let y: usize = i / WIDTH;
            proof {
                lemma_mod_division_less_than_divisor(i as int, WIDTH as int);
                lemma_multiply_divide_lt(i as int, WIDTH as int, HEIGHT as int);
            }
            let d = ray_dir_for(&self.inverse_view, x, y);
            self.ray_directions.set(i, d);
            i = i + 1;
        }
    }

    /// One frame's update: reads the mouse delta against the last seen
    /// position, applies mouse-look while the look button is held,
    /// applies the keyboard translation, and, exactly when something
    /// moved, recomputes the view matrix and inverse and regenerates
    /// the ray cache (the cache regeneration is skipped when the view
    /// could not be recomputed).  Returns `[allow_cursor_movement,
    /// hide_cursor]`.
    pub fn on_update(&mut self, timestep: i64, input: &InputSnapshot) -> (r: Vec<bool>)
        requires
            old(self).wf(),
            input_wf(*input),
            0 <= timestep as int <= TS_MAX as int,
        ensures
            final(self).wf(),
            r@.len() == 2,
            r@[0] == !input.look_held,
            r@[1] == input.look_held,
            update_rel(*old(self), *final(self), timestep as int, *input),
    {
        proof {
            lemma_fx_mul_bound(
                input.mouse_x as int - self.last_mouse_x as int,
                MOUSE_SENS as int,
                0x8000_0000,
                MOUSE_SENS as int,
            );
            lemma_fx_mul_bound(
                input.mouse_y as int - self.last_mouse_y as int,
                MOUSE_SENS as int,
                0x8000_0000,
                MOUSE_SENS as int,
            );
            assert((0x8000_0000 * (MOUSE_SENS as int)) / (SCALE as int) <= 0x80_0000)
                by (nonlinear_arith)
                requires
                    MOUSE_SENS == 131i64,
                    SCALE == 65536i64,
            ;
        }
        let dx: i64 = fx_mul(input.mouse_x - self.last_mouse_x, MOUSE_SENS);
        let dy: i64 = fx_mul(input.mouse_y - self.last_mouse_y, MOUSE_SENS);
        self.last_mouse_x = input.mouse_x;
        self.last_mouse_y = input.mouse_y;

        let mut let_cursor_move: bool = true;
        let mut hide_cursor: bool = false;
        let mut moved: bool = false;

        let up = Vec3 { x: 0, y: SCALE, z: 0 };
        proof {
            lemma_cross_fits(self.cam_dir@, up@, WORLD_BOUND as int, SCALE as int);
        }
        let right = v3_cross(self.cam_dir, up);

        if input.look_held {
            let_cursor_move = false;
            hide_cursor = true;
            if dx != 0 || dy != 0 {
                self.cam_dir = rotate_dir(self.cam_dir, dx, dy);
                moved = true;
            }
        }

        proof {
            lemma_fx_mul_bound(SPEED as int, timestep as int, SPEED as int, TS_MAX as int);
        }
        let amount: i64 = fx_mul(SPEED, timestep);
        if input.key_w || input.key_s || input.key_a || input.key_d || input.key_q
            || input.key_e {
            moved = true;
        }
        self.cam_pos = apply_translation(self.cam_pos, self.cam_dir, right, amount, input);

        if moved {
            let ok: bool = self.refresh_view();
            if ok {
                self.recalculate_ray_directions();
            }
        }

        let mut r: Vec<bool> = Vec::new();
        r.push(let_cursor_move);
        r.push(hide_cursor);
        r
    }

    /// The cached ray direction for the given pixel index.
    pub fn get_ray_direction(&self, i: usize) -> (r: Vec3)
        requires
            self.wf(),
            i < NUM_PIXELS,
        ensures
            r == self.ray_directions@[i as int],
    {
        self.ray_directions[i]
    }

    /// The camera's position.
    pub fn get_camera_position(&self) -> (r: Vec3)
        ensures
            r == self.cam_pos,
    {
        self.cam_pos
    }
}

// ---------------------------------------------------------------------
// Repeated forward motion.

/// An input with the forward key held, no other key, and no effective
/// mouse-look.
pub open spec fn forward_only(last_x: int, last_y: int, inp: InputSnapshot) -> bool {
    &&& inp.key_w
    &&& !inp.key_s && !inp.key_a && !inp.key_d && !inp.key_q && !inp.key_e
    &&& !(inp.look_held && (delta_s(last_x, inp.mouse_x as int) != 0 || delta_s(
        last_y,
        inp.mouse_y as int,
    ) != 0))
}

/// One forward-only update moves the camera by exactly one clamped
/// step of the forward direction scaled by speed times timestep, and
/// leaves the direction alone.
pub proof fn lemma_forward_step(pre: Camera, post: Camera, ts: int, inp: InputSnapshot)
    requires
        update_rel(pre, post, ts, inp),
        forward_only(pre.last_mouse_x as int, pre.last_mouse_y as int, inp),
    ensures
        post.cam_dir == pre.cam_dir,
        post.cam_pos@ == clamp_v(
            add_v(pre.cam_pos@, scale_v(pre.cam_dir@, fx_mul_s(SPEED as int, ts))),
            WORLD_BOUND as int,
        ),
{
    assert(post.cam_dir@ == pre.cam_dir@);
    assert(post.cam_dir.x == pre.cam_dir.x && post.cam_dir.y == pre.cam_dir.y && post.cam_dir.z
        == pre.cam_dir.z);
}

/// The end-to-end scenario's view state, evaluated at the contract
/// level: from the pose three units back on the sphere's axis looking
/// along it, the recompute produces exactly the axis view matrix,
/// whose fixed-point inverse is itself; the cached ray of the center
/// pixel is the axis direction and that of the corner pixel is the
/// exact corner direction.
pub proof fn lemma_scenario_view_state(view0: M4, inv0: M4)
    ensures
        ({
            let eye = V3 { x: 0, y: 0, z: -196608 };
            let fwd = V3 { x: 0, y: 0, z: 196608 };
            let vm = M4 {
                m00: -65536, m01: 0, m02: 0, m03: 0,
                m10: 0, m11: 65536, m12: 0, m13: 0,
                m20: 0, m21: 0, m22: -65536, m23: -196608,
                m30: 0, m31: 0, m32: 0, m33: 65536,
            };
            &&& look_to_s(eye, fwd, up_s()) == Some(vm)
            &&& refreshed_view_s(eye, fwd, view0, inv0) == (vm, vm, true)
            &&& ray_dir_s(vm, 400, 300) == (V3 { x: 0, y: 0, z: -65536 })
            &&& ray_dir_s(vm, 0, 0) == (V3 { x: 37837, y: -37837, z: -37837 })
        }),
{
    let eye = V3 { x: 0, y: 0, z: -196608 };
    let fwd = V3 { x: 0, y: 0, z: 196608 };
    let vm = M4 {
        m00: -65536, m01: 0, m02: 0, m03: 0,
        m10: 0, m11: 65536, m12: 0, m13: 0,
        m20: 0, m21: 0, m22: -65536, m23: -196608,
        m30: 0, m31: 0, m32: 0, m33: 65536,
    };
    // ground products of the small entries
    assert(0int * 0 == 0 && 0int * 65536 == 0 && 65536int * 0 == 0 && 0int * (-65536) == 0 && (
    -65536int) * 0 == 0 && (-196608int) * 0 == 0 && 0int * (-196608) == 0) by (nonlinear_arith);
    assert(0int * 37837 == 0 && 0int * (-37837) == 0) by (nonlinear_arith);
    assert(0int / 65536 == 0 && 0int / 196608 == 0 && 0int / 113511 == 0 && 0int / 800 == 0
        && 0int / 600 == 0) by (nonlinear_arith);
    assert(fx_mul_s(0, 0) == 0 && fx_mul_s(0, 65536) == 0 && fx_mul_s(65536, 0) == 0
        && fx_mul_s(0, -65536) == 0 && fx_mul_s(-65536, 0) == 0 && fx_mul_s(-196608, 0) == 0);
    assert(fx_mul_s(0, 37837) == 0 && fx_mul_s(0, -37837) == 0);
    // the exact nonzero fixed-point products
    assert(fx_mul_s(196608, 196608) == 589824) by {
        assert(196608int * 196608 == 38654705664 && 589824int * 65536 + 0 == 38654705664)
            by (nonlinear_arith);
        crate::fixed::lemma_tdiv_exact(38654705664, 65536, 589824, 0);
    }
    assert(fx_mul_s(65536, 65536) == 65536 && fx_mul_s(-65536, -65536) == 65536 && fx_mul_s(
        -65536,
        65536,
    ) == -65536) by {
        assert(65536int * 65536 == 4294967296 && (-65536int) * (-65536) == 4294967296 && (
        -65536int) * 65536 == -4294967296) by (nonlinear_arith);
        crate::fixed::lemma_tdiv_exact(4294967296, 65536, 65536, 0);
        crate::fixed::lemma_tdiv_exact(-4294967296, 65536, 65536, 0);
    }
    assert(fx_mul_s(-196608, 65536) == -196608) by {
        assert((-196608int) * 65536 == -12884901888 && 196608int * 65536 + 0 == 12884901888)
            by (nonlinear_arith);
        crate::fixed::lemma_tdiv_exact(-12884901888, 65536, 196608, 0);
    }
    assert(fx_mul_s(-65536, -37837) == 37837 && fx_mul_s(65536, -37837) == -37837 && fx_mul_s(
        -65536,
        37837,
    ) == -37837) by {
        assert((-65536int) * (-37837) == 2479685632 && 65536int * (-37837) == -2479685632 && (
        -65536int) * 37837 == -2479685632 && 37837int * 65536 + 0 == 2479685632)
            by (nonlinear_arith);
        crate::fixed::lemma_tdiv_exact(2479685632, 65536, 37837, 0);
        crate::fixed::lemma_tdiv_exact(-2479685632, 65536, 37837, 0);
    }
    // the square roots
    assert(fx_sqrt_s(589824) == 196608) by {
        crate::fixed::lemma_sqrt_floor_exists(589824 * (SCALE as int));
        assert(crate::fixed::is_sqrt_floor(589824 * (SCALE as int), 196608)) by (nonlinear_arith)
            requires
                SCALE == 65536i64,
        ;
        crate::fixed::lemma_sqrt_floor_unique(
            589824 * (SCALE as int),
            crate::fixed::sqrt_floor(589824 * (SCALE as int)),
            196608,
        );
    }
    assert(fx_sqrt_s(65536) == 65536) by {
        crate::fixed::lemma_sqrt_floor_exists(65536 * (SCALE as int));
        assert(crate::fixed::is_sqrt_floor(65536 * (SCALE as int), 65536)) by (nonlinear_arith)
            requires
                SCALE == 65536i64,
        ;
        crate::fixed::lemma_sqrt_floor_unique(
            65536 * (SCALE as int),
            crate::fixed::sqrt_floor(65536 * (SCALE as int)),
            65536,
        );
    }
    assert(fx_sqrt_s(196608) == 113511) by {
        crate::fixed::lemma_sqrt_floor_exists(196608 * (SCALE as int));
        assert(crate::fixed::is_sqrt_floor(196608 * (SCALE as int), 113511)) by (nonlinear_arith)
            requires
                SCALE == 65536i64,
        ;
        crate::fixed::lemma_sqrt_floor_unique(
            196608 * (SCALE as int),
            crate::fixed::sqrt_floor(196608 * (SCALE as int)),
            113511,
        );
    }
    // the exact fixed-point quotients
    assert(fx_div_s(0, 196608) == 0 && fx_div_s(0, 65536) == 0 && fx_div_s(0, 113511) == 0);
    assert(fx_div_s(196608, 196608) == 65536) by {
        assert(196608int * 65536 == 12884901888 && 65536int * 196608 + 0 == 12884901888)
            by (nonlinear_arith);
        crate::fixed::lemma_tdiv_exact(12884901888, 196608, 65536, 0);
    }
    assert(fx_div_s(-65536, 65536) == -65536 && fx_div_s(65536, 65536) == 65536) by {
        assert((-65536int) * 65536 == -4294967296 && 65536int * 65536 + 0 == 4294967296)
            by (nonlinear_arith);
        crate::fixed::lemma_tdiv_exact(-4294967296, 65536, 65536, 0);
        crate::fixed::lemma_tdiv_exact(4294967296, 65536, 65536, 0);
    }
    assert(fx_div_s(-65536, 113511) == -37837 && fx_div_s(65536, 113511) == 37837) by {
        assert((-65536int) * 65536 == -4294967296 && 37837int * 113511 + 51589 == 4294967296)
            by (nonlinear_arith);
        crate::fixed::lemma_tdiv_exact(-4294967296, 113511, 37837, 51589);
        crate::fixed::lemma_tdiv_exact(4294967296, 113511, 37837, 51589);
    }
    // the look-to build lands exactly on the axis view matrix
    assert(dot_v(fwd, fwd) == 589824);
    let f = norm_v(fwd);
    assert(f == (V3 { x: 0, y: 0, z: 65536 }));
    let fu = cross_v(f, up_s());
    assert(fu == (V3 { x: -65536, y: 0, z: 0 }));
    assert(dot_v(fu, fu) == 65536);
    let sv = norm_v(fu);
    assert(sv == (V3 { x: -65536, y: 0, z: 0 }));
    let uv = cross_v(sv, f);
    assert(uv == (V3 { x: 0, y: 65536, z: 0 }));
    assert(dot_v(eye, sv) == 0);
    assert(dot_v(eye, uv) == 0);
    assert(dot_v(eye, f) == -196608);
    assert(look_to_s(eye, fwd, up_s()) == Some(vm));
    // the adjugate expansion of the axis view matrix
    assert((-65536int) * 65536 == -4294967296) by (nonlinear_arith);
    assert(crate::mat::s0_s(vm) == -4294967296 && crate::mat::c5_s(vm) == -4294967296);
    assert(crate::mat::s1_s(vm) == 0 && crate::mat::s2_s(vm) == 0 && crate::mat::s3_s(vm) == 0
        && crate::mat::s4_s(vm) == 0 && crate::mat::s5_s(vm) == 0);
    assert(crate::mat::c4_s(vm) == 0 && crate::mat::c3_s(vm) == 0 && crate::mat::c2_s(vm) == 0
        && crate::mat::c1_s(vm) == 0 && crate::mat::c0_s(vm) == 0);
    let dt = det4_s(vm);
    assert(dt == 18446744073709551616) by {
        assert((-4294967296int) * (-4294967296) == 18446744073709551616 && 0int * 0 == 0 && (
        -4294967296int) * 0 == 0 && 0int * (-4294967296) == 0) by (nonlinear_arith);
    }
    assert(0int * (-4294967296) == 0 && 65536int * (-4294967296) == -281474976710656 && (
    -65536int) * (-4294967296) == 281474976710656 && (-196608int) * (-4294967296)
        == 844424930131968) by (nonlinear_arith);
    assert(crate::mat::b00_s(vm) == -281474976710656 && crate::mat::b11_s(vm)
        == 281474976710656 && crate::mat::b22_s(vm) == -281474976710656 && crate::mat::b33_s(vm)
        == 281474976710656 && crate::mat::b23_s(vm) == -844424930131968);
    assert(crate::mat::b01_s(vm) == 0 && crate::mat::b02_s(vm) == 0 && crate::mat::b03_s(vm)
        == 0 && crate::mat::b10_s(vm) == 0 && crate::mat::b12_s(vm) == 0 && crate::mat::b13_s(vm)
        == 0 && crate::mat::b20_s(vm) == 0 && crate::mat::b21_s(vm) == 0 && crate::mat::b30_s(vm)
        == 0 && crate::mat::b31_s(vm) == 0 && crate::mat::b32_s(vm) == 0);
    // the inverse entries: the matrix is its own fixed-point inverse
    assert(crate::mat::inv_entry_s(0, dt) == 0) by {
        assert(0int * 65536 == 0 && 0int / 18446744073709551616 == 0) by (nonlinear_arith);
    }
    assert(crate::mat::inv_entry_s(-281474976710656, dt) == -65536 && crate::mat::inv_entry_s(
        281474976710656,
        dt,
    ) == 65536) by {
        assert((-281474976710656int) * 65536 == -18446744073709551616 && (
        -18446744073709551616int) * 65536 == -1208925819614629174706176 && 281474976710656int
            * 65536 == 18446744073709551616 && 18446744073709551616int * 65536
            == 1208925819614629174706176 && 65536int * 18446744073709551616 + 0
            == 1208925819614629174706176) by (nonlinear_arith);
        crate::fixed::lemma_tdiv_exact(
            -1208925819614629174706176,
            18446744073709551616,
            65536,
            0,
        );
        crate::fixed::lemma_tdiv_exact(1208925819614629174706176, 18446744073709551616, 65536, 0);
    }
    assert(crate::mat::inv_entry_s(-844424930131968, dt) == -196608) by {
        assert((-844424930131968int) * 65536 == -55340232221128654848 && (
        -55340232221128654848int) * 65536 == -3626777458843887524118528 && 196608int
            * 18446744073709551616 + 0 == 3626777458843887524118528) by (nonlinear_arith);
        crate::fixed::lemma_tdiv_exact(
            -3626777458843887524118528,
            18446744073709551616,
            196608,
            0,
        );
    }
    assert(m4_inverse_s(vm) == vm);
    assert(inv_entries_fit(vm));
    assert(refreshed_view_s(eye, fwd, view0, inv0) == (vm, vm, true));
    // the cached rays of the center and corner pixels
    assert(ndc_s(400, WIDTH as int) == 0) by {
        assert(400int * 65536 == 26214400 && 32768int * 800 + 0 == 26214400) by (nonlinear_arith);
        crate::fixed::lemma_tdiv_exact(26214400, 800, 32768, 0);
    }
    assert(ndc_s(300, HEIGHT as int) == 0) by {
        assert(300int * 65536 == 19660800 && 32768int * 600 + 0 == 19660800) by (nonlinear_arith);
        crate::fixed::lemma_tdiv_exact(19660800, 600, 32768, 0);
    }
    assert(ndc_s(0, WIDTH as int) == -65536 && ndc_s(0, HEIGHT as int) == -65536) by {
        assert(0int * 65536 == 0) by (nonlinear_arith);
    }
    let tc = V3 { x: 0, y: 0, z: 65536 };
    assert(dot_v(tc, tc) == 65536);
    assert(norm_v(tc) == tc);
    assert(clamp_v(norm_v(tc), 2 * (SCALE as int)) == tc);
    assert(transform_dir_s(vm, tc) == (V3 { x: 0, y: 0, z: -65536 }));
    assert(ray_dir_s(vm, 400, 300) == (V3 { x: 0, y: 0, z: -65536 }));
    let tk = V3 { x: -65536, y: -65536, z: 65536 };
    assert(dot_v(tk, tk) == 196608);
    assert(norm_v(tk) == (V3 { x: -37837, y: -37837, z: 37837 }));
    assert(clamp_v(norm_v(tk), 2 * (SCALE as int)) == (V3 { x: -37837, y: -37837, z: 37837 }));
    assert(transform_dir_s(vm, V3 { x: -37837, y: -37837, z: 37837 }) == (V3 {
        x: 37837,
        y: -37837,
        z: -37837,
    }));
    assert(ray_dir_s(vm, 0, 0) == (V3 { x: 37837, y: -37837, z: -37837 }));
}

/// A chain of consecutive forward-only frames moves the camera
/// linearly: after `n` updates with constant timestep and the forward
/// key alone, the position is the start plus `n` times
/// `dir * speed * timestep` exactly, and the direction is untouched —
/// as long as the whole path stays inside the world box.  `cams` lists
/// the camera before each update and after the last.
pub proof fn lemma_forward_path(cams: Seq<Camera>, ts: int, inp: InputSnapshot)
    requires
        1 <= cams.len(),
        forall|k: int|
            0 <= k < cams.len() - 1 ==> update_rel(#[trigger] cams[k], cams[k + 1], ts, inp),
        forall|k: int|
            0 <= k < cams.len() - 1 ==> forward_only(
                (#[trigger] cams[k]).last_mouse_x as int,
                cams[k].last_mouse_y as int,
                inp,
            ),
        in_box(cams[0].cam_pos@, WORLD_BOUND as int),
        ({
            let step = scale_v(cams[0].cam_dir@, fx_mul_s(SPEED as int, ts));
            in_box(
                V3 {
                    x: cams[0].cam_pos@.x + (cams.len() - 1) * step.x,
                    y: cams[0].cam_pos@.y + (cams.len() - 1) * step.y,
                    z: cams[0].cam_pos@.z + (cams.len() - 1) * step.z,
                },
                WORLD_BOUND as int,
            )
        }),
    ensures
        cams.last().cam_dir == cams[0].cam_dir,
        ({
            let step = scale_v(cams[0].cam_dir@, fx_mul_s(SPEED as int, ts));
            cams.last().cam_pos@ == (V3 {
                x: cams[0].cam_pos@.x + (cams.len() - 1) * step.x,
                y: cams[0].cam_pos@.y + (cams.len() - 1) * step.y,
                z: cams[0].cam_pos@.z + (cams.len() - 1) * step.z,
            })
        }),
    decreases cams.len(),
{
    let n = cams.len() as int;
    let pos0 = cams[0].cam_pos@;
    let step = scale_v(cams[0].cam_dir@, fx_mul_s(SPEED as int, ts));
    if n == 1 {
        assert(0int * step.x == 0 && 0int * step.y == 0 && 0int * step.z == 0)
            by (nonlinear_arith);
    } else {
        let prefix = cams.subrange(0, n - 1);
        assert(prefix[0] == cams[0]);
        assert(prefix.last() == cams[n - 2]);
        assert forall|k: int| 0 <= k < prefix.len() - 1 implies update_rel(
            #[trigger] prefix[k],
            prefix[k + 1],
            ts,
            inp,
        ) by {
            assert(prefix[k] == cams[k] && prefix[k + 1] == cams[k + 1]);
        }
        assert forall|k: int| 0 <= k < prefix.len() - 1 implies forward_only(
            (#[trigger] prefix[k]).last_mouse_x as int,
            prefix[k].last_mouse_y as int,
            inp,
        ) by {
            assert(prefix[k] == cams[k]);
        }
        lemma_segment_in_box(pos0.x, step.x, (n - 1) as nat);
        lemma_segment_in_box(pos0.y, step.y, (n - 1) as nat);
        lemma_segment_in_box(pos0.z, step.z, (n - 1) as nat);
        lemma_forward_path(prefix, ts, inp);
        lemma_forward_step(cams[n - 2], cams[n - 1], ts, inp);
        assert(scale_v(cams[n - 2].cam_dir@, fx_mul_s(SPEED as int, ts)) == step);
        assert((n - 2) * step.x + step.x == (n - 1) * step.x && (n - 2) * step.y + step.y == (n
            - 1) * step.y && (n - 2) * step.z + step.z == (n - 1) * step.z) by (nonlinear_arith);
        assert(cams.last() == cams[n - 1]);
    }
}

/// The position reached by `n` clamped steps of `step`.
pub open spec fn advance_s(pos: V3, step: V3, n: nat) -> V3
    decreases n,
{
    if n == 0 {
        pos
    } else {
        clamp_v(add_v(advance_s(pos, step, (n - 1) as nat), step), WORLD_BOUND as int)
    }
}

/// While the whole path stays inside the world box, `n` clamped steps
/// land exactly at the start plus `n` times the step: repeated
/// forward-key updates with a constant direction and timestep move the
/// camera linearly.
pub proof fn lemma_forward_advance(pos: V3, step: V3, n: nat)
    requires
        in_box(pos, WORLD_BOUND as int),
        in_box(
            V3 {
                x: pos.x + n * step.x,
                y: pos.y + n * step.y,
                z: pos.z + n * step.z,
            },
            WORLD_BOUND as int,
        ),
    ensures
        advance_s(pos, step, n) == (V3 {
            x: pos.x + n * step.x,
            y: pos.y + n * step.y,
            z: pos.z + n * step.z,
        }),
    decreases n,
{
    if n == 0 {
        assert(n * step.x == 0 && n * step.y == 0 && n * step.z == 0) by (nonlinear_arith)
            requires
                n == 0,
        ;
    } else {
        let m = (n - 1) as nat;
        lemma_segment_in_box(pos.x, step.x, n);
        lemma_segment_in_box(pos.y, step.y, n);
        lemma_segment_in_box(pos.z, step.z, n);
        lemma_forward_advance(pos, step, m);
        assert(m * step.x + step.x == n * step.x && m * step.y + step.y == n * step.y && m
            * step.z + step.z == n * step.z) by (nonlinear_arith)
            requires
                m == n - 1,
        ;
    }
}

/// A point on the straight path between two in-box endpoints is in
/// the box.
proof fn lemma_segment_in_box(p0: int, st: int, n: nat)
    requires
        1 <= n,
        -(WORLD_BOUND as int) <= p0 <= WORLD_BOUND as int,
        -(WORLD_BOUND as int) <= p0 + n * st <= WORLD_BOUND as int,
    ensures
        -(WORLD_BOUND as int) <= p0 + (n - 1) * st <= WORLD_BOUND as int,
{
    assert((n - 1) * st == n * st - st) by (nonlinear_arith);
    if st >= 0 {
        assert(0 <= (n - 1) * st <= n * st) by (nonlinear_arith)
            requires
                st >= 0,
                n >= 1,
        ;
    } else {
        assert(n * st <= (n - 1) * st <= 0) by (nonlinear_arith)
            requires
                st < 0,
                n >= 1,
        ;
    }
}

} // verus!
