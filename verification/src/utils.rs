//! Rays, quaternions and error-report formatting.

use vstd::prelude::*;
use vstd::string::StringExecFns;
use crate::fixed::{
    fx_mul_s, fx_div_s, fx_sqrt_s, tdiv, lemma_fx_mul_bound, lemma_fx_div_bound,
    fx_mul, fx_div, fx_divi, fx_sqrt, SCALE, HALF_SCALE,
};
use crate::vec::{Vec3, V3, in_box};

verus! {

/// A view ray: an origin point and a direction, both fixed point.
#[derive(Clone, Copy, PartialEq, Eq, Structural, Debug)]
pub struct Ray {
    pub origin: Vec3,
    pub direction: Vec3,
}

/// A rotation quaternion; each component is a Q47.16 fixed-point number.
#[derive(Clone, Copy, PartialEq, Eq, Structural, Debug)]
pub struct Quat {
    pub s: i64,
    pub x: i64,
    pub y: i64,
    pub z: i64,
}

/// The mathematical value of a `Quat`.
pub ghost struct Q4 {
    pub s: int,
    pub x: int,
    pub y: int,
    pub z: int,
}

impl View for Quat {
    type V = Q4;

    open spec fn view(&self) -> Q4 {
        Q4 { s: self.s as int, x: self.x as int, y: self.y as int, z: self.z as int }
    }
}

/// Every component within `[-bound, bound]`.
pub open spec fn in_box4(q: Q4, bound: int) -> bool {
    &&& -bound <= q.s <= bound
    &&& -bound <= q.x <= bound
    &&& -bound <= q.y <= bound
    &&& -bound <= q.z <= bound
}

/// The fixed-point Hamilton product.
pub open spec fn quat_mul_s(a: Q4, b: Q4) -> Q4 {
    Q4 {
        s: fx_mul_s(a.s, b.s) - fx_mul_s(a.x, b.x) - fx_mul_s(a.y, b.y) - fx_mul_s(a.z, b.z),
        x: fx_mul_s(a.s, b.x) + fx_mul_s(a.x, b.s) + fx_mul_s(a.y, b.z) - fx_mul_s(a.z, b.y),
        y: fx_mul_s(a.s, b.y) + fx_mul_s(a.y, b.s) + fx_mul_s(a.z, b.x) - fx_mul_s(a.x, b.z),
        z: fx_mul_s(a.s, b.z) + fx_mul_s(a.z, b.s) + fx_mul_s(a.x, b.y) - fx_mul_s(a.y, b.x),
    }
}

/// The squared magnitude of a quaternion.
pub open spec fn quat_dot_s(a: Q4, b: Q4) -> int {
    fx_mul_s(a.s, b.s) + fx_mul_s(a.x, b.x) + fx_mul_s(a.y, b.y) + fx_mul_s(a.z, b.z)
}

/// Each component divided by the magnitude (meaningful when the
/// squared magnitude is at least one raw unit).
pub open spec fn quat_norm_s(q: Q4) -> Q4 {
    let len = fx_sqrt_s(quat_dot_s(q, q));
    Q4 {
        s: fx_div_s(q.s, len),
        x: fx_div_s(q.x, len),
        y: fx_div_s(q.y, len),
        z: fx_div_s(q.z, len),
    }
}

/// The cubic small-angle approximation of the sine, for angles up to
/// one radian either way: `h - h^3 / 6` in fixed point.
pub open spec fn sin_small_s(h: int) -> int {
    h - tdiv(fx_mul_s(fx_mul_s(h, h), h), 6)
}

/// The quartic small-angle approximation of the cosine, for angles up
/// to one radian either way: `1 - h^2 / 2 + h^4 / 24` in fixed point.
pub open spec fn cos_small_s(h: int) -> int {
    (SCALE as int) - tdiv(fx_mul_s(h, h), 2) + tdiv(
        fx_mul_s(fx_mul_s(h, h), fx_mul_s(h, h)),
        24,
    )
}

/// The rotation quaternion for the given axis and angle: cosine of the
/// half angle as the scalar part, axis scaled by its sine as the
/// vector part.  The axis is taken as handed in, not renormalized.
pub open spec fn from_axis_angle_s(axis: V3, angle: int) -> Q4 {
    let half = fx_mul_s(angle, HALF_SCALE as int);
    Q4 {
        s: cos_small_s(half),
        x: fx_mul_s(axis.x, sin_small_s(half)),
        y: fx_mul_s(axis.y, sin_small_s(half)),
        z: fx_mul_s(axis.z, sin_small_s(half)),
    }
}

/// Rotating `v` by `q`: `v + 2 * qv x (qv x v + s * v)`, each step in
/// fixed point.
pub open spec fn quat_rotate_s(q: Q4, v: V3) -> V3 {
    let qv = V3 { x: q.x, y: q.y, z: q.z };
    let inner = crate::vec::add_v(crate::vec::cross_v(qv, v), crate::vec::scale_v(v, q.s));
    let outer = crate::vec::cross_v(qv, inner);
    V3 { x: v.x + 2 * outer.x, y: v.y + 2 * outer.y, z: v.z + 2 * outer.z }
}

/// The Hamilton product of two quaternions.
pub fn quaternion_cross(q1: Quat, q2: Quat) -> (r: Quat)
    requires
        in_box4(q1@, 0x4000_0000),
        in_box4(q2@, 0x4000_0000),
    ensures
        r@ == quat_mul_s(q1@, q2@),
{
    proof {
        let m = 0x4000_0000int;
        lemma_fx_mul_bound(q1@.s, q2@.s, m, m);
        lemma_fx_mul_bound(q1@.s, q2@.x, m, m);
        lemma_fx_mul_bound(q1@.s, q2@.y, m, m);
        lemma_fx_mul_bound(q1@.s, q2@.z, m, m);
        lemma_fx_mul_bound(q1@.x, q2@.s, m, m);
        lemma_fx_mul_bound(q1@.x, q2@.x, m, m);
        lemma_fx_mul_bound(q1@.x, q2@.y, m, m);
        lemma_fx_mul_bound(q1@.x, q2@.z, m, m);
        lemma_fx_mul_bound(q1@.y, q2@.s, m, m);
        lemma_fx_mul_bound(q1@.y, q2@.x, m, m);
        lemma_fx_mul_bound(q1@.y, q2@.y, m, m);
        lemma_fx_mul_bound(q1@.y, q2@.z, m, m);
        lemma_fx_mul_bound(q1@.z, q2@.s, m, m);
        lemma_fx_mul_bound(q1@.z, q2@.x, m, m);
        lemma_fx_mul_bound(q1@.z, q2@.y, m, m);
        lemma_fx_mul_bound(q1@.z, q2@.z, m, m);
    }
    Quat {
        s: fx_mul(q1.s, q2.s) - fx_mul(q1.x, q2.x) - fx_mul(q1.y, q2.y) - fx_mul(q1.z, q2.z),
        x: fx_mul(q1.s, q2.x) + fx_mul(q1.x, q2.s) + fx_mul(q1.y, q2.z) - fx_mul(q1.z, q2.y),
        y: fx_mul(q1.s, q2.y) + fx_mul(q1.y, q2.s) + fx_mul(q1.z, q2.x) - fx_mul(q1.x, q2.z),
        z: fx_mul(q1.s, q2.z) + fx_mul(q1.z, q2.s) + fx_mul(q1.x, q2.y) - fx_mul(q1.y, q2.x),
    }
}

/// Divides all four components by the quaternion's magnitude.  The
/// caller guards against a zero or near-zero magnitude.
pub fn quaternion_normalize(q: Quat) -> (r: Quat)
    requires
        in_box4(q@, 0x40_0000_0000),
        1 <= quat_dot_s(q@, q@),
    ensures
        r@ == quat_norm_s(q@),
{
    proof {
        let m = 0x40_0000_0000int;
        lemma_fx_mul_bound(q@.s, q@.s, m, m);
        lemma_fx_mul_bound(q@.x, q@.x, m, m);
        lemma_fx_mul_bound(q@.y, q@.y, m, m);
        lemma_fx_mul_bound(q@.z, q@.z, m, m);
    }
    let d: i64 = fx_mul(q.s, q.s) + fx_mul(q.x, q.x) + fx_mul(q.y, q.y) + fx_mul(q.z, q.z);
    let len: i64 = fx_sqrt(d);
    proof {
        lemma_quat_len_positive(q@);
        let m = 0x40_0000_0000int;
        lemma_fx_div_bound(q@.s, len as int, m);
        lemma_fx_div_bound(q@.x, len as int, m);
        lemma_fx_div_bound(q@.y, len as int, m);
        lemma_fx_div_bound(q@.z, len as int, m);
    }
    Quat {
        s: fx_div(q.s, len),
        x: fx_div(q.x, len),
        y: fx_div(q.y, len),
        z: fx_div(q.z, len),
    }
}

/// A nonzero squared magnitude makes the fixed-point magnitude at
/// least one raw unit.
pub proof fn lemma_quat_len_positive(q: Q4)
    requires
        1 <= quat_dot_s(q, q),
        quat_dot_s(q, q) <= i64::MAX,
    ensures
        1 <= fx_sqrt_s(quat_dot_s(q, q)),
{
    crate::fixed::lemma_sqrt_floor_exists(quat_dot_s(q, q) * (SCALE as int));
    let r = fx_sqrt_s(quat_dot_s(q, q));
    assert(1 <= r) by (nonlinear_arith)
        requires
            0 <= r,
            (r + 1) * (r + 1) > quat_dot_s(q, q) * (SCALE as int),
            quat_dot_s(q, q) >= 1,
            SCALE == 65536i64,
    ;
}

/// The rotation quaternion for an axis and a small angle (at most one
/// radian either way), using the polynomial small-angle sine and
/// cosine.
pub fn quat_from_axis_angle(axis: Vec3, angle: i64) -> (r: Quat)
    requires
        in_box(axis@, 0x800_0000),
        -(SCALE as int) <= angle as int <= SCALE as int,
    ensures
        r@ == from_axis_angle_s(axis@, angle as int),
{
    proof {
        lemma_fx_mul_bound(angle as int, HALF_SCALE as int, SCALE as int, HALF_SCALE as int);
    }
    let half: i64 = fx_mul(angle, HALF_SCALE);
    proof {
        let h = half as int;
        lemma_fx_mul_bound(h, h, HALF_SCALE as int, HALF_SCALE as int);
        lemma_fx_mul_bound(fx_mul_s(h, h), h, 0x4000, HALF_SCALE as int);
        lemma_fx_mul_bound(
            fx_mul_s(h, h),
            fx_mul_s(h, h),
            0x4000,
            0x4000,
        );
        crate::fixed::lemma_tdiv_bound(fx_mul_s(fx_mul_s(h, h), h), 6, 0x2000_0000);
        crate::fixed::lemma_tdiv_bound(fx_mul_s(h, h), 2, 0x4000);
        crate::fixed::lemma_tdiv_bound(fx_mul_s(fx_mul_s(h, h), fx_mul_s(h, h)), 24, 0x1000);
    }
    let h2: i64 = fx_mul(half, half);
    let h3: i64 = fx_mul(h2, half);
    let h4: i64 = fx_mul(h2, h2);
    let sin_h: i64 = half - fx_divi(h3, 6);
    let cos_h: i64 = SCALE - fx_divi(h2, 2) + fx_divi(h4, 24);
    proof {
        let s = sin_small_s(fx_mul_s(angle as int, HALF_SCALE as int));
        lemma_fx_mul_bound(axis@.x, s, 0x800_0000, 0x1_0000);
        lemma_fx_mul_bound(axis@.y, s, 0x800_0000, 0x1_0000);
        lemma_fx_mul_bound(axis@.z, s, 0x800_0000, 0x1_0000);
    }
    Quat {
        s: cos_h,
        x: fx_mul(axis.x, sin_h),
        y: fx_mul(axis.y, sin_h),
        z: fx_mul(axis.z, sin_h),
    }
}

/// Rotates the vector `v` by the (near-unit) quaternion `q`.
pub fn quat_rotate(q: Quat, v: Vec3) -> (r: Vec3)
    requires
        in_box4(q@, 0x10_0000),
        in_box(v@, 0x400_0000),
    ensures
        r@ == quat_rotate_s(q@, v@),
{
    let qv = Vec3 { x: q.x, y: q.y, z: q.z };
    proof {
        let qb = 0x10_0000int;
        let vb = 0x400_0000int;
        crate::vec::lemma_cross_fits(qv@, v@, qb, vb);
        lemma_fx_mul_bound(v@.x, q@.s, vb, qb);
        lemma_fx_mul_bound(v@.y, q@.s, vb, qb);
        lemma_fx_mul_bound(v@.z, q@.s, vb, qb);
        crate::vec::lemma_cross_fits(
            qv@,
            crate::vec::add_v(crate::vec::cross_v(qv@, v@), crate::vec::scale_v(v@, q@.s)),
            qb,
            0x3_0000_0000,
        );
    }
    let inner = crate::vec::v3_add(crate::vec::v3_cross(qv, v), crate::vec::v3_scale(v, q.s));
    let outer = crate::vec::v3_cross(qv, inner);
    Vec3 {
        x: v.x + 2 * outer.x,
        y: v.y + 2 * outer.y,
        z: v.z + 2 * outer.z,
    }
}

/// Formats a failure report: the failing method with its message
/// first, then one indented line for each cause in the chain.
pub fn log_error(method_name: &str, failure: &str, causes: &Vec<String>) -> (lines: Vec<String>)
    ensures
        lines@.len() == 1 + causes@.len(),
        lines@[0]@ == method_name@ + "() failed: "@ + failure@,
        forall|i: int|
            0 <= i < causes@.len() ==> lines@[i + 1]@ == "  Caused by: "@ + causes@[i]@,
{
    let mut lines: Vec<String> = Vec::new();
    let mut first: String = String::from_str(method_name);
    first.append("() failed: ");
    first.append(failure);
    lines.push(first);
    let mut i: usize = 0;
    while i < causes.len()
        invariant
            0 <= i <= causes@.len(),
            lines@.len() == 1 + i,
            lines@[0]@ == method_name@ + "() failed: "@ + failure@,
            forall|j: int|
                0 <= j < i ==> lines@[j + 1]@ == "  Caused by: "@ + causes@[j]@,
        decreases causes@.len() - i,
    {
        let mut line: String = String::from_str("  Caused by: ");
        line.append(causes[i].as_str());
        lines.push(line);
        i = i + 1;
    }
    lines
}

} // verus!
