//! Fixed-point 4x4 matrices: the right-handed look-to view matrix, its
//! inverse by the adjugate, and the transform of a direction.
//!
//! Entries are Q47.16 fixed point, so the raw integer determinant of a
//! matrix is `SCALE^4` times its real determinant, the raw adjugate is
//! `SCALE^3` times the real one, and an entry of the fixed-point
//! inverse is the raw adjugate entry times `SCALE^2` divided by the
//! raw determinant.

use vstd::prelude::*;
use crate::fixed::{
    fx_mul_s, tdiv_any, lemma_mul_bounds, lemma_fx_mul_bound, fx_mul, SCALE,
};
use crate::vec::{
    Vec3, V3, in_box, dot_v, cross_v, norm_v, lemma_dot_fits, lemma_cross_fits, v3_dot,
    v3_cross, v3_normalize,
};

verus! {

/// Entries of a matrix handed to the inverse stay within this bound.
pub const ENTRY_BOUND: i64 = 0x4000_0000;

/// Entries of a computed inverse are accepted only within this bound,
/// which keeps later transforms overflow-free.
pub const INV_BOUND: i64 = 0x4_0000_0000;

/// A 4x4 matrix in row-major order: `mRC` is row `R`, column `C`.
#[derive(Clone, Copy, PartialEq, Eq, Structural, Debug)]
pub struct Mat4 {
    pub m00: i64, pub m01: i64, pub m02: i64, pub m03: i64,
    pub m10: i64, pub m11: i64, pub m12: i64, pub m13: i64,
    pub m20: i64, pub m21: i64, pub m22: i64, pub m23: i64,
    pub m30: i64, pub m31: i64, pub m32: i64, pub m33: i64,
}

/// The mathematical value of a `Mat4`.
pub ghost struct M4 {
    pub m00: int, pub m01: int, pub m02: int, pub m03: int,
    pub m10: int, pub m11: int, pub m12: int, pub m13: int,
    pub m20: int, pub m21: int, pub m22: int, pub m23: int,
    pub m30: int, pub m31: int, pub m32: int, pub m33: int,
}

impl View for Mat4 {
    type V = M4;

    open spec fn view(&self) -> M4 {
        M4 {
            m00: self.m00 as int, m01: self.m01 as int, m02: self.m02 as int, m03: self.m03 as int,
            m10: self.m10 as int, m11: self.m11 as int, m12: self.m12 as int, m13: self.m13 as int,
            m20: self.m20 as int, m21: self.m21 as int, m22: self.m22 as int, m23: self.m23 as int,
            m30: self.m30 as int, m31: self.m31 as int, m32: self.m32 as int, m33: self.m33 as int,
        }
    }
}

/// Every entry within `[-bound, bound]`.
pub open spec fn m4_in_box(m: M4, bound: int) -> bool {
    &&& -bound <= m.m00 <= bound && -bound <= m.m01 <= bound
    &&& -bound <= m.m02 <= bound && -bound <= m.m03 <= bound
    &&& -bound <= m.m10 <= bound && -bound <= m.m11 <= bound
    &&& -bound <= m.m12 <= bound && -bound <= m.m13 <= bound
    &&& -bound <= m.m20 <= bound && -bound <= m.m21 <= bound
    &&& -bound <= m.m22 <= bound && -bound <= m.m23 <= bound
    &&& -bound <= m.m30 <= bound && -bound <= m.m31 <= bound
    &&& -bound <= m.m32 <= bound && -bound <= m.m33 <= bound
}

/// The identity matrix (ones on the diagonal, in fixed point).
pub open spec fn m4_identity_s() -> M4 {
    M4 {
        m00: SCALE as int, m01: 0, m02: 0, m03: 0,
        m10: 0, m11: SCALE as int, m12: 0, m13: 0,
        m20: 0, m21: 0, m22: SCALE as int, m23: 0,
        m30: 0, m31: 0, m32: 0, m33: SCALE as int,
    }
}

/// Builds the identity matrix.
pub fn m4_identity() -> (r: Mat4)
    ensures
        r@ == m4_identity_s(),
{
    Mat4 {
        m00: SCALE, m01: 0, m02: 0, m03: 0,
        m10: 0, m11: SCALE, m12: 0, m13: 0,
        m20: 0, m21: 0, m22: SCALE, m23: 0,
        m30: 0, m31: 0, m32: 0, m33: SCALE,
    }
}

// The twelve 2x2 minors used by the adjugate expansion: `sK` from the
// top two rows, `cK` from the bottom two.
pub open spec fn s0_s(m: M4) -> int { m.m00 * m.m11 - m.m01 * m.m10 }
pub open spec fn s1_s(m: M4) -> int { m.m00 * m.m12 - m.m02 * m.m10 }
pub open spec fn s2_s(m: M4) -> int { m.m00 * m.m13 - m.m03 * m.m10 }
pub open spec fn s3_s(m: M4) -> int { m.m01 * m.m12 - m.m02 * m.m11 }
pub open spec fn s4_s(m: M4) -> int { m.m01 * m.m13 - m.m03 * m.m11 }
pub open spec fn s5_s(m: M4) -> int { m.m02 * m.m13 - m.m03 * m.m12 }
pub open spec fn c5_s(m: M4) -> int { m.m22 * m.m33 - m.m23 * m.m32 }
pub open spec fn c4_s(m: M4) -> int { m.m21 * m.m33 - m.m23 * m.m31 }
pub open spec fn c3_s(m: M4) -> int { m.m21 * m.m32 - m.m22 * m.m31 }
pub open spec fn c2_s(m: M4) -> int { m.m20 * m.m33 - m.m23 * m.m30 }
pub open spec fn c1_s(m: M4) -> int { m.m20 * m.m32 - m.m22 * m.m30 }
pub open spec fn c0_s(m: M4) -> int { m.m20 * m.m31 - m.m21 * m.m30 }

/// The raw integer determinant, by the 2x2-complement expansion.
pub open spec fn det4_s(m: M4) -> int {
    s0_s(m) * c5_s(m) - s1_s(m) * c4_s(m) + s2_s(m) * c3_s(m) + s3_s(m) * c2_s(m) - s4_s(m)
        * c1_s(m) + s5_s(m) * c0_s(m)
}

// The sixteen raw adjugate entries.
pub open spec fn b00_s(m: M4) -> int { m.m11 * c5_s(m) - m.m12 * c4_s(m) + m.m13 * c3_s(m) }
pub open spec fn b01_s(m: M4) -> int { -(m.m01 * c5_s(m)) + m.m02 * c4_s(m) - m.m03 * c3_s(m) }
pub open spec fn b02_s(m: M4) -> int { m.m31 * s5_s(m) - m.m32 * s4_s(m) + m.m33 * s3_s(m) }
pub open spec fn b03_s(m: M4) -> int { -(m.m21 * s5_s(m)) + m.m22 * s4_s(m) - m.m23 * s3_s(m) }
pub open spec fn b10_s(m: M4) -> int { -(m.m10 * c5_s(m)) + m.m12 * c2_s(m) - m.m13 * c1_s(m) }
pub open spec fn b11_s(m: M4) -> int { m.m00 * c5_s(m) - m.m02 * c2_s(m) + m.m03 * c1_s(m) }
pub open spec fn b12_s(m: M4) -> int { -(m.m30 * s5_s(m)) + m.m32 * s2_s(m) - m.m33 * s1_s(m) }
pub open spec fn b13_s(m: M4) -> int { m.m20 * s5_s(m) - m.m22 * s2_s(m) + m.m23 * s1_s(m) }
pub open spec fn b20_s(m: M4) -> int { m.m10 * c4_s(m) - m.m11 * c2_s(m) + m.m13 * c0_s(m) }
pub open spec fn b21_s(m: M4) -> int { -(m.m00 * c4_s(m)) + m.m01 * c2_s(m) - m.m03 * c0_s(m) }
pub open spec fn b22_s(m: M4) -> int { m.m30 * s4_s(m) - m.m31 * s2_s(m) + m.m33 * s0_s(m) }
pub open spec fn b23_s(m: M4) -> int { -(m.m20 * s4_s(m)) + m.m21 * s2_s(m) - m.m23 * s0_s(m) }
pub open spec fn b30_s(m: M4) -> int { -(m.m10 * c3_s(m)) + m.m11 * c1_s(m) - m.m12 * c0_s(m) }
pub open spec fn b31_s(m: M4) -> int { m.m00 * c3_s(m) - m.m01 * c1_s(m) + m.m02 * c0_s(m) }
pub open spec fn b32_s(m: M4) -> int { -(m.m30 * s3_s(m)) + m.m31 * s1_s(m) - m.m32 * s0_s(m) }
pub open spec fn b33_s(m: M4) -> int { m.m20 * s3_s(m) - m.m21 * s1_s(m) + m.m22 * s0_s(m) }

/// An entry of the fixed-point inverse: the raw adjugate entry scaled
/// by `SCALE^2`, divided by the raw determinant.
pub open spec fn inv_entry_s(b: int, det: int) -> int {
    tdiv_any(b * (SCALE as int) * (SCALE as int), det)
}

/// The fixed-point inverse (meaningful when the determinant is nonzero).
pub open spec fn m4_inverse_s(m: M4) -> M4 {
    let det = det4_s(m);
    M4 {
        m00: inv_entry_s(b00_s(m), det), m01: inv_entry_s(b01_s(m), det),
        m02: inv_entry_s(b02_s(m), det), m03: inv_entry_s(b03_s(m), det),
        m10: inv_entry_s(b10_s(m), det), m11: inv_entry_s(b11_s(m), det),
        m12: inv_entry_s(b12_s(m), det), m13: inv_entry_s(b13_s(m), det),
        m20: inv_entry_s(b20_s(m), det), m21: inv_entry_s(b21_s(m), det),
        m22: inv_entry_s(b22_s(m), det), m23: inv_entry_s(b23_s(m), det),
        m30: inv_entry_s(b30_s(m), det), m31: inv_entry_s(b31_s(m), det),
        m32: inv_entry_s(b32_s(m), det), m33: inv_entry_s(b33_s(m), det),
    }
}

/// Every entry of the inverse stays within `INV_BOUND`.
pub open spec fn inv_entries_fit(m: M4) -> bool {
    m4_in_box(m4_inverse_s(m), INV_BOUND as int)
}

/// Product of two entries, widened; never overflows.
fn dmul(a: i64, b: i64) -> (r: i128)
    requires
        -(ENTRY_BOUND as int) <= a as int <= ENTRY_BOUND as int,
        -(ENTRY_BOUND as int) <= b as int <= ENTRY_BOUND as int,
    ensures
        r as int == a as int * b as int,
        -0x1000_0000_0000_0000 <= r as int <= 0x1000_0000_0000_0000,
{
    proof {
        lemma_mul_bounds(a as int, b as int, ENTRY_BOUND as int, ENTRY_BOUND as int);
    }
    (a as i128) * (b as i128)
}

/// Product of two 2x2 minors; never overflows.
fn smul(a: i128, b: i128) -> (r: i128)
    requires
        -0x2000_0000_0000_0000 <= a as int <= 0x2000_0000_0000_0000,
        -0x2000_0000_0000_0000 <= b as int <= 0x2000_0000_0000_0000,
    ensures
        r as int == a as int * b as int,
        -0x4000_0000_0000_0000_0000_0000_0000_000 <= r as int
            <= 0x4000_0000_0000_0000_0000_0000_0000_000,
{
    proof {
        lemma_mul_bounds(a as int, b as int, 0x2000_0000_0000_0000, 0x2000_0000_0000_0000);
    }
    a * b
}

/// Product of an entry and a 2x2 minor; never overflows.
fn emul(a: i64, c: i128) -> (r: i128)
    requires
        -(ENTRY_BOUND as int) <= a as int <= ENTRY_BOUND as int,
        -0x2000_0000_0000_0000 <= c as int <= 0x2000_0000_0000_0000,
    ensures
        r as int == a as int * c as int,
        -0x8000_0000_0000_0000_0000_000 <= r as int <= 0x8000_0000_0000_0000_0000_000,
{
    proof {
        lemma_mul_bounds(a as int, c as int, ENTRY_BOUND as int, 0x2000_0000_0000_0000);
    }
    (a as i128) * c
}

/// Truncating division of an `i128` by any nonzero divisor.
fn tdiv128_any(n: i128, d: i128) -> (r: i128)
    requires
        d != 0,
        n != i128::MIN,
        d != i128::MIN,
    ensures
        r as int == tdiv_any(n as int, d as int),
{
    if d > 0 {
        crate::fixed::tdiv128(n, d)
    } else {
        crate::fixed::tdiv128(-n, -d)
    }
}

/// Inverts the matrix by the adjugate.  Reports failure instead of
/// returning a garbage matrix: `None` exactly when the determinant is
/// zero or an entry of the inverse would leave `INV_BOUND`.
#[verifier::rlimit(100)]
pub fn m4_invert(m: &Mat4) -> (r: Option<Mat4>)
    requires
        m4_in_box(m@, ENTRY_BOUND as int),
    ensures
        match r {
            None => det4_s(m@) == 0 || !inv_entries_fit(m@),
            Some(i) => det4_s(m@) != 0 && inv_entries_fit(m@) && i@ == m4_inverse_s(m@),
        },
{
    let s0: i128 = dmul(m.m00, m.m11) - dmul(m.m01, m.m10);
    let s1: i128 = dmul(m.m00, m.m12) - dmul(m.m02, m.m10);
    let s2: i128 = dmul(m.m00, m.m13) - dmul(m.m03, m.m10);
    let s3: i128 = dmul(m.m01, m.m12) - dmul(m.m02, m.m11);
    let s4: i128 = dmul(m.m01, m.m13) - dmul(m.m03, m.m11);
    let s5: i128 = dmul(m.m02, m.m13) - dmul(m.m03, m.m12);
    let c5: i128 = dmul(m.m22, m.m33) - dmul(m.m23, m.m32);
    let c4: i128 = dmul(m.m21, m.m33) - dmul(m.m23, m.m31);
    let c3: i128 = dmul(m.m21, m.m32) - dmul(m.m22, m.m31);
    let c2: i128 = dmul(m.m20, m.m33) - dmul(m.m23, m.m30);
    let c1: i128 = dmul(m.m20, m.m32) - dmul(m.m22, m.m30);
    let c0: i128 = dmul(m.m20, m.m31) - dmul(m.m21, m.m30);
    let det: i128 = smul(s0, c5) - smul(s1, c4) + smul(s2, c3) + smul(s3, c2) - smul(s4, c1)
        + smul(s5, c0);
    if det == 0 {
        return None;
    }
    let b00: i128 = emul(m.m11, c5) - emul(m.m12, c4) + emul(m.m13, c3);
    let b01: i128 = -emul(m.m01, c5) + emul(m.m02, c4) - emul(m.m03, c3);
    let b02: i128 = emul(m.m31, s5) - emul(m.m32, s4) + emul(m.m33, s3);
    let b03: i128 = -emul(m.m21, s5) + emul(m.m22, s4) - emul(m.m23, s3);
    let b10: i128 = -emul(m.m10, c5) + emul(m.m12, c2) - emul(m.m13, c1);
    let b11: i128 = emul(m.m00, c5) - emul(m.m02, c2) + emul(m.m03, c1);
    let b12: i128 = -emul(m.m30, s5) + emul(m.m32, s2) - emul(m.m33, s1);
    let b13: i128 = emul(m.m20, s5) - emul(m.m22, s2) + emul(m.m23, s1);
    let b20: i128 = emul(m.m10, c4) - emul(m.m11, c2) + emul(m.m13, c0);
    let b21: i128 = -emul(m.m00, c4) + emul(m.m01, c2) - emul(m.m03, c0);
    let b22: i128 = emul(m.m30, s4) - emul(m.m31, s2) + emul(m.m33, s0);
    let b23: i128 = -emul(m.m20, s4) + emul(m.m21, s2) - emul(m.m23, s0);
    let b30: i128 = -emul(m.m10, c3) + emul(m.m11, c1) - emul(m.m12, c0);
    let b31: i128 = emul(m.m00, c3) - emul(m.m01, c1) + emul(m.m02, c0);
    let b32: i128 = -emul(m.m30, s3) + emul(m.m31, s1) - emul(m.m32, s0);
    let b33: i128 = emul(m.m20, s3) - emul(m.m21, s1) + emul(m.m22, s0);
    proof {
        assert((SCALE as int) * (SCALE as int) == 0x1_0000_0000) by (nonlinear_arith)
            requires
                SCALE == 65536i64,
        ;
    }
    let sq: i128 = (SCALE as i128) * (SCALE as i128);
    let q00: i128 = tdiv128_any(b00 * sq, det);
    let q01: i128 = tdiv128_any(b01 * sq, det);
    let q02: i128 = tdiv128_any(b02 * sq, det);
    let q03: i128 = tdiv128_any(b03 * sq, det);
    let q10: i128 = tdiv128_any(b10 * sq, det);
    let q11: i128 = tdiv128_any(b11 * sq, det);
    let q12: i128 = tdiv128_any(b12 * sq, det);
    let q13: i128 = tdiv128_any(b13 * sq, det);
    let q20: i128 = tdiv128_any(b20 * sq, det);
    let q21: i128 = tdiv128_any(b21 * sq, det);
    let q22: i128 = tdiv128_any(b22 * sq, det);
    let q23: i128 = tdiv128_any(b23 * sq, det);
    let q30: i128 = tdiv128_any(b30 * sq, det);
    let q31: i128 = tdiv128_any(b31 * sq, det);
    let q32: i128 = tdiv128_any(b32 * sq, det);
    let q33: i128 = tdiv128_any(b33 * sq, det);
    proof {
        let g = m@;
        let d = det4_s(g);
        assert(det as int == d);
        assert(q00 as int == inv_entry_s(b00_s(g), d));
        assert(q01 as int == inv_entry_s(b01_s(g), d));
        assert(q02 as int == inv_entry_s(b02_s(g), d));
        assert(q03 as int == inv_entry_s(b03_s(g), d));
        assert(q10 as int == inv_entry_s(b10_s(g), d));
        assert(q11 as int == inv_entry_s(b11_s(g), d));
        assert(q12 as int == inv_entry_s(b12_s(g), d));
        assert(q13 as int == inv_entry_s(b13_s(g), d));
        assert(q20 as int == inv_entry_s(b20_s(g), d));
        assert(q21 as int == inv_entry_s(b21_s(g), d));
        assert(q22 as int == inv_entry_s(b22_s(g), d));
        assert(q23 as int == inv_entry_s(b23_s(g), d));
        assert(q30 as int == inv_entry_s(b30_s(g), d));
        assert(q31 as int == inv_entry_s(b31_s(g), d));
        assert(q32 as int == inv_entry_s(b32_s(g), d));
        assert(q33 as int == inv_entry_s(b33_s(g), d));
    }
    let lim: i128 = INV_BOUND as i128;
    if q00 < -lim || q00 > lim || q01 < -lim || q01 > lim || q02 < -lim || q02 > lim || q03 < -lim
        || q03 > lim || q10 < -lim || q10 > lim || q11 < -lim || q11 > lim || q12 < -lim
        || q12 > lim || q13 < -lim || q13 > lim || q20 < -lim || q20 > lim || q21 < -lim
        || q21 > lim || q22 < -lim || q22 > lim || q23 < -lim || q23 > lim || q30 < -lim
        || q30 > lim || q31 < -lim || q31 > lim || q32 < -lim || q32 > lim || q33 < -lim
        || q33 > lim {
        return None;
    }
    Some(
        Mat4 {
            m00: q00 as i64, m01: q01 as i64, m02: q02 as i64, m03: q03 as i64,
            m10: q10 as i64, m11: q11 as i64, m12: q12 as i64, m13: q13 as i64,
            m20: q20 as i64, m21: q21 as i64, m22: q22 as i64, m23: q23 as i64,
            m30: q30 as i64, m31: q31 as i64, m32: q32 as i64, m33: q33 as i64,
        },
    )
}

/// The right-handed look-to view matrix, when the pose admits one.
/// `None` exactly when the viewing direction or the derived right or
/// up vector is degenerate (too close to zero length, or out of
/// range), in which the caller keeps its previous view state.
pub open spec fn look_to_s(eye: V3, dir: V3, up: V3) -> Option<M4> {
    if dot_v(dir, dir) < 1 {
        None
    } else {
        let f = norm_v(dir);
        if !in_box(f, 2 * (SCALE as int)) {
            None
        } else {
            let fu = cross_v(f, up);
            if dot_v(fu, fu) < 1 {
                None
            } else {
                let s = norm_v(fu);
                if !in_box(s, 2 * (SCALE as int)) {
                    None
                } else {
                    let u = cross_v(s, f);
                    if !in_box(u, 2 * (SCALE as int)) {
                        None
                    } else {
                        Some(
                            M4 {
                                m00: s.x, m01: s.y, m02: s.z, m03: -dot_v(eye, s),
                                m10: u.x, m11: u.y, m12: u.z, m13: -dot_v(eye, u),
                                m20: -f.x, m21: -f.y, m22: -f.z, m23: dot_v(eye, f),
                                m30: 0, m31: 0, m32: 0, m33: SCALE as int,
                            },
                        )
                    }
                }
            }
        }
    }
}

/// Builds the right-handed look-to view matrix for an eye position, a
/// viewing direction and an up vector, guarding every normalization.
pub fn m4_look_to(eye: Vec3, dir: Vec3, up: Vec3) -> (r: Option<Mat4>)
    requires
        in_box(eye@, crate::fixed::WORLD_BOUND as int),
        in_box(dir@, 2 * (crate::fixed::WORLD_BOUND as int)),
        in_box(up@, SCALE as int),
    ensures
        match r {
            None => look_to_s(eye@, dir@, up@) is None,
            Some(m) => {
                &&& look_to_s(eye@, dir@, up@) == Some(m@)
                &&& m4_in_box(m@, ENTRY_BOUND as int)
            },
        },
{
    proof {
        let wb2 = 2 * (crate::fixed::WORLD_BOUND as int);
        assert(3 * ((wb2 * wb2) / (SCALE as int)) <= i64::MAX) by (nonlinear_arith)
            requires
                wb2 == 134217728int,
                SCALE == 65536i64,
        ;
        lemma_dot_fits(dir@, dir@, wb2, wb2);
    }
    let dd: i64 = v3_dot(dir, dir);
    if dd < 1 {
        return None;
    }
    let f: Vec3 = v3_normalize(dir);
    let two_scale: i64 = 2 * SCALE;
    if f.x < -two_scale || f.x > two_scale || f.y < -two_scale || f.y > two_scale || f.z
        < -two_scale || f.z > two_scale {
        return None;
    }
    proof {
        lemma_cross_fits(f@, up@, 2 * (SCALE as int), SCALE as int);
    }
    let fu: Vec3 = v3_cross(f, up);
    proof {
        lemma_dot_fits(fu@, fu@, 0x4_0000, 0x4_0000);
    }
    let uu: i64 = v3_dot(fu, fu);
    if uu < 1 {
        return None;
    }
    let s: Vec3 = v3_normalize(fu);
    if s.x < -two_scale || s.x > two_scale || s.y < -two_scale || s.y > two_scale || s.z
        < -two_scale || s.z > two_scale {
        return None;
    }
    proof {
        lemma_cross_fits(s@, f@, 2 * (SCALE as int), 2 * (SCALE as int));
    }
    let u: Vec3 = v3_cross(s, f);
    if u.x < -two_scale || u.x > two_scale || u.y < -two_scale || u.y > two_scale || u.z
        < -two_scale || u.z > two_scale {
        return None;
    }
    proof {
        let wb = crate::fixed::WORLD_BOUND as int;
        lemma_dot_fits(eye@, s@, wb, 2 * (SCALE as int));
        lemma_dot_fits(eye@, u@, wb, 2 * (SCALE as int));
        lemma_dot_fits(eye@, f@, wb, 2 * (SCALE as int));
    }
    let ts: i64 = v3_dot(eye, s);
    let tu: i64 = v3_dot(eye, u);
    let tf: i64 = v3_dot(eye, f);
    Some(
        Mat4 {
            m00: s.x, m01: s.y, m02: s.z, m03: -ts,
            m10: u.x, m11: u.y, m12: u.z, m13: -tu,
            m20: -f.x, m21: -f.y, m22: -f.z, m23: tf,
            m30: 0, m31: 0, m32: 0, m33: SCALE,
        },
    )
}

/// Transforms a direction: the upper-left 3x3 block applied to `v`,
/// the translation column discarded (a direction has `w == 0`).
pub open spec fn transform_dir_s(m: M4, v: V3) -> V3 {
    V3 {
        x: fx_mul_s(m.m00, v.x) + fx_mul_s(m.m01, v.y) + fx_mul_s(m.m02, v.z),
        y: fx_mul_s(m.m10, v.x) + fx_mul_s(m.m11, v.y) + fx_mul_s(m.m12, v.z),
        z: fx_mul_s(m.m20, v.x) + fx_mul_s(m.m21, v.y) + fx_mul_s(m.m22, v.z),
    }
}

/// Applies the rotation part of `m` to the direction `v`.
pub fn m4_transform_dir(m: &Mat4, v: Vec3) -> (r: Vec3)
    requires
        m4_in_box(m@, INV_BOUND as int),
        in_box(v@, 2 * (SCALE as int)),
    ensures
        r@ == transform_dir_s(m@, v@),
{
    proof {
        let mb = INV_BOUND as int;
        let vb = 2 * (SCALE as int);
        lemma_fx_mul_bound(m@.m00, v@.x, mb, vb);
        lemma_fx_mul_bound(m@.m01, v@.y, mb, vb);
        lemma_fx_mul_bound(m@.m02, v@.z, mb, vb);
        lemma_fx_mul_bound(m@.m10, v@.x, mb, vb);
        lemma_fx_mul_bound(m@.m11, v@.y, mb, vb);
        lemma_fx_mul_bound(m@.m12, v@.z, mb, vb);
        lemma_fx_mul_bound(m@.m20, v@.x, mb, vb);
        lemma_fx_mul_bound(m@.m21, v@.y, mb, vb);
        lemma_fx_mul_bound(m@.m22, v@.z, mb, vb);
    }
    Vec3 {
        x: fx_mul(m.m00, v.x) + fx_mul(m.m01, v.y) + fx_mul(m.m02, v.z),
        y: fx_mul(m.m10, v.x) + fx_mul(m.m11, v.y) + fx_mul(m.m12, v.z),
        z: fx_mul(m.m20, v.x) + fx_mul(m.m21, v.y) + fx_mul(m.m22, v.z),
    }
}

} // verus!
