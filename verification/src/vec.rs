//! Fixed-point 3-vectors and their exact spec-level model.

use vstd::prelude::*;
use crate::fixed::{
    clamp_s, fx_div_s, fx_mul_s, fx_sqrt_s, lemma_fx_div_bound,
    lemma_fx_mul_bound, lemma_sqrt_floor_exists, clamp_fx, fx_div, fx_mul, fx_sqrt, SCALE,
};

verus! {

/// A point or direction; each component is a Q47.16 fixed-point number.
#[derive(Clone, Copy, PartialEq, Eq, Structural, Debug)]
pub struct Vec3 {
    pub x: i64,
    pub y: i64,
    pub z: i64,
}

/// The mathematical value of a `Vec3`: three unbounded integers.
pub ghost struct V3 {
    pub x: int,
    pub y: int,
    pub z: int,
}

impl View for Vec3 {
    type V = V3;

    open spec fn view(&self) -> V3 {
        V3 { x: self.x as int, y: self.y as int, z: self.z as int }
    }
}

impl Vec3 {
    /// Builds a vector from its three components.
    pub fn new(x: i64, y: i64, z: i64) -> (r: Vec3)
        ensures
            r@ == (V3 { x: x as int, y: y as int, z: z as int }),
    {
        Vec3 { x, y, z }
    }
}

/// Every component within `[-bound, bound]`.
pub open spec fn in_box(v: V3, bound: int) -> bool {
    &&& -bound <= v.x <= bound
    &&& -bound <= v.y <= bound
    &&& -bound <= v.z <= bound
}

pub open spec fn add_v(a: V3, b: V3) -> V3 {
    V3 { x: a.x + b.x, y: a.y + b.y, z: a.z + b.z }
}

pub open spec fn sub_v(a: V3, b: V3) -> V3 {
    V3 { x: a.x - b.x, y: a.y - b.y, z: a.z - b.z }
}

pub open spec fn neg_v(a: V3) -> V3 {
    V3 { x: -a.x, y: -a.y, z: -a.z }
}

/// Scales each component by the fixed-point factor `k`.
pub open spec fn scale_v(a: V3, k: int) -> V3 {
    V3 { x: fx_mul_s(a.x, k), y: fx_mul_s(a.y, k), z: fx_mul_s(a.z, k) }
}

/// The fixed-point dot product.
pub open spec fn dot_v(a: V3, b: V3) -> int {
    fx_mul_s(a.x, b.x) + fx_mul_s(a.y, b.y) + fx_mul_s(a.z, b.z)
}

/// The fixed-point cross product.
pub open spec fn cross_v(a: V3, b: V3) -> V3 {
    V3 {
        x: fx_mul_s(a.y, b.z) - fx_mul_s(a.z, b.y),
        y: fx_mul_s(a.z, b.x) - fx_mul_s(a.x, b.z),
        z: fx_mul_s(a.x, b.y) - fx_mul_s(a.y, b.x),
    }
}

/// The fixed-point length: the square root of the dot product with itself.
pub open spec fn len_v(a: V3) -> int {
    fx_sqrt_s(dot_v(a, a))
}

/// Each component divided by the length (meaningful when the length is
/// at least one raw unit, that is, when `dot_v(a, a) >= 1`).
pub open spec fn norm_v(a: V3) -> V3 {
    let len = len_v(a);
    V3 { x: fx_div_s(a.x, len), y: fx_div_s(a.y, len), z: fx_div_s(a.z, len) }
}

pub open spec fn clamp_v(a: V3, bound: int) -> V3 {
    V3 { x: clamp_s(a.x, bound), y: clamp_s(a.y, bound), z: clamp_s(a.z, bound) }
}

/// The products and the running sums of a dot product all fit in an `i64`.
pub open spec fn dot_fits(a: V3, b: V3) -> bool {
    &&& i64::MIN <= fx_mul_s(a.x, b.x) <= i64::MAX
    &&& i64::MIN <= fx_mul_s(a.y, b.y) <= i64::MAX
    &&& i64::MIN <= fx_mul_s(a.z, b.z) <= i64::MAX
    &&& i64::MIN <= fx_mul_s(a.x, b.x) + fx_mul_s(a.y, b.y) <= i64::MAX
    &&& i64::MIN <= dot_v(a, b) <= i64::MAX
}

/// The products and the differences of a cross product all fit in an `i64`.
pub open spec fn cross_fits(a: V3, b: V3) -> bool {
    &&& i64::MIN <= fx_mul_s(a.y, b.z) <= i64::MAX
    &&& i64::MIN <= fx_mul_s(a.z, b.y) <= i64::MAX
    &&& i64::MIN <= fx_mul_s(a.z, b.x) <= i64::MAX
    &&& i64::MIN <= fx_mul_s(a.x, b.z) <= i64::MAX
    &&& i64::MIN <= fx_mul_s(a.x, b.y) <= i64::MAX
    &&& i64::MIN <= fx_mul_s(a.y, b.x) <= i64::MAX
    &&& i64::MIN <= cross_v(a, b).x <= i64::MAX
    &&& i64::MIN <= cross_v(a, b).y <= i64::MAX
    &&& i64::MIN <= cross_v(a, b).z <= i64::MAX
}

/// Vectors inside boxes whose product of bounds is moderate have
/// overflow-free dot products, with a bound on the result.
pub proof fn lemma_dot_fits(a: V3, b: V3, m1: int, m2: int)
    requires
        0 <= m1,
        0 <= m2,
        in_box(a, m1),
        in_box(b, m2),
        3 * ((m1 * m2) / (SCALE as int)) <= i64::MAX,
    ensures
        dot_fits(a, b),
        -(3 * ((m1 * m2) / (SCALE as int))) <= dot_v(a, b) <= 3 * ((m1 * m2) / (SCALE as int)),
{
    lemma_fx_mul_bound(a.x, b.x, m1, m2);
    lemma_fx_mul_bound(a.y, b.y, m1, m2);
    lemma_fx_mul_bound(a.z, b.z, m1, m2);
}

/// Vectors inside boxes whose product of bounds is moderate have
/// overflow-free cross products, with a bound on each component.
pub proof fn lemma_cross_fits(a: V3, b: V3, m1: int, m2: int)
    requires
        0 <= m1,
        0 <= m2,
        in_box(a, m1),
        in_box(b, m2),
        2 * ((m1 * m2) / (SCALE as int)) <= i64::MAX,
    ensures
        cross_fits(a, b),
        in_box(cross_v(a, b), 2 * ((m1 * m2) / (SCALE as int))),
{
    lemma_fx_mul_bound(a.y, b.z, m1, m2);
    lemma_fx_mul_bound(a.z, b.y, m1, m2);
    lemma_fx_mul_bound(a.z, b.x, m1, m2);
    lemma_fx_mul_bound(a.x, b.z, m1, m2);
    lemma_fx_mul_bound(a.x, b.y, m1, m2);
    lemma_fx_mul_bound(a.y, b.x, m1, m2);
}

pub fn v3_add(a: Vec3, b: Vec3) -> (r: Vec3)
    requires
        i64::MIN <= a@.x + b@.x <= i64::MAX,
        i64::MIN <= a@.y + b@.y <= i64::MAX,
        i64::MIN <= a@.z + b@.z <= i64::MAX,
    ensures
        r@ == add_v(a@, b@),
{
    Vec3 { x: a.x + b.x, y: a.y + b.y, z: a.z + b.z }
}

pub fn v3_sub(a: Vec3, b: Vec3) -> (r: Vec3)
    requires
        i64::MIN <= a@.x - b@.x <= i64::MAX,
        i64::MIN <= a@.y - b@.y <= i64::MAX,
        i64::MIN <= a@.z - b@.z <= i64::MAX,
    ensures
        r@ == sub_v(a@, b@),
{
    Vec3 { x: a.x - b.x, y: a.y - b.y, z: a.z - b.z }
}

pub fn v3_neg(a: Vec3) -> (r: Vec3)
    requires
        a@.x != i64::MIN as int,
        a@.y != i64::MIN as int,
        a@.z != i64::MIN as int,
    ensures
        r@ == neg_v(a@),
{
    Vec3 { x: -a.x, y: -a.y, z: -a.z }
}

pub fn v3_scale(a: Vec3, k: i64) -> (r: Vec3)
    requires
        i64::MIN <= fx_mul_s(a@.x, k as int) <= i64::MAX,
        i64::MIN <= fx_mul_s(a@.y, k as int) <= i64::MAX,
        i64::MIN <= fx_mul_s(a@.z, k as int) <= i64::MAX,
    ensures
        r@ == scale_v(a@, k as int),
{
    Vec3 { x: fx_mul(a.x, k), y: fx_mul(a.y, k), z: fx_mul(a.z, k) }
}

pub fn v3_dot(a: Vec3, b: Vec3) -> (r: i64)
    requires
        dot_fits(a@, b@),
    ensures
        r as int == dot_v(a@, b@),
{
    fx_mul(a.x, b.x) + fx_mul(a.y, b.y) + fx_mul(a.z, b.z)
}

pub fn v3_cross(a: Vec3, b: Vec3) -> (r: Vec3)
    requires
        cross_fits(a@, b@),
    ensures
        r@ == cross_v(a@, b@),
{
    Vec3 {
        x: fx_mul(a.y, b.z) - fx_mul(a.z, b.y),
        y: fx_mul(a.z, b.x) - fx_mul(a.x, b.z),
        z: fx_mul(a.x, b.y) - fx_mul(a.y, b.x),
    }
}

pub fn v3_clamp(a: Vec3, bound: i64) -> (r: Vec3)
    requires
        0 <= bound,
    ensures
        r@ == clamp_v(a@, bound as int),
        in_box(r@, bound as int),
{
    Vec3 {
        x: clamp_fx(a.x, bound),
        y: clamp_fx(a.y, bound),
        z: clamp_fx(a.z, bound),
    }
}

/// A nonzero squared length makes the fixed-point length at least one
/// raw unit, so normalizing is meaningful.
pub proof fn lemma_len_positive(a: V3)
    requires
        1 <= dot_v(a, a),
        dot_v(a, a) <= i64::MAX,
    ensures
        1 <= len_v(a),
{
    lemma_sqrt_floor_exists(dot_v(a, a) * (SCALE as int));
    let r = fx_sqrt_s(dot_v(a, a));
    assert(1 <= r) by (nonlinear_arith)
        requires
            0 <= r,
            (r + 1) * (r + 1) > dot_v(a, a) * (SCALE as int),
            dot_v(a, a) >= 1,
            SCALE == 65536i64,
    ;
}

/// Normalizes `a`: divides each component by the fixed-point length.
/// The caller guards against a zero-length vector, which cannot be
/// normalized.
pub fn v3_normalize(a: Vec3) -> (r: Vec3)
    requires
        dot_fits(a@, a@),
        1 <= dot_v(a@, a@),
        in_box(a@, 0x4000_0000_0000),
    ensures
        r@ == norm_v(a@),
{
    let q: i64 = v3_dot(a, a);
    let len: i64 = fx_sqrt(q);
    proof {
        lemma_len_positive(a@);
        lemma_fx_div_bound(a@.x, len as int, 0x4000_0000_0000);
        lemma_fx_div_bound(a@.y, len as int, 0x4000_0000_0000);
        lemma_fx_div_bound(a@.z, len as int, 0x4000_0000_0000);
    }
    Vec3 { x: fx_div(a.x, len), y: fx_div(a.y, len), z: fx_div(a.z, len) }
}

} // verus!
