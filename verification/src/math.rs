//! Perspective projection and unprojection over 16.16 fixed-point vectors.
//!
//! A `Perspective` maps camera-space points to screen space by
//! `screen = center + point.xy * scale / point.z`, with `scale` derived once
//! from the viewport size, its aspect ratio and the tangent of half the
//! field of view; `unproject` is the algebraic inverse for a caller-supplied
//! depth.

use vstd::prelude::*;

use crate::fixed::FP_ONE;
use crate::fixed::FP_SQ;
use crate::fixed::fdiv;
use crate::fixed::fits_i64;

verus! {

/// A two-component fixed-point vector.
#[derive(Clone, Copy, PartialEq, Eq, Structural, Debug)]
pub struct Vec2fp {
    pub x: i64,
    pub y: i64,
}

/// A three-component fixed-point vector.
#[derive(Clone, Copy, PartialEq, Eq, Structural, Debug)]
pub struct Vec3fp {
    pub x: i64,
    pub y: i64,
    pub z: i64,
}

impl Vec2fp {
    /// Pack two fixed-point scalars.
    pub fn new(x: i64, y: i64) -> (r: Vec2fp)
        ensures
            r == (Vec2fp { x, y }),
    {
        Vec2fp { x, y }
    }
}

impl Vec3fp {
    /// Pack three fixed-point scalars.
    pub fn new(x: i64, y: i64, z: i64) -> (r: Vec3fp)
        ensures
            r == (Vec3fp { x, y, z }),
    {
        Vec3fp { x, y, z }
    }

    /// The origin.
    pub fn zero() -> (r: Vec3fp)
        ensures
            r == (Vec3fp { x: 0, y: 0, z: 0 }),
    {
        Vec3fp { x: 0, y: 0, z: 0 }
    }
}

/// Largest camera-space coordinate magnitude the projection accepts.
pub const VEC_LIMIT: i64 = 4194304;

/// A perspective transform: the screen center and the per-axis scale, both
/// in 16.16 fixed point.
#[derive(Clone, Copy, PartialEq, Eq, Structural, Debug)]
pub struct Perspective {
    pub center: Vec2fp,
    pub scale: Vec2fp,
}

/// The transform's parameters are in the ranges the projection arithmetic
/// needs: positive scales and a bounded center.
pub open spec fn persp_ok(pp: Perspective) -> bool {
    &&& 1 <= pp.scale.x <= 2147483648
    &&& 1 <= pp.scale.y <= 2147483648
    &&& -1073741824 <= pp.center.x <= 1073741824
    &&& -1073741824 <= pp.center.y <= 1073741824
}

/// The screen x of a projected camera-space point.
pub open spec fn project_x(pp: Perspective, p: Vec3fp) -> int {
    pp.center.x + (p.x * pp.scale.x) / (p.z as int)
}

/// The screen y of a projected camera-space point.
pub open spec fn project_y(pp: Perspective, p: Vec3fp) -> int {
    pp.center.y + (p.y * pp.scale.y) / (p.z as int)
}

/// The camera-space x recovered from a screen point at a known depth.
pub open spec fn unproject_x(pp: Perspective, q: Vec2fp, z: int) -> int {
    ((q.x - pp.center.x) * z) / (pp.scale.x as int)
}

/// The camera-space y recovered from a screen point at a known depth.
pub open spec fn unproject_y(pp: Perspective, q: Vec2fp, z: int) -> int {
    ((q.y - pp.center.y) * z) / (pp.scale.y as int)
}

/// Build the perspective transform for a `w` by `h` viewport (both in 16.16
/// fixed point) whose field of view has the given half-angle tangent. The
/// scale works out to `(w/2) / tan(fov/2)` on both axes: the y size is
/// scaled by the aspect ratio `w/h`.
pub fn perspective(w: i64, h: i64, tan_half_fov: i64) -> (pp: Perspective)
    requires
        FP_ONE <= w <= 134217728,
        FP_ONE <= h <= 134217728,
        4 * h >= w,
        FP_ONE / 8 <= tan_half_fov <= 16 * FP_ONE,
    ensures
        pp.center.x == w / 2,
        pp.center.y == h / 2,
        pp.scale.x == (((w / 2) * ((FP_SQ as int) / (tan_half_fov as int))) / (FP_ONE as int))
            as i64,
        pp.scale.y == ((((h / 2) * ((w * (FP_ONE as int)) / (h as int))) / (FP_ONE as int)) * (
        (FP_SQ as int) / (tan_half_fov as int))) / (FP_ONE as int),
        persp_ok(pp),
{
    let cx = w / 2;
    let cy = h / 2;
    let pre = fdiv(FP_SQ, tan_half_fov);
    let aspect_y = fdiv(w * FP_ONE, h);
    proof {
        vstd::arithmetic::div_mod::lemma_div_non_zero(FP_SQ as int, tan_half_fov as int);
        vstd::arithmetic::div_mod::lemma_div_is_ordered_by_denominator(
            FP_SQ as int,
            FP_ONE / 8,
            tan_half_fov as int,
        );
        vstd::arithmetic::div_mod::lemma_div_by_multiple(524288, (FP_ONE / 8) as int);
        vstd::arithmetic::div_mod::lemma_div_is_ordered_by_denominator(
            FP_SQ as int,
            tan_half_fov as int,
            16 * FP_ONE,
        );
        vstd::arithmetic::div_mod::lemma_div_by_multiple(4096, 16 * FP_ONE as int);
        assert(FP_SQ as int == 524288 * ((FP_ONE / 8) as int));
        assert(pre <= 524288);
        assert(FP_SQ as int == 4096 * (16 * (FP_ONE as int)));
        assert(4096 <= pre);

        vstd::arithmetic::div_mod::lemma_div_is_ordered(
            (FP_ONE as int) * (FP_ONE as int),
            w * (FP_ONE as int),
            h as int,
        );
        vstd::arithmetic::div_mod::lemma_div_is_ordered_by_denominator(
            FP_SQ as int,
            h as int,
            134217728,
        );
        vstd::arithmetic::div_mod::lemma_div_by_multiple(32, 134217728);
        assert(w * (FP_ONE as int) <= (4 * h) * (FP_ONE as int)) by (nonlinear_arith)
            requires
                w <= 4 * h,
                0 < h,
        ;
        vstd::arithmetic::div_mod::lemma_div_is_ordered(
            w * (FP_ONE as int),
            (4 * h) * (FP_ONE as int),
            h as int,
        );
        assert(((4 * h) * (FP_ONE as int)) / (h as int) == 4 * FP_ONE) by {
            assert((4 * h) * (FP_ONE as int) == (4 * FP_ONE) * h) by (nonlinear_arith);
            vstd::arithmetic::div_mod::lemma_div_by_multiple(4 * FP_ONE, h as int);
        }
        assert(32 <= aspect_y <= 4 * FP_ONE);
        lemma_scale_div(cx as int, pre as int, 67108864, 524288, 536870912);
        lemma_scale_div(cy as int, aspect_y as int, 67108864, 262144, 268435456);
        assert(32768 * 4096 <= cx * pre) by (nonlinear_arith)
            requires
                32768 <= cx,
                4096 <= pre,
        ;
        vstd::arithmetic::div_mod::lemma_div_non_zero(cx * pre, FP_ONE as int);
        assert(32768 * 32 <= cy * aspect_y) by (nonlinear_arith)
            requires
                32768 <= cy,
                32 <= aspect_y,
        ;
        vstd::arithmetic::div_mod::lemma_div_non_zero(cy * aspect_y, FP_ONE as int);
        vstd::arithmetic::div_mod::lemma_div_is_ordered(
            1048576,
            cy * aspect_y,
            FP_ONE as int,
        );
        vstd::arithmetic::div_mod::lemma_div_by_multiple(16, FP_ONE as int);
    }
    let sx = fdiv(cx * pre, FP_ONE);
    let sy_pre = fdiv(cy * aspect_y, FP_ONE);
    proof {
        lemma_scale_div(sy_pre as int, pre as int, 268435456, 524288, 2147483648);
    }
    let sy = fdiv(sy_pre * pre, FP_ONE);
    proof {
        assert(16 * 4096 <= sy_pre * pre) by (nonlinear_arith)
            requires
                16 <= sy_pre,
                4096 <= pre,
        ;
        vstd::arithmetic::div_mod::lemma_div_non_zero(sy_pre * pre, FP_ONE as int);
    }
    Perspective { center: Vec2fp { x: cx, y: cy }, scale: Vec2fp { x: sx, y: sy } }
}

/// Scaling down the product of two bounded positive values stays within the
/// matching bound: if `a <= amax` and `b <= qmax * FP_ONE / amax`-ish ranges
/// hold, the quotient is at most `qmax`.
proof fn lemma_scale_div(a: int, b: int, amax: int, bmax: int, qmax: int)
    requires
        1 <= a <= amax,
        1 <= b <= bmax,
        amax * bmax <= qmax * (FP_ONE as int),
        1 <= qmax <= 2147483648,
    ensures
        1 <= a * b,
        a * b <= qmax * (FP_ONE as int),
        0 <= (a * b) / (FP_ONE as int) <= qmax,
{
    vstd::arithmetic::mul::lemma_mul_strictly_positive(a, b);
    assert(a * b <= amax * bmax) by (nonlinear_arith)
        requires
            1 <= a <= amax,
            1 <= b <= bmax,
    ;
    vstd::arithmetic::div_mod::lemma_div_pos_is_pos(a * b, FP_ONE as int);
    vstd::arithmetic::div_mod::lemma_div_is_ordered(a * b, qmax * (FP_ONE as int), FP_ONE as int);
    vstd::arithmetic::div_mod::lemma_div_by_multiple(qmax, FP_ONE as int);
}

impl Perspective {
    /// Project a camera-space point to screen space:
    /// `center + point.xy * scale / point.z`.
    pub fn project(&self, p: Vec3fp) -> (r: Vec2fp)
        requires
            persp_ok(*self),
            -VEC_LIMIT <= p.x <= VEC_LIMIT,
            -VEC_LIMIT <= p.y <= VEC_LIMIT,
            1 <= p.z <= FP_SQ,
        ensures
            r.x == project_x(*self, p),
            r.y == project_y(*self, p),
    {
        proof {
            lemma_project_bounds(p.x as int, self.scale.x as int, p.z as int);
            lemma_project_bounds(p.y as int, self.scale.y as int, p.z as int);
        }
        Vec2fp {
            x: self.center.x + fdiv(p.x * self.scale.x, p.z),
            y: self.center.y + fdiv(p.y * self.scale.y, p.z),
        }
    }

    /// Recover the camera-space point of a screen position whose depth `z`
    /// is already known: the algebraic inverse of `project`.
    pub fn unproject(&self, q: Vec2fp, z: i64) -> (r: Vec3fp)
        requires
            persp_ok(*self),
            -1152921504606846976 <= (q.x - self.center.x) * z
                <= 1152921504606846976,
            -1152921504606846976 <= (q.y - self.center.y) * z
                <= 1152921504606846976,
            fits_i64(q.x - self.center.x),
            fits_i64(q.y - self.center.y),
            1 <= z,
        ensures
            r.x == unproject_x(*self, q, z as int),
            r.y == unproject_y(*self, q, z as int),
            r.z == z,
    {
        proof {
            lemma_unproject_bounds((q.x - self.center.x) * z, self.scale.x as int);
            lemma_unproject_bounds((q.y - self.center.y) * z, self.scale.y as int);
        }
        Vec3fp {
            x: fdiv((q.x - self.center.x) * z, self.scale.x),
            y: fdiv((q.y - self.center.y) * z, self.scale.y),
            z,
        }
    }
}

/// The projected offset fits `i64`.
proof fn lemma_project_bounds(x: int, s: int, z: int)
    requires
        -VEC_LIMIT <= x <= VEC_LIMIT,
        1 <= s <= 2147483648,
        1 <= z,
    ensures
        -9007199254740992 <= x * s <= 9007199254740992,
        -9007199254740992 <= (x * s) / z <= 9007199254740992,
{
    assert(-9007199254740992 <= x * s <= 9007199254740992) by (nonlinear_arith)
        requires
            -VEC_LIMIT <= x <= VEC_LIMIT,
            1 <= s <= 2147483648,
    ;
    vstd::arithmetic::div_mod::lemma_div_is_ordered(x * s, 9007199254740992, z);
    vstd::arithmetic::div_mod::lemma_div_is_ordered(-9007199254740992, x * s, z);
    vstd::arithmetic::div_mod::lemma_div_is_ordered_by_denominator(9007199254740992, 1, z);
    vstd::arithmetic::div_mod::lemma_div_basics(9007199254740992);
    crate::fixed::lemma_div_neg_bound(9007199254740992, z);
}

/// The unprojected offset fits `i64`.
proof fn lemma_unproject_bounds(num: int, s: int)
    requires
        -1152921504606846976 <= num <= 1152921504606846976,
        1 <= s,
    ensures
        -9223372036854775808 < num / s < 9223372036854775807,
{
    vstd::arithmetic::div_mod::lemma_div_is_ordered(num, 1152921504606846976, s);
    vstd::arithmetic::div_mod::lemma_div_is_ordered(-1152921504606846976, num, s);
    vstd::arithmetic::div_mod::lemma_div_is_ordered_by_denominator(1152921504606846976, 1, s);
    vstd::arithmetic::div_mod::lemma_div_basics(1152921504606846976);
    crate::fixed::lemma_div_neg_bound(1152921504606846976, s);
}

/// Round-trip law: unprojecting a projected point at its own depth recovers
/// the point to within a small fixed-point error: at most two units plus the
/// depth divided by the scale, and never above the original coordinate.
pub proof fn lemma_project_unproject_round_trip(pp: Perspective, p: Vec3fp)
    requires
        persp_ok(pp),
        -VEC_LIMIT <= p.x <= VEC_LIMIT,
        -VEC_LIMIT <= p.y <= VEC_LIMIT,
        1 <= p.z <= FP_SQ,
    ensures
        ({
            let q = Vec2fp { x: project_x(pp, p) as i64, y: project_y(pp, p) as i64 };
            let bx = unproject_x(pp, q, p.z as int);
            let by = unproject_y(pp, q, p.z as int);
            &&& p.x - 2 - (p.z as int) / (pp.scale.x as int) <= bx <= p.x
            &&& p.y - 2 - (p.z as int) / (pp.scale.y as int) <= by <= p.y
        }),
{
    lemma_round_trip_axis(p.x as int, pp.scale.x as int, p.z as int, pp.center.x as int);
    lemma_round_trip_axis(p.y as int, pp.scale.y as int, p.z as int, pp.center.y as int);
}

/// One axis of the round-trip law.
proof fn lemma_round_trip_axis(x: int, s: int, z: int, c: int)
    requires
        -VEC_LIMIT <= x <= VEC_LIMIT,
        1 <= s <= 2147483648,
        1 <= z <= FP_SQ,
        -1073741824 <= c <= 1073741824,
    ensures
        x - 2 - z / s <= (((c + (x * s) / z) - c) * z) / s <= x,
        -9007199254740992 <= (x * s) / z <= 9007199254740992,
{
    let a = x * s;
    let q = a / z;
    let b = q * z;
    lemma_project_bounds(x, s, z);
    vstd::arithmetic::div_mod::lemma_fundamental_div_mod(a, z);
    vstd::arithmetic::div_mod::lemma_mod_bound(a, z);
    assert(b == a - a % z) by {
        vstd::arithmetic::mul::lemma_mul_is_commutative(q, z);
    }
    assert(a - z < b <= a);
    // Upper bound: b <= a, so b / s <= a / s == x.
    vstd::arithmetic::div_mod::lemma_div_is_ordered(b, a, s);
    assert(a / s == x) by {
        vstd::arithmetic::mul::lemma_mul_is_commutative(x, s);
        vstd::arithmetic::div_mod::lemma_fundamental_div_mod_converse_div(a, s, x, 0);
    }
    // Lower bound: b >= a - z + 1, and hoisting x out of the quotient leaves
    // at worst one unit plus z / s.
    vstd::arithmetic::div_mod::lemma_div_is_ordered(a - z + 1, b, s);
    assert((a - z + 1) / s == x + (-z + 1) / s) by {
        vstd::arithmetic::div_mod::lemma_hoist_over_denominator(-z + 1, x, s as nat);
        vstd::arithmetic::mul::lemma_mul_is_commutative(x, s);
    }
    assert((-z + 1) / s >= -(z / s) - 1) by {
        vstd::arithmetic::div_mod::lemma_div_is_ordered(-z, -z + 1, s);
        crate::fixed::lemma_div_neg_bound(z, s);
    }
}

} // verus!
