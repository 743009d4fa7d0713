//! Planes and Sutherland-Hodgman polygon clipping, with view-frustum
//! construction.
//!
//! A plane is a unit normal (in 16.16 fixed point) and a signed distance
//! from the origin; a point's signed distance to the plane is
//! `dot(normal, p) - distance`, nonnegative on the kept side. Clipping walks
//! the polygon's edges, keeps inside vertices and synthesizes a vertex at
//! every plane crossing by linear interpolation of position and texture
//! coordinates.

use vstd::prelude::*;

use crate::fixed::FP_ONE;
use crate::fixed::fdiv;
use crate::fixed::fits_i64;
use crate::fixed::isqrt;
use crate::fixed::lemma_div_bounds_abs;
use crate::fixed::sqrt_floor;
use crate::math::Vec2fp;
use crate::math::Vec3fp;
use crate::math::VEC_LIMIT;

verus! {

/// A clipping vertex: a camera-space position and a raw texture coordinate,
/// both in 16.16 fixed point.
#[derive(Clone, Copy, PartialEq, Eq, Structural, Debug)]
pub struct ClipVert {
    pub pos: Vec3fp,
    pub uv: Vec2fp,
}

/// A half-plane boundary: unit normal and signed distance from the origin.
#[derive(Clone, Copy, PartialEq, Eq, Structural, Debug)]
pub struct Plane {
    pub normal: Vec3fp,
    pub distance: i64,
}

/// The fixed-point dot product of two vectors: each component product is
/// scaled back down by one fixed-point unit.
pub open spec fn dot_fp(u: Vec3fp, v: Vec3fp) -> int {
    (u.x * v.x) / (FP_ONE as int) + (u.y * v.y) / (FP_ONE as int) + (u.z * v.z) / (
    FP_ONE as int)
}

/// The plane's parameters are in the ranges the clipping arithmetic needs:
/// a roughly unit-length normal and a bounded distance.
pub open spec fn plane_ok(pl: Plane) -> bool {
    &&& -2 * FP_ONE <= pl.normal.x <= 2 * FP_ONE
    &&& -2 * FP_ONE <= pl.normal.y <= 2 * FP_ONE
    &&& -2 * FP_ONE <= pl.normal.z <= 2 * FP_ONE
    &&& -35184372088832 <= pl.distance <= 35184372088832
}

/// The vector's components are within the accepted camera-space range.
pub open spec fn vec3_ok(v: Vec3fp) -> bool {
    &&& -VEC_LIMIT <= v.x <= VEC_LIMIT
    &&& -VEC_LIMIT <= v.y <= VEC_LIMIT
    &&& -VEC_LIMIT <= v.z <= VEC_LIMIT
}

/// The signed distance of a point to a plane.
pub open spec fn plane_dist(pl: Plane, p: Vec3fp) -> int {
    dot_fp(pl.normal, p) - pl.distance
}

/// The scaled-down cross product of the two edge vectors of a vertex
/// triple: the unnormalized plane normal.
pub open spec fn cross_fp(a: Vec3fp, b: Vec3fp, c: Vec3fp) -> (int, int, int) {
    let ux = b.x - a.x;
    let uy = b.y - a.y;
    let uz = b.z - a.z;
    let vx = c.x - a.x;
    let vy = c.y - a.y;
    let vz = c.z - a.z;
    (
        (uy * vz - uz * vy) / (FP_ONE as int),
        (uz * vx - ux * vz) / (FP_ONE as int),
        (ux * vy - uy * vx) / (FP_ONE as int),
    )
}

/// The length of the scaled-down cross product, rounded down.
pub open spec fn cross_len(a: Vec3fp, b: Vec3fp, c: Vec3fp) -> int {
    let (x, y, z) = cross_fp(a, b, c);
    sqrt_floor(x * x + y * y + z * z)
}

/// The plane through three points: the normalized cross product of its edge
/// vectors and the distance of the first point along it.
pub open spec fn plane_from(a: Vec3fp, b: Vec3fp, c: Vec3fp) -> Plane {
    let (x, y, z) = cross_fp(a, b, c);
    let len = cross_len(a, b, c);
    let n = Vec3fp {
        x: ((x * (FP_ONE as int)) / len) as i64,
        y: ((y * (FP_ONE as int)) / len) as i64,
        z: ((z * (FP_ONE as int)) / len) as i64,
    };
    Plane { normal: n, distance: dot_fp(n, a) as i64 }
}

/// The cross product of the triple is not the zero vector: the three points
/// span a plane.
pub open spec fn spans_plane(a: Vec3fp, b: Vec3fp, c: Vec3fp) -> bool {
    cross_fp(a, b, c) != (0int, 0int, 0int)
}

/// The fixed-point dot product of two bounded vectors is bounded, each term
/// by the scaled product of the component bounds.
proof fn lemma_dot_fp_bounds(u: Vec3fp, v: Vec3fp, mu: int, mv: int, mq: int)
    requires
        -mu <= u.x <= mu,
        -mu <= u.y <= mu,
        -mu <= u.z <= mu,
        -mv <= v.x <= mv,
        -mv <= v.y <= mv,
        -mv <= v.z <= mv,
        0 <= mu,
        0 <= mv,
        mu * mv <= 0x0fff_ffff_ffff_ffff,
        mu * mv <= mq * (FP_ONE as int),
        0 <= mq,
    ensures
        -3 * mq <= dot_fp(u, v) <= 3 * mq,
        -mq <= (u.x * v.x) / (FP_ONE as int) <= mq,
        -mq <= (u.y * v.y) / (FP_ONE as int) <= mq,
        -mq <= (u.z * v.z) / (FP_ONE as int) <= mq,
        -(mu * mv) <= u.x * v.x <= mu * mv,
        -(mu * mv) <= u.y * v.y <= mu * mv,
        -(mu * mv) <= u.z * v.z <= mu * mv,
{
    let m = mu * mv;
    assert(-m <= u.x * v.x <= m && -m <= u.y * v.y <= m && -m <= u.z * v.z <= m && m >= 0)
        by (nonlinear_arith)
        requires
            -mu <= u.x <= mu,
            -mu <= u.y <= mu,
            -mu <= u.z <= mu,
            -mv <= v.x <= mv,
            -mv <= v.y <= mv,
            -mv <= v.z <= mv,
            0 <= mu,
            0 <= mv,
            m == mu * mv,
    ;
    lemma_div_bounds_abs(u.x * v.x, FP_ONE as int, m);
    lemma_div_bounds_abs(u.y * v.y, FP_ONE as int, m);
    lemma_div_bounds_abs(u.z * v.z, FP_ONE as int, m);
    vstd::arithmetic::div_mod::lemma_div_is_ordered(u.x * v.x, mq * (FP_ONE as int), FP_ONE as int);
    vstd::arithmetic::div_mod::lemma_div_is_ordered(u.y * v.y, mq * (FP_ONE as int), FP_ONE as int);
    vstd::arithmetic::div_mod::lemma_div_is_ordered(u.z * v.z, mq * (FP_ONE as int), FP_ONE as int);
    vstd::arithmetic::div_mod::lemma_div_by_multiple(mq, FP_ONE as int);
    vstd::arithmetic::div_mod::lemma_div_is_ordered(-(mq * (FP_ONE as int)), u.x * v.x, FP_ONE as int);
    vstd::arithmetic::div_mod::lemma_div_is_ordered(-(mq * (FP_ONE as int)), u.y * v.y, FP_ONE as int);
    vstd::arithmetic::div_mod::lemma_div_is_ordered(-(mq * (FP_ONE as int)), u.z * v.z, FP_ONE as int);
    crate::fixed::lemma_div_neg_bound(mq * (FP_ONE as int), FP_ONE as int);
}

impl Plane {
    /// Build the plane through three points: the unit normal is the
    /// normalized cross product of the edge vectors `b - a` and `c - a`,
    /// and the distance is `dot(normal, a)`.
    pub fn new(a: Vec3fp, b: Vec3fp, c: Vec3fp) -> (r: Plane)
        requires
            vec3_ok(a),
            vec3_ok(b),
            vec3_ok(c),
            spans_plane(a, b, c),
        ensures
            r == plane_from(a, b, c),
            plane_ok(r),
    {
        let ux = b.x - a.x;
        let uy = b.y - a.y;
        let uz = b.z - a.z;
        let vx = c.x - a.x;
        let vy = c.y - a.y;
        let vz = c.z - a.z;
        proof {
            lemma_raw_cross_bounds(ux as int, uy as int, uz as int, vx as int, vy as int, vz as int);
        }
        let cx = fdiv(uy * vz - uz * vy, FP_ONE);
        let cy = fdiv(uz * vx - ux * vz, FP_ONE);
        let cz = fdiv(ux * vy - uy * vx, FP_ONE);
        proof {
            assert(0 <= cx * cx <= 0x4000_0000_0000_0000 && 0 <= cy * cy
                <= 0x4000_0000_0000_0000 && 0 <= cz * cz <= 0x4000_0000_0000_0000)
                by (nonlinear_arith)
                requires
                    -2147483648 <= cx <= 2147483648,
                    -2147483648 <= cy <= 2147483648,
                    -2147483648 <= cz <= 2147483648,
            ;
        }
        proof {
            assert(cross_fp(a, b, c) == (cx as int, cy as int, cz as int));
            assert(cx != 0 ==> cx * cx >= 1) by (nonlinear_arith);
            assert(cy != 0 ==> cy * cy >= 1) by (nonlinear_arith);
            assert(cz != 0 ==> cz * cz >= 1) by (nonlinear_arith);
        }
        let sum = (cx * cx) as u64 + (cy * cy) as u64 + (cz * cz) as u64;
        let len_u = isqrt(sum);
        proof {
            assert(sum >= 1);
            assert(len_u >= 1) by (nonlinear_arith)
                requires
                    len_u * len_u <= sum < (len_u + 1) * (len_u + 1),
                    sum >= 1,
            ;
            assert(len_u <= 4294967296) by (nonlinear_arith)
                requires
                    len_u * len_u <= sum,
                    sum <= 0xc000_0000_0000_0000,
            ;
            lemma_component_le_len(cx as int, len_u as int, sum as int);
            lemma_component_le_len(cy as int, len_u as int, sum as int);
            lemma_component_le_len(cz as int, len_u as int, sum as int);
        }
        let len = len_u as i64;
        let nx = fdiv(cx * FP_ONE, len);
        let ny = fdiv(cy * FP_ONE, len);
        let nz = fdiv(cz * FP_ONE, len);
        let n = Vec3fp { x: nx, y: ny, z: nz };
        proof {
            lemma_dot_fp_bounds(n, a, 2 * FP_ONE, VEC_LIMIT as int, 2 * VEC_LIMIT);
        }
        let distance = fdiv(n.x * a.x, FP_ONE) + fdiv(n.y * a.y, FP_ONE) + fdiv(
            n.z * a.z,
            FP_ONE,
        );
        Plane { normal: n, distance }
    }

    /// The signed distance of a point to the plane: `dot(normal, p)` less
    /// the plane's distance. Nonnegative means inside (kept).
    pub fn distance_to(&self, p: Vec3fp) -> (r: i64)
        requires
            plane_ok(*self),
            clip_vec_ok(p),
        ensures
            r == plane_dist(*self, p),
            -70368744177664 <= r <= 70368744177664,
    {
        proof {
            lemma_dot_fp_bounds(self.normal, p, 2 * FP_ONE, 1073741824, 2147483648);
        }
        fdiv(self.normal.x * p.x, FP_ONE) + fdiv(self.normal.y * p.y, FP_ONE) + fdiv(
            self.normal.z * p.z,
            FP_ONE,
        ) - self.distance
    }
}

/// The raw cross-product components of bounded edge vectors fit `i64`, and
/// their scaled-down forms fit 32 bits.
proof fn lemma_raw_cross_bounds(ux: int, uy: int, uz: int, vx: int, vy: int, vz: int)
    requires
        -2 * VEC_LIMIT <= ux <= 2 * VEC_LIMIT,
        -2 * VEC_LIMIT <= uy <= 2 * VEC_LIMIT,
        -2 * VEC_LIMIT <= uz <= 2 * VEC_LIMIT,
        -2 * VEC_LIMIT <= vx <= 2 * VEC_LIMIT,
        -2 * VEC_LIMIT <= vy <= 2 * VEC_LIMIT,
        -2 * VEC_LIMIT <= vz <= 2 * VEC_LIMIT,
    ensures
        -70368744177664 <= uy * vz <= 70368744177664,
        -70368744177664 <= uz * vy <= 70368744177664,
        -70368744177664 <= uz * vx <= 70368744177664,
        -70368744177664 <= ux * vz <= 70368744177664,
        -70368744177664 <= ux * vy <= 70368744177664,
        -70368744177664 <= uy * vx <= 70368744177664,
        -140737488355328 <= uy * vz - uz * vy <= 140737488355328,
        -140737488355328 <= uz * vx - ux * vz <= 140737488355328,
        -140737488355328 <= ux * vy - uy * vx <= 140737488355328,
        -2147483648 <= (uy * vz - uz * vy) / (FP_ONE as int) <= 2147483648,
        -2147483648 <= (uz * vx - ux * vz) / (FP_ONE as int) <= 2147483648,
        -2147483648 <= (ux * vy - uy * vx) / (FP_ONE as int) <= 2147483648,
{
    assert(-70368744177664 <= uy * vz <= 70368744177664 && -70368744177664 <= uz * vy
        <= 70368744177664 && -70368744177664 <= uz * vx <= 70368744177664 && -70368744177664
        <= ux * vz <= 70368744177664 && -70368744177664 <= ux * vy <= 70368744177664
        && -70368744177664 <= uy * vx <= 70368744177664) by (nonlinear_arith)
        requires
            -2 * VEC_LIMIT <= ux <= 2 * VEC_LIMIT,
            -2 * VEC_LIMIT <= uy <= 2 * VEC_LIMIT,
            -2 * VEC_LIMIT <= uz <= 2 * VEC_LIMIT,
            -2 * VEC_LIMIT <= vx <= 2 * VEC_LIMIT,
            -2 * VEC_LIMIT <= vy <= 2 * VEC_LIMIT,
            -2 * VEC_LIMIT <= vz <= 2 * VEC_LIMIT,
    ;
    lemma_div_bounds_abs(uy * vz - uz * vy, FP_ONE as int, 140737488355328);
    lemma_div_bounds_abs(uz * vx - ux * vz, FP_ONE as int, 140737488355328);
    lemma_div_bounds_abs(ux * vy - uy * vx, FP_ONE as int, 140737488355328);
    assert(140737488355328int / (FP_ONE as int) == 2147483648) by {
        vstd::arithmetic::div_mod::lemma_div_by_multiple(2147483648, FP_ONE as int);
    }
    vstd::arithmetic::div_mod::lemma_div_is_ordered(
        uy * vz - uz * vy,
        140737488355328,
        FP_ONE as int,
    );
    vstd::arithmetic::div_mod::lemma_div_is_ordered(
        uz * vx - ux * vz,
        140737488355328,
        FP_ONE as int,
    );
    vstd::arithmetic::div_mod::lemma_div_is_ordered(
        ux * vy - uy * vx,
        140737488355328,
        FP_ONE as int,
    );
    vstd::arithmetic::div_mod::lemma_div_is_ordered(
        -140737488355328,
        uy * vz - uz * vy,
        FP_ONE as int,
    );
    vstd::arithmetic::div_mod::lemma_div_is_ordered(
        -140737488355328,
        uz * vx - ux * vz,
        FP_ONE as int,
    );
    vstd::arithmetic::div_mod::lemma_div_is_ordered(
        -140737488355328,
        ux * vy - uy * vx,
        FP_ONE as int,
    );
    crate::fixed::lemma_div_neg_bound(140737488355328, FP_ONE as int);
}

/// A squared component never exceeds the squared length of the whole
/// vector, so the component's magnitude is at most the rounded-down length,
/// and the normalized component stays within one fixed-point unit.
proof fn lemma_component_le_len(c: int, len: int, sum: int)
    requires
        c * c <= sum,
        len * len <= sum < (len + 1) * (len + 1),
        1 <= len <= 4294967296,
    ensures
        -len <= c <= len,
        fits_i64(c * (FP_ONE as int)),
        -(FP_ONE as int) - 1 <= (c * (FP_ONE as int)) / len <= FP_ONE,
{
    assert(-len <= c <= len) by (nonlinear_arith)
        requires
            c * c <= sum,
            sum < (len + 1) * (len + 1),
            len >= 0,
    ;
    assert(c * (FP_ONE as int) <= len * (FP_ONE as int) && -(len * (FP_ONE as int)) <= c * (
    FP_ONE as int)) by (nonlinear_arith)
        requires
            -len <= c <= len,
    ;
    vstd::arithmetic::div_mod::lemma_div_is_ordered(
        c * (FP_ONE as int),
        len * (FP_ONE as int),
        len,
    );
    assert((len * (FP_ONE as int)) / len == FP_ONE) by {
        vstd::arithmetic::mul::lemma_mul_is_commutative(len, FP_ONE as int);
        vstd::arithmetic::div_mod::lemma_div_by_multiple(FP_ONE as int, len);
    }
    vstd::arithmetic::div_mod::lemma_div_is_ordered(
        -(len * (FP_ONE as int)),
        c * (FP_ONE as int),
        len,
    );
    crate::fixed::lemma_div_neg_bound(len * (FP_ONE as int), len);
}


/// The vector's components are within the wider range the clipper accepts,
/// which covers whole-level geometry.
pub open spec fn clip_vec_ok(v: Vec3fp) -> bool {
    &&& -1073741824 <= v.x <= 1073741824
    &&& -1073741824 <= v.y <= 1073741824
    &&& -1073741824 <= v.z <= 1073741824
}

/// The position and texture coordinate of a clipping vertex are within the
/// accepted range.
pub open spec fn cv_ok(v: ClipVert) -> bool {
    &&& clip_vec_ok(v.pos)
    &&& -1073741824 <= v.uv.x <= 1073741824
    &&& -1073741824 <= v.uv.y <= 1073741824
}

/// Every vertex of the list is within the accepted ranges.
pub open spec fn cvs_ok(pts: Seq<ClipVert>) -> bool {
    forall|i: int| 0 <= i < pts.len() ==> cv_ok(#[trigger] pts[i])
}

/// The interpolation factor at which the edge from a vertex at signed
/// distance `d` to one at `dn` crosses the plane: `d / (d - dn)` in fixed
/// point, evaluated over positive operands for either sign arrangement.
pub open spec fn clip_t(d: int, dn: int) -> int {
    if d > 0 {
        (d * (FP_ONE as int)) / (d - dn)
    } else {
        ((-d) * (FP_ONE as int)) / (dn - d)
    }
}

/// Fixed-point linear interpolation from `a` toward `b` by factor `t`.
pub open spec fn lerp_fp(a: int, b: int, t: int) -> int {
    a + ((b - a) * t) / (FP_ONE as int)
}

/// The vertex synthesized at a plane crossing: position and texture
/// coordinates both interpolated by the crossing factor.
pub open spec fn clip_lerp_vert(cur: ClipVert, nxt: ClipVert, t: int) -> ClipVert {
    ClipVert {
        pos: Vec3fp {
            x: lerp_fp(cur.pos.x as int, nxt.pos.x as int, t) as i64,
            y: lerp_fp(cur.pos.y as int, nxt.pos.y as int, t) as i64,
            z: lerp_fp(cur.pos.z as int, nxt.pos.z as int, t) as i64,
        },
        uv: Vec2fp {
            x: lerp_fp(cur.uv.x as int, nxt.uv.x as int, t) as i64,
            y: lerp_fp(cur.uv.y as int, nxt.uv.y as int, t) as i64,
        },
    }
}

/// What one edge of the polygon contributes to the clipped output: the
/// current vertex when it is inside, plus the synthesized crossing vertex
/// when the edge crosses the plane.
pub open spec fn clip_contrib(pl: Plane, cur: ClipVert, nxt: ClipVert) -> Seq<ClipVert> {
    let d = plane_dist(pl, cur.pos);
    let dn = plane_dist(pl, nxt.pos);
    if (d < 0 && dn > 0) || (d > 0 && dn < 0) {
        let b = clip_lerp_vert(cur, nxt, clip_t(d, dn));
        if d >= 0 {
            seq![cur, b]
        } else {
            seq![b]
        }
    } else {
        if d >= 0 {
            seq![cur]
        } else {
            Seq::empty()
        }
    }
}

/// The successor of vertex `i` in the cyclic vertex list.
pub open spec fn clip_next(pts: Seq<ClipVert>, i: int) -> ClipVert {
    if i < pts.len() - 1 {
        pts[i + 1]
    } else {
        pts[0]
    }
}

/// The whole clipped polygon: the concatenation of every edge's
/// contribution, in input order.
pub open spec fn clip_spec(pl: Plane, pts: Seq<ClipVert>) -> Seq<ClipVert> {
    Seq::new(pts.len(), |i: int| clip_contrib(pl, pts[i], clip_next(pts, i))).flatten()
}

/// The crossing factor lies within one fixed-point unit.
proof fn lemma_clip_t_range(d: int, dn: int)
    requires
        (d < 0 && dn > 0) || (d > 0 && dn < 0),
        -70368744177664 <= d <= 70368744177664,
        -70368744177664 <= dn <= 70368744177664,
    ensures
        0 <= clip_t(d, dn) <= FP_ONE,
{
    if d > 0 {
        let den = d - dn;
        vstd::arithmetic::div_mod::lemma_div_pos_is_pos(d * (FP_ONE as int), den);
        vstd::arithmetic::mul::lemma_mul_nonnegative(d, FP_ONE as int);
        assert(d * (FP_ONE as int) <= den * (FP_ONE as int)) by (nonlinear_arith)
            requires
                0 < d <= den,
        ;
        vstd::arithmetic::div_mod::lemma_div_is_ordered(
            d * (FP_ONE as int),
            den * (FP_ONE as int),
            den,
        );
        assert((den * (FP_ONE as int)) / den == FP_ONE) by {
            vstd::arithmetic::mul::lemma_mul_is_commutative(den, FP_ONE as int);
            vstd::arithmetic::div_mod::lemma_div_by_multiple(FP_ONE as int, den);
        }
    } else {
        let den = dn - d;
        vstd::arithmetic::div_mod::lemma_div_pos_is_pos((-d) * (FP_ONE as int), den);
        vstd::arithmetic::mul::lemma_mul_nonnegative(-d, FP_ONE as int);
        assert((-d) * (FP_ONE as int) <= den * (FP_ONE as int)) by (nonlinear_arith)
            requires
                0 < -d <= den,
        ;
        vstd::arithmetic::div_mod::lemma_div_is_ordered(
            (-d) * (FP_ONE as int),
            den * (FP_ONE as int),
            den,
        );
        assert((den * (FP_ONE as int)) / den == FP_ONE) by {
            vstd::arithmetic::mul::lemma_mul_is_commutative(den, FP_ONE as int);
            vstd::arithmetic::div_mod::lemma_div_by_multiple(FP_ONE as int, den);
        }
    }
}

/// Interpolate one fixed-point scalar by a factor within one unit.
fn lerp_scalar(a: i64, b: i64, t: i64) -> (r: i64)
    requires
        -1073741824 <= a <= 1073741824,
        -1073741824 <= b <= 1073741824,
        0 <= t <= FP_ONE,
    ensures
        r == lerp_fp(a as int, b as int, t as int),
        -3221225472 <= r <= 3221225472,
{
    proof {
        assert(-2147483648 * (FP_ONE as int) <= (b - a) * t <= 2147483648 * (FP_ONE as int))
            by (nonlinear_arith)
            requires
                -2147483648 <= b - a <= 2147483648,
                0 <= t <= FP_ONE,
        ;
        lemma_div_bounds_abs((b - a) * t, FP_ONE as int, 2147483648 * (FP_ONE as int));
        vstd::arithmetic::div_mod::lemma_div_is_ordered(
            (b - a) * t,
            2147483648 * (FP_ONE as int),
            FP_ONE as int,
        );
        vstd::arithmetic::div_mod::lemma_div_is_ordered(
            -(2147483648 * (FP_ONE as int)),
            (b - a) * t,
            FP_ONE as int,
        );
        vstd::arithmetic::div_mod::lemma_div_by_multiple(2147483648, FP_ONE as int);
        crate::fixed::lemma_div_neg_bound(2147483648 * (FP_ONE as int), FP_ONE as int);
    }
    a + fdiv((b - a) * t, FP_ONE)
}

/// Compute the crossing factor for a crossing edge.
fn clip_factor(d: i64, dn: i64) -> (t: i64)
    requires
        (d < 0 && dn > 0) || (d > 0 && dn < 0),
        -70368744177664 <= d <= 70368744177664,
        -70368744177664 <= dn <= 70368744177664,
    ensures
        t == clip_t(d as int, dn as int),
        0 <= t <= FP_ONE,
{
    proof {
        lemma_clip_t_range(d as int, dn as int);
        vstd::arithmetic::mul::lemma_mul_nonnegative(if d > 0 { d as int } else { -d as int }, FP_ONE as int);
        assert(d * FP_ONE <= 70368744177664 * (FP_ONE as int) && -70368744177664 * (
        FP_ONE as int) <= d * FP_ONE) by (nonlinear_arith)
            requires
                -70368744177664 <= d <= 70368744177664,
        ;
    }
    if d > 0 {
        fdiv(d * FP_ONE, d - dn)
    } else {
        fdiv((-d) * FP_ONE, dn - d)
    }
}

/// Synthesize the crossing vertex of a crossing edge.
fn clip_lerp(cur: &ClipVert, nxt: &ClipVert, t: i64) -> (r: ClipVert)
    requires
        cv_ok(*cur),
        cv_ok(*nxt),
        0 <= t <= FP_ONE,
    ensures
        r == clip_lerp_vert(*cur, *nxt, t as int),
{
    ClipVert {
        pos: Vec3fp {
            x: lerp_scalar(cur.pos.x, nxt.pos.x, t),
            y: lerp_scalar(cur.pos.y, nxt.pos.y, t),
            z: lerp_scalar(cur.pos.z, nxt.pos.z, t),
        },
        uv: Vec2fp {
            x: lerp_scalar(cur.uv.x, nxt.uv.x, t),
            y: lerp_scalar(cur.uv.y, nxt.uv.y, t),
        },
    }
}

/// Clip a polygon against a plane into a fresh vertex list: inside vertices
/// are kept, crossing edges gain a synthesized vertex at the crossing
/// point, and the order is preserved. The result may hold fewer than three
/// vertices, which tells the caller to discard the polygon.
#[verifier::loop_isolation(false)]
pub fn clip_polygon(plane: Plane, points: &Vec<ClipVert>) -> (out: Vec<ClipVert>)
    requires
        plane_ok(plane),
        cvs_ok(points@),
    ensures
        out@ == clip_spec(plane, points@),
{
    let ghost contribs = Seq::new(
        points@.len(),
        |i: int| clip_contrib(plane, points@[i], clip_next(points@, i)),
    );
    let mut out: Vec<ClipVert> = Vec::new();
    let mut i: usize = 0;
    while i < points.len()
        invariant
            0 <= i <= points@.len(),
            out@ == contribs.take(i as int).flatten(),
        decreases points@.len() - i,
    {
        let current = points[i];
        let next = if i < points.len() - 1 {
            points[i + 1]
        } else {
            points[0]
        };
        let outside = plane.distance_to(current.pos);
        let outside_next = plane.distance_to(next.pos);
        let keep = outside >= 0;
        if (outside < 0 && outside_next > 0) || (outside > 0 && outside_next < 0) {
            let factor = clip_factor(outside, outside_next);
            let b = clip_lerp(&current, &next, factor);
            if keep {
                out.push(current);
            }
            out.push(b);
        } else {
            if keep {
                out.push(current);
            }
        }
        proof {
            assert(contribs.take(i as int + 1) =~= contribs.take(i as int).push(
                contribs[i as int],
            ));
            contribs.take(i as int).lemma_flatten_push(contribs[i as int]);
            assert(out@ == contribs.take(i as int + 1).flatten());
        }
        i = i + 1;
    }
    proof {
        assert(contribs.take(points@.len() as int) =~= contribs);
    }
    out
}

/// Clip a polygon against a plane in place, without a second buffer: the
/// same contents as `clip_polygon`, produced by removing outside vertices
/// and inserting crossing vertices as the cursor walks the list. A copy of
/// the first vertex is saved up front so the loop can close the ring even
/// after that slot has been edited. Lists of fewer than three vertices are
/// left untouched.
#[verifier::rlimit(100)]
#[verifier::loop_isolation(false)]
pub fn clip_polygon_inplace(plane: Plane, points: &mut Vec<ClipVert>)
    requires
        plane_ok(plane),
        cvs_ok(old(points)@),
    ensures
        old(points)@.len() < 3 ==> final (points)@ == old(points)@,
        old(points)@.len() >= 3 ==> final (points)@ == clip_spec(plane, old(points)@),
{
    if points.len() < 3 {
        return ;
    }
    let first = points[0];
    let ghost orig = points@;
    let ghost contribs = Seq::new(
        orig.len(),
        |q: int| clip_contrib(plane, orig[q], clip_next(orig, q)),
    );
    let mut i: usize = 0;
    let ghost mut j: int = 0;
    while i < points.len()
        invariant
            0 <= j <= orig.len(),
            i == contribs.take(j).flatten().len(),
            points@ == contribs.take(j).flatten() + orig.skip(j),
            j == orig.len() ==> i == points@.len(),
            j < orig.len() ==> i < points@.len(),
        decreases orig.len() - j,
    {
        let ghost pre = contribs.take(j).flatten();
        proof {
            assert(points@[i as int] == orig.skip(j)[0]);
            assert(orig.skip(j)[0] == orig[j]);
        }
        let current = points[i];
        let next = if i < points.len() - 1 {
            points[i + 1]
        } else {
            first
        };
        proof {
            if j < orig.len() - 1 {
                assert(points@[i as int + 1] == orig.skip(j)[1]);
                assert(next == clip_next(orig, j));
            } else {
                assert(next == clip_next(orig, j));
            }
        }
        let outside = plane.distance_to(current.pos);
        let outside_next = plane.distance_to(next.pos);
        let keep = outside >= 0;
        if (outside < 0 && outside_next > 0) || (outside > 0 && outside_next < 0) {
            let factor = clip_factor(outside, outside_next);
            let b = clip_lerp(&current, &next, factor);
            if !keep {
                points.remove(i);
            } else {
                i = i + 1;
            }
            points.insert(i, b);
            let new_len = points.len();
            proof {
                assert(i < new_len);
            }
            i = i + 1;
        } else {
            if !keep {
                points.remove(i);
            } else {
                i = i + 1;
            }
        }
        proof {
            assert(contribs.take(j + 1) =~= contribs.take(j).push(contribs[j]));
            contribs.take(j).lemma_flatten_push(contribs[j]);
            j = j + 1;
            assert(points@ =~= contribs.take(j).flatten() + orig.skip(j));
        }
    }
    proof {
        assert(contribs.take(orig.len() as int) =~= contribs);
        assert(orig.skip(orig.len() as int) =~= Seq::<ClipVert>::empty());
        assert(points@ =~= clip_spec(plane, orig));
    }
}


/// Flattening a sequence of singleton contributions yields the original
/// vertices.
proof fn lemma_flatten_singletons(contribs: Seq<Seq<ClipVert>>, pts: Seq<ClipVert>, n: int)
    requires
        contribs.len() == pts.len(),
        forall|i: int| 0 <= i < pts.len() ==> contribs[i] == seq![pts[i]],
        0 <= n <= pts.len(),
    ensures
        contribs.take(n).flatten() == pts.take(n),
    decreases n,
{
    if n == 0 {
        assert(contribs.take(0) =~= Seq::<Seq<ClipVert>>::empty());
        assert(contribs.take(0).flatten() =~= pts.take(0));
    } else {
        lemma_flatten_singletons(contribs, pts, n - 1);
        assert(contribs.take(n) =~= contribs.take(n - 1).push(contribs[n - 1]));
        contribs.take(n - 1).lemma_flatten_push(contribs[n - 1]);
        assert(contribs.take(n).flatten() =~= pts.take(n));
    }
}

/// Clipping is idempotent on polygons that already lie fully inside the
/// plane: every vertex is kept, nothing is synthesized, and the output
/// equals the input, vertex for vertex.
pub proof fn lemma_clip_idempotent(pl: Plane, pts: Seq<ClipVert>)
    requires
        forall|i: int| 0 <= i < pts.len() ==> plane_dist(pl, (#[trigger] pts[i]).pos) >= 0,
    ensures
        clip_spec(pl, pts) == pts,
{
    let contribs = Seq::new(pts.len(), |i: int| clip_contrib(pl, pts[i], clip_next(pts, i)));
    assert forall|i: int| 0 <= i < pts.len() implies contribs[i] == seq![pts[i]] by {
        let nxt = clip_next(pts, i);
        if pts.len() > 0 {
            assert(plane_dist(pl, pts[0].pos) >= 0);
        }
        assert(plane_dist(pl, nxt.pos) >= 0);
    }
    lemma_flatten_singletons(contribs, pts, pts.len() as int);
    assert(contribs.take(pts.len() as int) =~= contribs);
    assert(pts.take(pts.len() as int) =~= pts);
}

/// The fixed depth of the near clipping plane, one tenth in fixed point.
pub const ZNEAR: i64 = 6553;

/// A screen corner can be carried through frustum construction: its
/// unprojection at unit depth stays within the accepted camera-space range.
pub open spec fn corner_ok(pp: crate::math::Perspective, q: Vec2fp) -> bool {
    &&& -1073741824 <= q.x <= 1073741824
    &&& -1073741824 <= q.y <= 1073741824
    &&& vec3_ok(frustum_corner(pp, q))
}

/// The camera-space point of a screen corner unprojected at unit depth.
pub open spec fn frustum_corner(pp: crate::math::Perspective, q: Vec2fp) -> Vec3fp {
    Vec3fp {
        x: crate::math::unproject_x(pp, q, FP_ONE as int) as i64,
        y: crate::math::unproject_y(pp, q, FP_ONE as int) as i64,
        z: FP_ONE,
    }
}

/// The three fixed points the near plane is built from.
pub open spec fn near_plane_points() -> (Vec3fp, Vec3fp, Vec3fp) {
    (
        Vec3fp { x: 0, y: 0, z: ZNEAR },
        Vec3fp { x: FP_ONE, y: 0, z: ZNEAR },
        Vec3fp { x: 0, y: ZNEAR, z: ZNEAR },
    )
}

/// The four screen corners in ring order, each followed by its successor,
/// give the side planes of the frustum.
pub open spec fn side_plane(pp: crate::math::Perspective, corners: Seq<Vec2fp>, i: int) -> Plane {
    let cur = corners[i];
    let nxt = corners[if i == 3 { 0int } else { i + 1 }];
    plane_from(frustum_corner(pp, cur), frustum_corner(pp, nxt), Vec3fp { x: 0, y: 0, z: 0 })
}

/// Build the five clipping planes of the view frustum: a near plane at a
/// small fixed depth, then one side plane per screen edge, each through the
/// camera origin and two adjacent unprojected corners.
#[verifier::loop_isolation(false)]
pub fn make_frustum(corners: &Vec<Vec2fp>, persp: &crate::math::Perspective) -> (res: Vec<Plane>)
    requires
        corners@.len() == 4,
        crate::math::persp_ok(*persp),
        forall|i: int| 0 <= i < 4 ==> corner_ok(*persp, #[trigger] corners@[i]),
        forall|i: int| 0 <= i < 4 ==> spans_plane(
            frustum_corner(*persp, #[trigger] corners@[i]),
            frustum_corner(*persp, corners@[if i == 3 { 0int } else { i + 1 }]),
            Vec3fp { x: 0, y: 0, z: 0 },
        ),
    ensures
        res@.len() == 5,
        res@[0] == plane_from(
            near_plane_points().0,
            near_plane_points().1,
            near_plane_points().2,
        ),
        forall|i: int| 0 <= i < 4 ==> res@[1 + i] == side_plane(*persp, corners@, i),
        forall|i: int| 0 <= i < res@.len() ==> plane_ok(#[trigger] res@[i]),
{
    let mut res: Vec<Plane> = Vec::new();
    let na = Vec3fp { x: 0, y: 0, z: ZNEAR };
    let nb = Vec3fp { x: FP_ONE, y: 0, z: ZNEAR };
    let nc = Vec3fp { x: 0, y: ZNEAR, z: ZNEAR };
    proof {
        assert(spans_plane(na, nb, nc)) by {
            assert((nb.x - na.x) * (nc.y - na.y) == 429457408 && (nb.y - na.y) * (nc.x - na.x)
                == 0) by (nonlinear_arith)
                requires
                    nb.x - na.x == 65536,
                    nc.y - na.y == 6553,
                    nb.y - na.y == 0,
                    nc.x - na.x == 0,
            ;
            assert(429457408int / (FP_ONE as int) == 6553) by {
                vstd::arithmetic::div_mod::lemma_fundamental_div_mod_converse_div(
                    429457408,
                    FP_ONE as int,
                    6553,
                    0,
                );
            }
            assert(cross_fp(na, nb, nc).2 == 6553);
        }
    }
    res.push(Plane::new(na, nb, nc));
    let origin = Vec3fp { x: 0, y: 0, z: 0 };
    let mut i: usize = 0;
    while i < 4
        invariant
            0 <= i <= 4,
            res@.len() == 1 + i,
            res@[0] == plane_from(
                near_plane_points().0,
                near_plane_points().1,
                near_plane_points().2,
            ),
            forall|k: int| 0 <= k < i ==> res@[1 + k] == side_plane(*persp, corners@, k),
            forall|k: int| 0 <= k < res@.len() ==> plane_ok(#[trigger] res@[k]),
        decreases 4 - i,
    {
        let cur = corners[i];
        let nxt = if i == 3 {
            corners[0]
        } else {
            corners[i + 1]
        };
        let pa = persp.unproject(cur, FP_ONE);
        let pb = persp.unproject(nxt, FP_ONE);
        proof {
            assert(pa == frustum_corner(*persp, corners@[i as int]));
            assert(pb == frustum_corner(
                *persp,
                corners@[if i as int == 3 { 0int } else { i as int + 1 }],
            ));
        }
        res.push(Plane::new(pa, pb, origin));
        i = i + 1;
    }
    res
}

} // verus!
