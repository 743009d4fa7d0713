//! Generalized convex-polygon edge-walking rasterizer.
//!
//! The vertex list is treated as a cyclic ring. Starting from the vertex
//! with the smallest `(y, x)` (`first`), two cursors walk toward the vertex
//! with the largest `(y, x)` (`last`): the left cursor in the ring's
//! decreasing-index direction, the right cursor in the increasing-index
//! direction. Whenever a cursor is advanced, a fresh four-lane edge
//! interpolator is built for the edge it enters; one span is emitted per
//! integer scanline between the previous stop and the lower of the two
//! cursors' next targets, carrying the current left and right interpolator
//! values and a monotonically increasing auxiliary tag.

use vstd::prelude::*;

use crate::rasterize::COORD_LIMIT;
use crate::rasterize::Pt;
use crate::slope::Slope4x;
use crate::slope::Vec4fp;
use crate::slope::is_slope4_state_splat;
use crate::slope::lemma_slope_val_advance;
use crate::slope::lemma_slope_val_in_range;
use crate::slope::slope_step;
use crate::slope::slope_val;

verus! {

/// Largest attribute-lane magnitude the polygon rasterizer accepts.
pub const LANE_LIMIT: i64 = 1099511627776;

/// A polygon vertex: integer screen coordinates and four fixed-point
/// attribute lanes interpolated along the polygon's edges. By convention
/// lane `x` carries the screen x coordinate in 16.16 fixed point.
#[derive(Clone, Copy, PartialEq, Eq, Structural, Debug)]
pub struct PolyVert {
    pub x: i64,
    pub y: i64,
    pub lanes: Vec4fp,
}

/// One emitted scanline of the polygon rasterizer: the integer `y`, the
/// current four-lane left and right boundary values, and the auxiliary
/// ordering tag of the edge-walk step that emitted it.
#[derive(Clone, Copy, PartialEq, Eq, Structural, Debug)]
pub struct SpanT {
    pub y: i64,
    pub left: Vec4fp,
    pub right: Vec4fp,
    pub aux: u32,
}

/// The vertex's coordinates and lanes are within the accepted ranges.
pub open spec fn pv_ok(v: PolyVert) -> bool {
    &&& -COORD_LIMIT <= v.x <= COORD_LIMIT
    &&& -COORD_LIMIT <= v.y <= COORD_LIMIT
    &&& -LANE_LIMIT <= v.lanes.x <= LANE_LIMIT
    &&& -LANE_LIMIT <= v.lanes.y <= LANE_LIMIT
    &&& -LANE_LIMIT <= v.lanes.z <= LANE_LIMIT
    &&& -LANE_LIMIT <= v.lanes.w <= LANE_LIMIT
}

/// Every vertex of the list is within the accepted ranges.
pub open spec fn pvs_ok(pts: Seq<PolyVert>) -> bool {
    forall|i: int| 0 <= i < pts.len() ==> pv_ok(#[trigger] pts[i])
}

/// Strict lexicographic order on `(y, x)` of two vertices.
pub open spec fn pv_lex_lt(a: PolyVert, b: PolyVert) -> bool {
    a.y < b.y || (a.y == b.y && a.x < b.x)
}

/// Index of the first vertex holding the smallest `(y, x)` among the first
/// `k` vertices.
pub open spec fn first_upto(pts: Seq<PolyVert>, k: int) -> int
    decreases k,
{
    if k <= 1 {
        0
    } else {
        let p = first_upto(pts, k - 1);
        if pv_lex_lt(pts[k - 1], pts[p]) {
            k - 1
        } else {
            p
        }
    }
}

/// Index of the first vertex holding the largest `(y, x)` among the first
/// `k` vertices.
pub open spec fn last_upto(pts: Seq<PolyVert>, k: int) -> int
    decreases k,
{
    if k <= 1 {
        0
    } else {
        let p = last_upto(pts, k - 1);
        if pv_lex_lt(pts[p], pts[k - 1]) {
            k - 1
        } else {
            p
        }
    }
}

/// The ring index where the walk starts: the topmost-leftmost vertex.
pub open spec fn poly_first(pts: Seq<PolyVert>) -> int {
    first_upto(pts, pts.len() as int)
}

/// The ring index where the walk ends: the bottommost-rightmost vertex.
pub open spec fn poly_last(pts: Seq<PolyVert>) -> int {
    last_upto(pts, pts.len() as int)
}

/// The ring index a side's cursor occupies after `k` advances: the right
/// cursor walks increasing indices from `first`, the left cursor decreasing
/// ones. Meaningful for `0 <= k <= len`.
pub open spec fn chain_at(pts: Seq<PolyVert>, dir_inc: bool, k: int) -> int {
    let n = pts.len() as int;
    let f = poly_first(pts);
    if dir_inc {
        if f + k < n {
            f + k
        } else {
            f + k - n
        }
    } else {
        if k <= f {
            f - k
        } else {
            f + n - k
        }
    }
}

/// How many ring steps a side's cursor makes from `first` to `last`.
pub open spec fn chain_len(pts: Seq<PolyVert>, dir_inc: bool) -> int {
    let n = pts.len() as int;
    let f = poly_first(pts);
    let l = poly_last(pts);
    if dir_inc {
        if l >= f {
            l - f
        } else {
            l + n - f
        }
    } else {
        if f >= l {
            f - l
        } else {
            f + n - l
        }
    }
}

/// Both cursors' walks climb monotonically in `y` from `first` to `last`:
/// the well-formedness the edge walk relies on, which a convex polygon with
/// consistent winding satisfies.
pub open spec fn poly_monotone(pts: Seq<PolyVert>) -> bool {
    &&& forall|k: int|
        0 <= k < chain_len(pts, false) ==> pts[chain_at(pts, false, k)].y <= pts[#[trigger] chain_at(
            pts,
            false,
            k + 1,
        )].y
    &&& forall|k: int|
        0 <= k < chain_len(pts, true) ==> pts[chain_at(pts, true, k)].y <= pts[#[trigger] chain_at(
            pts,
            true,
            k + 1,
        )].y
}

/// The step count an edge interpolator is built with: the edge's height in
/// scanlines, clamped to at least one step so that a horizontal edge does
/// not divide by zero.
pub open spec fn edge_steps(a: PolyVert, b: PolyVert) -> int {
    if b.y - a.y >= 1 {
        b.y - a.y
    } else {
        1
    }
}

/// Searching from edge `k`, the first edge of a side's chain whose far
/// endpoint lies strictly below scanline `y`: the edge whose interpolator is
/// current when scanline `y` is emitted.
pub open spec fn active_from(pts: Seq<PolyVert>, dir_inc: bool, y: int, k: int) -> int
    decreases chain_len(pts, dir_inc) - k,
    when 0 <= k < chain_len(pts, dir_inc)
{
    if pts[chain_at(pts, dir_inc, k + 1)].y > y {
        k
    } else {
        active_from(pts, dir_inc, y, k + 1)
    }
}

/// The edge of a side's chain that covers scanline `y`.
pub open spec fn active_edge(pts: Seq<PolyVert>, dir_inc: bool, y: int) -> int {
    active_from(pts, dir_inc, y, 0)
}

/// The four-lane boundary value a side's interpolator holds at scanline `y`:
/// the lanes of the covering edge's start vertex, stepped once per scanline
/// since that vertex.
pub open spec fn side_val_at(pts: Seq<PolyVert>, dir_inc: bool, y: int) -> Vec4fp {
    let j = active_edge(pts, dir_inc, y);
    let a = pts[chain_at(pts, dir_inc, j)];
    let b = pts[chain_at(pts, dir_inc, j + 1)];
    let s = edge_steps(a, b);
    Vec4fp {
        x: slope_val(a.lanes.x as int, b.lanes.x as int, s, y - a.y) as i64,
        y: slope_val(a.lanes.y as int, b.lanes.y as int, s, y - a.y) as i64,
        z: slope_val(a.lanes.z as int, b.lanes.z as int, s, y - a.y) as i64,
        w: slope_val(a.lanes.w as int, b.lanes.w as int, s, y - a.y) as i64,
    }
}

/// How many scanlines the polygon emits: the vertical extent from `first`
/// to `last`, or none when the walk starts and ends at the same vertex.
pub open spec fn poly_span_count(pts: Seq<PolyVert>) -> int {
    if pts.len() == 0 || poly_first(pts) == poly_last(pts) {
        0
    } else {
        pts[poly_last(pts)].y - pts[poly_first(pts)].y
    }
}

/// Vertex `y` values never decrease along a chain.
proof fn lemma_chain_mono(pts: Seq<PolyVert>, dir_inc: bool, k1: int, k2: int)
    requires
        poly_monotone(pts),
        0 <= k1 <= k2 <= chain_len(pts, dir_inc),
    ensures
        pts[chain_at(pts, dir_inc, k1)].y <= pts[chain_at(pts, dir_inc, k2)].y,
    decreases k2 - k1,
{
    if k1 < k2 {
        lemma_chain_mono(pts, dir_inc, k1, k2 - 1);
        assert(pts[chain_at(pts, dir_inc, k2 - 1)].y <= pts[chain_at(pts, dir_inc, k2 - 1int + 1)].y);
    }
}

/// The covering edge is unique along a monotone chain: an edge seen to
/// cover `y` is the one `active_from` finds.
proof fn lemma_active_from_is(pts: Seq<PolyVert>, dir_inc: bool, y: int, k: int, j: int)
    requires
        poly_monotone(pts),
        0 <= k <= j,
        j + 1 <= chain_len(pts, dir_inc),
        pts[chain_at(pts, dir_inc, j)].y <= y,
        pts[chain_at(pts, dir_inc, j + 1)].y > y,
    ensures
        active_from(pts, dir_inc, y, k) == j,
    decreases j - k,
{
    if pts[chain_at(pts, dir_inc, k + 1)].y > y {
        if k < j {
            lemma_chain_mono(pts, dir_inc, k + 1, j);
            assert(false);
        }
    } else {
        if k == j {
            assert(false);
        }
        lemma_active_from_is(pts, dir_inc, y, k + 1, j);
    }
}

/// The walk's start and end indices name real vertices.
pub proof fn lemma_first_last_range(pts: Seq<PolyVert>, k: int)
    requires
        1 <= k <= pts.len(),
    ensures
        0 <= first_upto(pts, k) < k,
        0 <= last_upto(pts, k) < k,
    decreases k,
{
    if k > 1 {
        lemma_first_last_range(pts, k - 1);
    }
}

/// For a scanline within the polygon's vertical extent, the covering edge a
/// side's walk finds is a real edge of that side's chain, and the scanline
/// lies within its height.
pub proof fn lemma_active_from_valid(pts: Seq<PolyVert>, dir_inc: bool, y: int, k: int)
    requires
        poly_monotone(pts),
        0 <= k < chain_len(pts, dir_inc),
        pts[chain_at(pts, dir_inc, k)].y <= y,
        y < pts[chain_at(pts, dir_inc, chain_len(pts, dir_inc))].y,
    ensures
        k <= active_from(pts, dir_inc, y, k) < chain_len(pts, dir_inc),
        pts[chain_at(pts, dir_inc, active_from(pts, dir_inc, y, k))].y <= y,
        y < pts[chain_at(pts, dir_inc, active_from(pts, dir_inc, y, k) + 1)].y,
    decreases chain_len(pts, dir_inc) - k,
{
    if pts[chain_at(pts, dir_inc, k + 1)].y > y {
    } else {
        if k + 1 == chain_len(pts, dir_inc) {
            assert(false);
        }
        lemma_active_from_valid(pts, dir_inc, y, k + 1);
    }
}

/// Each lane of a side's boundary value at a scanline lies between the lane
/// values of the covering edge's two endpoints.
pub proof fn lemma_side_val_between(pts: Seq<PolyVert>, dir_inc: bool, y: int)
    requires
        poly_monotone(pts),
        pts.len() >= 1,
        poly_first(pts) != poly_last(pts),
        chain_len(pts, dir_inc) >= 1,
        pts[poly_first(pts)].y <= y,
        y < pts[poly_last(pts)].y,
        chain_at(pts, dir_inc, 0) == poly_first(pts),
        chain_at(pts, dir_inc, chain_len(pts, dir_inc)) == poly_last(pts),
    ensures
        ({
            let j = active_edge(pts, dir_inc, y);
            let a = pts[chain_at(pts, dir_inc, j)];
            let b = pts[chain_at(pts, dir_inc, j + 1)];
            let s = side_val_at(pts, dir_inc, y);
            &&& 0 <= j < chain_len(pts, dir_inc)
            &&& a.y <= y < b.y
            &&& (if a.lanes.x <= b.lanes.x { a.lanes.x <= s.x <= b.lanes.x } else { b.lanes.x <= s.x <= a.lanes.x })
            &&& (if a.lanes.y <= b.lanes.y { a.lanes.y <= s.y <= b.lanes.y } else { b.lanes.y <= s.y <= a.lanes.y })
            &&& (if a.lanes.z <= b.lanes.z { a.lanes.z <= s.z <= b.lanes.z } else { b.lanes.z <= s.z <= a.lanes.z })
            &&& (if a.lanes.w <= b.lanes.w { a.lanes.w <= s.w <= b.lanes.w } else { b.lanes.w <= s.w <= a.lanes.w })
        }),
{
    lemma_active_from_valid(pts, dir_inc, y, 0);
    let j = active_edge(pts, dir_inc, y);
    let a = pts[chain_at(pts, dir_inc, j)];
    let b = pts[chain_at(pts, dir_inc, j + 1)];
    let st = edge_steps(a, b);
    lemma_slope_val_in_range(a.lanes.x as int, b.lanes.x as int, st, y - a.y);
    lemma_slope_val_in_range(a.lanes.y as int, b.lanes.y as int, st, y - a.y);
    lemma_slope_val_in_range(a.lanes.z as int, b.lanes.z as int, st, y - a.y);
    lemma_slope_val_in_range(a.lanes.w as int, b.lanes.w as int, st, y - a.y);
}

/// Along an edge of the polygon, every interpolated lane value stays within
/// the lane range, and one more step adds exactly the per-step increment.
proof fn lemma_edge_interp_step(a: PolyVert, b: PolyVert, k: int)
    requires
        pv_ok(a),
        pv_ok(b),
        0 <= k < edge_steps(a, b),
    ensures
        -LANE_LIMIT <= slope_val(a.lanes.x as int, b.lanes.x as int, edge_steps(a, b), k) <= LANE_LIMIT,
        -LANE_LIMIT <= slope_val(a.lanes.y as int, b.lanes.y as int, edge_steps(a, b), k) <= LANE_LIMIT,
        -LANE_LIMIT <= slope_val(a.lanes.z as int, b.lanes.z as int, edge_steps(a, b), k) <= LANE_LIMIT,
        -LANE_LIMIT <= slope_val(a.lanes.w as int, b.lanes.w as int, edge_steps(a, b), k) <= LANE_LIMIT,
        -LANE_LIMIT <= slope_val(a.lanes.x as int, b.lanes.x as int, edge_steps(a, b), k + 1) <= LANE_LIMIT,
        -LANE_LIMIT <= slope_val(a.lanes.y as int, b.lanes.y as int, edge_steps(a, b), k + 1) <= LANE_LIMIT,
        -LANE_LIMIT <= slope_val(a.lanes.z as int, b.lanes.z as int, edge_steps(a, b), k + 1) <= LANE_LIMIT,
        -LANE_LIMIT <= slope_val(a.lanes.w as int, b.lanes.w as int, edge_steps(a, b), k + 1) <= LANE_LIMIT,
        slope_val(a.lanes.x as int, b.lanes.x as int, edge_steps(a, b), k + 1) == slope_val(a.lanes.x as int, b.lanes.x as int, edge_steps(a, b), k) + slope_step(a.lanes.x as int, b.lanes.x as int, edge_steps(a, b)),
        slope_val(a.lanes.y as int, b.lanes.y as int, edge_steps(a, b), k + 1) == slope_val(a.lanes.y as int, b.lanes.y as int, edge_steps(a, b), k) + slope_step(a.lanes.y as int, b.lanes.y as int, edge_steps(a, b)),
        slope_val(a.lanes.z as int, b.lanes.z as int, edge_steps(a, b), k + 1) == slope_val(a.lanes.z as int, b.lanes.z as int, edge_steps(a, b), k) + slope_step(a.lanes.z as int, b.lanes.z as int, edge_steps(a, b)),
        slope_val(a.lanes.w as int, b.lanes.w as int, edge_steps(a, b), k + 1) == slope_val(a.lanes.w as int, b.lanes.w as int, edge_steps(a, b), k) + slope_step(a.lanes.w as int, b.lanes.w as int, edge_steps(a, b)),
{
    let s = edge_steps(a, b);
    lemma_slope_val_in_range(a.lanes.x as int, b.lanes.x as int, s, k);
    lemma_slope_val_in_range(a.lanes.y as int, b.lanes.y as int, s, k);
    lemma_slope_val_in_range(a.lanes.z as int, b.lanes.z as int, s, k);
    lemma_slope_val_in_range(a.lanes.w as int, b.lanes.w as int, s, k);
    lemma_slope_val_in_range(a.lanes.x as int, b.lanes.x as int, s, k + 1);
    lemma_slope_val_in_range(a.lanes.y as int, b.lanes.y as int, s, k + 1);
    lemma_slope_val_in_range(a.lanes.z as int, b.lanes.z as int, s, k + 1);
    lemma_slope_val_in_range(a.lanes.w as int, b.lanes.w as int, s, k + 1);
    lemma_slope_val_advance(a.lanes.x as int, b.lanes.x as int, s, k);
    lemma_slope_val_advance(a.lanes.y as int, b.lanes.y as int, s, k);
    lemma_slope_val_advance(a.lanes.z as int, b.lanes.z as int, s, k);
    lemma_slope_val_advance(a.lanes.w as int, b.lanes.w as int, s, k);
}

/// Rasterize a convex polygon by walking two cursors around its vertex ring
/// from the topmost vertex to the bottommost: emit one span per integer
/// scanline between them, carrying the current left and right four-lane
/// boundary interpolator values. A polygon whose walk starts and ends at the
/// same vertex emits nothing. `counter` is stepped once per cursor advance
/// and tags each span with the value it had when the span's edges were
/// entered.
#[verifier::rlimit(100)]
#[verifier::loop_isolation(false)]
pub fn rasterize_polygon(points: &Vec<PolyVert>, counter: &mut u32) -> (spans: Vec<SpanT>)
    requires
        pvs_ok(points@),
        poly_monotone(points@),
        *old(counter) + 2 * points@.len() <= u32::MAX,
    ensures
        spans@.len() == poly_span_count(points@),
        forall|i: int|
            0 <= i < spans@.len() ==> (#[trigger] spans@[i]).y == points@[poly_first(points@)].y
                + i,
        forall|i: int|
            0 <= i < spans@.len() ==> (#[trigger] spans@[i]).left == side_val_at(
                points@,
                false,
                points@[poly_first(points@)].y + i,
            ),
        forall|i: int|
            0 <= i < spans@.len() ==> (#[trigger] spans@[i]).right == side_val_at(
                points@,
                true,
                points@[poly_first(points@)].y + i,
            ),
        forall|i: int|
            0 <= i < spans@.len() ==> (#[trigger] spans@[i]).aux == *old(counter) + active_edge(
                points@,
                false,
                points@[poly_first(points@)].y + i,
            ) + active_edge(points@, true, points@[poly_first(points@)].y + i) + 1,
        forall|i: int|
            0 <= i < spans@.len() ==> *old(counter) <= (#[trigger] spans@[i]).aux < *final(counter),
        forall|i: int, j: int|
            0 <= i <= j < spans@.len() ==> (#[trigger] spans@[i]).aux <= (#[trigger] spans@[j]).aux,
        *old(counter) <= *final(counter) <= *old(counter) + 2 * points@.len(),
{
    let ghost pts = points@;
    let ghost counter0 = *counter as int;
    let n = points.len();
    let mut spans: Vec<SpanT> = Vec::new();
    if n == 0 {
        return spans;
    }

    let mut first: usize = 0;
    let mut last: usize = 0;
    let mut i: usize = 1;
    while i < n
        invariant
            1 <= i <= n,
            0 <= first < i,
            0 <= last < i,
            first == first_upto(pts, i as int),
            last == last_upto(pts, i as int),
        decreases n - i,
    {
        let pi_y = points[i].y;
        let pi_x = points[i].x;
        let pf = points[first];
        if pi_y < pf.y || (pi_y == pf.y && pi_x < pf.x) {
            first = i;
        }
        let pl = points[last];
        if pl.y < pi_y || (pl.y == pi_y && pl.x < pi_x) {
            last = i;
        }
        i = i + 1;
    }
    proof {
        assert(first == poly_first(pts));
        assert(last == poly_last(pts));
    }

    if first == last {
        return spans;
    }

    let ghost ldec = chain_len(pts, false);
    let ghost linc = chain_len(pts, true);
    let yf = points[first].y;
    let ghost yl = pts[poly_last(pts)].y;

    let mut cur_left = first;
    let mut cur_right = first;
    let mut right_side = false;
    let mut cury = yf;
    let mut next_left = cury;
    let mut next_right = cury;

    let dummy = points[first].lanes;
    let mut slope_left = Slope4x::new(dummy, dummy, Vec4fp::splat(1));
    let mut slope_right = Slope4x::new(dummy, dummy, Vec4fp::splat(1));
    let ghost mut kl: int = 0;
    let ghost mut kr: int = 0;

    let mut done = false;
    while !done
        invariant
            0 <= kl <= ldec,
            0 <= kr <= linc,
            cur_left == chain_at(pts, false, kl),
            cur_right == chain_at(pts, true, kr),
            next_left == pts[chain_at(pts, false, kl)].y,
            next_right == pts[chain_at(pts, true, kr)].y,
            right_side == (next_left > next_right),
            cury == if next_left <= next_right {
                next_left
            } else {
                next_right
            },
            yf <= cury <= yl,
            done ==> cury == yl,
            kl >= 1 ==> pts[chain_at(pts, false, kl - 1)].y <= cury && is_slope4_state_splat(
                slope_left,
                pts[chain_at(pts, false, kl - 1)].lanes,
                pts[chain_at(pts, false, kl)].lanes,
                edge_steps(pts[chain_at(pts, false, kl - 1)], pts[chain_at(pts, false, kl)]),
                cury - pts[chain_at(pts, false, kl - 1)].y,
            ),
            kr >= 1 ==> pts[chain_at(pts, true, kr - 1)].y <= cury && is_slope4_state_splat(
                slope_right,
                pts[chain_at(pts, true, kr - 1)].lanes,
                pts[chain_at(pts, true, kr)].lanes,
                edge_steps(pts[chain_at(pts, true, kr - 1)], pts[chain_at(pts, true, kr)]),
                cury - pts[chain_at(pts, true, kr - 1)].y,
            ),
            spans@.len() == cury - yf,
            forall|q: int| 0 <= q < spans@.len() ==> (#[trigger] spans@[q]).y == yf + q,
            forall|q: int|
                0 <= q < spans@.len() ==> (#[trigger] spans@[q]).left == side_val_at(
                    pts,
                    false,
                    yf + q,
                ),
            forall|q: int|
                0 <= q < spans@.len() ==> (#[trigger] spans@[q]).right == side_val_at(
                    pts,
                    true,
                    yf + q,
                ),
            forall|q: int|
                0 <= q < spans@.len() ==> (#[trigger] spans@[q]).aux == counter0 + active_edge(
                    pts,
                    false,
                    yf + q,
                ) + active_edge(pts, true, yf + q) + 1,
            forall|q: int|
                0 <= q < spans@.len() ==> counter0 <= (#[trigger] spans@[q]).aux < *counter,
            forall|q: int, r: int|
                0 <= q <= r < spans@.len() ==> (#[trigger] spans@[q]).aux <= (
                #[trigger] spans@[r]).aux,
            *counter == counter0 + kl + kr,
        decreases (ldec - kl) + (linc - kr) + if done {
            0int
        } else {
            1int
        },
    {
        let at_end = if !right_side {
            cur_left == last
        } else {
            cur_right == last
        };
        if at_end {
            proof {
                if !right_side {
                    assert(kl == ldec);
                } else {
                    assert(kr == linc);
                }
                assert(cury == yl);
            }
            done = true;
        } else if !right_side {
            let prev = cur_left;
            cur_left = if prev > 0 {
                prev - 1
            } else {
                n - 1
            };
            proof {
                assert(kl < ldec);
                assert(cur_left == chain_at(pts, false, kl + 1));
                kl = kl + 1;
                assert(pts[chain_at(pts, false, kl - 1)].y <= pts[chain_at(pts, false, kl - 1
                    + 1)].y);
            }
            next_left = points[cur_left].y;
            let dy = next_left - cury;
            let steps = if dy >= 1 {
                dy
            } else {
                1
            };
            slope_left = Slope4x::new(
                points[prev].lanes,
                points[cur_left].lanes,
                Vec4fp::splat(steps),
            );
        } else {
            let prev = cur_right;
            cur_right = if prev < n - 1 {
                prev + 1
            } else {
                0
            };
            proof {
                assert(kr < linc);
                assert(cur_right == chain_at(pts, true, kr + 1));
                kr = kr + 1;
                assert(pts[chain_at(pts, true, kr - 1)].y <= pts[chain_at(pts, true, kr - 1
                    + 1)].y);
            }
            next_right = points[cur_right].y;
            let dy = next_right - cury;
            let steps = if dy >= 1 {
                dy
            } else {
                1
            };
            slope_right = Slope4x::new(
                points[prev].lanes,
                points[cur_right].lanes,
                Vec4fp::splat(steps),
            );
        }
        if !done {
            proof {
                lemma_chain_mono(pts, false, 0, kl);
                lemma_chain_mono(pts, false, kl, ldec);
                lemma_chain_mono(pts, true, 0, kr);
                lemma_chain_mono(pts, true, kr, linc);
                assert(chain_at(pts, false, ldec) == poly_last(pts));
                assert(chain_at(pts, true, linc) == poly_last(pts));
                assert(chain_at(pts, false, 0) == poly_first(pts));
                assert(chain_at(pts, true, 0) == poly_first(pts));
            }
        right_side = next_left > next_right;
        let limit = if !right_side {
            next_left
        } else {
            next_right
        };
        let aux_val = *counter;
        *counter = *counter + 1;
        while cury < limit
            invariant
                cury <= limit,
                spans@.len() == cury - yf,
                kl >= 1 ==> pts[chain_at(pts, false, kl - 1)].y <= cury && is_slope4_state_splat(
                    slope_left,
                    pts[chain_at(pts, false, kl - 1)].lanes,
                    pts[chain_at(pts, false, kl)].lanes,
                    edge_steps(pts[chain_at(pts, false, kl - 1)], pts[chain_at(pts, false, kl)]),
                    cury - pts[chain_at(pts, false, kl - 1)].y,
                ),
                kr >= 1 ==> pts[chain_at(pts, true, kr - 1)].y <= cury && is_slope4_state_splat(
                    slope_right,
                    pts[chain_at(pts, true, kr - 1)].lanes,
                    pts[chain_at(pts, true, kr)].lanes,
                    edge_steps(pts[chain_at(pts, true, kr - 1)], pts[chain_at(pts, true, kr)]),
                    cury - pts[chain_at(pts, true, kr - 1)].y,
                ),
                forall|q: int| 0 <= q < spans@.len() ==> (#[trigger] spans@[q]).y == yf + q,
                forall|q: int|
                    0 <= q < spans@.len() ==> (#[trigger] spans@[q]).left == side_val_at(
                        pts,
                        false,
                        yf + q,
                    ),
                forall|q: int|
                    0 <= q < spans@.len() ==> (#[trigger] spans@[q]).right == side_val_at(
                        pts,
                        true,
                        yf + q,
                    ),
                forall|q: int|
                    0 <= q < spans@.len() ==> (#[trigger] spans@[q]).aux == counter0 + active_edge(
                        pts,
                        false,
                        yf + q,
                    ) + active_edge(pts, true, yf + q) + 1,
                forall|q: int|
                    0 <= q < spans@.len() ==> counter0 <= (#[trigger] spans@[q]).aux < *counter,
                forall|q: int, r: int|
                    0 <= q <= r < spans@.len() ==> (#[trigger] spans@[q]).aux <= (
                    #[trigger] spans@[r]).aux,
                aux_val == counter0 + kl + kr - 1,
            decreases limit - cury,
        {
            let ghost la = pts[chain_at(pts, false, kl - 1)];
            let ghost lb = pts[chain_at(pts, false, kl)];
            let ghost ra = pts[chain_at(pts, true, kr - 1)];
            let ghost rb = pts[chain_at(pts, true, kr)];
            proof {
                assert(kl >= 1 && kr >= 1);
                lemma_active_from_is(pts, false, cury as int, 0, kl - 1);
                lemma_active_from_is(pts, true, cury as int, 0, kr - 1);
                lemma_edge_interp_step(la, lb, cury - la.y);
                lemma_edge_interp_step(ra, rb, cury - ra.y);
            }
            spans.push(
                SpanT { y: cury, left: slope_left.get(), right: slope_right.get(), aux: aux_val },
            );
            slope_left.advance();
            slope_right.advance();
            cury = cury + 1;
        }
        }
    }
    proof {
        assert(spans@.len() == poly_span_count(pts));
    }
    spans
}


/// On exactly three vertices, listed so that the ring walk's decreasing
/// direction follows the long edge, the polygon rasterizer emits exactly
/// the triangle rasterizer's spans: the same count, the same scanlines,
/// and the same left and right boundary values in the x lane. This is the
/// case of a middle vertex strictly to the right of the long edge.
pub proof fn lemma_polygon_matches_triangle_right(p0: Pt, p1: Pt, p2: Pt, pts: Seq<PolyVert>, i: int)
    requires
        crate::rasterize::lex_le(p0, p1),
        crate::rasterize::lex_le(p1, p2),
        crate::rasterize::tri_shortside_right(p0, p1, p2),
        pts.len() == 3,
        pts[0].x == p0.x && pts[0].y == p0.y && pts[0].lanes.x == crate::rasterize::fpx(p0.x as int),
        pts[1].x == p1.x && pts[1].y == p1.y && pts[1].lanes.x == crate::rasterize::fpx(p1.x as int),
        pts[2].x == p2.x && pts[2].y == p2.y && pts[2].lanes.x == crate::rasterize::fpx(p2.x as int),
        0 <= i < p2.y - p0.y,
    ensures
        poly_span_count(pts) == crate::rasterize::tri_span_count(p0, p1, p2),
        poly_monotone(pts),
        side_val_at(pts, false, p0.y + i).x == crate::rasterize::tri_span_at(p0, p1, p2, i).left,
        side_val_at(pts, true, p0.y + i).x == crate::rasterize::tri_span_at(p0, p1, p2, i).right,
{
    lemma_tri_strict(p0, p1, p2);
    assert(crate::rasterize::sort3(p0, p1, p2) == (p0, p1, p2));
    assert(first_upto(pts, 1) == 0);
    assert(first_upto(pts, 2) == 0);
    assert(first_upto(pts, 3) == 0);
    assert(last_upto(pts, 1) == 0);
    assert(last_upto(pts, 2) == 1);
    assert(last_upto(pts, 3) == 2);
    assert(poly_first(pts) == 0);
    assert(poly_last(pts) == 2);
    assert(chain_len(pts, false) == 1);
    assert(chain_len(pts, true) == 2);
    assert(chain_at(pts, false, 0) == 0 && chain_at(pts, false, 1) == 2);
    assert(chain_at(pts, true, 0) == 0 && chain_at(pts, true, 1) == 1 && chain_at(pts, true, 2)
        == 2);
    assert(poly_monotone(pts)) by {
        assert(pts[chain_at(pts, false, 0)].y <= pts[chain_at(pts, false, 0int + 1)].y);
        assert(pts[chain_at(pts, true, 0)].y <= pts[chain_at(pts, true, 0int + 1)].y);
        assert(pts[chain_at(pts, true, 1)].y <= pts[chain_at(pts, true, 1int + 1)].y);
    }
    let y = p0.y + i;
    lemma_active_from_is(pts, false, y, 0, 0);
    assert(side_val_at(pts, false, y).x == crate::rasterize::tri_long_at(p0, p2, i) as i64);
    if y < p1.y {
        lemma_active_from_is(pts, true, y, 0, 0);
        assert(side_val_at(pts, true, y).x == crate::rasterize::tri_short_at(p0, p1, p2, i)
            as i64);
    } else {
        lemma_active_from_is(pts, true, y, 0, 1);
        assert(side_val_at(pts, true, y).x == crate::rasterize::tri_short_at(p0, p1, p2, i)
            as i64);
    }
}

/// The mirrored case: on three vertices listed so that the decreasing
/// direction follows the two short edges, with the middle vertex strictly
/// to the left of the long edge, the polygon rasterizer again emits the
/// triangle rasterizer's spans.
pub proof fn lemma_polygon_matches_triangle_left(p0: Pt, p1: Pt, p2: Pt, pts: Seq<PolyVert>, i: int)
    requires
        crate::rasterize::lex_le(p0, p1),
        crate::rasterize::lex_le(p1, p2),
        (p1.y - p0.y) * (p2.x - p0.x) > (p1.x - p0.x) * (p2.y - p0.y),
        pts.len() == 3,
        pts[0].x == p0.x && pts[0].y == p0.y && pts[0].lanes.x == crate::rasterize::fpx(p0.x as int),
        pts[1].x == p2.x && pts[1].y == p2.y && pts[1].lanes.x == crate::rasterize::fpx(p2.x as int),
        pts[2].x == p1.x && pts[2].y == p1.y && pts[2].lanes.x == crate::rasterize::fpx(p1.x as int),
        0 <= i < p2.y - p0.y,
    ensures
        poly_span_count(pts) == crate::rasterize::tri_span_count(p0, p1, p2),
        poly_monotone(pts),
        side_val_at(pts, false, p0.y + i).x == crate::rasterize::tri_span_at(p0, p1, p2, i).left,
        side_val_at(pts, true, p0.y + i).x == crate::rasterize::tri_span_at(p0, p1, p2, i).right,
{
    lemma_tri_strict_left(p0, p1, p2);
    assert(crate::rasterize::sort3(p0, p1, p2) == (p0, p1, p2));
    assert(!crate::rasterize::tri_shortside_right(p0, p1, p2));
    assert(first_upto(pts, 1) == 0);
    assert(first_upto(pts, 2) == 0);
    assert(first_upto(pts, 3) == 0);
    assert(last_upto(pts, 1) == 0);
    assert(last_upto(pts, 2) == 1);
    assert(last_upto(pts, 3) == 1);
    assert(poly_first(pts) == 0);
    assert(poly_last(pts) == 1);
    assert(chain_len(pts, false) == 2);
    assert(chain_len(pts, true) == 1);
    assert(chain_at(pts, false, 0) == 0 && chain_at(pts, false, 1) == 2 && chain_at(
        pts,
        false,
        2,
    ) == 1);
    assert(chain_at(pts, true, 0) == 0 && chain_at(pts, true, 1) == 1);
    assert(poly_monotone(pts)) by {
        assert(pts[chain_at(pts, false, 0)].y <= pts[chain_at(pts, false, 0int + 1)].y);
        assert(pts[chain_at(pts, false, 1)].y <= pts[chain_at(pts, false, 1int + 1)].y);
        assert(pts[chain_at(pts, true, 0)].y <= pts[chain_at(pts, true, 0int + 1)].y);
    }
    let y = p0.y + i;
    lemma_active_from_is(pts, true, y, 0, 0);
    assert(side_val_at(pts, true, y).x == crate::rasterize::tri_long_at(p0, p2, i) as i64);
    if y < p1.y {
        lemma_active_from_is(pts, false, y, 0, 0);
        assert(side_val_at(pts, false, y).x == crate::rasterize::tri_short_at(p0, p1, p2, i)
            as i64);
    } else {
        lemma_active_from_is(pts, false, y, 0, 1);
        assert(side_val_at(pts, false, y).x == crate::rasterize::tri_short_at(p0, p1, p2, i)
            as i64);
    }
}

/// A middle vertex strictly right of the long edge forces the sorted
/// vertices to be strictly ordered.
proof fn lemma_tri_strict(p0: Pt, p1: Pt, p2: Pt)
    requires
        crate::rasterize::lex_le(p0, p1),
        crate::rasterize::lex_le(p1, p2),
        crate::rasterize::tri_shortside_right(p0, p1, p2),
    ensures
        crate::rasterize::lex_lt(p0, p1),
        crate::rasterize::lex_lt(p1, p2),
        crate::rasterize::lex_lt(p0, p2),
{
    if p0 == p1 || p1 == p2 {
        assert((p1.y - p0.y) * (p2.x - p0.x) == (p1.x - p0.x) * (p2.y - p0.y)) by (nonlinear_arith)
            requires
                p0 == p1 || p1 == p2,
        ;
    }
    if !(p0.y < p1.y || (p0.y == p1.y && p0.x < p1.x)) {
        assert(p0 == p1);
    }
    if !(p1.y < p2.y || (p1.y == p2.y && p1.x < p2.x)) {
        assert(p1 == p2);
    }
}

/// A middle vertex strictly left of the long edge forces the sorted
/// vertices to be strictly ordered.
proof fn lemma_tri_strict_left(p0: Pt, p1: Pt, p2: Pt)
    requires
        crate::rasterize::lex_le(p0, p1),
        crate::rasterize::lex_le(p1, p2),
        (p1.y - p0.y) * (p2.x - p0.x) > (p1.x - p0.x) * (p2.y - p0.y),
    ensures
        crate::rasterize::lex_lt(p0, p1),
        crate::rasterize::lex_lt(p1, p2),
        crate::rasterize::lex_lt(p0, p2),
{
    if p0 == p1 || p1 == p2 {
        assert((p1.y - p0.y) * (p2.x - p0.x) == (p1.x - p0.x) * (p2.y - p0.y)) by (nonlinear_arith)
            requires
                p0 == p1 || p1 == p2,
        ;
    }
    if !(p0.y < p1.y || (p0.y == p1.y && p0.x < p1.x)) {
        assert(p0 == p1);
    }
    if !(p1.y < p2.y || (p1.y == p2.y && p1.x < p2.x)) {
        assert(p1 == p2);
    }
}

} // verus!
