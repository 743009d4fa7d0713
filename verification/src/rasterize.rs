//! Edge-walking triangle rasterizer.
//!
//! The three vertices are sorted into a canonical top-to-bottom,
//! left-to-right order on `(y, x)`; a "long" boundary interpolator spans the
//! whole height from the topmost to the bottommost vertex, and a "short" one
//! spans each of the two halves split at the middle vertex. One span is
//! emitted per integer scanline in `[y0, y2)`, carrying the current values of
//! the left and right boundary interpolators in 16.16 fixed point and the
//! index of the half it belongs to.

use vstd::prelude::*;

use crate::fixed::FP_ONE;
use crate::fixed::div_t;
use crate::fixed::tdiv;
use crate::slope::SlopeData;
use crate::slope::is_slope_state;
use crate::slope::lemma_slope_val_advance;
use crate::slope::lemma_slope_val_in_range;
use crate::slope::slope_step;
use crate::slope::slope_val;

verus! {

/// Largest screen-coordinate magnitude the rasterizers accept; keeps every
/// intermediate fixed-point product comfortably inside `i64`.
pub const COORD_LIMIT: i64 = 1048576;

/// A point with screen-space coordinates, in integer units.
#[derive(Clone, Copy, PartialEq, Eq, Structural, Debug)]
pub struct Pt {
    pub x: i64,
    pub y: i64,
}

/// Access to a point's screen-space coordinates.
pub trait Point2d: Sized {
    /// The x coordinate, as a mathematical integer.
    spec fn sx(&self) -> int;

    /// The y coordinate, as a mathematical integer.
    spec fn sy(&self) -> int;

    /// Both coordinates at once.
    fn get_xy(&self) -> (r: (i64, i64))
        ensures
            r.0 == self.sx(),
            r.1 == self.sy(),
    ;

    /// The x coordinate.
    fn get_x(&self) -> (r: i64)
        ensures
            r == self.sx(),
    ;

    /// The y coordinate.
    fn get_y(&self) -> (r: i64)
        ensures
            r == self.sy(),
    ;
}

impl Point2d for Pt {
    open spec fn sx(&self) -> int {
        self.x as int
    }

    open spec fn sy(&self) -> int {
        self.y as int
    }

    fn get_xy(&self) -> (r: (i64, i64)) {
        (self.x, self.y)
    }

    fn get_x(&self) -> (r: i64) {
        self.x
    }

    fn get_y(&self) -> (r: i64) {
        self.y
    }
}

/// One emitted scanline: the integer `y`, the current left and right boundary
/// values in 16.16 fixed point, and the half (0 above the middle vertex, 1
/// below) it was emitted from.
#[derive(Clone, Copy, PartialEq, Eq, Structural, Debug)]
pub struct Span {
    pub y: i64,
    pub left: i64,
    pub right: i64,
    pub half: u32,
}

/// The coordinates of `p` are within the accepted screen range.
pub open spec fn coord_ok(p: Pt) -> bool {
    &&& -COORD_LIMIT <= p.x <= COORD_LIMIT
    &&& -COORD_LIMIT <= p.y <= COORD_LIMIT
}

/// An integer screen coordinate as a 16.16 fixed-point value.
pub open spec fn fpx(x: int) -> int {
    x * (FP_ONE as int)
}

/// Strict lexicographic order on `(y, x)`: the sort key of the canonical
/// vertex order.
pub open spec fn lex_lt(a: Pt, b: Pt) -> bool {
    a.y < b.y || (a.y == b.y && a.x < b.x)
}

/// Non-strict lexicographic order on `(y, x)`.
pub open spec fn lex_le(a: Pt, b: Pt) -> bool {
    a.y < b.y || (a.y == b.y && a.x <= b.x)
}

/// The three vertices in canonical order: the exchange network the rasterizer
/// applies, written out as a specification.
pub open spec fn sort3(p0: Pt, p1: Pt, p2: Pt) -> (Pt, Pt, Pt) {
    let (a0, a1) = if lex_lt(p1, p0) { (p1, p0) } else { (p0, p1) };
    let (b0, b2) = if lex_lt(p2, a0) { (p2, a0) } else { (a0, p2) };
    let (c1, c2) = if lex_lt(b2, a1) { (b2, a1) } else { (a1, b2) };
    (b0, c1, c2)
}

/// The middle vertex lies strictly to the right of the long edge from the
/// topmost to the bottommost vertex, by the sign of the 2D cross product.
pub open spec fn tri_shortside_right(s0: Pt, s1: Pt, s2: Pt) -> bool {
    (s1.y - s0.y) * (s2.x - s0.x) < (s1.x - s0.x) * (s2.y - s0.y)
}

/// Value of the long-edge interpolator (spanning `s0` to `s2`) at the `i`th
/// emitted scanline.
pub open spec fn tri_long_at(s0: Pt, s2: Pt, i: int) -> int {
    slope_val(fpx(s0.x as int), fpx(s2.x as int), s2.y - s0.y, i)
}

/// Value of the short-edge interpolator at the `i`th emitted scanline: the
/// edge `s0` to `s1` in the upper half, rebuilt as `s1` to `s2` in the lower.
pub open spec fn tri_short_at(s0: Pt, s1: Pt, s2: Pt, i: int) -> int {
    if i < s1.y - s0.y {
        slope_val(fpx(s0.x as int), fpx(s1.x as int), s1.y - s0.y, i)
    } else {
        slope_val(fpx(s1.x as int), fpx(s2.x as int), s2.y - s1.y, i - (s1.y - s0.y))
    }
}

/// The left boundary value at the `i`th scanline of the sorted triangle.
pub open spec fn tri_left_at(s0: Pt, s1: Pt, s2: Pt, i: int) -> int {
    if tri_shortside_right(s0, s1, s2) {
        tri_long_at(s0, s2, i)
    } else {
        tri_short_at(s0, s1, s2, i)
    }
}

/// The right boundary value at the `i`th scanline of the sorted triangle.
pub open spec fn tri_right_at(s0: Pt, s1: Pt, s2: Pt, i: int) -> int {
    if tri_shortside_right(s0, s1, s2) {
        tri_short_at(s0, s1, s2, i)
    } else {
        tri_long_at(s0, s2, i)
    }
}

/// How many scanlines the triangle `p0 p1 p2` emits: its whole integer height,
/// or none at all when it has zero vertical extent.
pub open spec fn tri_span_count(p0: Pt, p1: Pt, p2: Pt) -> int {
    let (s0, s1, s2) = sort3(p0, p1, p2);
    if s0.y == s2.y {
        0
    } else {
        s2.y - s0.y
    }
}

/// The `i`th span emitted by a triangle whose vertices are already in
/// canonical sorted order.
pub open spec fn tri_span_sorted(s0: Pt, s1: Pt, s2: Pt, i: int) -> Span {
    Span {
        y: (s0.y + i) as i64,
        left: tri_left_at(s0, s1, s2, i) as i64,
        right: tri_right_at(s0, s1, s2, i) as i64,
        half: if i < s1.y - s0.y { 0u32 } else { 1u32 },
    }
}

/// The `i`th span the triangle `p0 p1 p2` emits.
pub open spec fn tri_span_at(p0: Pt, p1: Pt, p2: Pt, i: int) -> Span {
    let (s0, s1, s2) = sort3(p0, p1, p2);
    tri_span_sorted(s0, s1, s2, i)
}

/// The emitted boundary values of a span stay within the fixed-point image
/// of the accepted coordinate range, and its scanline within the range
/// itself.
pub open spec fn span_in_range(sp: Span) -> bool {
    &&& -COORD_LIMIT * FP_ONE <= sp.left <= COORD_LIMIT * FP_ONE
    &&& -COORD_LIMIT * FP_ONE <= sp.right <= COORD_LIMIT * FP_ONE
    &&& -COORD_LIMIT <= sp.y <= COORD_LIMIT
}

/// A linear integer function that is nonnegative at both ends of an interval
/// is nonnegative throughout it.
proof fn lemma_linear_nonneg(a: int, d: int, n: int, j: int)
    requires
        n > 0,
        0 <= j <= n,
        a >= 0,
        a + n * d >= 0,
    ensures
        a + j * d >= 0,
{
    assert(a + j * d >= 0) by (nonlinear_arith)
        requires
            n > 0,
            0 <= j <= n,
            a >= 0,
            a + n * d >= 0,
    ;
}

/// When the step count divides the span evenly, the per-step increment is the
/// exact quotient and the interpolation is exact: `num_steps` steps land
/// exactly on `end`.
pub proof fn lemma_exact_step(begin: int, end: int, num_steps: int)
    requires
        num_steps >= 1,
        (end - begin) % num_steps == 0,
    ensures
        num_steps * slope_step(begin, end, num_steps) == end - begin,
        slope_step(begin, end, num_steps) == (end - begin) / num_steps,
{
    let d = end - begin;
    vstd::arithmetic::div_mod::lemma_fundamental_div_mod(d, num_steps);
    if d < 0 {
        assert(d == num_steps * (d / num_steps));
        vstd::arithmetic::mul::lemma_mul_unary_negation(num_steps, d / num_steps);
        assert(-d == num_steps * (-(d / num_steps)));
        vstd::arithmetic::div_mod::lemma_div_by_multiple(-(d / num_steps), num_steps);
        assert((-d) / num_steps == -(d / num_steps));
    }
}

/// At every scanline a triangle emits, the left boundary value does not
/// exceed the right one, provided each edge's height divides its fixed-point
/// horizontal extent evenly (so that the interpolators walk their edges
/// exactly). The vertices must be in canonical sorted order with positive
/// height, as the rasterizer arranges them.
pub proof fn lemma_triangle_left_le_right(s0: Pt, s1: Pt, s2: Pt, i: int)
    requires
        lex_le(s0, s1),
        lex_le(s1, s2),
        s0.y < s2.y,
        0 <= i < s2.y - s0.y,
        (fpx(s2.x as int) - fpx(s0.x as int)) % (s2.y - s0.y) == 0,
        s0.y < s1.y ==> (fpx(s1.x as int) - fpx(s0.x as int)) % (s1.y - s0.y) == 0,
        s1.y < s2.y ==> (fpx(s2.x as int) - fpx(s1.x as int)) % (s2.y - s1.y) == 0,
    ensures
        tri_left_at(s0, s1, s2, i) <= tri_right_at(s0, s1, s2, i),
{
    let ht = (s2.y - s0.y) as int;
    let hu = (s1.y - s0.y) as int;
    let hl = (s2.y - s1.y) as int;
    let b0 = fpx(s0.x as int);
    let b1 = fpx(s1.x as int);
    let b2 = fpx(s2.x as int);
    let sl = slope_step(b0, b2, ht);
    lemma_exact_step(b0, b2, ht);
    let cross = (s1.y - s0.y) * (s2.x - s0.x) - (s1.x - s0.x) * (s2.y - s0.y);
    let f = FP_ONE as int;
    assert(cross * f == hu * (b2 - b0) - (b1 - b0) * ht) by (nonlinear_arith)
        requires
            f == FP_ONE as int,
            cross == (s1.y - s0.y) * (s2.x - s0.x) - (s1.x - s0.x) * (s2.y - s0.y),
            hu == s1.y - s0.y,
            ht == s2.y - s0.y,
            b0 == (s0.x as int) * f,
            b1 == (s1.x as int) * f,
            b2 == (s2.x as int) * f,
    ;
    if i < hu {
        // Upper half: both boundary interpolators start at `s0`, so their
        // order at scanline `i` follows the order of their exact slopes,
        // which the cross product decides.
        let su = slope_step(b0, b1, hu);
        lemma_exact_step(b0, b1, hu);
        assert(cross < 0 ==> sl < su) by (nonlinear_arith)
            requires
                hu >= 1,
                ht >= 1,
                f > 0,
                cross * f == hu * (b2 - b0) - (b1 - b0) * ht,
                ht * sl == b2 - b0,
                hu * su == b1 - b0,
        ;
        assert(cross >= 0 ==> su <= sl) by (nonlinear_arith)
            requires
                hu >= 1,
                ht >= 1,
                f > 0,
                cross * f == hu * (b2 - b0) - (b1 - b0) * ht,
                ht * sl == b2 - b0,
                hu * su == b1 - b0,
        ;
        if tri_shortside_right(s0, s1, s2) {
            vstd::arithmetic::mul::lemma_mul_inequality(sl, su, i);
            vstd::arithmetic::mul::lemma_mul_is_commutative(sl, i);
            vstd::arithmetic::mul::lemma_mul_is_commutative(su, i);
        } else {
            vstd::arithmetic::mul::lemma_mul_inequality(su, sl, i);
            vstd::arithmetic::mul::lemma_mul_is_commutative(sl, i);
            vstd::arithmetic::mul::lemma_mul_is_commutative(su, i);
        }
    } else {
        // Lower half: the short side restarts at `s1` while the long side
        // continues. The two boundaries are ordered at both ends of the half
        // (at `s1.y` by the cross product, at `s2.y` they meet), and linear
        // functions ordered at both ends stay ordered in between.
        let j = i - hu;
        let sd = slope_step(b1, b2, hl);
        lemma_exact_step(b1, b2, hl);
        let end0 = b1 - b0 - hu * sl;
        assert(cross * f == -(ht * end0)) by (nonlinear_arith)
            requires
                cross * f == hu * (b2 - b0) - (b1 - b0) * ht,
                ht * sl == b2 - b0,
                end0 == b1 - b0 - hu * sl,
        ;
        assert(cross < 0 ==> end0 > 0) by (nonlinear_arith)
            requires
                ht >= 1,
                cross * f == -(ht * end0),
                f > 0,
        ;
        assert(cross >= 0 ==> end0 <= 0) by (nonlinear_arith)
            requires
                ht >= 1,
                cross * f == -(ht * end0),
                f > 0,
        ;
        let dstep = sd - sl;
        // The gap between the short and long boundary at offset `j` into the
        // lower half.
        assert(end0 + hl * dstep == 0) by (nonlinear_arith)
            requires
                end0 == b1 - b0 - hu * sl,
                dstep == sd - sl,
                hl * sd == b2 - b1,
                ht * sl == b2 - b0,
                ht == hu + hl,
        ;
        let gap = (b1 + j * sd) - (b0 + (hu + j) * sl);
        assert(gap == end0 + j * dstep) by (nonlinear_arith)
            requires
                gap == (b1 + j * sd) - (b0 + (hu + j) * sl),
                end0 == b1 - b0 - hu * sl,
                dstep == sd - sl,
        ;
        if tri_shortside_right(s0, s1, s2) {
            lemma_linear_nonneg(end0, dstep, hl, j);
        } else {
            assert(hl * (-dstep) == -(hl * dstep)) by (nonlinear_arith);
            lemma_linear_nonneg(-end0, -dstep, hl, j);
            assert(j * (-dstep) == -(j * dstep)) by (nonlinear_arith);
        }
    }
}

/// Rasterize the triangle `p0 p1 p2` by edge walking: emit one span per
/// integer scanline from the topmost vertex (inclusive) to the bottommost
/// (exclusive), each carrying the two boundary interpolator values. A
/// triangle of zero vertical extent emits nothing.
#[verifier::rlimit(100)]
pub fn rasterize_triangle(p0: Pt, p1: Pt, p2: Pt) -> (spans: Vec<Span>)
    requires
        coord_ok(p0),
        coord_ok(p1),
        coord_ok(p2),
    ensures
        spans@.len() == tri_span_count(p0, p1, p2),
        forall|i: int| 0 <= i < spans@.len() ==> spans@[i] == tri_span_at(p0, p1, p2, i),
        forall|i: int| 0 <= i < spans@.len() ==> span_in_range(#[trigger] spans@[i]),
{
    let mut q0 = p0;
    let mut q1 = p1;
    let mut q2 = p2;

    if q1.y < q0.y || (q1.y == q0.y && q1.x < q0.x) {
        let t = q0;
        q0 = q1;
        q1 = t;
    }
    if q2.y < q0.y || (q2.y == q0.y && q2.x < q0.x) {
        let t = q0;
        q0 = q2;
        q2 = t;
    }
    if q2.y < q1.y || (q2.y == q1.y && q2.x < q1.x) {
        let t = q1;
        q1 = q2;
        q2 = t;
    }
    proof {
        assert((q0, q1, q2) == sort3(p0, p1, p2));
    }

    let mut spans: Vec<Span> = Vec::new();
    if q0.y == q2.y {
        return spans;
    }

    let dy1 = q1.y - q0.y;
    let dx2 = q2.x - q0.x;
    let dx1 = q1.x - q0.x;
    let dy2 = q2.y - q0.y;
    proof {
        assert(-4398046511104 <= dy1 * dx2 <= 4398046511104 && -4398046511104 <= dx1 * dy2
            <= 4398046511104) by (nonlinear_arith)
            requires
                -2097152 <= dy1 <= 2097152,
                -2097152 <= dx2 <= 2097152,
                -2097152 <= dx1 <= 2097152,
                -2097152 <= dy2 <= 2097152,
        ;
    }
    let shortside_right = dy1 * dx2 < dx1 * dy2;
    proof {
        assert(shortside_right == tri_shortside_right(q0, q1, q2));
    }

    let x0 = q0.x * FP_ONE;
    let x1 = q1.x * FP_ONE;
    let x2 = q2.x * FP_ONE;
    let h_total = q2.y - q0.y;
    let h_upper = q1.y - q0.y;
    let h_lower = q2.y - q1.y;

    let mut long_side = SlopeData::new(x0, x2, h_total);

    if q0.y < q1.y {
        let mut short_side = SlopeData::new(x0, x1, h_upper);
        let mut y = q0.y;
        while y < q1.y
            invariant
                coord_ok(q0),
                coord_ok(q1),
                coord_ok(q2),
                lex_le(q0, q1),
                lex_le(q1, q2),
                q0.y < q1.y,
                x0 == fpx(q0.x as int),
                x1 == fpx(q1.x as int),
                x2 == fpx(q2.x as int),
                h_total == q2.y - q0.y,
                h_upper == q1.y - q0.y,
                shortside_right == tri_shortside_right(q0, q1, q2),
                q0.y <= y <= q1.y,
                spans@.len() == y - q0.y,
                is_slope_state(short_side, x0 as int, x1 as int, h_upper as int, y - q0.y),
                is_slope_state(long_side, x0 as int, x2 as int, h_total as int, y - q0.y),
                forall|i: int| 0 <= i < spans@.len() ==> spans@[i] == tri_span_sorted(
                    q0,
                    q1,
                    q2,
                    i,
                ),
                forall|i: int| 0 <= i < spans@.len() ==> span_in_range(#[trigger] spans@[i]),
            decreases q1.y - y,
        {
            let ghost i = y - q0.y;
            proof {
                lemma_slope_val_in_range(x0 as int, x1 as int, h_upper as int, i);
                lemma_slope_val_in_range(x0 as int, x2 as int, h_total as int, i);
                lemma_slope_val_advance(x0 as int, x1 as int, h_upper as int, i);
                lemma_slope_val_advance(x0 as int, x2 as int, h_total as int, i);
                lemma_slope_val_in_range(x0 as int, x1 as int, h_upper as int, i + 1);
                lemma_slope_val_in_range(x0 as int, x2 as int, h_total as int, i + 1);
            }
            if shortside_right {
                spans.push(Span { y, left: long_side.get(), right: short_side.get(), half: 0 });
            } else {
                spans.push(Span { y, left: short_side.get(), right: long_side.get(), half: 0 });
            }
            short_side.advance();
            long_side.advance();
            y = y + 1;
        }
    }
    if q1.y < q2.y {
        let mut short_side = SlopeData::new(x1, x2, h_lower);
        let mut y = q1.y;
        while y < q2.y
            invariant
                coord_ok(q0),
                coord_ok(q1),
                coord_ok(q2),
                lex_le(q0, q1),
                lex_le(q1, q2),
                q1.y < q2.y,
                x0 == fpx(q0.x as int),
                x1 == fpx(q1.x as int),
                x2 == fpx(q2.x as int),
                h_total == q2.y - q0.y,
                h_upper == q1.y - q0.y,
                h_lower == q2.y - q1.y,
                shortside_right == tri_shortside_right(q0, q1, q2),
                q1.y <= y <= q2.y,
                spans@.len() == y - q0.y,
                is_slope_state(short_side, x1 as int, x2 as int, h_lower as int, y - q1.y),
                is_slope_state(long_side, x0 as int, x2 as int, h_total as int, y - q0.y),
                forall|i: int| 0 <= i < spans@.len() ==> spans@[i] == tri_span_sorted(
                    q0,
                    q1,
                    q2,
                    i,
                ),
                forall|i: int| 0 <= i < spans@.len() ==> span_in_range(#[trigger] spans@[i]),
            decreases q2.y - y,
        {
            let ghost i = y - q0.y;
            let ghost j = y - q1.y;
            proof {
                lemma_slope_val_in_range(x1 as int, x2 as int, h_lower as int, j);
                lemma_slope_val_in_range(x0 as int, x2 as int, h_total as int, i);
                lemma_slope_val_advance(x1 as int, x2 as int, h_lower as int, j);
                lemma_slope_val_advance(x0 as int, x2 as int, h_total as int, i);
                lemma_slope_val_in_range(x1 as int, x2 as int, h_lower as int, j + 1);
                lemma_slope_val_in_range(x0 as int, x2 as int, h_total as int, i + 1);
            }
            if shortside_right {
                spans.push(Span { y, left: long_side.get(), right: short_side.get(), half: 1 });
            } else {
                spans.push(Span { y, left: short_side.get(), right: long_side.get(), half: 1 });
            }
            short_side.advance();
            long_side.advance();
            y = y + 1;
        }
    }
    proof {
        assert(forall|i: int| 0 <= i < spans@.len() ==> spans@[i] == tri_span_at(p0, p1, p2, i));
    }
    spans
}

/// A single filled pixel position.
#[derive(Clone, Copy, PartialEq, Eq, Structural, Debug)]
pub struct Pixel {
    pub x: i64,
    pub y: i64,
}

/// The pixels a span covers: one per integer x from the truncated left
/// boundary (inclusive) to the truncated right boundary (exclusive).
pub open spec fn span_row(sp: Span) -> Seq<Pixel> {
    let lo = div_t(sp.left as int, FP_ONE as int);
    let hi = div_t(sp.right as int, FP_ONE as int);
    if lo <= hi {
        Seq::new((hi - lo) as nat, |j: int| Pixel { x: (lo + j) as i64, y: sp.y })
    } else {
        Seq::empty()
    }
}

/// Every pixel the triangle `p0 p1 p2` covers, in left-to-right,
/// top-to-bottom scanline order: the concatenation of the rows of its spans.
pub open spec fn tri_pixels(p0: Pt, p1: Pt, p2: Pt) -> Seq<Pixel> {
    Seq::new(tri_span_count(p0, p1, p2) as nat, |i: int| tri_span_at(p0, p1, p2, i)).map_values(
        |sp: Span| span_row(sp),
    ).flatten()
}

/// Fill the triangle `p0 p1 p2`: rasterize it and expand every emitted span
/// into the pixels it covers, in left-to-right, top-to-bottom order.
#[verifier::loop_isolation(false)]
pub fn draw_polygon(p0: Pt, p1: Pt, p2: Pt) -> (pixels: Vec<Pixel>)
    requires
        coord_ok(p0),
        coord_ok(p1),
        coord_ok(p2),
    ensures
        pixels@ == tri_pixels(p0, p1, p2),
{
    let spans = rasterize_triangle(p0, p1, p2);
    let ghost all = spans@.map_values(|sp: Span| span_row(sp));
    let mut pixels: Vec<Pixel> = Vec::new();
    let mut k: usize = 0;
    while k < spans.len()
        invariant
            0 <= k <= spans@.len(),
            pixels@ == all.take(k as int).flatten(),
        decreases spans@.len() - k,
    {
        let sp = spans[k];
        let ghost row = span_row(sp);
        let xs = tdiv(sp.left, FP_ONE);
        let xe = tdiv(sp.right, FP_ONE);
        let mut x = xs;
        while x < xe
            invariant
                xs <= x,
                x <= xe || x == xs,
                pixels@ == all.take(k as int).flatten() + row.take(x - xs),
            decreases xe - x,
        {
            proof {
                assert(row.take(x - xs + 1) =~= row.take(x - xs).push(row[x - xs]));
            }
            pixels.push(Pixel { x, y: sp.y });
            x = x + 1;
        }
        proof {
            if xs < xe {
                assert(row.take(xe - xs) =~= row);
            } else {
                assert(row.take(0) =~= row);
            }
            assert(pixels@ == all.take(k as int).flatten() + row);
            assert(all.take(k as int + 1) =~= all.take(k as int).push(row));
            all.take(k as int).lemma_flatten_push(row);
        }
        k = k + 1;
    }
    proof {
        assert(all.take(spans@.len() as int) =~= all);
        assert(spans@ =~= Seq::new(tri_span_count(p0, p1, p2) as nat, |i: int| tri_span_at(p0, p1, p2, i)));
    }
    pixels
}

} // verus!
