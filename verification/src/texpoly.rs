//! Perspective-correct textured-polygon drawing, scalar interpolators.
//!
//! Each vertex carries screen-space `(x, y)`, camera-space depth `z` and raw
//! texture coordinates `(u, v)` in 16.16 fixed point. For every edge the
//! linearly interpolated quantities are `x`, `1/z`, `u/z` and `v/z`; a
//! second, per-scanline set of interpolators steps the same quantities
//! across the pixel span, and at every pixel the true depth and texture
//! coordinates are recovered as `z = 1/(1/z)`, `u = (u/z)*z`, `v = (v/z)*z`
//! (perspective-correct rather than screen-linear).

use vstd::prelude::*;

use crate::fixed::FP_ONE;
use crate::fixed::FP_SQ;
use crate::fixed::div_t;
use crate::fixed::fdiv;
use crate::fixed::tdiv;
use crate::polygon::PolyVert;
use crate::polygon::SpanT;
use crate::polygon::active_edge;
use crate::polygon::lemma_first_last_range;
use crate::polygon::lemma_side_val_between;
use crate::polygon::poly_first;
use crate::polygon::poly_monotone;
use crate::polygon::poly_span_count;
use crate::polygon::pv_ok;
use crate::polygon::rasterize_polygon;
use crate::polygon::side_val_at;
use crate::rasterize::COORD_LIMIT;
use crate::slope::SlopeData;
use crate::slope::Vec4fp;
use crate::slope::is_slope_state;
use crate::slope::lemma_slope_val_advance;
use crate::slope::lemma_slope_val_in_range;
use crate::slope::slope_val;

verus! {

/// Largest texture-coordinate magnitude accepted, in 16.16 fixed point.
pub const UV_LIMIT: i64 = 268435456;

/// A textured-polygon vertex: screen-space position, camera-space depth and
/// raw texture coordinates, the last three in 16.16 fixed point.
#[derive(Clone, Copy, PartialEq, Eq, Structural, Debug)]
pub struct TexVert {
    pub x: i64,
    pub y: i64,
    pub z: i64,
    pub u: i64,
    pub v: i64,
}

/// One drawn pixel: position, perspective-correct depth and texture
/// coordinates in 16.16 fixed point, and the span's auxiliary tag.
#[derive(Clone, Copy, PartialEq, Eq, Structural, Debug)]
pub struct Fragment {
    pub x: i64,
    pub y: i64,
    pub z: i64,
    pub u: i64,
    pub v: i64,
    pub aux: u32,
}

/// The vertex is within the accepted ranges: screen coordinates bounded,
/// depth at least one and at most `FP_SQ` (so its reciprocal is a positive
/// fixed-point value), texture coordinates nonnegative and bounded.
pub open spec fn tex_ok(p: TexVert) -> bool {
    &&& -COORD_LIMIT <= p.x <= COORD_LIMIT
    &&& -COORD_LIMIT <= p.y <= COORD_LIMIT
    &&& FP_ONE <= p.z <= FP_SQ
    &&& 0 <= p.u <= UV_LIMIT
    &&& 0 <= p.v <= UV_LIMIT
}

/// The four interpolated lanes a vertex contributes: screen `x` in fixed
/// point, inverse depth, and the texture coordinates divided by depth.
pub open spec fn tex_lanes(p: TexVert) -> Vec4fp {
    let zinv = (FP_SQ as int) / (p.z as int);
    Vec4fp {
        x: (p.x * (FP_ONE as int)) as i64,
        y: zinv as i64,
        z: ((p.u * zinv) / (FP_ONE as int)) as i64,
        w: ((p.v * zinv) / (FP_ONE as int)) as i64,
    }
}

/// A textured vertex as the polygon rasterizer sees it.
pub open spec fn tex_vert(p: TexVert) -> PolyVert {
    PolyVert { x: p.x, y: p.y, lanes: tex_lanes(p) }
}

/// The whole vertex list as the polygon rasterizer sees it.
pub open spec fn tex_poly(pts: Seq<TexVert>) -> Seq<PolyVert> {
    pts.map_values(|p: TexVert| tex_vert(p))
}

/// The span the polygon rasterizer emits at offset `i`, with the exact
/// auxiliary tag it carries when the walk's counter started at `c0`.
pub open spec fn span_core(pv: Seq<PolyVert>, c0: int, i: int) -> SpanT {
    let yf = pv[poly_first(pv)].y as int;
    SpanT {
        y: (yf + i) as i64,
        left: side_val_at(pv, false, yf + i),
        right: side_val_at(pv, true, yf + i),
        aux: (c0 + active_edge(pv, false, yf + i) + active_edge(pv, true, yf + i) + 1) as u32,
    }
}

/// The truncated pixel x where a span's drawing starts.
pub open spec fn span_xs(sp: SpanT) -> int {
    div_t(sp.left.x as int, FP_ONE as int)
}

/// The truncated pixel x where a span's drawing ends (exclusive).
pub open spec fn span_xe(sp: SpanT) -> int {
    div_t(sp.right.x as int, FP_ONE as int)
}

/// The step count of a span's per-pixel interpolators: its pixel width,
/// clamped to at least one step.
pub open spec fn span_steps(sp: SpanT) -> int {
    if span_xe(sp) - span_xs(sp) >= 1 {
        span_xe(sp) - span_xs(sp)
    } else {
        1
    }
}

/// The fragment drawn at offset `k` into a span: depth recovered as the
/// reciprocal of the interpolated inverse depth, texture coordinates as the
/// interpolated `u/z`, `v/z` multiplied back by that depth.
pub open spec fn frag_at(sp: SpanT, k: int) -> Fragment {
    let steps = span_steps(sp);
    let zv = slope_val(sp.left.y as int, sp.right.y as int, steps, k);
    let uz = slope_val(sp.left.z as int, sp.right.z as int, steps, k);
    let vz = slope_val(sp.left.w as int, sp.right.w as int, steps, k);
    let z = (FP_SQ as int) / zv;
    Fragment {
        x: (span_xs(sp) + k) as i64,
        y: sp.y,
        z: z as i64,
        u: ((uz * z) / (FP_ONE as int)) as i64,
        v: ((vz * z) / (FP_ONE as int)) as i64,
        aux: sp.aux,
    }
}

/// All fragments of one span, left to right.
pub open spec fn span_frags(sp: SpanT) -> Seq<Fragment> {
    if span_xs(sp) <= span_xe(sp) {
        Seq::new((span_xe(sp) - span_xs(sp)) as nat, |k: int| frag_at(sp, k))
    } else {
        Seq::empty()
    }
}

/// Every fragment the textured polygon produces, in left-to-right,
/// top-to-bottom scanline order, when the walk's counter started at `c0`.
pub open spec fn tex_fragments(pts: Seq<TexVert>, c0: int) -> Seq<Fragment> {
    let pv = tex_poly(pts);
    Seq::new(poly_span_count(pv) as nat, |i: int| span_core(pv, c0, i)).map_values(
        |sp: SpanT| span_frags(sp),
    ).flatten()
}

/// The boundary lanes of a span lie in the ranges the textured vertices
/// guarantee: a positive inverse depth of at most one, and nonnegative
/// bounded `u/z`, `v/z`.
pub open spec fn span_lanes_ok(sp: SpanT) -> bool {
    &&& -COORD_LIMIT * FP_ONE <= sp.left.x <= COORD_LIMIT * FP_ONE
    &&& -COORD_LIMIT * FP_ONE <= sp.right.x <= COORD_LIMIT * FP_ONE
    &&& 1 <= sp.left.y <= FP_ONE
    &&& 1 <= sp.right.y <= FP_ONE
    &&& 0 <= sp.left.z <= UV_LIMIT
    &&& 0 <= sp.right.z <= UV_LIMIT
    &&& 0 <= sp.left.w <= UV_LIMIT
    &&& 0 <= sp.right.w <= UV_LIMIT
}

/// The lanes of a textured vertex are bounded as `span_lanes_ok` needs.
pub proof fn lemma_tex_lanes_ok(p: TexVert)
    requires
        tex_ok(p),
    ensures
        pv_ok(tex_vert(p)),
        1 <= tex_lanes(p).y <= FP_ONE,
        0 <= tex_lanes(p).z <= UV_LIMIT,
        0 <= tex_lanes(p).w <= UV_LIMIT,
        -COORD_LIMIT * FP_ONE <= tex_lanes(p).x <= COORD_LIMIT * FP_ONE,
        1 <= (FP_SQ as int) / (p.z as int) <= FP_ONE,
        0 <= (p.u * ((FP_SQ as int) / (p.z as int))) / (FP_ONE as int) <= UV_LIMIT,
        0 <= (p.v * ((FP_SQ as int) / (p.z as int))) / (FP_ONE as int) <= UV_LIMIT,
{
    let zinv = (FP_SQ as int) / (p.z as int);
    vstd::arithmetic::div_mod::lemma_div_pos_is_pos(FP_SQ as int, p.z as int);
    vstd::arithmetic::div_mod::lemma_div_is_ordered_by_denominator(
        FP_SQ as int,
        FP_ONE as int,
        p.z as int,
    );
    vstd::arithmetic::div_mod::lemma_div_non_zero(FP_SQ as int, p.z as int);
    assert(1 <= zinv <= FP_ONE);
    vstd::arithmetic::mul::lemma_mul_nonnegative(p.u as int, zinv);
    vstd::arithmetic::mul::lemma_mul_nonnegative(p.v as int, zinv);
    vstd::arithmetic::div_mod::lemma_div_pos_is_pos(p.u * zinv, FP_ONE as int);
    vstd::arithmetic::div_mod::lemma_div_pos_is_pos(p.v * zinv, FP_ONE as int);
    assert(p.u * zinv <= UV_LIMIT * FP_ONE) by (nonlinear_arith)
        requires
            0 <= p.u <= UV_LIMIT,
            1 <= zinv <= FP_ONE,
    ;
    assert(p.v * zinv <= UV_LIMIT * FP_ONE) by (nonlinear_arith)
        requires
            0 <= p.v <= UV_LIMIT,
            1 <= zinv <= FP_ONE,
    ;
    vstd::arithmetic::div_mod::lemma_div_is_ordered(
        p.u * zinv,
        UV_LIMIT * FP_ONE,
        FP_ONE as int,
    );
    vstd::arithmetic::div_mod::lemma_div_is_ordered(
        p.v * zinv,
        UV_LIMIT * FP_ONE,
        FP_ONE as int,
    );
    vstd::arithmetic::div_mod::lemma_div_by_multiple(UV_LIMIT as int, FP_ONE as int);
}

/// Draw the fragments of one span: build fresh per-pixel interpolators for
/// inverse depth and `u/z`, `v/z` from the span's boundary values and emit
/// one perspective-corrected fragment per covered pixel.
#[verifier::loop_isolation(false)]
fn scan_span(sp: &SpanT) -> (frags: Vec<Fragment>)
    requires
        span_lanes_ok(*sp),
    ensures
        frags@ == span_frags(*sp),
{
    let mut frags: Vec<Fragment> = Vec::new();
    let xs = tdiv(sp.left.x, FP_ONE);
    let xe = tdiv(sp.right.x, FP_ONE);
    let width = xe - xs;
    let num_steps = if width >= 1 {
        width
    } else {
        1
    };
    let mut pz = SlopeData::new(sp.left.y, sp.right.y, num_steps);
    let mut pu = SlopeData::new(sp.left.z, sp.right.z, num_steps);
    let mut pv = SlopeData::new(sp.left.w, sp.right.w, num_steps);
    let mut x = xs;
    while x < xe
        invariant
            xs <= x,
            x <= xe || x == xs,
            frags@.len() == x - xs,
            is_slope_state(pz, sp.left.y as int, sp.right.y as int, num_steps as int, x - xs),
            is_slope_state(pu, sp.left.z as int, sp.right.z as int, num_steps as int, x - xs),
            is_slope_state(pv, sp.left.w as int, sp.right.w as int, num_steps as int, x - xs),
            forall|k: int| 0 <= k < frags@.len() ==> frags@[k] == frag_at(*sp, k),
        decreases xe - x,
    {
        let ghost k = x - xs;
        proof {
            lemma_slope_val_in_range(sp.left.y as int, sp.right.y as int, num_steps as int, k);
            lemma_slope_val_in_range(sp.left.z as int, sp.right.z as int, num_steps as int, k);
            lemma_slope_val_in_range(sp.left.w as int, sp.right.w as int, num_steps as int, k);
            lemma_slope_val_advance(sp.left.y as int, sp.right.y as int, num_steps as int, k);
            lemma_slope_val_advance(sp.left.z as int, sp.right.z as int, num_steps as int, k);
            lemma_slope_val_advance(sp.left.w as int, sp.right.w as int, num_steps as int, k);
            lemma_slope_val_in_range(sp.left.y as int, sp.right.y as int, num_steps as int, k + 1);
            lemma_slope_val_in_range(sp.left.z as int, sp.right.z as int, num_steps as int, k + 1);
            lemma_slope_val_in_range(sp.left.w as int, sp.right.w as int, num_steps as int, k + 1);
        }
        let z = fdiv(FP_SQ, pz.get());
        proof {
            vstd::arithmetic::div_mod::lemma_div_pos_is_pos(FP_SQ as int, pz.begin as int);
            vstd::arithmetic::div_mod::lemma_div_is_ordered_by_denominator(
                FP_SQ as int,
                1,
                pz.begin as int,
            );
            vstd::arithmetic::div_mod::lemma_div_basics(FP_SQ as int);
            vstd::arithmetic::div_mod::lemma_div_non_zero(FP_SQ as int, pz.begin as int);
            assert(pu.begin * z <= UV_LIMIT * FP_SQ) by (nonlinear_arith)
                requires
                    0 <= pu.begin <= UV_LIMIT,
                    0 < z <= FP_SQ,
            ;
            assert(pv.begin * z <= UV_LIMIT * FP_SQ) by (nonlinear_arith)
                requires
                    0 <= pv.begin <= UV_LIMIT,
                    0 < z <= FP_SQ,
            ;
            vstd::arithmetic::mul::lemma_mul_nonnegative(pu.begin as int, z as int);
            vstd::arithmetic::mul::lemma_mul_nonnegative(pv.begin as int, z as int);
            vstd::arithmetic::div_mod::lemma_div_pos_is_pos(pu.begin * z, FP_ONE as int);
            vstd::arithmetic::div_mod::lemma_div_pos_is_pos(pv.begin * z, FP_ONE as int);
            vstd::arithmetic::div_mod::lemma_div_is_ordered(
                pu.begin * z,
                UV_LIMIT * FP_SQ,
                FP_ONE as int,
            );
            vstd::arithmetic::div_mod::lemma_div_is_ordered(
                pv.begin * z,
                UV_LIMIT * FP_SQ,
                FP_ONE as int,
            );
            assert(UV_LIMIT * FP_SQ == (UV_LIMIT * FP_ONE) * FP_ONE);
            vstd::arithmetic::div_mod::lemma_div_by_multiple(UV_LIMIT * FP_ONE, FP_ONE as int);
        }
        let u = fdiv(pu.get() * z, FP_ONE);
        let v = fdiv(pv.get() * z, FP_ONE);
        frags.push(Fragment { x, y: sp.y, z, u, v, aux: sp.aux });
        pz.advance();
        pu.advance();
        pv.advance();
        x = x + 1;
    }
    proof {
        if xs < xe {
            assert(frags@ =~= span_frags(*sp));
        } else {
            assert(frags@ =~= span_frags(*sp));
        }
    }
    frags
}

/// Draw a textured convex polygon: rasterize it with four-lane boundary
/// interpolators over `x`, `1/z`, `u/z`, `v/z`, then expand every emitted
/// span into perspective-correct fragments. `counter` tags the spans as in
/// the polygon rasterizer.
#[verifier::loop_isolation(false)]
pub fn draw_polygon(points: &Vec<TexVert>, counter: &mut u32) -> (frags: Vec<Fragment>)
    requires
        forall|i: int| 0 <= i < points@.len() ==> tex_ok(#[trigger] points@[i]),
        poly_monotone(tex_poly(points@)),
        *old(counter) + 2 * points@.len() <= u32::MAX,
    ensures
        frags@ == tex_fragments(points@, *old(counter) as int),
        *old(counter) <= *final(counter) <= *old(counter) + 2 * points@.len(),
{
    let ghost c0 = *counter as int;
    let ghost pvg = tex_poly(points@);
    let mut pv: Vec<PolyVert> = Vec::new();
    let mut i: usize = 0;
    while i < points.len()
        invariant
            0 <= i <= points@.len(),
            pv@.len() == i,
            forall|j: int| 0 <= j < i ==> pv@[j] == tex_vert(#[trigger] points@[j]),
            forall|j: int|
                0 <= j < i ==> pv_ok(#[trigger] pv@[j]) && 1 <= pv@[j].lanes.y <= FP_ONE && 0
                    <= pv@[j].lanes.z <= UV_LIMIT && 0 <= pv@[j].lanes.w <= UV_LIMIT,
        decreases points@.len() - i,
    {
        let p = points[i];
        proof {
            lemma_tex_lanes_ok(p);
            vstd::arithmetic::div_mod::lemma_div_pos_is_pos(FP_SQ as int, p.z as int);
        }
        let zinv = fdiv(FP_SQ, p.z);
        proof {
            assert(0 <= p.u * zinv <= UV_LIMIT * FP_ONE && 0 <= p.v * zinv <= UV_LIMIT
                * FP_ONE) by (nonlinear_arith)
                requires
                    0 <= p.u <= UV_LIMIT,
                    0 <= p.v <= UV_LIMIT,
                    1 <= zinv <= FP_ONE,
            ;
        }
        let uoz = fdiv(p.u * zinv, FP_ONE);
        let voz = fdiv(p.v * zinv, FP_ONE);
        pv.push(
            PolyVert {
                x: p.x,
                y: p.y,
                lanes: Vec4fp { x: p.x * FP_ONE, y: zinv, z: uoz, w: voz },
            },
        );
        i = i + 1;
    }
    proof {
        assert(pv@ =~= pvg);
    }

    let spans = rasterize_polygon(&pv, counter);
    let ghost sc = Seq::new(poly_span_count(pvg) as nat, |q: int| span_core(pvg, c0, q));
    proof {
        assert(spans@ =~= sc);
    }

    let ghost all = spans@.map_values(|sp: SpanT| span_frags(sp));
    let mut frags: Vec<Fragment> = Vec::new();
    let mut k: usize = 0;
    while k < spans.len()
        invariant
            0 <= k <= spans@.len(),
            frags@ == all.take(k as int).flatten(),
        decreases spans@.len() - k,
    {
        let sp = spans[k];
        proof {
            if pvg.len() >= 1 {
                lemma_first_last_range(pvg, pvg.len() as int);
            }
            lemma_side_val_between(pvg, false, sp.y as int);
            lemma_side_val_between(pvg, true, sp.y as int);
        }
        let mut row = scan_span(&sp);
        let ghost rowv = row@;
        frags.append(&mut row);
        proof {
            assert(all.take(k as int + 1) =~= all.take(k as int).push(rowv));
            all.take(k as int).lemma_flatten_push(rowv);
        }
        k = k + 1;
    }
    proof {
        assert(all.take(spans@.len() as int) =~= all);
        assert(spans@.map_values(|sp: SpanT| span_frags(sp)) =~= sc.map_values(
            |sp: SpanT| span_frags(sp),
        ));
    }
    frags
}

} // verus!
