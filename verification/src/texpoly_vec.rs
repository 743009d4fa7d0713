//! Perspective-correct textured-polygon drawing, vectorized interpolators.
//!
//! The same drawing as the scalar variant, but both the edge-stepping and
//! the per-pixel interpolation run on a single four-lane interpolator. The
//! contract states bit-for-bit the same fragment sequence as the scalar
//! path: in fixed-point arithmetic the four-lane stepper is exactly
//! equivalent to four independent scalar steppers.

use vstd::prelude::*;

use crate::fixed::FP_ONE;
use crate::fixed::FP_SQ;
use crate::fixed::fdiv;
use crate::fixed::tdiv;
use crate::polygon::PolyVert;
use crate::polygon::SpanT;
use crate::polygon::lemma_first_last_range;
use crate::polygon::lemma_side_val_between;
use crate::polygon::poly_monotone;
use crate::polygon::poly_span_count;
use crate::polygon::rasterize_polygon;
use crate::slope::Slope4x;
use crate::slope::Vec4fp;
use crate::slope::is_slope4_state_splat;
use crate::slope::lemma_slope_val_advance;
use crate::slope::lemma_slope_val_in_range;
use crate::texpoly::Fragment;
use crate::texpoly::TexVert;
use crate::texpoly::UV_LIMIT;
use crate::texpoly::frag_at;
use crate::texpoly::lemma_tex_lanes_ok;
use crate::texpoly::span_core;
use crate::texpoly::span_frags;
use crate::texpoly::span_lanes_ok;
use crate::texpoly::tex_fragments;
use crate::texpoly::tex_ok;
use crate::texpoly::tex_poly;
use crate::texpoly::tex_vert;

verus! {

/// Draw the fragments of one span with a single four-lane per-pixel
/// interpolator over inverse depth, `u/z`, `v/z` (the fourth lane is
/// unused). Lane for lane this steps exactly as the scalar interpolators
/// do, so the fragments are identical.
#[verifier::loop_isolation(false)]
fn scan_span_vec(sp: &SpanT) -> (frags: Vec<Fragment>)
    requires
        span_lanes_ok(*sp),
    ensures
        frags@ == span_frags(*sp),
{
    let mut frags: Vec<Fragment> = Vec::new();
    let xs = tdiv(sp.left.x, FP_ONE);
    let xe = tdiv(sp.right.x, FP_ONE);
    let width = xe - xs;
    let num_steps = if width >= 1 {
        width
    } else {
        1
    };
    let mut props = Slope4x::new(
        Vec4fp { x: sp.left.y, y: sp.left.z, z: sp.left.w, w: 0 },
        Vec4fp { x: sp.right.y, y: sp.right.z, z: sp.right.w, w: 0 },
        Vec4fp::splat(num_steps),
    );
    let mut x = xs;
    while x < xe
        invariant
            xs <= x,
            x <= xe || x == xs,
            frags@.len() == x - xs,
            is_slope4_state_splat(
                props,
                Vec4fp { x: sp.left.y, y: sp.left.z, z: sp.left.w, w: 0 },
                Vec4fp { x: sp.right.y, y: sp.right.z, z: sp.right.w, w: 0 },
                num_steps as int,
                x - xs,
            ),
            forall|k: int| 0 <= k < frags@.len() ==> frags@[k] == frag_at(*sp, k),
        decreases xe - x,
    {
        let ghost k = x - xs;
        proof {
            lemma_slope_val_in_range(sp.left.y as int, sp.right.y as int, num_steps as int, k);
            lemma_slope_val_in_range(sp.left.z as int, sp.right.z as int, num_steps as int, k);
            lemma_slope_val_in_range(sp.left.w as int, sp.right.w as int, num_steps as int, k);
            lemma_slope_val_in_range(0, 0, num_steps as int, k);
            lemma_slope_val_advance(sp.left.y as int, sp.right.y as int, num_steps as int, k);
            lemma_slope_val_advance(sp.left.z as int, sp.right.z as int, num_steps as int, k);
            lemma_slope_val_advance(sp.left.w as int, sp.right.w as int, num_steps as int, k);
            lemma_slope_val_advance(0, 0, num_steps as int, k);
            lemma_slope_val_in_range(sp.left.y as int, sp.right.y as int, num_steps as int, k + 1);
            lemma_slope_val_in_range(sp.left.z as int, sp.right.z as int, num_steps as int, k + 1);
            lemma_slope_val_in_range(sp.left.w as int, sp.right.w as int, num_steps as int, k + 1);
            lemma_slope_val_in_range(0, 0, num_steps as int, k + 1);
        }
        let props_v = props.get();
        let z = fdiv(FP_SQ, props_v.x);
        proof {
            vstd::arithmetic::div_mod::lemma_div_pos_is_pos(FP_SQ as int, props_v.x as int);
            vstd::arithmetic::div_mod::lemma_div_is_ordered_by_denominator(
                FP_SQ as int,
                1,
                props_v.x as int,
            );
            vstd::arithmetic::div_mod::lemma_div_basics(FP_SQ as int);
            vstd::arithmetic::div_mod::lemma_div_non_zero(FP_SQ as int, props_v.x as int);
            assert(props_v.y * z <= UV_LIMIT * FP_SQ) by (nonlinear_arith)
                requires
                    0 <= props_v.y <= UV_LIMIT,
                    0 < z <= FP_SQ,
            ;
            assert(props_v.z * z <= UV_LIMIT * FP_SQ) by (nonlinear_arith)
                requires
                    0 <= props_v.z <= UV_LIMIT,
                    0 < z <= FP_SQ,
            ;
            vstd::arithmetic::mul::lemma_mul_nonnegative(props_v.y as int, z as int);
            vstd::arithmetic::mul::lemma_mul_nonnegative(props_v.z as int, z as int);
            vstd::arithmetic::div_mod::lemma_div_pos_is_pos(props_v.y * z, FP_ONE as int);
            vstd::arithmetic::div_mod::lemma_div_pos_is_pos(props_v.z * z, FP_ONE as int);
            vstd::arithmetic::div_mod::lemma_div_is_ordered(
                props_v.y * z,
                UV_LIMIT * FP_SQ,
                FP_ONE as int,
            );
            vstd::arithmetic::div_mod::lemma_div_is_ordered(
                props_v.z * z,
                UV_LIMIT * FP_SQ,
                FP_ONE as int,
            );
            assert(UV_LIMIT * FP_SQ == (UV_LIMIT * FP_ONE) * FP_ONE);
            vstd::arithmetic::div_mod::lemma_div_by_multiple(UV_LIMIT * FP_ONE, FP_ONE as int);
        }
        let u = fdiv(props_v.y * z, FP_ONE);
        let v = fdiv(props_v.z * z, FP_ONE);
        frags.push(Fragment { x, y: sp.y, z, u, v, aux: sp.aux });
        props.advance();
        x = x + 1;
    }
    proof {
        if xs < xe {
            assert(frags@ =~= span_frags(*sp));
        } else {
            assert(frags@ =~= span_frags(*sp));
        }
    }
    frags
}

/// Draw a textured convex polygon with the vectorized interpolators. The
/// fragments are exactly those of the scalar drawing path for the same
/// inputs.
#[verifier::loop_isolation(false)]
pub fn draw_polygon(points: &Vec<TexVert>, counter: &mut u32) -> (frags: Vec<Fragment>)
    requires
        forall|i: int| 0 <= i < points@.len() ==> tex_ok(#[trigger] points@[i]),
        poly_monotone(tex_poly(points@)),
        *old(counter) + 2 * points@.len() <= u32::MAX,
    ensures
        frags@ == tex_fragments(points@, *old(counter) as int),
        *old(counter) <= *final(counter) <= *old(counter) + 2 * points@.len(),
{
    let ghost c0 = *counter as int;
    let ghost pvg = tex_poly(points@);
    let mut pv: Vec<PolyVert> = Vec::new();
    let mut i: usize = 0;
    while i < points.len()
        invariant
            0 <= i <= points@.len(),
            pv@.len() == i,
            forall|j: int| 0 <= j < i ==> pv@[j] == tex_vert(#[trigger] points@[j]),
            forall|j: int|
                0 <= j < i ==> crate::polygon::pv_ok(#[trigger] pv@[j]) && 1 <= pv@[j].lanes.y
                    <= FP_ONE && 0 <= pv@[j].lanes.z <= UV_LIMIT && 0 <= pv@[j].lanes.w
                    <= UV_LIMIT,
        decreases points@.len() - i,
    {
        let p = points[i];
        proof {
            lemma_tex_lanes_ok(p);
            vstd::arithmetic::div_mod::lemma_div_pos_is_pos(FP_SQ as int, p.z as int);
        }
        let zinv = fdiv(FP_SQ, p.z);
        proof {
            assert(0 <= p.u * zinv <= UV_LIMIT * FP_ONE && 0 <= p.v * zinv <= UV_LIMIT
                * FP_ONE) by (nonlinear_arith)
                requires
                    0 <= p.u <= UV_LIMIT,
                    0 <= p.v <= UV_LIMIT,
                    1 <= zinv <= FP_ONE,
            ;
        }
        let uoz = fdiv(p.u * zinv, FP_ONE);
        let voz = fdiv(p.v * zinv, FP_ONE);
        pv.push(
            PolyVert {
                x: p.x,
                y: p.y,
                lanes: Vec4fp { x: p.x * FP_ONE, y: zinv, z: uoz, w: voz },
            },
        );
        i = i + 1;
    }
    proof {
        assert(pv@ =~= pvg);
    }

    let spans = rasterize_polygon(&pv, counter);
    let ghost sc = Seq::new(poly_span_count(pvg) as nat, |q: int| span_core(pvg, c0, q));
    proof {
        assert(spans@ =~= sc);
    }

    let ghost all = spans@.map_values(|sp: SpanT| span_frags(sp));
    let mut frags: Vec<Fragment> = Vec::new();
    let mut k: usize = 0;
    while k < spans.len()
        invariant
            0 <= k <= spans@.len(),
            frags@ == all.take(k as int).flatten(),
        decreases spans@.len() - k,
    {
        let sp = spans[k];
        proof {
            if pvg.len() >= 1 {
                lemma_first_last_range(pvg, pvg.len() as int);
            }
            lemma_side_val_between(pvg, false, sp.y as int);
            lemma_side_val_between(pvg, true, sp.y as int);
        }
        let mut row = scan_span_vec(&sp);
        let ghost rowv = row@;
        frags.append(&mut row);
        proof {
            assert(all.take(k as int + 1) =~= all.take(k as int).push(rowv));
            all.take(k as int).lemma_flatten_push(rowv);
        }
        k = k + 1;
    }
    proof {
        assert(all.take(spans@.len() as int) =~= all);
        assert(spans@.map_values(|sp: SpanT| span_frags(sp)) =~= sc.map_values(
            |sp: SpanT| span_frags(sp),
        ));
    }
    frags
}

} // verus!
