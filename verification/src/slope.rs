//! Slope/DDA interpolators: linear steppers over a fixed number of steps.
//!
//! `SlopeData` steps a single scalar from `begin` toward `end` in
//! `num_steps` equal increments; the increment is the truncated quotient
//! `(end - begin) / num_steps`, so after `k` calls of `advance` the value is
//! exactly `begin + k * step`. `Slope4x` batches four independent scalar
//! slopes into one unit with identical per-lane semantics.

use vstd::prelude::*;

use crate::fixed::div_t;
use crate::fixed::fits_i64;
use crate::fixed::tdiv;

verus! {

/// The per-step increment of a slope constructed from `begin`, `end` and
/// `num_steps`: the truncated quotient of the span by the step count.
pub open spec fn slope_step(begin: int, end: int, num_steps: int) -> int {
    div_t(end - begin, num_steps)
}

/// The value a slope constructed from `begin`, `end` and `num_steps` holds
/// after `k` advances.
pub open spec fn slope_val(begin: int, end: int, num_steps: int, k: int) -> int {
    begin + k * slope_step(begin, end, num_steps)
}

/// A scalar linear interpolator: a current value and a per-step increment.
#[derive(Clone, Copy, PartialEq, Eq, Structural, Debug)]
pub struct SlopeData {
    pub begin: i64,
    pub step: i64,
}

/// `s` is the state of a scalar slope built from `begin`, `end` and
/// `num_steps` after `k` advances.
pub open spec fn is_slope_state(s: SlopeData, begin: int, end: int, num_steps: int, k: int) -> bool {
    &&& s.step == slope_step(begin, end, num_steps)
    &&& s.begin == slope_val(begin, end, num_steps, k)
}

impl SlopeData {
    /// Build an interpolator that moves from `begin` to `end` in `num_steps`
    /// equal increments. `num_steps` must be at least 1: callers clamp a zero
    /// step count before construction.
    pub fn new(begin: i64, end: i64, num_steps: i64) -> (r: SlopeData)
        requires
            num_steps >= 1,
            fits_i64(end - begin),
            end - begin > i64::MIN,
        ensures
            is_slope_state(r, begin as int, end as int, num_steps as int, 0),
            r.begin == begin,
    {
        proof {
            crate::fixed::lemma_div_t_bounds(end - begin, num_steps as int);
        }
        let diff = end - begin;
        SlopeData { begin, step: tdiv(diff, num_steps) }
    }

    /// The current value of the interpolator.
    pub fn get(&self) -> (r: i64)
        ensures
            r == self.begin,
    {
        self.begin
    }

    /// Step the value once by the per-step increment.
    pub fn advance(&mut self)
        requires
            fits_i64(old(self).begin + old(self).step),
        ensures
            final(self).begin == old(self).begin + old(self).step,
            final(self).step == old(self).step,
    {
        self.begin = self.begin + self.step;
    }
}

/// An interpolator with a value that can be read and stepped; scalar slopes
/// implement it, and the rasterizers' emitted boundary values follow its
/// stepping discipline.
pub trait Slope: Sized {
    /// The current value.
    spec fn val(&self) -> int;

    /// The per-step increment.
    spec fn step_of(&self) -> int;

    /// Read the current value.
    fn get(&self) -> (r: i64)
        ensures
            r == self.val(),
    ;

    /// Step the value once.
    fn advance(&mut self)
        requires
            fits_i64(old(self).val() + old(self).step_of()),
        ensures
            final(self).val() == old(self).val() + old(self).step_of(),
            final(self).step_of() == old(self).step_of(),
    ;
}

impl Slope for SlopeData {
    open spec fn val(&self) -> int {
        self.begin as int
    }

    open spec fn step_of(&self) -> int {
        self.step as int
    }

    fn get(&self) -> (r: i64) {
        self.begin
    }

    fn advance(&mut self) {
        self.begin = self.begin + self.step;
    }
}

/// Four fixed-point scalars treated as one value, one per lane.
#[derive(Clone, Copy, PartialEq, Eq, Structural, Debug)]
pub struct Vec4fp {
    pub x: i64,
    pub y: i64,
    pub z: i64,
    pub w: i64,
}

impl Vec4fp {
    /// Pack four scalars into one four-lane value.
    pub fn new(x: i64, y: i64, z: i64, w: i64) -> (r: Vec4fp)
        ensures
            r == (Vec4fp { x, y, z, w }),
    {
        Vec4fp { x, y, z, w }
    }

    /// The same scalar in every lane.
    pub fn splat(v: i64) -> (r: Vec4fp)
        ensures
            r == (Vec4fp { x: v, y: v, z: v, w: v }),
    {
        Vec4fp { x: v, y: v, z: v, w: v }
    }
}

/// A four-lane linear interpolator: four scalar slopes stepped as one unit.
#[derive(Clone, Copy, PartialEq, Eq, Structural, Debug)]
pub struct Slope4x {
    pub begin: Vec4fp,
    pub step: Vec4fp,
}

/// `s` is the state of a four-lane slope built from `begin`, `end` and
/// `num_steps` after `k` advances of all lanes.
pub open spec fn is_slope4_state(s: Slope4x, begin: Vec4fp, end: Vec4fp, num_steps: Vec4fp, k: int) -> bool {
    &&& s.step.x == slope_step(begin.x as int, end.x as int, num_steps.x as int)
    &&& s.step.y == slope_step(begin.y as int, end.y as int, num_steps.y as int)
    &&& s.step.z == slope_step(begin.z as int, end.z as int, num_steps.z as int)
    &&& s.step.w == slope_step(begin.w as int, end.w as int, num_steps.w as int)
    &&& s.begin.x == slope_val(begin.x as int, end.x as int, num_steps.x as int, k)
    &&& s.begin.y == slope_val(begin.y as int, end.y as int, num_steps.y as int, k)
    &&& s.begin.z == slope_val(begin.z as int, end.z as int, num_steps.z as int, k)
    &&& s.begin.w == slope_val(begin.w as int, end.w as int, num_steps.w as int, k)
}

/// `s` is the state of a four-lane slope built with the same step count on
/// every lane after `k` advances.
pub open spec fn is_slope4_state_splat(s: Slope4x, begin: Vec4fp, end: Vec4fp, num_steps: int, k: int) -> bool {
    &&& s.step.x == slope_step(begin.x as int, end.x as int, num_steps)
    &&& s.step.y == slope_step(begin.y as int, end.y as int, num_steps)
    &&& s.step.z == slope_step(begin.z as int, end.z as int, num_steps)
    &&& s.step.w == slope_step(begin.w as int, end.w as int, num_steps)
    &&& s.begin.x == slope_val(begin.x as int, end.x as int, num_steps, k)
    &&& s.begin.y == slope_val(begin.y as int, end.y as int, num_steps, k)
    &&& s.begin.z == slope_val(begin.z as int, end.z as int, num_steps, k)
    &&& s.begin.w == slope_val(begin.w as int, end.w as int, num_steps, k)
}

impl Slope4x {
    /// Build four lane interpolators at once; each lane moves from its
    /// `begin` lane to its `end` lane in its `num_steps` increments, exactly
    /// as a scalar slope built from the same lane values would.
    pub fn new(begin: Vec4fp, end: Vec4fp, num_steps: Vec4fp) -> (r: Slope4x)
        requires
            num_steps.x >= 1,
            num_steps.y >= 1,
            num_steps.z >= 1,
            num_steps.w >= 1,
            fits_i64(end.x - begin.x),
            fits_i64(end.y - begin.y),
            fits_i64(end.z - begin.z),
            fits_i64(end.w - begin.w),
            end.x - begin.x > i64::MIN,
            end.y - begin.y > i64::MIN,
            end.z - begin.z > i64::MIN,
            end.w - begin.w > i64::MIN,
        ensures
            is_slope4_state(r, begin, end, num_steps, 0),
            r.begin == begin,
    {
        proof {
            crate::fixed::lemma_div_t_bounds(end.x - begin.x, num_steps.x as int);
            crate::fixed::lemma_div_t_bounds(end.y - begin.y, num_steps.y as int);
            crate::fixed::lemma_div_t_bounds(end.z - begin.z, num_steps.z as int);
            crate::fixed::lemma_div_t_bounds(end.w - begin.w, num_steps.w as int);
        }
        Slope4x {
            begin,
            step: Vec4fp {
                x: tdiv(end.x - begin.x, num_steps.x),
                y: tdiv(end.y - begin.y, num_steps.y),
                z: tdiv(end.z - begin.z, num_steps.z),
                w: tdiv(end.w - begin.w, num_steps.w),
            },
        }
    }

    /// The current four-lane value.
    pub fn get(&self) -> (r: Vec4fp)
        ensures
            r == self.begin,
    {
        self.begin
    }

    /// Step all four lanes once by their per-step increments.
    pub fn advance(&mut self)
        requires
            fits_i64(old(self).begin.x + old(self).step.x),
            fits_i64(old(self).begin.y + old(self).step.y),
            fits_i64(old(self).begin.z + old(self).step.z),
            fits_i64(old(self).begin.w + old(self).step.w),
        ensures
            final(self).begin.x == old(self).begin.x + old(self).step.x,
            final(self).begin.y == old(self).begin.y + old(self).step.y,
            final(self).begin.z == old(self).begin.z + old(self).step.z,
            final(self).begin.w == old(self).begin.w + old(self).step.w,
            final(self).step == old(self).step,
    {
        self.begin = Vec4fp {
            x: self.begin.x + self.step.x,
            y: self.begin.y + self.step.y,
            z: self.begin.z + self.step.z,
            w: self.begin.w + self.step.w,
        };
    }
}

/// A slope value never leaves the interval spanned by its endpoints: for any
/// advance count up to the step count, the interpolated value lies between
/// `begin` and `end`.
pub proof fn lemma_slope_val_in_range(begin: int, end: int, num_steps: int, k: int)
    requires
        num_steps >= 1,
        0 <= k <= num_steps,
    ensures
        begin <= end ==> begin <= slope_val(begin, end, num_steps, k) <= end,
        end < begin ==> end <= slope_val(begin, end, num_steps, k) <= begin,
{
    let d = end - begin;
    let s = slope_step(begin, end, num_steps);
    if d >= 0 {
        vstd::arithmetic::div_mod::lemma_div_pos_is_pos(d, num_steps);
        vstd::arithmetic::mul::lemma_mul_nonnegative(k, s);
        vstd::arithmetic::mul::lemma_mul_inequality(k, num_steps, s);
        vstd::arithmetic::div_mod::lemma_fundamental_div_mod(d, num_steps);
        vstd::arithmetic::div_mod::lemma_mod_bound(d, num_steps);
        assert(num_steps * s <= d) by {
            assert(d == num_steps * (d / num_steps) + d % num_steps);
        }
    } else {
        vstd::arithmetic::div_mod::lemma_div_pos_is_pos(-d, num_steps);
        assert(s <= 0);
        vstd::arithmetic::mul::lemma_mul_nonnegative(k, -s);
        vstd::arithmetic::mul::lemma_mul_inequality(k, num_steps, -s);
        vstd::arithmetic::div_mod::lemma_fundamental_div_mod(-d, num_steps);
        vstd::arithmetic::div_mod::lemma_mod_bound(-d, num_steps);
        assert(num_steps * (-s) <= -d) by {
            assert(-d == num_steps * ((-d) / num_steps) + (-d) % num_steps);
        }
        assert(k * (-s) == -(k * s)) by {
            vstd::arithmetic::mul::lemma_mul_unary_negation(k, s);
        }
        assert(num_steps * (-s) == -(num_steps * s)) by {
            vstd::arithmetic::mul::lemma_mul_unary_negation(num_steps, s);
        }
    }
}

/// Advancing one more step adds exactly the per-step increment.
pub proof fn lemma_slope_val_advance(begin: int, end: int, num_steps: int, k: int)
    ensures
        slope_val(begin, end, num_steps, k + 1) == slope_val(begin, end, num_steps, k) + slope_step(begin, end, num_steps),
{
    let s = slope_step(begin, end, num_steps);
    assert((k + 1) * s == k * s + s) by {
        vstd::arithmetic::mul::lemma_mul_is_distributive_add_other_way(s, k, 1);
    }
}

/// Lane-by-lane equivalence of the vector and scalar interpolators: a lane of
/// a four-lane slope after `k` advances is in exactly the state of the
/// independent scalar slope built from that lane's inputs after `k` advances.
pub proof fn lemma_vector_lane_is_scalar(s4: Slope4x, s0: SlopeData, s1: SlopeData, s2: SlopeData, s3: SlopeData, begin: Vec4fp, end: Vec4fp, num_steps: Vec4fp, k: int)
    requires
        is_slope4_state(s4, begin, end, num_steps, k),
        is_slope_state(s0, begin.x as int, end.x as int, num_steps.x as int, k),
        is_slope_state(s1, begin.y as int, end.y as int, num_steps.y as int, k),
        is_slope_state(s2, begin.z as int, end.z as int, num_steps.z as int, k),
        is_slope_state(s3, begin.w as int, end.w as int, num_steps.w as int, k),
    ensures
        s4.begin.x == s0.begin && s4.step.x == s0.step,
        s4.begin.y == s1.begin && s4.step.y == s1.step,
        s4.begin.z == s2.begin && s4.step.z == s2.step,
        s4.begin.w == s3.begin && s4.step.w == s3.step,
{
}

} // verus!
