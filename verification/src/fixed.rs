//! 16.16 fixed-point scalars stored in `i64`, with the division helpers the
//! rasterization core is built on.
//!
//! A fixed-point value represents the real number `v / FP_ONE`. Division by a
//! positive divisor comes in two flavours: `fdiv` rounds toward negative
//! infinity (Euclidean, the semantics of `/` in specifications) and `tdiv`
//! rounds toward zero (the semantics of Rust's `/` on integers, used by the
//! slope steppers).

use vstd::prelude::*;

verus! {

/// Number of fractional bits of a fixed-point value.
pub const FP_SHIFT: u32 = 16;

/// The fixed-point representation of 1.
pub const FP_ONE: i64 = 65536;

/// The square of `FP_ONE`: the numerator that turns a fixed-point value into
/// its fixed-point reciprocal by division.
pub const FP_SQ: i64 = 4294967296;

/// Truncating (round toward zero) division, as Rust's `/` computes it on
/// integers; defined here for a positive divisor only.
pub open spec fn div_t(a: int, b: int) -> int {
    if a >= 0 {
        a / b
    } else {
        -((-a) / b)
    }
}

/// Bounds of the working range: every quantity the core manipulates stays
/// well inside `i64` so that sums and products can be proved not to overflow.
pub open spec fn fits_i64(a: int) -> bool {
    i64::MIN <= a <= i64::MAX
}

/// Euclidean (floor, for a positive divisor) division of `i64` values.
pub fn fdiv(a: i64, b: i64) -> (q: i64)
    requires
        b > 0,
        fits_i64(a as int / b as int),
    ensures
        q == a as int / b as int,
{
    let r = a.checked_div_euclid(b);
    match r {
        Some(q) => q,
        None => {
            proof {
                assert(false);
            }
            0
        },
    }
}

/// Truncating division of `i64` values, the rounding of Rust's own `/`.
pub fn tdiv(a: i64, b: i64) -> (q: i64)
    requires
        b > 0,
        a > i64::MIN,
    ensures
        q == div_t(a as int, b as int),
{
    proof {
        lemma_div_t_bounds(a as int, b as int);
    }
    if a >= 0 { fdiv(a, b) } else { -fdiv(-a, b) }
}

/// The magnitude of a truncating quotient never exceeds the magnitude of the
/// dividend, and the quotient has the dividend's sign.
pub proof fn lemma_div_t_bounds(a: int, b: int)
    requires
        b > 0,
    ensures
        a >= 0 ==> 0 <= div_t(a, b) <= a,
        a < 0 ==> a <= div_t(a, b) <= 0,
{
    if a >= 0 {
        vstd::arithmetic::div_mod::lemma_div_pos_is_pos(a, b);
        vstd::arithmetic::div_mod::lemma_div_nonincreasing(a, b);
    } else {
        vstd::arithmetic::div_mod::lemma_div_pos_is_pos(-a, b);
        vstd::arithmetic::div_mod::lemma_div_nonincreasing(-a, b);
    }
}

/// `r` is the integer square root of `n`, rounded down.
pub open spec fn is_sqrt_floor(n: int, r: int) -> bool {
    &&& 0 <= r
    &&& r * r <= n
    &&& n < (r + 1) * (r + 1)
}

/// The integer square root of `n`, rounded down.
pub open spec fn sqrt_floor(n: int) -> int {
    choose|r: int| is_sqrt_floor(n, r)
}

/// A witness pins the rounded-down square root to its unique value.
pub proof fn lemma_sqrt_floor_unique(n: int, r: int)
    requires
        is_sqrt_floor(n, r),
    ensures
        sqrt_floor(n) == r,
{
    assert(is_sqrt_floor(n, sqrt_floor(n))) by {
        assert(exists|x: int| is_sqrt_floor(n, x)) by {
            assert(is_sqrt_floor(n, r));
        }
    }
    let c = sqrt_floor(n);
    assert(c == r) by (nonlinear_arith)
        requires
            0 <= r,
            r * r <= n,
            n < (r + 1) * (r + 1),
            0 <= c,
            c * c <= n,
            n < (c + 1) * (c + 1),
    ;
}

/// The integer square root, rounded down, by binary search.
pub fn isqrt(n: u64) -> (r: u64)
    ensures
        r * r <= n < (r + 1) * (r + 1),
        r == sqrt_floor(n as int),
{
    let mut lo: u64 = 0;
    let mut hi: u64 = 4294967296;
    while lo + 1 < hi
        invariant
            0 <= lo < hi <= 4294967296,
            lo * lo <= n,
            n < hi * hi,
        decreases hi - lo,
    {
        let mid = lo + (hi - lo) / 2;
        proof {
            assert(mid * mid <= 4294967295 * 4294967295) by (nonlinear_arith)
                requires
                    0 <= mid <= 4294967295,
            ;
        }
        if mid * mid <= n {
            lo = mid;
        } else {
            hi = mid;
        }
    }
    proof {
        lemma_sqrt_floor_unique(n as int, lo as int);
    }
    lo
}

/// Euclidean division of a negated nonnegative value is at worst one below
/// the negated quotient, so it never falls below the negated value itself.
pub proof fn lemma_div_neg_bound(a: int, s: int)
    requires
        0 <= a,
        1 <= s,
    ensures
        (-a) / s >= -(a / s) - 1,
        (-a) / s >= -a,
{
    vstd::arithmetic::div_mod::lemma_fundamental_div_mod(a, s);
    vstd::arithmetic::div_mod::lemma_mod_bound(a, s);
    let q = a / s;
    let r = a % s;
    if r == 0 {
        assert(-a == s * (-q) + 0) by {
            vstd::arithmetic::mul::lemma_mul_unary_negation(s, q);
        }
        vstd::arithmetic::div_mod::lemma_fundamental_div_mod_converse_div(-a, s, -q, 0);
    } else {
        assert(-a == s * (-q - 1) + (s - r)) by {
            vstd::arithmetic::mul::lemma_mul_unary_negation(s, q);
            vstd::arithmetic::mul::lemma_mul_is_distributive_sub(s, -q, 1);
        }
        vstd::arithmetic::div_mod::lemma_fundamental_div_mod_converse_div(-a, s, -q - 1, s - r);
        vstd::arithmetic::div_mod::lemma_div_is_strictly_smaller(a, s);
    }
    vstd::arithmetic::div_mod::lemma_div_pos_is_pos(a, s);
    vstd::arithmetic::div_mod::lemma_div_nonincreasing(a, s);
}

/// A quotient by a positive divisor keeps the dividend's magnitude bound.
pub proof fn lemma_div_bounds_abs(a: int, b: int, m: int)
    requires
        1 <= b,
        0 <= m,
        -m <= a <= m,
    ensures
        -m <= a / b <= m,
{
    vstd::arithmetic::div_mod::lemma_div_is_ordered(a, m, b);
    vstd::arithmetic::div_mod::lemma_div_nonincreasing(m, b);
    vstd::arithmetic::div_mod::lemma_div_is_ordered(-m, a, b);
    lemma_div_neg_bound(m, b);
}

} // verus!
