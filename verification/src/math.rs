//! Fixed-point arithmetic helpers shared by the simulation systems.
//!
//! Scalars are `i64` values counting thousandths of a unit.  Division is
//! always carried out on magnitudes, so its rounding (toward zero) is the
//! same in code and in contracts.
use vstd::prelude::*;

verus! {

/// Largest magnitude a simulation scalar may carry.  Every component value
/// held by a store stays within this bound, which keeps products such as
/// `v * SCALE` inside `i64`.
pub const SCALAR_LIMIT: i64 = 1_000_000_000_000;

/// Largest factor accepted by [`mul_ratio`]; `SCALAR_LIMIT * RATIO_LIMIT`
/// still fits in 63 bits.
pub const RATIO_LIMIT: u64 = 1_000_000;

/// `v` clamped into `[lo, hi]`.
pub open spec fn clamp_spec(v: int, lo: int, hi: int) -> int {
    if v < lo {
        lo
    } else if v > hi {
        hi
    } else {
        v
    }
}

/// Clamps `v` into `[lo, hi]`.
pub fn clamp_i64(v: i64, lo: i64, hi: i64) -> (r: i64)
    requires
        lo <= hi,
    ensures
        r == clamp_spec(v as int, lo as int, hi as int),
        lo <= r <= hi,
{
    if v < lo {
        lo
    } else if v > hi {
        hi
    } else {
        v
    }
}

/// Clamps `v` into `[lo, hi]`.
pub fn clamp_usize(v: usize, lo: usize, hi: usize) -> (r: usize)
    requires
        lo <= hi,
    ensures
        r == clamp_spec(v as int, lo as int, hi as int),
        lo <= r <= hi,
{
    if v < lo {
        lo
    } else if v > hi {
        hi
    } else {
        v
    }
}

/// Magnitude of `v` as a mathematical integer.
pub open spec fn abs_spec(v: int) -> int {
    if v >= 0 {
        v
    } else {
        -v
    }
}

/// Magnitude of `v`.
pub fn abs_i64(v: i64) -> (r: i64)
    requires
        v > i64::MIN,
    ensures
        r == abs_spec(v as int),
        r >= 0,
{
    if v >= 0 {
        v
    } else {
        -v
    }
}

/// `v * num / den`, scaling the magnitude and keeping the sign, with the
/// division rounding the magnitude down.
pub open spec fn mul_ratio_spec(v: int, num: int, den: int) -> int
    recommends
        den > 0,
{
    if v >= 0 {
        (v * num) / den
    } else {
        -(((-v) * num) / den)
    }
}

/// Multiplies `v` by the ratio `num / den`, rounding the magnitude toward
/// zero.  This is how a friction factor, a mass division, or a speed rescale
/// is applied to one axis of a vector.
pub fn mul_ratio(v: i64, num: u64, den: u64) -> (r: i64)
    requires
        1 <= den,
        num <= RATIO_LIMIT,
        -SCALAR_LIMIT <= v <= SCALAR_LIMIT,
    ensures
        r == mul_ratio_spec(v as int, num as int, den as int),
        abs_spec(r as int) <= abs_spec(v as int) * num,
{
    proof {
        lemma_ratio_bound(v as int, num as int, den as int);
    }
    let m: u64 = abs_i64(v) as u64;
    assert(m * num <= SCALAR_LIMIT * RATIO_LIMIT) by (nonlinear_arith)
        requires
            m <= SCALAR_LIMIT,
            num <= RATIO_LIMIT,
    ;
    let q: u64 = (m * num) / den;
    assert(q <= m * num) by {
        vstd::arithmetic::div_mod::lemma_div_nonincreasing((m * num) as int, den as int);
    }
    if v < 0 {
        -(q as i64)
    } else {
        q as i64
    }
}

/// The scaled value's magnitude is at most `|v| * num`: with `den >= 1` the
/// division only shrinks the product.
pub proof fn lemma_ratio_bound(v: int, num: int, den: int)
    requires
        1 <= den,
        0 <= num,
    ensures
        abs_spec(mul_ratio_spec(v, num, den)) <= abs_spec(v) * num,
{
    let m = abs_spec(v);
    vstd::arithmetic::div_mod::lemma_div_nonincreasing(m * num, den);
    assert(m * num >= 0) by (nonlinear_arith)
        requires
            m >= 0,
            num >= 0,
    ;
    vstd::arithmetic::div_mod::lemma_div_pos_is_pos(m * num, den);
}

/// A ratio below one never raises a magnitude, and strictly lowers a
/// nonzero one: this is what makes a friction factor a friction factor.
pub proof fn lemma_ratio_shrinks(v: int, num: int, den: int)
    requires
        1 <= den,
        0 <= num <= den,
    ensures
        abs_spec(mul_ratio_spec(v, num, den)) <= abs_spec(v),
        num < den && v != 0 ==> abs_spec(mul_ratio_spec(v, num, den)) < abs_spec(v),
{
    let m = abs_spec(v);
    assert(m * num >= 0) by (nonlinear_arith)
        requires
            m >= 0,
            num >= 0,
    ;
    vstd::arithmetic::div_mod::lemma_div_pos_is_pos(m * num, den);
    assert(m * num <= m * den) by (nonlinear_arith)
        requires
            m >= 0,
            num <= den,
    ;
    vstd::arithmetic::div_mod::lemma_div_is_ordered(m * num, m * den, den);
    assert(m * den == den * m) by (nonlinear_arith);
    vstd::arithmetic::div_mod::lemma_div_multiples_vanish(m, den);
    if num < den && v != 0 {
        assert(m * num < den * m) by (nonlinear_arith)
            requires
                m >= 1,
                0 <= num < den,
        ;
        vstd::arithmetic::div_mod::lemma_multiply_divide_lt(m * num, den, m);
    }
}

/// The scaled value's magnitude is exactly the truncating quotient of the
/// magnitudes' product.
pub proof fn lemma_ratio_abs(v: int, num: int, den: int)
    requires
        1 <= den,
        0 <= num,
    ensures
        abs_spec(mul_ratio_spec(v, num, den)) == (abs_spec(v) * num) / den,
{
    let m = abs_spec(v);
    assert(m * num >= 0) by (nonlinear_arith)
        requires
            m >= 0,
            num >= 0,
    ;
    vstd::arithmetic::div_mod::lemma_div_pos_is_pos(m * num, den);
}

/// Multiplying a truncating quotient back by the divisor comes in at or
/// under the dividend.
pub proof fn lemma_div_mul_le(x: int, d: int)
    requires
        0 <= x,
        1 <= d,
    ensures
        d * (x / d) <= x,
{
    vstd::arithmetic::div_mod::lemma_remainder_lower(x, d);
    assert(d * (x / d) == (x / d) * d) by (nonlinear_arith);
}

/// A quotient of a product by one of its factors' upper bounds stays at or
/// under the other factor: `a <= d` gives `(a * c) / d <= c`.
pub proof fn lemma_div_product_bound(a: int, c: int, d: int)
    requires
        0 <= a <= d,
        0 <= c,
        1 <= d,
    ensures
        (a * c) / d <= c,
{
    assert(a * c <= d * c) by (nonlinear_arith)
        requires
            0 <= a <= d,
            0 <= c,
    ;
    assert(a * c >= 0) by (nonlinear_arith)
        requires
            0 <= a,
            0 <= c,
    ;
    vstd::arithmetic::div_mod::lemma_div_is_ordered(a * c, d * c, d);
    assert(d * c == c * d) by (nonlinear_arith);
    vstd::arithmetic::div_mod::lemma_div_multiples_vanish(c, d);
}

/// A larger divisor gives a smaller (or equal) scaled magnitude: a heavier
/// entity rebounds no harder than a lighter one.
pub proof fn lemma_ratio_ordered_by_den(v: int, num: int, den1: int, den2: int)
    requires
        1 <= den1 <= den2,
        0 <= num,
    ensures
        abs_spec(mul_ratio_spec(v, num, den2)) <= abs_spec(mul_ratio_spec(v, num, den1)),
{
    let m = abs_spec(v);
    assert(m * num >= 0) by (nonlinear_arith)
        requires
            m >= 0,
            num >= 0,
    ;
    vstd::arithmetic::div_mod::lemma_div_is_ordered_by_denominator(m * num, den1, den2);
    vstd::arithmetic::div_mod::lemma_div_pos_is_pos(m * num, den1);
    vstd::arithmetic::div_mod::lemma_div_pos_is_pos(m * num, den2);
}

/// `r` is the integer square root of `n`.
pub open spec fn is_isqrt(n: int, r: int) -> bool {
    &&& 0 <= r
    &&& r * r <= n
    &&& n < (r + 1) * (r + 1)
}

/// The integer square root as a mathematical function.
pub open spec fn isqrt_spec(n: int) -> int {
    choose|r: int| is_isqrt(n, r)
}

/// Two integer square roots of the same number are equal.
pub proof fn lemma_isqrt_unique(n: int, r1: int, r2: int)
    requires
        is_isqrt(n, r1),
        is_isqrt(n, r2),
    ensures
        r1 == r2,
{
    assert(r1 == r2) by (nonlinear_arith)
        requires
            0 <= r1,
            0 <= r2,
            r1 * r1 <= n,
            n < (r1 + 1) * (r1 + 1),
            r2 * r2 <= n,
            n < (r2 + 1) * (r2 + 1),
    ;
}

/// The square root found by [`isqrt`] is the one [`isqrt_spec`] names.
pub proof fn lemma_isqrt_is_spec(n: int, r: int)
    requires
        is_isqrt(n, r),
    ensures
        isqrt_spec(n) == r,
{
    assert(is_isqrt(n, isqrt_spec(n))) by {
        assert(exists|q: int| is_isqrt(n, q));
    }
    lemma_isqrt_unique(n, isqrt_spec(n), r);
}

/// Every nonnegative number has an integer square root, so the chosen root
/// satisfies its own defining property.
pub proof fn lemma_isqrt_exists(n: int)
    requires
        n >= 0,
    ensures
        is_isqrt(n, isqrt_spec(n)),
    decreases n,
{
    if n == 0 {
        assert(is_isqrt(0, 0));
    } else {
        lemma_isqrt_exists(n - 1);
        let r = isqrt_spec(n - 1);
        if (r + 1) * (r + 1) <= n {
            assert(is_isqrt(n, r + 1)) by (nonlinear_arith)
                requires
                    is_isqrt(n - 1, r),
                    (r + 1) * (r + 1) <= n,
            ;
        } else {
            assert(is_isqrt(n, r));
        }
    }
    assert(exists|q: int| is_isqrt(n, q));
}

/// Largest value whose square still fits in `u64`.
pub const ISQRT_CAP: u64 = 4_294_967_295;

/// Integer square root of `n`, found by binary search.
pub fn isqrt(n: u64) -> (r: u64)
    ensures
        is_isqrt(n as int, r as int),
        r == isqrt_spec(n as int),
        r <= ISQRT_CAP,
{
    let mut lo: u64 = 0;
    let mut hi: u64 = ISQRT_CAP;
    assert((ISQRT_CAP + 1) * (ISQRT_CAP + 1) > u64::MAX) by (nonlinear_arith);
    while lo < hi
        invariant
            lo <= hi <= ISQRT_CAP,
            lo * lo <= n,
            n < (hi + 1) * (hi + 1),
        decreases hi - lo,
    {
        let mid: u64 = lo + (hi - lo + 1) / 2;
        assert(lo < mid <= hi);
        assert(mid * mid <= ISQRT_CAP * ISQRT_CAP) by (nonlinear_arith)
            requires
                mid <= ISQRT_CAP,
        ;
        assert(ISQRT_CAP * ISQRT_CAP < u64::MAX) by (nonlinear_arith);
        if mid * mid <= n {
            lo = mid;
        } else {
            hi = mid - 1;
        }
    }
    proof {
        lemma_isqrt_is_spec(n as int, lo as int);
    }
    lo
}

} // verus!
