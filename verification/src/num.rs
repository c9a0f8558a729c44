//! Scaled-integer arithmetic helpers: truncating division and integer
//! square root, each with an exact specification.

use vstd::prelude::*;

verus! {

/// Division rounding toward zero, the rounding every scaled-integer
/// computation in this crate uses. Equals Euclidean division for a
/// nonnegative dividend; for a negative dividend the magnitude is divided
/// and the sign restored.
pub open spec fn tdiv(a: int, b: int) -> int {
    if a >= 0 {
        a / b
    } else {
        -((-a) / b)
    }
}

/// Divide two scaled integers, rounding toward zero.
pub fn div_i128(a: i128, b: i128) -> (r: i128)
    requires
        b >= 1,
        a > i128::MIN,
    ensures
        r == tdiv(a as int, b as int),
{
    if a >= 0 {
        let q: u128 = (a as u128) / (b as u128);
        proof {
            assert(q == a as int / b as int);
            assert(a as int / b as int <= a as int) by {
                vstd::arithmetic::div_mod::lemma_div_is_ordered_by_denominator(a as int, 1, b as int);
                vstd::arithmetic::div_mod::lemma_div_by_multiple(a as int, 1);
            }
            assert(a as int / b as int >= 0) by {
                vstd::arithmetic::div_mod::lemma_div_pos_is_pos(a as int, b as int);
            }
        }
        q as i128
    } else {
        let m: u128 = ((-a) as u128) / (b as u128);
        proof {
            assert(m == (-a) as int / b as int);
            assert((-a) as int / b as int <= (-a) as int) by {
                vstd::arithmetic::div_mod::lemma_div_is_ordered_by_denominator((-a) as int, 1, b as int);
                vstd::arithmetic::div_mod::lemma_div_by_multiple((-a) as int, 1);
            }
            assert((-a) as int / b as int >= 0) by {
                vstd::arithmetic::div_mod::lemma_div_pos_is_pos((-a) as int, b as int);
            }
        }
        -(m as i128)
    }
}

/// Sum of `f(lo) + f(lo + 1) + ... + f(hi - 1)`.
pub open spec fn sum_int(lo: int, hi: int, f: spec_fn(int) -> int) -> int
    decreases hi - lo,
{
    if lo >= hi {
        0
    } else {
        sum_int(lo, hi - 1, f) + f(hi - 1)
    }
}

/// A pointwise bound on the summand bounds the sum.
pub proof fn lemma_sum_int_bound(lo: int, hi: int, f: spec_fn(int) -> int, a: int, b: int)
    requires
        lo <= hi,
        forall|k: int| lo <= k < hi ==> a <= #[trigger] f(k) <= b,
    ensures
        (hi - lo) * a <= sum_int(lo, hi, f) <= (hi - lo) * b,
    decreases hi - lo,
{
    if lo < hi {
        lemma_sum_int_bound(lo, hi - 1, f, a, b);
        assert(a <= f(hi - 1) <= b);
        assert((hi - 1 - lo) * a + a == (hi - lo) * a) by (nonlinear_arith);
        assert((hi - 1 - lo) * b + b == (hi - lo) * b) by (nonlinear_arith);
    } else {
        assert(0 * a == 0 && 0 * b == 0) by (nonlinear_arith);
    }
}

/// Pointwise order of summands gives order of sums.
pub proof fn lemma_sum_int_le(lo: int, hi: int, f: spec_fn(int) -> int, g: spec_fn(int) -> int)
    requires
        forall|k: int| lo <= k < hi ==> #[trigger] f(k) <= #[trigger] g(k),
    ensures
        sum_int(lo, hi, f) <= sum_int(lo, hi, g),
    decreases hi - lo,
{
    if lo < hi {
        lemma_sum_int_le(lo, hi - 1, f, g);
    }
}

/// Pointwise equal summands give equal sums.
pub proof fn lemma_sum_int_eq(lo: int, hi: int, f: spec_fn(int) -> int, g: spec_fn(int) -> int)
    requires
        forall|k: int| lo <= k < hi ==> #[trigger] f(k) == #[trigger] g(k),
    ensures
        sum_int(lo, hi, f) == sum_int(lo, hi, g),
    decreases hi - lo,
{
    if lo < hi {
        lemma_sum_int_eq(lo, hi - 1, f, g);
    }
}

/// A constant factor distributes over a sum.
pub proof fn lemma_sum_int_scale(lo: int, hi: int, f: spec_fn(int) -> int, g: spec_fn(int) -> int, c: int)
    requires
        forall|k: int| lo <= k < hi ==> #[trigger] f(k) == c * g(k),
    ensures
        sum_int(lo, hi, f) == c * sum_int(lo, hi, g),
    decreases hi - lo,
{
    if lo < hi {
        lemma_sum_int_scale(lo, hi - 1, f, g, c);
        assert(c * sum_int(lo, hi - 1, g) + c * g(hi - 1) == c * (sum_int(lo, hi - 1, g) + g(hi - 1)))
            by (nonlinear_arith);
    } else {
        assert(c * 0 == 0) by (nonlinear_arith);
    }
}

/// Division by a positive divisor keeps a two-sided multiple bound.
pub proof fn lemma_tdiv_bound(a: int, b: int, c: int)
    requires
        1 <= b,
        0 <= c,
        -(b * c) <= a <= b * c,
    ensures
        -c <= tdiv(a, b) <= c,
{
    if a >= 0 {
        vstd::arithmetic::div_mod::lemma_div_pos_is_pos(a, b);
        vstd::arithmetic::div_mod::lemma_div_is_ordered(a, b * c, b);
        vstd::arithmetic::div_mod::lemma_div_multiples_vanish(c, b);
    } else {
        vstd::arithmetic::div_mod::lemma_div_pos_is_pos(-a, b);
        vstd::arithmetic::div_mod::lemma_div_is_ordered(-a, b * c, b);
        vstd::arithmetic::div_mod::lemma_div_multiples_vanish(c, b);
    }
}

/// A two-sided multiple bound on a nonnegative dividend bounds the quotient,
/// where rounding toward zero and floor division agree.
pub proof fn lemma_div_range(a: int, b: int, lo: int, hi: int)
    requires
        1 <= b,
        0 <= lo,
        lo * b <= a <= hi * b,
    ensures
        lo <= a / b <= hi,
        tdiv(a, b) == a / b,
{
    assert(0 <= lo * b && lo * b == b * lo && hi * b == b * hi) by (nonlinear_arith)
        requires 0 <= lo && 1 <= b;
    vstd::arithmetic::div_mod::lemma_div_is_ordered(lo * b, a, b);
    vstd::arithmetic::div_mod::lemma_div_is_ordered(a, hi * b, b);
    vstd::arithmetic::div_mod::lemma_div_multiples_vanish(lo, b);
    vstd::arithmetic::div_mod::lemma_div_multiples_vanish(hi, b);
}

/// Division of a nonnegative value by a positive divisor never grows it.
pub proof fn lemma_tdiv_le_self(a: int, b: int)
    requires
        0 <= a,
        1 <= b,
    ensures
        0 <= tdiv(a, b) <= a,
{
    vstd::arithmetic::div_mod::lemma_div_pos_is_pos(a, b);
    vstd::arithmetic::div_mod::lemma_div_is_ordered_by_denominator(a, 1, b);
    vstd::arithmetic::div_mod::lemma_div_by_multiple(a, 1);
}

/// The unique nonnegative integer square root: `r * r <= n < (r + 1) * (r + 1)`.
pub open spec fn is_isqrt(n: int, r: int) -> bool {
    &&& 0 <= r
    &&& r * r <= n
    &&& n < (r + 1) * (r + 1)
}

/// Integer square root by bisection.
pub fn isqrt_u128(n: u128) -> (r: u128)
    requires
        n < 0x4000_0000_0000_0000_0000_0000_0000_0000u128,
    ensures
        is_isqrt(n as int, r as int),
{
    let mut lo: u128 = 0;
    let mut hi: u128 = 0x8000_0000_0000_0000u128;
    proof {
        assert((0x8000_0000_0000_0000u128 as int) * (0x8000_0000_0000_0000u128 as int)
            == 0x4000_0000_0000_0000_0000_0000_0000_0000int) by (nonlinear_arith);
    }
    while lo + 1 < hi
        invariant
            0 <= lo < hi <= 0x8000_0000_0000_0000u128,
            lo * lo <= n,
            n < hi * hi,
        decreases hi - lo,
    {
        let mid: u128 = lo + (hi - lo) / 2;
        assert(lo < mid < hi);
        proof {
            assert(mid * mid <= 0x4000_0000_0000_0000_0000_0000_0000_0000int) by (nonlinear_arith)
                requires mid <= 0x8000_0000_0000_0000u128;
        }
        if mid * mid <= n {
            lo = mid;
        } else {
            hi = mid;
        }
    }
    assert(hi == lo + 1);
    lo
}

} // verus!
