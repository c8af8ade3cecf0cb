//! Fixed-point arithmetic: every geometric quantity in this crate is an
//! integer number of 1/65536 units.  All operations here have exact
//! mathematical contracts over `int`; division is floor division (which is
//! what Verus's Euclidean `/` means for a positive divisor).
use vstd::prelude::*;

verus! {

/// The fixed-point scale: 1.0 is represented as 65536.
pub const FP: i64 = 65536;

/// Floor division of a signed value by a positive divisor, as `int` division.
pub fn div_floor_i128(n: i128, d: i128) -> (q: i128)
    requires
        d > 0,
        n > i128::MIN,
    ensures
        q == n as int / d as int,
{
    if n >= 0 {
        let q: u128 = (n as u128) / (d as u128);
        q as i128
    } else {
        let m: u128 = (-n) as u128;
        let dd: u128 = d as u128;
        let qc: u128 = (m + (dd - 1)) / dd;
        proof {
            lemma_neg_div(n as int, d as int);
            lemma_ceil_div_le(m as int, dd as int);
            assert(qc == (m + (dd - 1)) as int / dd as int);
        }
        -(qc as i128)
    }
}

/// For m >= 1 and d >= 1, the rounded-up quotient (m + d - 1) / d is at most m.
proof fn lemma_ceil_div_le(m: int, d: int)
    requires
        m >= 1,
        d >= 1,
    ensures
        (m + d - 1) / d <= m,
{
    assert(m + d - 1 <= m * d) by (nonlinear_arith)
        requires
            m >= 1,
            d >= 1,
    ;
    vstd::arithmetic::div_mod::lemma_div_is_ordered(m + d - 1, m * d, d);
    vstd::arithmetic::div_mod::lemma_div_by_multiple(m, d);
}

/// For n < 0 and d > 0, Euclidean division rounds away from zero:
/// n / d == -((-n + d - 1) / d).
proof fn lemma_neg_div(n: int, d: int)
    requires
        d > 0,
        n < 0,
    ensures
        n / d == -(((-n) + d - 1) / d),
{
    let m = -n;
    let q = (m + d - 1) / d;
    let r = (m + d - 1) % d;
    vstd::arithmetic::div_mod::lemma_fundamental_div_mod(m + d - 1, d);
    assert(m + d - 1 == q * d + r);
    vstd::arithmetic::div_mod::lemma_mod_bound(m + d - 1, d);
    // n == -m == -(q*d + r - d + 1) == (-q)*d + (d - 1 - r)
    let rr = d - 1 - r;
    assert(n == (-q) * d + rr) by {
        assert((-q) * d == -(q * d)) by (nonlinear_arith);
    }
    assert(0 <= rr < d);
    vstd::arithmetic::div_mod::lemma_fundamental_div_mod_converse(n, d, -q, rr);
}

/// Fixed-point product: (a * b) / FP, rounding toward minus infinity.
pub open spec fn fmul(a: int, b: int) -> int {
    (a * b) / (FP as int)
}

/// Fixed-point quotient: (a * FP) / b for positive b, rounding toward minus
/// infinity.
pub open spec fn fdiv(a: int, b: int) -> int {
    (a * (FP as int)) / b
}

/// |a * b| <= bound_a * bound_b whenever |a| <= bound_a and |b| <= bound_b.
pub proof fn lemma_mul_abs_bound(a: int, b: int, bound_a: int, bound_b: int)
    requires
        -bound_a <= a <= bound_a,
        -bound_b <= b <= bound_b,
    ensures
        -(bound_a * bound_b) <= a * b <= bound_a * bound_b,
{
    assert(-(bound_a * bound_b) <= a * b <= bound_a * bound_b) by (nonlinear_arith)
        requires
            -bound_a <= a <= bound_a,
            -bound_b <= b <= bound_b,
    ;
}

/// Floor division by a positive divisor keeps a symmetric magnitude bound.
pub proof fn lemma_div_abs_bound(n: int, d: int, bound: int)
    requires
        d > 0,
        -bound <= n <= bound,
        bound >= 0,
    ensures
        -bound <= n / d <= bound,
{
    if bound == 0 {
        vstd::arithmetic::div_mod::lemma_basic_div(n, d);
    } else {
        vstd::arithmetic::div_mod::lemma_div_is_ordered(n, bound, d);
        vstd::arithmetic::div_mod::lemma_div_nonincreasing(bound, d);
        vstd::arithmetic::div_mod::lemma_div_is_ordered(-bound, n, d);
        if -bound < 0 {
            lemma_neg_div(-bound, d);
            lemma_ceil_div_le(bound, d);
        }
    }
}

/// Fixed-point multiplication of two i64 values.
pub fn fp_mul(a: i64, b: i64) -> (r: i64)
    requires
        i64::MIN <= fmul(a as int, b as int) <= i64::MAX,
    ensures
        r == fmul(a as int, b as int),
{
    proof {
        lemma_mul_abs_bound(a as int, b as int, 0x8000_0000_0000_0000, 0x8000_0000_0000_0000);
    }
    let p: i128 = (a as i128) * (b as i128);
    let q: i128 = div_floor_i128(p, FP as i128);
    q as i64
}

/// Fixed-point division a / b for nonzero b; the sign of b is factored out so
/// that the underlying floor division always sees a positive divisor.
pub fn fp_div(a: i64, b: i64) -> (r: i64)
    requires
        b != 0,
        b > 0 ==> i64::MIN <= fdiv(a as int, b as int) <= i64::MAX,
        b < 0 ==> i64::MIN <= fdiv(-(a as int), -(b as int)) <= i64::MAX,
    ensures
        b > 0 ==> r == fdiv(a as int, b as int),
        b < 0 ==> r == fdiv(-(a as int), -(b as int)),
{
    proof {
        lemma_mul_abs_bound(a as int, FP as int, 0x8000_0000_0000_0000, 0x1_0000);
    }
    let an: i128 = (a as i128) * (FP as i128);
    if b > 0 {
        let q: i128 = div_floor_i128(an, b as i128);
        q as i64
    } else {
        let q: i128 = div_floor_i128(-an, -(b as i128));
        proof {
            assert(-((a as int) * (FP as int)) == (-(a as int)) * (FP as int)) by (nonlinear_arith);
        }
        q as i64
    }
}

/// For a positive divisor, x / d >= k exactly when x >= k * d.
pub proof fn lemma_div_ge_iff(x: int, k: int, d: int)
    requires
        d > 0,
    ensures
        x / d >= k <==> x >= k * d,
{
    if x >= k * d {
        vstd::arithmetic::mul::lemma_mul_is_commutative(k, d);
        vstd::arithmetic::div_mod::lemma_div_is_ordered(k * d, x, d);
        vstd::arithmetic::div_mod::lemma_div_multiples_vanish(k, d);
    }
    if x / d >= k {
        vstd::arithmetic::div_mod::lemma_fundamental_div_mod(x, d);
        vstd::arithmetic::div_mod::lemma_mod_bound(x, d);
        vstd::arithmetic::mul::lemma_mul_inequality(k, x / d, d);
        vstd::arithmetic::mul::lemma_mul_is_commutative(x / d, d);
        vstd::arithmetic::mul::lemma_mul_is_commutative(k, d);
    }
}

/// For a positive divisor, |n| <= q * d implies |n / d| <= q.
pub proof fn lemma_div_quot_bound(n: int, d: int, q: int)
    requires
        d > 0,
        q >= 0,
        -(q * d) <= n <= q * d,
    ensures
        -q <= n / d <= q,
{
    lemma_div_ge_iff(n, -q, d);
    lemma_div_ge_iff(n, q + 1, d);
    assert((-q) * d == -(q * d)) by (nonlinear_arith);
    assert((q + 1) * d >= q * d + 1) by (nonlinear_arith)
        requires
            d >= 1,
    ;
}

/// Scaling by a fixed-point factor in [0, 1] cannot grow a magnitude bound.
pub proof fn lemma_fmul_in(t: int, d: int, q: int)
    requires
        0 <= t <= FP as int,
        -q <= d <= q,
        0 <= q,
    ensures
        -q <= fmul(t, d) <= q,
{
    assert(-(q * (FP as int)) <= t * d <= q * (FP as int)) by (nonlinear_arith)
        requires
            0 <= t <= FP as int,
            -q <= d <= q,
            0 <= q,
    ;
    lemma_div_quot_bound(t * d, FP as int, q);
}

/// Fixed-point division by a divisor of at least one ulp grows a magnitude
/// bound by at most the scale factor.
pub proof fn lemma_fdiv_in(a: int, b: int, q: int)
    requires
        1 <= b,
        -q <= a <= q,
        0 <= q,
    ensures
        -(q * 0x1_0000) <= fdiv(a, b) <= q * 0x1_0000,
{
    assert(-(q * 0x1_0000) <= a * (FP as int) <= q * 0x1_0000) by (nonlinear_arith)
        requires
            FP as int == 0x1_0000,
            -q <= a <= q,
            0 <= q,
    ;
    assert(q * 0x1_0000 >= 0) by (nonlinear_arith)
        requires
            q >= 0,
    ;
    lemma_div_abs_bound(a * (FP as int), b, q * 0x1_0000);
}

/// For an interpolation factor t in [0, 1], fmul(t, d) stays between 0 and d.
pub proof fn lemma_fmul_unit_interp(t: int, d: int)
    requires
        0 <= t <= FP as int,
    ensures
        d >= 0 ==> 0 <= fmul(t, d) <= d,
        d < 0 ==> d <= fmul(t, d) <= 0,
{
    if d >= 0 {
        assert(0 <= t * d <= d * (FP as int)) by (nonlinear_arith)
            requires
                0 <= t <= FP as int,
                d >= 0,
        ;
        vstd::arithmetic::div_mod::lemma_div_pos_is_pos(t * d, FP as int);
        lemma_div_ge_iff(t * d, d + 1, FP as int);
        assert((d + 1) * (FP as int) > d * (FP as int)) by (nonlinear_arith)
            requires
                FP as int > 0,
        ;
    } else {
        assert(d * (FP as int) <= t * d <= 0) by (nonlinear_arith)
            requires
                0 <= t <= FP as int,
                d < 0,
        ;
        lemma_div_ge_iff(t * d, d, FP as int);
        vstd::arithmetic::div_mod::lemma_div_is_ordered(t * d, 0, FP as int);
        vstd::arithmetic::div_mod::lemma_div_of0(FP as int);
    }
}

/// A factor of magnitude at most one (in fixed point) cannot grow a bound.
pub proof fn lemma_fmul_unit_abs(a: int, b: int, q: int)
    requires
        -(FP as int) <= a <= FP as int,
        -q <= b <= q,
        0 <= q,
    ensures
        -q <= fmul(a, b) <= q,
{
    assert(-(q * (FP as int)) <= a * b <= q * (FP as int)) by (nonlinear_arith)
        requires
            -(FP as int) <= a <= FP as int,
            -q <= b <= q,
            0 <= q,
    ;
    lemma_div_quot_bound(a * b, FP as int, q);
}

/// Dividing by the scale shrinks a product bound by the scale.
pub proof fn lemma_fmul_div_scale(n: int, q: int)
    requires
        -q * 0x1_0000 <= n <= q * 0x1_0000,
        0 <= q,
    ensures
        -q <= n / (FP as int) <= q,
{
    assert(q * (FP as int) == q * 0x1_0000) by (nonlinear_arith)
        requires
            FP as int == 0x1_0000,
    ;
    lemma_div_quot_bound(n, FP as int, q);
}

/// Division of a negated value relates to the negated rounded-up quotient.
pub proof fn lemma_neg_div_pub(n: int, d: int)
    requires
        d > 0,
        n > 0,
    ensures
        (-n) / d == -((n + d - 1) / d),
{
    lemma_neg_div(-n, d);
}

/// Multiplication by zero vanishes (stated for the solver, which treats
/// variable products opaquely).
pub proof fn lemma_mul_zero(a: int)
    ensures
        0 * a == 0,
        a * 0 == 0,
{
    assert(0 * a == 0) by (nonlinear_arith);
    assert(a * 0 == 0) by (nonlinear_arith);
}

/// r is the integer square root of n: r^2 <= n < (r+1)^2.
pub open spec fn is_isqrt(n: int, r: int) -> bool {
    0 <= r && r * r <= n && n < (r + 1) * (r + 1)
}

/// Every natural number has an integer square root.
pub proof fn lemma_isqrt_exists(n: int)
    requires
        n >= 0,
    ensures
        exists|r: int| #[trigger] is_isqrt(n, r),
    decreases n,
{
    if n == 0 {
        assert(is_isqrt(0, 0));
    } else {
        lemma_isqrt_exists(n - 1);
        let r = choose|r: int| #[trigger] is_isqrt(n - 1, r);
        if (r + 1) * (r + 1) <= n {
            assert(n - 1 < (r + 1) * (r + 1));
            assert(n == (r + 1) * (r + 1));
            assert((r + 2) * (r + 2) > n) by (nonlinear_arith)
                requires
                    n == (r + 1) * (r + 1),
                    r >= 0,
            ;
            assert(is_isqrt(n, r + 1));
        } else {
            assert(is_isqrt(n, r));
        }
    }
}

/// The integer square root is unique.
pub proof fn lemma_isqrt_unique(n: int, r1: int, r2: int)
    requires
        is_isqrt(n, r1),
        is_isqrt(n, r2),
    ensures
        r1 == r2,
{
    if r1 < r2 {
        assert((r1 + 1) * (r1 + 1) <= r2 * r2) by (nonlinear_arith)
            requires
                0 <= r1,
                r1 + 1 <= r2,
        ;
    }
    if r2 < r1 {
        assert((r2 + 1) * (r2 + 1) <= r1 * r1) by (nonlinear_arith)
            requires
                0 <= r2,
                r2 + 1 <= r1,
        ;
    }
}

/// The integer square root of n, as a spec-level function.
pub open spec fn isqrt_spec(n: int) -> int {
    choose|r: int| #[trigger] is_isqrt(n, r)
}

/// Integer square root by binary search.
pub fn isqrt(n: u128) -> (r: u128)
    ensures
        r as int == isqrt_spec(n as int),
        is_isqrt(n as int, r as int),
{
    let mut lo: u128 = 0;
    let mut hi: u128 = 0x1_0000_0000_0000_0000;
    proof {
        assert((hi as int) * (hi as int) > n as int) by (nonlinear_arith)
            requires
                hi as int == 0x1_0000_0000_0000_0000,
                n <= u128::MAX,
        ;
    }
    while lo + 1 < hi
        invariant
            0 <= lo < hi <= 0x1_0000_0000_0000_0000,
            (lo as int) * (lo as int) <= n as int,
            (hi as int) * (hi as int) > n as int,
        decreases hi - lo,
    {
        let mid: u128 = lo + (hi - lo) / 2;
        proof {
            assert((mid as int) * (mid as int) <= (0xffff_ffff_ffff_ffffint) * (0xffff_ffff_ffff_ffffint))
                by (nonlinear_arith)
                requires
                    0 <= mid as int <= 0xffff_ffff_ffff_ffffint,
            ;
        }
        if mid * mid <= n {
            lo = mid;
        } else {
            hi = mid;
        }
    }
    proof {
        assert(is_isqrt(n as int, lo as int));
        lemma_isqrt_exists(n as int);
        lemma_isqrt_unique(n as int, lo as int, isqrt_spec(n as int));
    }
    lo
}

/// Absolute value, staying in i64.
pub fn abs_i64(a: i64) -> (r: i64)
    requires
        a != i64::MIN,
    ensures
        r == if a >= 0 { a as int } else { -(a as int) },
{
    if a >= 0 {
        a
    } else {
        -a
    }
}

/// Square root in fixed point: the largest r with (r/FP)^2 <= x/FP, i.e. the
/// integer square root of x * FP.
pub fn fp_sqrt(x: i64) -> (r: i64)
    requires
        x >= 0,
    ensures
        r as int == isqrt_spec(x as int * FP as int),
        r >= 0,
{
    proof {
        lemma_mul_abs_bound(x as int, FP as int, 0x7fff_ffff_ffff_ffff, 0x1_0000);
    }
    let n: u128 = (x as u128) * (FP as u128);
    let r: u128 = isqrt(n);
    proof {
        assert(r as int <= 0x1_0000_0000_0000) by (nonlinear_arith)
            requires
                (r as int) * (r as int) <= n as int,
                n as int <= 0x7fff_ffff_ffff_ffffint * 0x1_0000int,
                r >= 0,
        ;
    }
    r as i64
}

} // verus!
