//! Fixed-point trigonometry and logarithm.  The specs transcribe the
//! approximation algorithms exactly (a Taylor polynomial with quadrant
//! reduction for sine, binary-search inversion for arccos, and a base-two
//! digit recurrence for the logarithm), so callers reason about the precise
//! values the library computes.
use vstd::prelude::*;
use crate::fixed::{FP, fmul, fdiv, div_floor_i128};

verus! {

/// pi in fixed point (pi * 65536, rounded).
pub const PI_FP: i64 = 205887;

/// pi/2 in fixed point.
pub const HALF_PI_FP: i64 = 102944;

/// 2*pi in fixed point.
pub const TWO_PI_FP: i64 = 411775;

/// ln(2) in fixed point.
pub const LN2_FP: i64 = 45426;

/// The Taylor polynomial x - x^3/6 + x^5/120 - x^7/5040 evaluated in fixed
/// point; accurate on [0, pi/2].
pub open spec fn sin_taylor(y: int) -> int {
    let y2 = fmul(y, y);
    let y3 = fmul(y, y2);
    let y5 = fmul(y3, y2);
    let y7 = fmul(y5, y2);
    y - y3 / 6 + y5 / 120 - y7 / 5040
}

/// Quadrant reduction of sine onto [0, pi/2], for x in [0, 2*pi].
pub open spec fn sin_reduced(x: int) -> int {
    if x <= HALF_PI_FP {
        sin_taylor(x)
    } else if x <= PI_FP {
        sin_taylor(PI_FP - x)
    } else if x <= PI_FP + HALF_PI_FP {
        -sin_taylor(x - PI_FP)
    } else {
        -sin_taylor(TWO_PI_FP - x)
    }
}

/// Fixed-point sine on [-2*pi, 2*pi], clamped into [-1, 1].
pub open spec fn sin_spec(x: int) -> int {
    let xn = if x < 0 {
        x + TWO_PI_FP
    } else {
        x
    };
    let s = sin_reduced(xn);
    if s > FP {
        FP as int
    } else if s < -FP {
        -(FP as int)
    } else {
        s
    }
}

/// Fixed-point cosine on [-2*pi, 2*pi]: sine shifted a quarter turn.
pub open spec fn cos_spec(x: int) -> int {
    let y = x + HALF_PI_FP;
    if y > TWO_PI_FP {
        sin_spec(y - TWO_PI_FP)
    } else {
        sin_spec(y)
    }
}

/// The Taylor part of the sine evaluation.
fn sin_taylor_exec(y: i64) -> (r: i64)
    requires
        0 <= y <= HALF_PI_FP + 1,
    ensures
        r == sin_taylor(y as int),
        -0x10_0000 <= r <= 0x10_0000,
{
    proof {
        lemma_small_products(y as int);
    }
    let y2 = crate::fixed::fp_mul(y, y);
    let y3 = crate::fixed::fp_mul(y, y2);
    let y5 = crate::fixed::fp_mul(y3, y2);
    let y7 = crate::fixed::fp_mul(y5, y2);
    let q3 = div_floor_i128(y3 as i128, 6) as i64;
    let q5 = div_floor_i128(y5 as i128, 120) as i64;
    let q7 = div_floor_i128(y7 as i128, 5040) as i64;
    y - q3 + q5 - q7
}

/// Bounds of the Taylor powers for arguments up to pi/2.
proof fn lemma_small_products(y: int)
    requires
        0 <= y <= HALF_PI_FP + 1,
    ensures
        0 <= fmul(y, y) <= 0x4_0000,
        0 <= fmul(y, fmul(y, y)) <= 0x8_0000,
        0 <= fmul(fmul(y, fmul(y, y)), fmul(y, y)) <= 0x20_0000,
        0 <= fmul(fmul(fmul(y, fmul(y, y)), fmul(y, y)), fmul(y, y)) <= 0x80_0000,
        0 <= fmul(y, fmul(y, y)) / 6 <= 0x8_0000,
        0 <= fmul(fmul(y, fmul(y, y)), fmul(y, y)) / 120 <= 0x20_0000,
        0 <= fmul(fmul(fmul(y, fmul(y, y)), fmul(y, y)), fmul(y, y)) / 5040 <= 0x80_0000,
{
    let fp = FP as int;
    lemma_fmul_range(y, y, 0x2_0000, 0x2_0000);
    let y2 = fmul(y, y);
    assert(y2 <= 0x4_0000);
    lemma_fmul_range(y, y2, 0x2_0000, 0x4_0000);
    let y3 = fmul(y, y2);
    lemma_fmul_range(y3, y2, 0x8_0000, 0x4_0000);
    let y5 = fmul(y3, y2);
    lemma_fmul_range(y5, y2, 0x20_0000, 0x4_0000);
    vstd::arithmetic::div_mod::lemma_div_pos_is_pos(y3, 6);
    vstd::arithmetic::div_mod::lemma_div_pos_is_pos(y5, 120);
    vstd::arithmetic::div_mod::lemma_div_pos_is_pos(fmul(y5, y2), 5040);
    vstd::arithmetic::div_mod::lemma_div_nonincreasing(y3, 6);
    vstd::arithmetic::div_mod::lemma_div_nonincreasing(y5, 120);
    vstd::arithmetic::div_mod::lemma_div_nonincreasing(fmul(y5, y2), 5040);
}

/// For 0 <= a <= ba and 0 <= b <= bb, fmul(a, b) lies in [0, ba * bb / FP].
proof fn lemma_fmul_range(a: int, b: int, ba: int, bb: int)
    requires
        0 <= a <= ba,
        0 <= b <= bb,
    ensures
        0 <= fmul(a, b) <= ba * bb / (FP as int),
{
    assert(0 <= a * b <= ba * bb) by (nonlinear_arith)
        requires
            0 <= a <= ba,
            0 <= b <= bb,
    ;
    vstd::arithmetic::div_mod::lemma_div_pos_is_pos(a * b, FP as int);
    vstd::arithmetic::div_mod::lemma_div_is_ordered(a * b, ba * bb, FP as int);
}

/// Fixed-point sine, exactly as sin_spec describes it.
pub fn sin_fp(x: i64) -> (r: i64)
    requires
        -TWO_PI_FP <= x <= TWO_PI_FP,
    ensures
        r == sin_spec(x as int),
        -FP <= r <= FP,
{
    let xn: i64 = if x < 0 {
        x + TWO_PI_FP
    } else {
        x
    };
    let s: i64 = if xn <= HALF_PI_FP {
        sin_taylor_exec(xn)
    } else if xn <= PI_FP {
        sin_taylor_exec(PI_FP - xn)
    } else if xn <= PI_FP + HALF_PI_FP {
        -sin_taylor_exec(xn - PI_FP)
    } else {
        -sin_taylor_exec(TWO_PI_FP - xn)
    };
    if s > FP {
        FP
    } else if s < -FP {
        -FP
    } else {
        s
    }
}

/// Fixed-point cosine, exactly as cos_spec describes it.
pub fn cos_fp(x: i64) -> (r: i64)
    requires
        -TWO_PI_FP <= x <= TWO_PI_FP,
    ensures
        r == cos_spec(x as int),
        -FP <= r <= FP,
{
    let y = x + HALF_PI_FP;
    if y > TWO_PI_FP {
        sin_fp(y - TWO_PI_FP)
    } else {
        sin_fp(y)
    }
}

/// Degrees (fixed point) to radians (fixed point).
pub fn to_radians(deg: i64) -> (r: i64)
    requires
        -0x2000_0000 <= deg <= 0x2000_0000,
    ensures
        r == fmul(deg as int, PI_FP as int) / 180,
{
    proof {
        crate::fixed::lemma_mul_abs_bound(deg as int, PI_FP as int, 0x2000_0000, 0x4_0000);
        crate::fixed::lemma_div_abs_bound(deg as int * PI_FP as int, FP as int, 0x8_0000_0000_0000);
        crate::fixed::lemma_div_abs_bound(fmul(deg as int, PI_FP as int), 180, 0x8_0000_0000_0000);
    }
    let p = crate::fixed::fp_mul(deg, PI_FP);
    div_floor_i128(p as i128, 180) as i64
}

/// The angle the arccos binary search settles on: halve [lo, hi) against
/// cos_spec until one value is left.
pub open spec fn acos_search(lo: int, hi: int, y: int) -> int
    decreases hi - lo,
{
    if lo + 1 >= hi {
        lo
    } else {
        let mid = lo + (hi - lo) / 2;
        if cos_spec(mid) >= y {
            acos_search(mid, hi, y)
        } else {
            acos_search(lo, mid, y)
        }
    }
}

/// Arccos by binary search against cos_spec: returns the largest angle r in
/// [0, pi) whose cosine is still at least y (cosine decreases on [0, pi]).
pub fn acos_fp(y: i64) -> (r: i64)
    requires
        -FP <= y <= FP,
    ensures
        r == acos_search(0, PI_FP as int, y as int),
        0 <= r < PI_FP,
        r == 0 || cos_spec(r as int) >= y,
        r + 1 == PI_FP || cos_spec(r as int + 1) < y,
{
    let mut lo: i64 = 0;
    let mut hi: i64 = PI_FP;
    while lo + 1 < hi
        invariant
            0 <= lo < hi <= PI_FP,
            lo == 0 || cos_spec(lo as int) >= y,
            hi == PI_FP || cos_spec(hi as int) < y,
            -FP <= y <= FP,
            acos_search(lo as int, hi as int, y as int) == acos_search(0, PI_FP as int, y as int),
        decreases hi - lo,
    {
        let mid = lo + (hi - lo) / 2;
        if cos_fp(mid) >= y {
            lo = mid;
        } else {
            hi = mid;
        }
    }
    lo
}

/// One digit-recurrence normalization step count: halve m until it is below
/// 2.0, counting the halvings.
pub open spec fn norm2(m: int) -> (int, int)
    decreases m,
{
    if m < 2 * FP || m <= 0 {
        (m, 0)
    } else {
        let sub = norm2(m / 2);
        (sub.0, sub.1 + 1)
    }
}

/// The fractional base-two logarithm digits of m in [1.0, 2.0), produced by
/// the squaring recurrence, as an integer in [0, 2^rounds).
pub open spec fn log2_frac(m: int, rounds: nat) -> int
    decreases rounds,
{
    if rounds == 0 {
        0
    } else {
        let mm = fmul(m, m);
        if mm >= 2 * FP {
            p2((rounds - 1) as nat) + log2_frac(mm / 2, (rounds - 1) as nat)
        } else {
            log2_frac(mm, (rounds - 1) as nat)
        }
    }
}

/// Powers of two.
pub open spec fn p2(k: nat) -> int
    decreases k,
{
    if k == 0 {
        1
    } else {
        2 * p2((k - 1) as nat)
    }
}

proof fn lemma_p2_bounds(k: nat)
    requires
        k <= 16,
    ensures
        1 <= p2(k) <= 65536,
    decreases k,
{
    if k > 0 {
        lemma_p2_bounds((k - 1) as nat);
        assert(p2(16) == 65536) by {
            reveal_with_fuel(p2, 17);
        }
        if p2(k) > 65536 {
            lemma_p2_mono(k, 16);
        }
    }
}

proof fn lemma_p2_mono(a: nat, b: nat)
    requires
        a <= b,
    ensures
        p2(a) <= p2(b),
        p2(a) >= 1,
    decreases b,
{
    if a < b {
        lemma_p2_mono(a, (b - 1) as nat);
    } else if a > 0 {
        lemma_p2_mono((a - 1) as nat, (b - 1) as nat);
    }
}

/// The natural logarithm of FP*FP / u for a draw u in [1, FP], in fixed
/// point: ln2 times the base-two logarithm computed by norm2 and log2_frac.
pub open spec fn neg_ln_unit(u: int) -> int {
    let big = (FP * FP) / u;
    let norm = norm2(big);
    fmul(norm.1 * FP + log2_frac(norm.0, 16), LN2_FP as int)
}

/// -ln(u / FP) for u in [1, FP], in fixed point; 0 when u = FP.
pub fn neg_ln_unit_fp(u: i64) -> (r: i64)
    requires
        1 <= u <= FP,
    ensures
        r == neg_ln_unit(u as int),
        0 <= r <= 17 * LN2_FP,
{
    proof {
        assert(FP as int * FP as int == 0x1_0000_0000);
        vstd::arithmetic::div_mod::lemma_div_pos_is_pos(0x1_0000_0000, u as int);
        vstd::arithmetic::div_mod::lemma_div_nonincreasing(0x1_0000_0000, u as int);
        crate::fixed::lemma_div_ge_iff(0x1_0000_0000, FP as int, u as int);
        assert(FP as int * u as int <= 0x1_0000_0000) by (nonlinear_arith)
            requires
                1 <= u as int <= FP as int,
                FP == 65536,
        ;
    }
    let big: i64 = ((FP as i128 * FP as i128) / (u as i128)) as i64;
    proof {
        assert(big as int * p2(0) == big as int) by (nonlinear_arith)
            requires
                p2(0) == 1,
        ;
    }
    let mut m: i64 = big;
    let mut k: i64 = 0;
    while m >= 2 * FP
        invariant
            FP <= m <= 0x1_0000_0000,
            0 <= k,
            m as int * p2(k as nat) <= 0x1_0000_0000,
            norm2(big as int) == (norm2(m as int).0, norm2(m as int).1 + k),
        decreases m,
    {
        proof {
            lemma_k_from_p2(m as int, k as nat);
            vstd::arithmetic::div_mod::lemma_div_is_strictly_smaller(m as int, 2);
            crate::fixed::lemma_div_ge_iff(m as int, FP as int, 2);
            assert(2 * (m as int / 2) <= m as int) by {
                vstd::arithmetic::div_mod::lemma_fundamental_div_mod(m as int, 2);
                vstd::arithmetic::div_mod::lemma_mod_bound(m as int, 2);
            }
            lemma_p2_mono(0, k as nat);
            assert((m as int / 2) * p2((k + 1) as nat) <= m as int * p2(k as nat))
                by (nonlinear_arith)
                requires
                    p2((k + 1) as nat) == 2 * p2(k as nat),
                    2 * (m as int / 2) <= m as int,
                    p2(k as nat) >= 0,
            ;
        }
        m = m / 2;
        k = k + 1;
    }
    proof {
        lemma_k_from_p2(m as int, k as nat);
    }
    // now FP <= m < 2*FP: extract 16 fractional digits by squaring
    let ghost m0 = m as int;
    let mut f: i64 = 0;
    let mut i: usize = 0;
    while i < 16
        invariant
            FP <= m < 2 * FP,
            0 <= f,
            f < p2(i as nat),
            i <= 16,
            log2_frac(m0, 16) == f * p2((16 - i) as nat) + log2_frac(m as int, (16 - i) as nat),
        decreases 16 - i,
    {
        proof {
            lemma_p2_bounds(i as nat);
            lemma_p2_bounds((16 - i) as nat);
            lemma_p2_bounds((15 - i) as nat);
            assert(0 <= m as int * m as int <= 0x3_fffc_0001) by (nonlinear_arith)
                requires
                    0 <= m as int <= 0x1_ffff,
            ;
            vstd::arithmetic::div_mod::lemma_div_pos_is_pos(m as int * m as int, FP as int);
            vstd::arithmetic::div_mod::lemma_div_is_ordered(
                m as int * m as int,
                0x3_fffc_0001,
                FP as int,
            );
            assert(fmul(m as int, m as int) <= 0x3_fffc);
            assert(fmul(m as int, m as int) >= FP) by {
                assert(m as int * m as int >= 0x1_0000_0000) by (nonlinear_arith)
                    requires
                        m as int >= 0x1_0000,
                ;
                crate::fixed::lemma_div_ge_iff(m as int * m as int, FP as int, FP as int);
            }
        }
        let mm = crate::fixed::fp_mul(m, m);
        proof {
            crate::fixed::lemma_div_ge_iff(mm as int, FP as int, 2);
            crate::fixed::lemma_div_ge_iff(mm as int, 2 * FP as int, 2);
        }
        let ghost f_old = f as int;
        let ghost i_old = i as nat;
        if mm >= 2 * FP {
            m = mm / 2;
            f = f * 2 + 1;
        } else {
            m = mm;
            f = f * 2;
        }
        i = i + 1;
        proof {
            assert(p2((16 - i_old) as nat) == 2 * p2((15 - i_old) as nat));
            assert((f_old * 2 + 1) * p2((15 - i_old) as nat) == f_old * (2 * p2(
                (15 - i_old) as nat,
            )) + p2((15 - i_old) as nat)) by (nonlinear_arith);
            assert((f_old * 2) * p2((15 - i_old) as nat) == f_old * (2 * p2((15 - i_old) as nat)))
                by (nonlinear_arith);
        }
    }
    proof {
        assert(log2_frac(m as int, 0) == 0);
        assert(p2(0) == 1);
        assert(f * 1 == f as int) by (nonlinear_arith);
        lemma_p2_bounds(16);
        assert(norm2(big as int).1 == k && norm2(big as int).0 == m0) by {
            assert(norm2(m as int) == (m as int, 0int));
        }
    }
    let lg: i64 = k * FP + f;
    proof {
        lemma_fmul_range(lg as int, LN2_FP as int, 17 * FP as int, LN2_FP as int);
        assert(17 * FP as int * LN2_FP as int / (FP as int) == 17 * LN2_FP);
        lemma_log2_frac_nonneg(m0, 16);
    }
    crate::fixed::fp_mul(lg, LN2_FP)
}

/// With m at least 1.0 and m * 2^k at most 2^32, at most 16 halvings have
/// happened.
proof fn lemma_k_from_p2(m: int, k: nat)
    requires
        m >= FP,
        m * p2(k) <= 0x1_0000_0000,
    ensures
        k <= 16,
{
    lemma_p2_mono(0, k);
    assert(FP as int * p2(k) <= m * p2(k)) by (nonlinear_arith)
        requires
            m >= FP as int,
            p2(k) >= 1,
    ;
    if k > 16 {
        lemma_p2_mono(17, k);
        assert(p2(17) == 131072) by {
            reveal_with_fuel(p2, 18);
        }
        assert(FP as int * p2(k) >= FP as int * 131072) by (nonlinear_arith)
            requires
                p2(k) >= 131072,
                FP as int > 0,
        ;
    }
}

proof fn lemma_log2_frac_nonneg(m: int, rounds: nat)
    ensures
        log2_frac(m, rounds) >= 0,
    decreases rounds,
{
    if rounds > 0 {
        let mm = fmul(m, m);
        if mm >= 2 * FP {
            lemma_log2_frac_nonneg(mm / 2, (rounds - 1) as nat);
            lemma_p2_mono(0, (rounds - 1) as nat);
        } else {
            lemma_log2_frac_nonneg(mm, (rounds - 1) as nat);
        }
    }
}

} // verus!
