//! A pure, explicitly seeded pseudo-random generator (xorshift with a
//! multiplicative output mix).  Every draw is an exact function of the seed,
//! which keeps rendering reproducible; fresh entropy for a default seed is
//! the only thing taken from the outside.
use vstd::prelude::*;
use crate::fixed::{FP, fmul};

verus! {

/// One xorshift state transition.
pub open spec fn rng_step(x: u64) -> u64 {
    let a = x ^ (x >> 12);
    let b = a ^ (a << 25);
    b ^ (b >> 27)
}

/// The output mix applied to a state: multiplication modulo 2^64.
pub open spec fn rng_out(x: u64) -> u64 {
    ((x as int * 0x2545_f491_4f6c_dd1d) % 0x1_0000_0000_0000_0000) as u64
}

/// A nonzero state for any requested seed.
pub open spec fn seed_state(seed: u64) -> u64 {
    if seed == 0 {
        0x9e37_79b9_7f4a_7c15u64
    } else {
        seed
    }
}

#[derive(Clone, Copy, Debug, PartialEq, Eq, Structural)]
pub struct Rng64 {
    pub state: u64,
}

impl Rng64 {
    pub fn new(seed: u64) -> (r: Rng64)
        ensures
            r.state == seed_state(seed),
    {
        Rng64 { state: if seed == 0 { 0x9e37_79b9_7f4a_7c15u64 } else { seed } }
    }

    /// Advance the state and return the mixed output.
    pub fn next_u64(&mut self) -> (r: u64)
        ensures
            final(self).state == rng_step(old(self).state),
            r == rng_out(rng_step(old(self).state)),
    {
        let a: u64 = self.state ^ (self.state >> 12);
        let b: u64 = a ^ (a << 25);
        let c: u64 = b ^ (b >> 27);
        self.state = c;
        c.wrapping_mul(0x2545_f491_4f6c_dd1d)
    }

    /// A fixed-point value uniform over [0, 1): the low 16 bits of a draw.
    pub fn next_unit_fp(&mut self) -> (r: i64)
        ensures
            final(self).state == rng_step(old(self).state),
            r == unit_fp_of(rng_out(rng_step(old(self).state))),
            0 <= r < FP,
    {
        let v = self.next_u64();
        (v % (FP as u64)) as i64
    }

    /// A fixed-point value uniform over [min, max):
    /// min + (max - min) * u for a unit draw u.
    pub fn next_range_fp(&mut self, min: i64, max: i64) -> (r: i64)
        requires
            -0x4000_0000_0000 <= min <= 0x4000_0000_0000,
            -0x4000_0000_0000 <= max <= 0x4000_0000_0000,
            min <= max,
        ensures
            final(self).state == rng_step(old(self).state),
            r == min + fmul(
                max - min,
                unit_fp_of(rng_out(rng_step(old(self).state))) as int,
            ),
            min <= r <= max,
    {
        let u = self.next_unit_fp();
        proof {
            crate::fixed::lemma_mul_abs_bound(max - min, u as int, 0x8000_0000_0000, FP as int);
            crate::fixed::lemma_div_abs_bound(
                (max - min) * u,
                FP as int,
                0x8000_0000_0000 * FP as int,
            );
            lemma_fmul_unit_range(max - min, u as int);
        }
        let step = crate::fixed::fp_mul(max - min, u);
        min + step
    }

    /// A fixed-point value uniform over [0, bound).
    pub fn next_below_fp(&mut self, bound: i64) -> (r: i64)
        requires
            1 <= bound,
        ensures
            final(self).state == rng_step(old(self).state),
            r == unit_scaled(rng_out(rng_step(old(self).state)), bound as int),
            0 <= r < bound,
    {
        let v = self.next_u64();
        proof {
            vstd::arithmetic::div_mod::lemma_mod_bound(v as int, bound as int);
        }
        (v % (bound as u64)) as i64
    }

    /// An integer uniform over [min, max] (inclusive).
    pub fn next_int(&mut self, min: i64, max: i64) -> (r: i64)
        requires
            min <= max,
            max - min < 0x7fff_ffff_ffff_ffff,
        ensures
            final(self).state == rng_step(old(self).state),
            min <= r <= max,
            r == min + (rng_out(rng_step(old(self).state)) as int % (max - min + 1)),
    {
        let v = self.next_u64();
        let span: u64 = (max - min) as u64 + 1;
        let off: u64 = v % span;
        proof {
            vstd::arithmetic::div_mod::lemma_mod_bound(v as int, span as int);
        }
        min + (off as i64)
    }
}

/// A draw scaled into [0, bound): the output modulo the bound.
pub open spec fn unit_scaled(v: u64, bound: int) -> int {
    v as int % bound
}

/// The low 16 bits of a draw, as a fixed-point fraction in [0, 1).
pub open spec fn unit_fp_of(v: u64) -> i64 {
    (v % (FP as u64)) as i64
}

/// 0 <= u < FP implies 0 <= (s * u) / FP <= s for s >= 0.
proof fn lemma_fmul_unit_range(s: int, u: int)
    requires
        s >= 0,
        0 <= u < FP,
    ensures
        0 <= fmul(s, u) <= s,
{
    crate::fixed::lemma_mul_abs_bound(s, u, s, FP as int - 1);
    assert(s * u >= 0) by (nonlinear_arith)
        requires
            s >= 0,
            u >= 0,
    ;
    vstd::arithmetic::div_mod::lemma_div_pos_is_pos(s * u, FP as int);
    assert(s * u <= s * (FP as int)) by (nonlinear_arith)
        requires
            s >= 0,
            u < FP as int,
    ;
    crate::fixed::lemma_div_ge_iff(s * u, s + 1, FP as int);
    assert((s + 1) * (FP as int) > s * (FP as int)) by (nonlinear_arith);
}

/// A unit draw in [0, 1) as a fixed-point value, from an explicit generator.
pub fn random_double(rng: &mut Rng64) -> (r: i64)
    ensures
        final(rng).state == rng_step(old(rng).state),
        r == unit_fp_of(rng_out(rng_step(old(rng).state))),
        0 <= r < FP,
{
    rng.next_unit_fp()
}

/// A draw uniform over [min, max) as a fixed-point value.
pub fn random_double_range(rng: &mut Rng64, min: i64, max: i64) -> (r: i64)
    requires
        -0x4000_0000_0000 <= min <= 0x4000_0000_0000,
        -0x4000_0000_0000 <= max <= 0x4000_0000_0000,
        min <= max,
    ensures
        final(rng).state == rng_step(old(rng).state),
        min <= r <= max,
        r == min + fmul(max - min, unit_fp_of(rng_out(rng_step(old(rng).state))) as int),
{
    rng.next_range_fp(min, max)
}

/// An integer draw uniform over [min, max].
pub fn random_int(rng: &mut Rng64, min: i64, max: i64) -> (r: i64)
    requires
        min <= max,
        max - min < 0x7fff_ffff_ffff_ffff,
    ensures
        final(rng).state == rng_step(old(rng).state),
        min <= r <= max,
        r == min + (rng_out(rng_step(old(rng).state)) as int % (max - min + 1)),
{
    rng.next_int(min, max)
}

/// A hash of three coordinates and a salt, used to give volumetric media a
/// deterministic per-ray sample.
pub open spec fn mix3_spec(x: u64, y: u64, z: u64, salt: u64) -> u64 {
    rng_step(seed_state(x ^ (y << 21 | y >> 43) ^ (z << 42 | z >> 22) ^ salt))
}

/// Derive a deterministic draw from three coordinates and a salt.
pub fn mix3(x: u64, y: u64, z: u64, salt: u64) -> (r: u64)
    ensures
        r == rng_out(mix3_spec(x, y, z, salt)),
{
    let combined: u64 = x ^ (y << 21 | y >> 43) ^ (z << 42 | z >> 22) ^ salt;
    let mut rng = Rng64::new(combined);
    rng.next_u64()
}

} // verus!

verus! {

/// Relies on rand::random: draws a value of a type that the crate's
/// StandardUniform distribution covers.  Nothing is assumed of the result.
pub assume_specification<T>[ rand::random::<T> ]() -> (r: T)
    where
        rand::distr::StandardUniform: rand::distr::Distribution<T>,
;

/// A fresh seed from the process-wide entropy source.  The value is
/// unpredictable by design, so nothing is stated about it.
pub fn fresh_seed() -> u64 {
    rand::random::<u64>()
}

} // verus!
