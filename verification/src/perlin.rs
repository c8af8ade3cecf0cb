//! Procedural gradient noise: a table of 256 random unit gradients indexed
//! through three shuffled permutations, interpolated smoothly.  The noise
//! value is an exact function of the stored tables; construction fills them
//! from the library's seeded generator.
use vstd::prelude::*;
use crate::fixed::{FP, fmul, fdiv, div_floor_i128};
use crate::rng::Rng64;
use crate::vec3::{Vec3, Point3, bounded, dot_raw};

verus! {

pub struct Perlin {
    pub randvec: Vec<Vec3>,
    pub perm_x: Vec<usize>,
    pub perm_y: Vec<usize>,
    pub perm_z: Vec<usize>,
}

/// Tables of the right size, gradients bounded, permutation entries in range.
pub open spec fn perlin_wf(p: Perlin) -> bool {
    &&& p.randvec@.len() == 256
    &&& p.perm_x@.len() == 256
    &&& p.perm_y@.len() == 256
    &&& p.perm_z@.len() == 256
    &&& forall|i: int| 0 <= i < 256 ==> bounded(#[trigger] p.randvec@[i], 2 * FP as int)
    &&& forall|i: int| 0 <= i < 256 ==> #[trigger] p.perm_x@[i] < 256
    &&& forall|i: int| 0 <= i < 256 ==> #[trigger] p.perm_y@[i] < 256
    &&& forall|i: int| 0 <= i < 256 ==> #[trigger] p.perm_z@[i] < 256
}

impl Perlin {
    /// Fresh tables from a seed: unit-ish gradients and three shuffles.
    pub fn new(seed: u64) -> (p: Perlin)
        ensures
            perlin_wf(p),
    {
        let mut rng = Rng64::new(seed);
        let mut randvec: Vec<Vec3> = Vec::new();
        let mut i: usize = 0;
        while i < 256
            invariant
                randvec@.len() == i,
                i <= 256,
                forall|j: int| 0 <= j < i ==> bounded(#[trigger] randvec@[j], 2 * FP as int),
            decreases 256 - i,
        {
            let v = Vec3::random_unit_vector(&mut rng);
            randvec.push(v);
            i = i + 1;
        }
        let perm_x = generate_perm(&mut rng);
        let perm_y = generate_perm(&mut rng);
        let perm_z = generate_perm(&mut rng);
        Perlin { randvec, perm_x, perm_y, perm_z }
    }

    /// The gradient for one lattice corner.
    fn corner(&self, i: i64, j: i64, k: i64) -> (g: Vec3)
        requires
            perlin_wf(*self),
        ensures
            g == corner_spec(*self, i as int, j as int, k as int),
            bounded(g, 2 * FP as int),
    {
        proof {
            assert(0 <= (i & 255) < 256) by (bit_vector);
            assert(0 <= (j & 255) < 256) by (bit_vector);
            assert(0 <= (k & 255) < 256) by (bit_vector);
        }
        let xi: usize = (i & 255) as usize;
        let yi: usize = (j & 255) as usize;
        let zi: usize = (k & 255) as usize;
        let px: u64 = self.perm_x[xi] as u64;
        let py: u64 = self.perm_y[yi] as u64;
        let pz: u64 = self.perm_z[zi] as u64;
        proof {
            assert(px < 256 && py < 256 && pz < 256 ==> ((px ^ py) ^ pz) < 256) by (bit_vector);
        }
        let idx: usize = ((px ^ py) ^ pz) as usize;
        self.randvec[idx]
    }

    /// Smoothly interpolated gradient noise at a point; the result lies
    /// within [-8, 8] in fixed point and is an exact function of the tables
    /// and the point.
    pub fn noise(&self, p: Point3) -> (r: i64)
        requires
            perlin_wf(*self),
        ensures
            r == noise_spec(*self, p),
            -8 * FP <= r <= 8 * FP,
    {
        let i = floor_fp(p.x);
        let j = floor_fp(p.y);
        let k = floor_fp(p.z);
        let u = p.x - i * FP;
        let v = p.y - j * FP;
        let w = p.z - k * FP;
        let uu = smooth(u);
        let vv = smooth(v);
        let ww = smooth(w);
        let c000 = self.corner(i, j, k);
        let c001 = self.corner(i, j, k + 1);
        let c010 = self.corner(i, j + 1, k);
        let c011 = self.corner(i, j + 1, k + 1);
        let c100 = self.corner(i + 1, j, k);
        let c101 = self.corner(i + 1, j, k + 1);
        let c110 = self.corner(i + 1, j + 1, k);
        let c111 = self.corner(i + 1, j + 1, k + 1);
        let mut accum: i64 = corner_term(c000, u, v, w, 0, 0, 0, uu, vv, ww);
        accum = accum + corner_term(c001, u, v, w, 0, 0, 1, uu, vv, ww);
        accum = accum + corner_term(c010, u, v, w, 0, 1, 0, uu, vv, ww);
        accum = accum + corner_term(c011, u, v, w, 0, 1, 1, uu, vv, ww);
        accum = accum + corner_term(c100, u, v, w, 1, 0, 0, uu, vv, ww);
        accum = accum + corner_term(c101, u, v, w, 1, 0, 1, uu, vv, ww);
        accum = accum + corner_term(c110, u, v, w, 1, 1, 0, uu, vv, ww);
        accum = accum + corner_term(c111, u, v, w, 1, 1, 1, uu, vv, ww);
        accum
    }

    /// Turbulence: octaves of noise at doubling frequency and halving
    /// weight; the magnitude of the accumulated sum.
    pub fn turb(&self, p: Point3, depth: i64) -> (r: i64)
        requires
            perlin_wf(*self),
            0 <= depth <= 16,
        ensures
            r == turb_spec(*self, p, depth as int),
            0 <= r <= 16 * FP,
    {
        let mut accum: i64 = 0;
        let mut temp = p;
        let mut weight: i64 = FP;
        let mut i: i64 = 0;
        while i < depth
            invariant
                0 <= i <= depth <= 16,
                perlin_wf(*self),
                0 <= weight <= FP,
                -(16 * FP - 16 * weight) <= accum <= 16 * FP - 16 * weight,
                turb_spec(*self, p, depth as int) == turb_abs(
                    accum as int + turb_accum(*self, temp, weight as int, (depth - i) as int),
                ),
            decreases depth - i,
        {
            let n = self.noise(temp);
            proof {
                assert(-((8 * weight as int) * (FP as int)) <= weight as int * n as int <= (8
                    * weight as int) * (FP as int)) by (nonlinear_arith)
                    requires
                        0 <= weight as int,
                        -8 * (FP as int) <= n as int <= 8 * (FP as int),
                ;
                crate::fixed::lemma_div_quot_bound(
                    weight as int * n as int,
                    FP as int,
                    8 * weight as int,
                );
                assert(2 * (weight as int / 2) <= weight as int) by {
                    vstd::arithmetic::div_mod::lemma_fundamental_div_mod(weight as int, 2);
                    vstd::arithmetic::div_mod::lemma_mod_bound(weight as int, 2);
                }
            }
            accum = accum + crate::fixed::fp_mul(weight, n);
            weight = weight / 2;
            temp = double_clamped(temp);
            i = i + 1;
        }
        if accum < 0 {
            -accum
        } else {
            accum
        }
    }
}

/// The accumulated turbulence sum from a starting point and weight.
pub open spec fn turb_accum(per: Perlin, p: Point3, weight: int, rounds: int) -> int
    decreases rounds,
{
    if rounds <= 0 {
        0
    } else {
        fmul(weight, noise_spec(per, p)) + turb_accum(
            per,
            double_clamped_spec(p),
            weight / 2,
            rounds - 1,
        )
    }
}

/// The magnitude of a turbulence sum.
pub open spec fn turb_abs(v: int) -> int {
    if v < 0 {
        -v
    } else {
        v
    }
}

/// Turbulence as a function of the tables, the point and the octave count.
pub open spec fn turb_spec(per: Perlin, p: Point3, depth: int) -> int {
    turb_abs(turb_accum(per, p, FP as int, depth))
}

/// Double a point's coordinates, saturating at the supported range.
pub open spec fn double_clamped_spec(p: Point3) -> Point3 {
    Vec3 {
        x: (if p.x > 0x1000_0000_0000 {
            0x2000_0000_0000
        } else if p.x < -0x1000_0000_0000 {
            -0x2000_0000_0000
        } else {
            2 * p.x as int
        }) as i64,
        y: (if p.y > 0x1000_0000_0000 {
            0x2000_0000_0000
        } else if p.y < -0x1000_0000_0000 {
            -0x2000_0000_0000
        } else {
            2 * p.y as int
        }) as i64,
        z: (if p.z > 0x1000_0000_0000 {
            0x2000_0000_0000
        } else if p.z < -0x1000_0000_0000 {
            -0x2000_0000_0000
        } else {
            2 * p.z as int
        }) as i64,
    }
}

fn double_clamped(p: Point3) -> (r: Point3)
    ensures
        r == double_clamped_spec(p),
{
    Vec3 {
        x: if p.x > 0x1000_0000_0000 {
            0x2000_0000_0000
        } else if p.x < -0x1000_0000_0000 {
            -0x2000_0000_0000
        } else {
            2 * p.x
        },
        y: if p.y > 0x1000_0000_0000 {
            0x2000_0000_0000
        } else if p.y < -0x1000_0000_0000 {
            -0x2000_0000_0000
        } else {
            2 * p.y
        },
        z: if p.z > 0x1000_0000_0000 {
            0x2000_0000_0000
        } else if p.z < -0x1000_0000_0000 {
            -0x2000_0000_0000
        } else {
            2 * p.z
        },
    }
}

/// The gradient a lattice corner selects through the permutations.
pub open spec fn corner_spec(per: Perlin, i: int, j: int, k: int) -> Vec3 {
    per.randvec@[(((per.perm_x@[(i as i64 & 255) as int] as u64) ^ (per.perm_y@[(j as i64
        & 255) as int] as u64)) ^ (per.perm_z@[(k as i64 & 255) as int] as u64)) as int]
}

/// The lattice cell of a fixed-point coordinate.
pub open spec fn floor_fp_spec(x: int) -> int {
    x / (FP as int)
}

fn floor_fp(x: i64) -> (r: i64)
    ensures
        r == floor_fp_spec(x as int),
        r * FP <= x < (r + 1) * FP,
{
    proof {
        crate::fixed::lemma_div_abs_bound(x as int, FP as int, 0x8000_0000_0000_0000);
        vstd::arithmetic::div_mod::lemma_fundamental_div_mod(x as int, FP as int);
        vstd::arithmetic::div_mod::lemma_mod_bound(x as int, FP as int);
        vstd::arithmetic::mul::lemma_mul_is_commutative(x as int / (FP as int), FP as int);
        assert((x as int / (FP as int) + 1) * (FP as int) == (x as int / (FP as int)) * (
        FP as int) + FP) by (nonlinear_arith);
    }
    div_floor_i128(x as i128, FP as i128) as i64
}

/// The smoothstep weight u^2 (3 - 2u) in fixed point.
pub open spec fn smooth_spec(u: int) -> int {
    fmul(fmul(u, u), 3 * FP - 2 * u)
}

fn smooth(u: i64) -> (r: i64)
    requires
        0 <= u < FP,
    ensures
        r == smooth_spec(u as int),
        0 <= r <= 0x3_0000,
{
    proof {
        crate::fixed::lemma_fmul_unit_abs(u as int, u as int, 0x1_0000);
        assert(fmul(u as int, u as int) >= 0) by {
            assert(u as int * u as int >= 0) by (nonlinear_arith);
            vstd::arithmetic::div_mod::lemma_div_pos_is_pos(u as int * u as int, FP as int);
        }
        crate::fixed::lemma_fmul_in(fmul(u as int, u as int), 3 * FP as int - 2 * u as int, 0x3_0000);
        assert(fmul(fmul(u as int, u as int), 3 * FP as int - 2 * u as int) >= 0) by {
            assert(fmul(u as int, u as int) * (3 * FP as int - 2 * u as int) >= 0)
                by (nonlinear_arith)
                requires
                    fmul(u as int, u as int) >= 0,
                    0 <= u < FP as int,
                    FP as int == 0x1_0000,
            ;
            vstd::arithmetic::div_mod::lemma_div_pos_is_pos(
                fmul(u as int, u as int) * (3 * FP as int - 2 * u as int),
                FP as int,
            );
        }
    }
    crate::fixed::fp_mul(crate::fixed::fp_mul(u, u), 3 * FP - 2 * u)
}

/// One corner's contribution to the trilinear interpolation: the smoothed
/// weight along each axis times the gradient dotted with the offset.
pub open spec fn corner_term_spec(
    g: Vec3,
    u: int,
    v: int,
    w: int,
    ci: int,
    cj: int,
    ck: int,
    uu: int,
    vv: int,
    ww: int,
) -> int {
    let wu = if ci == 1 {
        uu
    } else {
        FP - uu
    };
    let wv = if cj == 1 {
        vv
    } else {
        FP - vv
    };
    let ww2 = if ck == 1 {
        ww
    } else {
        FP - ww
    };
    let weight_dot = fmul(g.x as int, u - ci * FP) + fmul(g.y as int, v - cj * FP) + fmul(
        g.z as int,
        w - ck * FP,
    );
    clamp_one(fmul(fmul(fmul(wu, wv), ww2), weight_dot))
}

fn corner_term(
    g: Vec3,
    u: i64,
    v: i64,
    w: i64,
    ci: i64,
    cj: i64,
    ck: i64,
    uu: i64,
    vv: i64,
    ww: i64,
) -> (r: i64)
    requires
        bounded(g, 2 * FP as int),
        0 <= u < FP,
        0 <= v < FP,
        0 <= w < FP,
        ci == 0 || ci == 1,
        cj == 0 || cj == 1,
        ck == 0 || ck == 1,
        0 <= uu <= 0x3_0000,
        0 <= vv <= 0x3_0000,
        0 <= ww <= 0x3_0000,
    ensures
        r == corner_term_spec(
            g,
            u as int,
            v as int,
            w as int,
            ci as int,
            cj as int,
            ck as int,
            uu as int,
            vv as int,
            ww as int,
        ),
        -FP <= r <= FP,
{
    let wu: i64 = if ci == 1 {
        uu
    } else {
        FP - uu
    };
    let wv: i64 = if cj == 1 {
        vv
    } else {
        FP - vv
    };
    let wk: i64 = if ck == 1 {
        ww
    } else {
        FP - ww
    };
    proof {
        crate::fixed::lemma_mul_abs_bound(g.x as int, u as int - ci as int * FP as int, 0x2_0000, 0x1_0000);
        crate::fixed::lemma_mul_abs_bound(g.y as int, v as int - cj as int * FP as int, 0x2_0000, 0x1_0000);
        crate::fixed::lemma_mul_abs_bound(g.z as int, w as int - ck as int * FP as int, 0x2_0000, 0x1_0000);
        crate::fixed::lemma_fmul_div_scale(g.x as int * (u as int - ci as int * FP as int), 0x2_0000);
        crate::fixed::lemma_fmul_div_scale(g.y as int * (v as int - cj as int * FP as int), 0x2_0000);
        crate::fixed::lemma_fmul_div_scale(g.z as int * (w as int - ck as int * FP as int), 0x2_0000);
        crate::fixed::lemma_mul_abs_bound(wu as int, wv as int, 0x3_0000, 0x3_0000);
        crate::fixed::lemma_fmul_div_scale(wu as int * wv as int, 0x9_0000);
        crate::fixed::lemma_mul_abs_bound(fmul(wu as int, wv as int), wk as int, 0x9_0000, 0x3_0000);
        crate::fixed::lemma_fmul_div_scale(fmul(wu as int, wv as int) * wk as int, 0x1b_0000);
    }
    let dx = crate::fixed::fp_mul(g.x, u - ci * FP);
    let dy = crate::fixed::fp_mul(g.y, v - cj * FP);
    let dz = crate::fixed::fp_mul(g.z, w - ck * FP);
    let wprod = crate::fixed::fp_mul(crate::fixed::fp_mul(wu, wv), wk);
    proof {
        crate::fixed::lemma_mul_abs_bound(
            wprod as int,
            dx as int + dy as int + dz as int,
            0x1b_0000,
            0x6_0000,
        );
        crate::fixed::lemma_fmul_div_scale(
            wprod as int * (dx as int + dy as int + dz as int),
            0xa2_0000,
        );
    }
    let term = crate::fixed::fp_mul(wprod, dx + dy + dz);
    if term > FP {
        FP
    } else if term < -FP {
        -FP
    } else {
        term
    }
}

/// Noise at a point: the smoothed trilinear blend of the eight surrounding
/// gradients, each clamped into the unit range.
pub open spec fn noise_spec(per: Perlin, p: Point3) -> int {
    let i = floor_fp_spec(p.x as int);
    let j = floor_fp_spec(p.y as int);
    let k = floor_fp_spec(p.z as int);
    let u = p.x - i * FP;
    let v = p.y - j * FP;
    let w = p.z - k * FP;
    let uu = smooth_spec(u);
    let vv = smooth_spec(v);
    let ww = smooth_spec(w);
    clamp_one(corner_term_spec(corner_spec(per, i, j, k), u, v, w, 0, 0, 0, uu, vv, ww))
        + clamp_one(corner_term_spec(corner_spec(per, i, j, k + 1), u, v, w, 0, 0, 1, uu, vv, ww))
        + clamp_one(
        corner_term_spec(corner_spec(per, i, j + 1, k), u, v, w, 0, 1, 0, uu, vv, ww),
    ) + clamp_one(
        corner_term_spec(corner_spec(per, i, j + 1, k + 1), u, v, w, 0, 1, 1, uu, vv, ww),
    ) + clamp_one(
        corner_term_spec(corner_spec(per, i + 1, j, k), u, v, w, 1, 0, 0, uu, vv, ww),
    ) + clamp_one(
        corner_term_spec(corner_spec(per, i + 1, j, k + 1), u, v, w, 1, 0, 1, uu, vv, ww),
    ) + clamp_one(
        corner_term_spec(corner_spec(per, i + 1, j + 1, k), u, v, w, 1, 1, 0, uu, vv, ww),
    ) + clamp_one(
        corner_term_spec(corner_spec(per, i + 1, j + 1, k + 1), u, v, w, 1, 1, 1, uu, vv, ww),
    )
}

/// Clamp into the fixed-point unit range.
pub open spec fn clamp_one(v: int) -> int {
    if v > FP {
        FP as int
    } else if v < -FP {
        -(FP as int)
    } else {
        v
    }
}

/// A shuffled permutation of 0..256, by repeatedly drawing from the pool of
/// remaining values.
fn generate_perm(rng: &mut Rng64) -> (p: Vec<usize>)
    ensures
        p@.len() == 256,
        forall|i: int| 0 <= i < 256 ==> #[trigger] p@[i] < 256,
{
    let mut pool: Vec<usize> = Vec::new();
    let mut i: usize = 0;
    while i < 256
        invariant
            pool@.len() == i,
            i <= 256,
            forall|j: int| 0 <= j < i ==> #[trigger] pool@[j] < 256,
        decreases 256 - i,
    {
        pool.push(i);
        i = i + 1;
    }
    let mut out: Vec<usize> = Vec::new();
    while pool.len() > 0
        invariant
            forall|j: int| 0 <= j < pool@.len() ==> #[trigger] pool@[j] < 256,
            forall|j: int| 0 <= j < out@.len() ==> #[trigger] out@[j] < 256,
            out@.len() + pool@.len() == 256,
        decreases pool.len(),
    {
        let pick = rng.next_int(0, (pool.len() - 1) as i64);
        let idx: usize = pick as usize;
        let ghost before = pool@;
        let v = pool.remove(idx);
        proof {
            assert(v == before[idx as int]);
            assert forall|j: int| 0 <= j < pool@.len() implies #[trigger] pool@[j] < 256 by {
                assert(pool@[j] == before.remove(idx as int)[j]);
                if j < idx {
                    assert(before.remove(idx as int)[j] == before[j]);
                } else {
                    assert(before.remove(idx as int)[j] == before[j + 1]);
                }
            }
        }
        out.push(v);
    }
    out
}

} // verus!
