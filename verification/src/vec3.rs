//! Three-component vectors of fixed-point coordinates, with exact integer
//! contracts for every operation.
use vstd::prelude::*;
use crate::fixed::{FP, fmul, fdiv, fp_mul, fp_div, fp_sqrt, isqrt_spec, lemma_mul_abs_bound, lemma_div_abs_bound, lemma_fmul_unit_abs, lemma_fmul_in};
use crate::rng::{Rng64, rng_step, rng_out, unit_fp_of};

verus! {

/// Looser bound under which dot and cross products still fit in i64
/// (2^38 fixed-point units).
pub const DOT_MAX: i64 = 0x40_0000_0000;

/// Bound on the coordinates of scene geometry (centers, corners, radii,
/// offsets): 2^29 fixed-point units = 8192 world units.
pub const OBJ_MAX: i64 = 0x1fff_ff00;

/// Bound on ray origins and directions accepted by intersection queries:
/// 2^30 fixed-point units.
pub const RAY_MAX: i64 = 0x4000_0000;

#[derive(Clone, Copy, Debug, PartialEq, Eq, Structural)]
pub struct Vec3 {
    pub x: i64,
    pub y: i64,
    pub z: i64,
}

/// Colors are vectors of three fixed-point channel intensities.
pub type Color = Vec3;

/// Points are vectors from the world origin.
pub type Point3 = Vec3;

/// Every coordinate of v is at most b in magnitude.
pub open spec fn bounded(v: Vec3, b: int) -> bool {
    &&& -b <= v.x <= b
    &&& -b <= v.y <= b
    &&& -b <= v.z <= b
}

/// The unscaled integer dot product of two vectors.
pub open spec fn dot_raw(a: Vec3, b: Vec3) -> int {
    a.x * b.x + a.y * b.y + a.z * b.z
}

/// The fixed-point dot product of two vectors.
pub open spec fn dot3(a: Vec3, b: Vec3) -> int {
    (a.x * b.x + a.y * b.y + a.z * b.z) / (FP as int)
}

/// The fixed-point length (norm) of a vector: the integer square root of
/// |v|^2 * FP, which is the fixed-point representation of sqrt(|v|^2 / FP).
pub open spec fn norm3(v: Vec3) -> int {
    isqrt_spec(dot3(v, v) * (FP as int))
}

impl Vec3 {
    pub fn new(x: i64, y: i64, z: i64) -> (r: Vec3)
        ensures
            r == (Vec3 { x, y, z }),
    {
        Vec3 { x, y, z }
    }

    pub fn zero() -> (r: Vec3)
        ensures
            r == (Vec3 { x: 0i64, y: 0i64, z: 0i64 }),
    {
        Vec3 { x: 0, y: 0, z: 0 }
    }

    pub fn x(&self) -> (r: i64)
        ensures
            r == self.x,
    {
        self.x
    }

    pub fn y(&self) -> (r: i64)
        ensures
            r == self.y,
    {
        self.y
    }

    pub fn z(&self) -> (r: i64)
        ensures
            r == self.z,
    {
        self.z
    }

    /// Fetch a coordinate by axis index (0 = x, 1 = y, anything else = z).
    pub fn axis(&self, n: usize) -> (r: i64)
        ensures
            r == if n == 0 { self.x } else if n == 1 { self.y } else { self.z },
    {
        if n == 0 {
            self.x
        } else if n == 1 {
            self.y
        } else {
            self.z
        }
    }

    pub fn add(&self, rhs: &Vec3) -> (r: Vec3)
        requires
            i64::MIN <= self.x + rhs.x <= i64::MAX,
            i64::MIN <= self.y + rhs.y <= i64::MAX,
            i64::MIN <= self.z + rhs.z <= i64::MAX,
        ensures
            r.x == self.x + rhs.x,
            r.y == self.y + rhs.y,
            r.z == self.z + rhs.z,
    {
        Vec3 { x: self.x + rhs.x, y: self.y + rhs.y, z: self.z + rhs.z }
    }

    pub fn sub(&self, rhs: &Vec3) -> (r: Vec3)
        requires
            i64::MIN <= self.x - rhs.x <= i64::MAX,
            i64::MIN <= self.y - rhs.y <= i64::MAX,
            i64::MIN <= self.z - rhs.z <= i64::MAX,
        ensures
            r.x == self.x - rhs.x,
            r.y == self.y - rhs.y,
            r.z == self.z - rhs.z,
    {
        Vec3 { x: self.x - rhs.x, y: self.y - rhs.y, z: self.z - rhs.z }
    }

    pub fn neg(&self) -> (r: Vec3)
        requires
            self.x > i64::MIN,
            self.y > i64::MIN,
            self.z > i64::MIN,
        ensures
            r.x == -self.x,
            r.y == -self.y,
            r.z == -self.z,
    {
        Vec3 { x: -self.x, y: -self.y, z: -self.z }
    }

    /// Multiply by a fixed-point scalar, componentwise.
    pub fn scale(&self, s: i64) -> (r: Vec3)
        requires
            i64::MIN <= fmul(self.x as int, s as int) <= i64::MAX,
            i64::MIN <= fmul(self.y as int, s as int) <= i64::MAX,
            i64::MIN <= fmul(self.z as int, s as int) <= i64::MAX,
        ensures
            r.x == fmul(self.x as int, s as int),
            r.y == fmul(self.y as int, s as int),
            r.z == fmul(self.z as int, s as int),
    {
        Vec3 { x: fp_mul(self.x, s), y: fp_mul(self.y, s), z: fp_mul(self.z, s) }
    }

    /// Componentwise fixed-point product (color modulation).
    pub fn mul_elem(&self, rhs: &Vec3) -> (r: Vec3)
        requires
            i64::MIN <= fmul(self.x as int, rhs.x as int) <= i64::MAX,
            i64::MIN <= fmul(self.y as int, rhs.y as int) <= i64::MAX,
            i64::MIN <= fmul(self.z as int, rhs.z as int) <= i64::MAX,
        ensures
            r.x == fmul(self.x as int, rhs.x as int),
            r.y == fmul(self.y as int, rhs.y as int),
            r.z == fmul(self.z as int, rhs.z as int),
    {
        Vec3 { x: fp_mul(self.x, rhs.x), y: fp_mul(self.y, rhs.y), z: fp_mul(self.z, rhs.z) }
    }

    /// Divide by a nonzero fixed-point scalar, componentwise.
    pub fn div_scalar(&self, s: i64) -> (r: Vec3)
        requires
            s > 0,
            bounded(*self, DOT_MAX as int),
        ensures
            r.x == fdiv(self.x as int, s as int),
            r.y == fdiv(self.y as int, s as int),
            r.z == fdiv(self.z as int, s as int),
    {
        proof {
            lemma_fdiv_bound(self.x as int, s as int);
            lemma_fdiv_bound(self.y as int, s as int);
            lemma_fdiv_bound(self.z as int, s as int);
        }
        Vec3 { x: fp_div(self.x, s), y: fp_div(self.y, s), z: fp_div(self.z, s) }
    }

    /// Fixed-point dot product.
    pub fn dot(u: &Vec3, v: &Vec3) -> (r: i64)
        requires
            bounded(*u, DOT_MAX as int),
            bounded(*v, DOT_MAX as int),
        ensures
            r == dot3(*u, *v),
    {
        proof {
            lemma_dot_products(*u, *v);
        }
        let px: i128 = (u.x as i128) * (v.x as i128);
        let py: i128 = (u.y as i128) * (v.y as i128);
        let pz: i128 = (u.z as i128) * (v.z as i128);
        let q: i128 = crate::fixed::div_floor_i128(px + py + pz, FP as i128);
        q as i64
    }

    /// Fixed-point cross product.
    pub fn cross(u: &Vec3, v: &Vec3) -> (r: Vec3)
        requires
            bounded(*u, DOT_MAX as int),
            bounded(*v, DOT_MAX as int),
        ensures
            r.x == (u.y * v.z - u.z * v.y) / (FP as int),
            r.y == (u.z * v.x - u.x * v.z) / (FP as int),
            r.z == (u.x * v.y - u.y * v.x) / (FP as int),
    {
        proof {
            lemma_dot_products(*u, *v);
            lemma_dot_products(*v, *u);
        }
        let cx: i128 = (u.y as i128) * (v.z as i128) - (u.z as i128) * (v.y as i128);
        let cy: i128 = (u.z as i128) * (v.x as i128) - (u.x as i128) * (v.z as i128);
        let cz: i128 = (u.x as i128) * (v.y as i128) - (u.y as i128) * (v.x as i128);
        let rx: i128 = crate::fixed::div_floor_i128(cx, FP as i128);
        let ry: i128 = crate::fixed::div_floor_i128(cy, FP as i128);
        let rz: i128 = crate::fixed::div_floor_i128(cz, FP as i128);
        Vec3 { x: rx as i64, y: ry as i64, z: rz as i64 }
    }

    /// Fixed-point squared length.
    pub fn squared_length(&self) -> (r: i64)
        requires
            bounded(*self, DOT_MAX as int),
        ensures
            r == dot3(*self, *self),
            r >= 0,
    {
        let r = Vec3::dot(self, self);
        proof {
            lemma_dot_self_nonneg(*self);
        }
        r
    }

    /// Fixed-point length.
    pub fn length(&self) -> (r: i64)
        requires
            bounded(*self, DOT_MAX as int),
        ensures
            r == norm3(*self),
            r >= 0,
    {
        let sq = self.squared_length();
        fp_sqrt(sq)
    }

    /// All coordinates negligibly small (under 16 fixed-point ulps).
    pub fn near_zero(&self) -> (r: bool)
        ensures
            r == (-16 < self.x < 16 && -16 < self.y < 16 && -16 < self.z < 16),
    {
        self.x > -16 && self.x < 16 && self.y > -16 && self.y < 16 && self.z > -16 && self.z < 16
    }

    /// Scale to unit length (in fixed point, length FP).
    pub fn unit_vector(v: &Vec3) -> (r: Vec3)
        requires
            bounded(*v, DOT_MAX as int),
            norm3(*v) > 0,
        ensures
            r.x == fdiv(v.x as int, norm3(*v)),
            r.y == fdiv(v.y as int, norm3(*v)),
            r.z == fdiv(v.z as int, norm3(*v)),
    {
        let len = v.length();
        v.div_scalar(len)
    }
}


/// The unit vector a pair of draws produces: a latitude z uniform in [-1, 1]
/// and a longitude uniform in [0, 2 pi), mapped onto the sphere.
pub open spec fn unit_sphere_spec(z: int, phi: int) -> Vec3 {
    let s = isqrt_spec(fmul(FP as int + z, FP as int - z) * (FP as int));
    Vec3 {
        x: fmul(s, crate::mathfn::cos_spec(phi)) as i64,
        y: fmul(s, crate::mathfn::sin_spec(phi)) as i64,
        z: z as i64,
    }
}

/// The disk point a pair of draws produces: a radius sqrt(u) and an angle
/// uniform in [0, 2 pi).
pub open spec fn unit_disk_spec(u: int, phi: int) -> Vec3 {
    let s = isqrt_spec(u * (FP as int));
    Vec3 {
        x: fmul(s, crate::mathfn::cos_spec(phi)) as i64,
        y: fmul(s, crate::mathfn::sin_spec(phi)) as i64,
        z: 0i64,
    }
}

/// The mirror reflection of v about n: v + 2 (-v . n) n, in fixed point.
pub open spec fn reflect_spec(v: Vec3, n: Vec3) -> Vec3 {
    let d = dot3(Vec3 { x: (-v.x) as i64, y: (-v.y) as i64, z: (-v.z) as i64 }, n);
    Vec3 {
        x: (v.x + fmul(2 * d, n.x as int)) as i64,
        y: (v.y + fmul(2 * d, n.y as int)) as i64,
        z: (v.z + fmul(2 * d, n.z as int)) as i64,
    }
}

/// The refracted direction by the vector form of the bending law, in fixed
/// point: the sideways component is scaled by the index ratio and the
/// parallel component restores unit length.
pub open spec fn refract_spec(uv: Vec3, n: Vec3, ratio: int) -> Vec3 {
    let cos_theta = clamp_fp_unit(
        dot3(Vec3 { x: (-uv.x) as i64, y: (-uv.y) as i64, z: (-uv.z) as i64 }, n),
    );
    let px = fmul(uv.x + fmul(cos_theta, n.x as int), ratio);
    let py = fmul(uv.y + fmul(cos_theta, n.y as int), ratio);
    let pz = fmul(uv.z + fmul(cos_theta, n.z as int), ratio);
    let perp_sq = (px * px + py * py + pz * pz) / (FP as int);
    let rem = if FP - perp_sq >= 0 {
        FP as int - perp_sq
    } else {
        perp_sq - FP as int
    };
    let par = isqrt_spec(rem * (FP as int));
    Vec3 {
        x: (px - fmul(par, n.x as int)) as i64,
        y: (py - fmul(par, n.y as int)) as i64,
        z: (pz - fmul(par, n.z as int)) as i64,
    }
}

/// Clamp a fixed-point value into [-1, 1].
pub open spec fn clamp_fp_unit(v: int) -> int {
    if v > FP {
        FP as int
    } else if v < -FP {
        -(FP as int)
    } else {
        v
    }
}

impl Vec3 {
    /// A uniformly random direction on the unit sphere, from two draws.
    pub fn random_unit_vector(rng: &mut Rng64) -> (r: Vec3)
        ensures
            r == unit_sphere_spec(
                unit_fp_of(rng_out(rng_step(old(rng).state))) as int * 2 - FP,
                crate::rng::unit_scaled(
                    rng_out(rng_step(rng_step(old(rng).state))),
                    crate::mathfn::TWO_PI_FP as int,
                ),
            ),
            final(rng).state == rng_step(rng_step(old(rng).state)),
            bounded(r, FP as int),
    {
        let zu = rng.next_unit_fp();
        let z: i64 = zu * 2 - FP;
        let phi = rng.next_below_fp(crate::mathfn::TWO_PI_FP);
        Vec3::on_sphere(z, phi)
    }

    /// The point on the unit sphere with latitude z and longitude phi.
    pub fn on_sphere(z: i64, phi: i64) -> (r: Vec3)
        requires
            -FP <= z <= FP,
            0 <= phi <= crate::mathfn::TWO_PI_FP,
        ensures
            r == unit_sphere_spec(z as int, phi as int),
            bounded(r, FP as int),
    {
        proof {
            lemma_mul_abs_bound(FP as int + z as int, FP as int - z as int, 0x2_0000, 0x2_0000);
            crate::fixed::lemma_fmul_div_scale((FP as int + z as int) * (FP as int - z as int), 0x4_0000);
            assert((FP as int + z as int) * (FP as int - z as int) >= 0) by (nonlinear_arith)
                requires
                    -(FP as int) <= z as int <= FP as int,
            ;
            vstd::arithmetic::div_mod::lemma_div_pos_is_pos(
                (FP as int + z as int) * (FP as int - z as int),
                FP as int,
            );
        }
        proof {
            assert((FP as int + z as int) * (FP as int - z as int) <= 0x1_0000_0000)
                by (nonlinear_arith)
                requires
                    -(FP as int) <= z as int <= FP as int,
                    FP as int == 0x1_0000,
            ;
            crate::fixed::lemma_fmul_div_scale(
                (FP as int + z as int) * (FP as int - z as int),
                0x1_0000,
            );
        }
        let sq = fp_mul(FP + z, FP - z);
        let s = fp_sqrt(sq);
        proof {
            lemma_isqrt_le_scale(sq as int);
            crate::fixed::lemma_fmul_unit_abs(crate::mathfn::cos_spec(phi as int), s as int, 0x8_0000);
            crate::fixed::lemma_fmul_unit_abs(crate::mathfn::sin_spec(phi as int), s as int, 0x8_0000);
        }
        let c = crate::mathfn::cos_fp(phi);
        let sn = crate::mathfn::sin_fp(phi);
        proof {
            lemma_fmul_in(s as int, c as int, 0x1_0000);
            lemma_fmul_in(s as int, sn as int, 0x1_0000);
        }
        let x = fp_mul(s, c);
        let y = fp_mul(s, sn);
        Vec3 { x, y, z }
    }

    /// A uniformly random point in the unit disk (z = 0), from two draws.
    pub fn random_in_unit_disk(rng: &mut Rng64) -> (r: Vec3)
        ensures
            r == unit_disk_spec(
                unit_fp_of(rng_out(rng_step(old(rng).state))) as int,
                crate::rng::unit_scaled(
                    rng_out(rng_step(rng_step(old(rng).state))),
                    crate::mathfn::TWO_PI_FP as int,
                ),
            ),
            final(rng).state == rng_step(rng_step(old(rng).state)),
            bounded(r, FP as int),
    {
        let u = rng.next_unit_fp();
        let phi = rng.next_below_fp(crate::mathfn::TWO_PI_FP);
        proof {
            lemma_mul_abs_bound(u as int, FP as int, 0x1_0000, 0x1_0000);
        }
        let s = fp_sqrt(u);
        proof {
            lemma_isqrt_le_scale(u as int);
            lemma_fmul_in(s as int, crate::mathfn::cos_spec(phi as int), 0x1_0000);
            lemma_fmul_in(s as int, crate::mathfn::sin_spec(phi as int), 0x1_0000);
        }
        let c = crate::mathfn::cos_fp(phi);
        let sn = crate::mathfn::sin_fp(phi);
        let x = fp_mul(s, c);
        let y = fp_mul(s, sn);
        Vec3 { x, y, z: 0 }
    }

    /// A color with three unit draws as channels.
    pub fn random(rng: &mut Rng64) -> (r: Vec3)
        ensures
            bounded(r, FP as int),
            0 <= r.x && 0 <= r.y && 0 <= r.z,
    {
        let x = rng.next_unit_fp();
        let y = rng.next_unit_fp();
        let z = rng.next_unit_fp();
        Vec3 { x, y, z }
    }

    /// A vector with three draws uniform over [min, max].
    pub fn random_range(rng: &mut Rng64, min: i64, max: i64) -> (r: Vec3)
        requires
            -0x4000_0000_0000 <= min <= 0x4000_0000_0000,
            -0x4000_0000_0000 <= max <= 0x4000_0000_0000,
            min <= max,
        ensures
            bounded(r, 0x4000_0000_0000),
            min <= r.x <= max,
            min <= r.y <= max,
            min <= r.z <= max,
    {
        let x = rng.next_range_fp(min, max);
        let y = rng.next_range_fp(min, max);
        let z = rng.next_range_fp(min, max);
        Vec3 { x, y, z }
    }

    /// Mirror reflection about a normal.
    pub fn reflect(v: &Vec3, n: &Vec3) -> (r: Vec3)
        requires
            bounded(*v, 8 * FP as int),
            bounded(*n, 8 * FP as int),
        ensures
            r == reflect_spec(*v, *n),
            bounded(r, 0x4000_0000),
    {
        proof {
            lemma_dot_small(*v, *n);
        }
        let d = Vec3::dot(&v.neg(), n);
        proof {
            lemma_mul_abs_bound(2 * d as int, n.x as int, 0x600_0000, 0x8_0000);
            lemma_mul_abs_bound(2 * d as int, n.y as int, 0x600_0000, 0x8_0000);
            lemma_mul_abs_bound(2 * d as int, n.z as int, 0x600_0000, 0x8_0000);
            crate::fixed::lemma_fmul_div_scale(2 * d as int * n.x as int, 0x3000_0000);
            crate::fixed::lemma_fmul_div_scale(2 * d as int * n.y as int, 0x3000_0000);
            crate::fixed::lemma_fmul_div_scale(2 * d as int * n.z as int, 0x3000_0000);
        }
        Vec3 {
            x: v.x + fp_mul(2 * d, n.x),
            y: v.y + fp_mul(2 * d, n.y),
            z: v.z + fp_mul(2 * d, n.z),
        }
    }

    /// Refraction by the vector form of the bending law.
    pub fn refract(uv: &Vec3, n: &Vec3, etai_over_etat: i64) -> (r: Vec3)
        requires
            bounded(*uv, 8 * FP as int),
            bounded(*n, 8 * FP as int),
            0 <= etai_over_etat <= 16 * FP,
        ensures
            r == refract_spec(*uv, *n, etai_over_etat as int),
    {
        proof {
            lemma_dot_small(*uv, *n);
        }
        let d = Vec3::dot(&uv.neg(), n);
        let cos_theta: i64 = if d > FP {
            FP
        } else if d < -FP {
            -FP
        } else {
            d
        };
        proof {
            crate::fixed::lemma_fmul_unit_abs(cos_theta as int, n.x as int, 0x8_0000);
            crate::fixed::lemma_fmul_unit_abs(cos_theta as int, n.y as int, 0x8_0000);
            crate::fixed::lemma_fmul_unit_abs(cos_theta as int, n.z as int, 0x8_0000);
        }
        let sx = uv.x + fp_mul(cos_theta, n.x);
        let sy = uv.y + fp_mul(cos_theta, n.y);
        let sz = uv.z + fp_mul(cos_theta, n.z);
        proof {
            lemma_mul_abs_bound(sx as int, etai_over_etat as int, 0x10_0000, 0x10_0000);
            lemma_mul_abs_bound(sy as int, etai_over_etat as int, 0x10_0000, 0x10_0000);
            lemma_mul_abs_bound(sz as int, etai_over_etat as int, 0x10_0000, 0x10_0000);
            crate::fixed::lemma_fmul_div_scale(sx as int * etai_over_etat as int, 0x100_0000);
            crate::fixed::lemma_fmul_div_scale(sy as int * etai_over_etat as int, 0x100_0000);
            crate::fixed::lemma_fmul_div_scale(sz as int * etai_over_etat as int, 0x100_0000);
        }
        let px = fp_mul(sx, etai_over_etat);
        let py = fp_mul(sy, etai_over_etat);
        let pz = fp_mul(sz, etai_over_etat);
        proof {
            lemma_mul_abs_bound(px as int, px as int, 0x100_0000, 0x100_0000);
            lemma_mul_abs_bound(py as int, py as int, 0x100_0000, 0x100_0000);
            lemma_mul_abs_bound(pz as int, pz as int, 0x100_0000, 0x100_0000);
            crate::fixed::lemma_fmul_div_scale(
                px as int * px as int + py as int * py as int + pz as int * pz as int,
                0x3_0000_0000,
            );
            assert(px as int * px as int >= 0) by (nonlinear_arith);
            assert(py as int * py as int >= 0) by (nonlinear_arith);
            assert(pz as int * pz as int >= 0) by (nonlinear_arith);
            vstd::arithmetic::div_mod::lemma_div_pos_is_pos(
                px as int * px as int + py as int * py as int + pz as int * pz as int,
                FP as int,
            );
        }
        let perp_sq: i64 = ((px as i128 * px as i128 + py as i128 * py as i128 + pz as i128
            * pz as i128) / (FP as i128)) as i64;
        let rem: i64 = if FP - perp_sq >= 0 {
            FP - perp_sq
        } else {
            perp_sq - FP
        };
        let par = fp_sqrt(rem);
        proof {
            lemma_isqrt_rem_small(rem as int);
            lemma_mul_abs_bound(par as int, n.x as int, 0x200_0000, 0x8_0000);
            lemma_mul_abs_bound(par as int, n.y as int, 0x200_0000, 0x8_0000);
            lemma_mul_abs_bound(par as int, n.z as int, 0x200_0000, 0x8_0000);
            crate::fixed::lemma_fmul_div_scale(par as int * n.x as int, 0x1000_0000);
            crate::fixed::lemma_fmul_div_scale(par as int * n.y as int, 0x1000_0000);
            crate::fixed::lemma_fmul_div_scale(par as int * n.z as int, 0x1000_0000);
        }
        Vec3 {
            x: px - fp_mul(par, n.x),
            y: py - fp_mul(par, n.y),
            z: pz - fp_mul(par, n.z),
        }
    }
}

/// Dot products of small (near-unit) vectors stay small.
pub proof fn lemma_dot_small(a: Vec3, b: Vec3)
    requires
        bounded(a, 8 * FP as int),
        bounded(b, 8 * FP as int),
    ensures
        -0x300_0000 <= dot3(a, b) <= 0x300_0000,
        -0x300_0000 <= dot3(Vec3 { x: (-a.x) as i64, y: (-a.y) as i64, z: (-a.z) as i64 }, b)
            <= 0x300_0000,
{
    let na = Vec3 { x: (-a.x) as i64, y: (-a.y) as i64, z: (-a.z) as i64 };
    lemma_mul_abs_bound(a.x as int, b.x as int, 0x8_0000, 0x8_0000);
    lemma_mul_abs_bound(a.y as int, b.y as int, 0x8_0000, 0x8_0000);
    lemma_mul_abs_bound(a.z as int, b.z as int, 0x8_0000, 0x8_0000);
    lemma_mul_abs_bound(na.x as int, b.x as int, 0x8_0000, 0x8_0000);
    lemma_mul_abs_bound(na.y as int, b.y as int, 0x8_0000, 0x8_0000);
    lemma_mul_abs_bound(na.z as int, b.z as int, 0x8_0000, 0x8_0000);
    crate::fixed::lemma_fmul_div_scale(
        a.x * b.x + a.y * b.y + a.z * b.z,
        0x300_0000,
    );
    crate::fixed::lemma_fmul_div_scale(
        na.x * b.x + na.y * b.y + na.z * b.z,
        0x300_0000,
    );
}

/// The square root of a value at most one is at most one (in fixed point).
pub proof fn lemma_isqrt_le_scale(x: int)
    requires
        0 <= x <= FP as int,
    ensures
        0 <= isqrt_spec(x * (FP as int)) <= FP as int,
{
    assert(0 <= x * (FP as int) <= 0x1_0000_0000) by (nonlinear_arith)
        requires
            0 <= x <= FP as int,
            FP as int == 0x1_0000,
    ;
    crate::fixed::lemma_isqrt_exists(x * (FP as int));
    let r = isqrt_spec(x * (FP as int));
    assert(crate::fixed::is_isqrt(x * (FP as int), r));
    if r > FP as int {
        assert(r * r > 0x1_0000_0000) by (nonlinear_arith)
            requires
                r > 0x1_0000,
        ;
    }
}

/// The restored-length root in refraction stays well inside range.
pub proof fn lemma_isqrt_rem_small(x: int)
    requires
        0 <= x <= 0x4_0000_0000,
    ensures
        0 <= isqrt_spec(x * (FP as int)) <= 0x200_0000,
{
    assert(0 <= x * (FP as int) <= 0x4_0000_0000_0000) by (nonlinear_arith)
        requires
            0 <= x <= 0x4_0000_0000,
            FP as int == 0x1_0000,
    ;
    crate::fixed::lemma_isqrt_exists(x * (FP as int));
    let r = isqrt_spec(x * (FP as int));
    assert(crate::fixed::is_isqrt(x * (FP as int), r));
    if r > 0x200_0000 {
        assert(r * r > 0x4_0000_0000_0000) by (nonlinear_arith)
            requires
                r > 0x200_0000,
        ;
    }
}


/// The products in a dot or cross of DOT_MAX-bounded vectors stay well inside
/// i128, and the scaled results fit in i64.
proof fn lemma_dot_products(u: Vec3, v: Vec3)
    requires
        bounded(u, DOT_MAX as int),
        bounded(v, DOT_MAX as int),
    ensures
        -(0x1000_0000_0000_0000_0000int) <= u.x * v.x <= 0x1000_0000_0000_0000_0000int,
        -(0x1000_0000_0000_0000_0000int) <= u.y * v.y <= 0x1000_0000_0000_0000_0000int,
        -(0x1000_0000_0000_0000_0000int) <= u.z * v.z <= 0x1000_0000_0000_0000_0000int,
        -(0x1000_0000_0000_0000_0000int) <= u.y * v.z <= 0x1000_0000_0000_0000_0000int,
        -(0x1000_0000_0000_0000_0000int) <= u.z * v.y <= 0x1000_0000_0000_0000_0000int,
        -(0x1000_0000_0000_0000_0000int) <= u.z * v.x <= 0x1000_0000_0000_0000_0000int,
        -(0x1000_0000_0000_0000_0000int) <= u.x * v.z <= 0x1000_0000_0000_0000_0000int,
        -(0x1000_0000_0000_0000_0000int) <= u.x * v.y <= 0x1000_0000_0000_0000_0000int,
        -(0x1000_0000_0000_0000_0000int) <= u.y * v.x <= 0x1000_0000_0000_0000_0000int,
        -(0x3000_0000_0000_0000_0000int) / 0x1_0000
            <= (u.x * v.x + u.y * v.y + u.z * v.z) / (FP as int)
            <= 0x3000_0000_0000_0000_0000int / 0x1_0000,
        -(0x2000_0000_0000_0000_0000int) <= u.y * v.z - u.z * v.y <= 0x2000_0000_0000_0000_0000int,
        -(0x2000_0000_0000_0000_0000int) / 0x1_0000
            <= (u.y * v.z - u.z * v.y) / (FP as int)
            <= 0x2000_0000_0000_0000_0000int / 0x1_0000,
        -(0x2000_0000_0000_0000_0000int) / 0x1_0000
            <= (u.z * v.x - u.x * v.z) / (FP as int)
            <= 0x2000_0000_0000_0000_0000int / 0x1_0000,
        -(0x2000_0000_0000_0000_0000int) / 0x1_0000
            <= (u.x * v.y - u.y * v.x) / (FP as int)
            <= 0x2000_0000_0000_0000_0000int / 0x1_0000,
{
    let b = DOT_MAX as int;
    lemma_mul_abs_bound(u.x as int, v.x as int, b, b);
    lemma_mul_abs_bound(u.y as int, v.y as int, b, b);
    lemma_mul_abs_bound(u.z as int, v.z as int, b, b);
    lemma_mul_abs_bound(u.y as int, v.z as int, b, b);
    lemma_mul_abs_bound(u.z as int, v.y as int, b, b);
    lemma_mul_abs_bound(u.z as int, v.x as int, b, b);
    lemma_mul_abs_bound(u.x as int, v.z as int, b, b);
    lemma_mul_abs_bound(u.x as int, v.y as int, b, b);
    lemma_mul_abs_bound(u.y as int, v.x as int, b, b);
    lemma_div_abs_bound(u.x * v.x + u.y * v.y + u.z * v.z, FP as int, 0x3000_0000_0000_0000_0000int);
    lemma_div_abs_bound(u.y * v.z - u.z * v.y, FP as int, 0x2000_0000_0000_0000_0000int);
    lemma_div_abs_bound(u.z * v.x - u.x * v.z, FP as int, 0x2000_0000_0000_0000_0000int);
    lemma_div_abs_bound(u.x * v.y - u.y * v.x, FP as int, 0x2000_0000_0000_0000_0000int);
}

/// fdiv of a DOT_MAX-bounded numerator by a positive divisor fits in i64.
pub proof fn lemma_fdiv_bound(a: int, s: int)
    requires
        s > 0,
        -(DOT_MAX as int) <= a <= DOT_MAX as int,
    ensures
        i64::MIN <= fdiv(a, s) <= i64::MAX,
{
    lemma_mul_abs_bound(a, FP as int, DOT_MAX as int, FP as int);
    lemma_div_abs_bound(a * (FP as int), s, DOT_MAX as int * FP as int);
}

/// The dot product of a vector with itself is nonnegative.
pub proof fn lemma_dot_self_nonneg(v: Vec3)
    ensures
        dot3(v, v) >= 0,
{
    assert(v.x * v.x >= 0) by (nonlinear_arith);
    assert(v.y * v.y >= 0) by (nonlinear_arith);
    assert(v.z * v.z >= 0) by (nonlinear_arith);
    vstd::arithmetic::div_mod::lemma_div_pos_is_pos(
        v.x * v.x + v.y * v.y + v.z * v.z,
        FP as int,
    );
}

} // verus!
