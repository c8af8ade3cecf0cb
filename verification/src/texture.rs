//! Color fields over surface coordinates and points: solid colors, a
//! three-dimensional checker, procedural noise, and sampled image data.
use vstd::prelude::*;
use crate::fixed::{FP, fmul, fdiv, div_floor_i128};
use crate::mathfn::{TWO_PI_FP, sin_spec, sin_fp};
use crate::perlin::{Perlin, perlin_wf, turb_spec};
use crate::vec3::{Vec3, Color, Point3, bounded, RAY_MAX};

verus! {

/// Bound on texture color channels (and so on attenuations).
pub const COLOR_MAX: i64 = 0x1000_0000_0000;

pub struct SolidColor {
    pub albedo: Color,
}

pub struct CheckerTexture {
    pub inv_scale: i64,
    pub even: Box<Texture>,
    pub odd: Box<Texture>,
}

pub struct NoiseTexture {
    pub noise: Perlin,
    pub scale: i64,
}

pub struct ImageTexture {
    pub width: usize,
    pub height: usize,
    pub pixels: Vec<Color>,
}

pub enum Texture {
    Solid(SolidColor),
    Checker(CheckerTexture),
    Noise(NoiseTexture),
    Image(ImageTexture),
}

/// Well-formed textures: bounded colors and scales, valid tables.
pub open spec fn tex_wf(t: Texture) -> bool
    decreases t,
{
    match t {
        Texture::Solid(s) => bounded(s.albedo, COLOR_MAX as int),
        Texture::Checker(c) => {
            &&& 1 <= c.inv_scale <= 0x1_0000_0000
            &&& tex_wf(*c.even)
            &&& tex_wf(*c.odd)
        },
        Texture::Noise(n) => {
            &&& perlin_wf(n.noise)
            &&& -16 * FP <= n.scale <= 16 * FP
        },
        Texture::Image(im) => {
            &&& im.width <= 0x8000
            &&& im.height <= 0x8000
            &&& im.pixels@.len() == im.width * im.height
            &&& forall|i: int|
                0 <= i < im.pixels@.len() ==> bounded(#[trigger] im.pixels@[i], COLOR_MAX as int)
        },
    }
}

/// Clamp into [0, 1] in fixed point.
pub open spec fn clamp01(v: int) -> int {
    if v < 0 {
        0
    } else if v > FP {
        FP as int
    } else {
        v
    }
}

/// The color a texture yields at surface coordinates (u, v) and point p.
pub open spec fn tex_value_spec(t: Texture, u: int, v: int, p: Point3) -> Color
    decreases t,
{
    match t {
        Texture::Solid(s) => s.albedo,
        Texture::Checker(c) => {
            let xi = fmul(c.inv_scale as int, p.x as int) / (FP as int);
            let yi = fmul(c.inv_scale as int, p.y as int) / (FP as int);
            let zi = fmul(c.inv_scale as int, p.z as int) / (FP as int);
            if (xi + yi + zi) % 2 == 0 {
                tex_value_spec(*c.even, u, v, p)
            } else {
                tex_value_spec(*c.odd, u, v, p)
            }
        },
        Texture::Noise(n) => {
            let phase = (fmul(n.scale as int, p.z as int) + 10 * turb_spec(n.noise, p, 7)) % (
            TWO_PI_FP as int);
            let s = (FP as int + sin_spec(phase)) / 2;
            Vec3 { x: s as i64, y: s as i64, z: s as i64 }
        },
        Texture::Image(im) => {
            if im.width == 0 || im.height == 0 {
                Vec3 { x: 0i64, y: FP as i64, z: FP as i64 }
            } else {
                let uc = clamp01(u);
                let vc = FP - clamp01(v);
                let i0 = (uc * im.width) / (FP as int);
                let j0 = (vc * im.height) / (FP as int);
                let i = if i0 >= im.width {
                    im.width as int - 1
                } else {
                    i0
                };
                let j = if j0 >= im.height {
                    im.height as int - 1
                } else {
                    j0
                };
                im.pixels@[j * im.width + i]
            }
        },
    }
}

impl SolidColor {
    pub fn new(albedo: Color) -> (t: SolidColor)
        ensures
            t.albedo == albedo,
    {
        SolidColor { albedo }
    }

    /// A solid color from three channel values.
    pub fn new_color(red: i64, green: i64, blue: i64) -> (t: SolidColor)
        ensures
            t.albedo == (Vec3 { x: red, y: green, z: blue }),
    {
        SolidColor::new(Vec3::new(red, green, blue))
    }
}

impl CheckerTexture {
    /// Alternate two textures in cells of the given size.
    pub fn new(scale: i64, even: Texture, odd: Texture) -> (t: Texture)
        requires
            1 <= scale <= 0x1_0000_0000,
            tex_wf(even),
            tex_wf(odd),
        ensures
            tex_wf(t),
            t matches Texture::Checker(c) && *c.even == even && *c.odd == odd && c.inv_scale
                == fdiv(FP as int, scale as int),
    {
        proof {
            crate::fixed::lemma_div_abs_bound(FP as int * FP as int, scale as int, 0x1_0000_0000);
            vstd::arithmetic::div_mod::lemma_div_pos_is_pos(FP as int * FP as int, scale as int);
            crate::fixed::lemma_div_ge_iff(FP as int * FP as int, 1int, scale as int);
            assert(1int * (scale as int) <= FP as int * FP as int) by (nonlinear_arith)
                requires
                    1 <= scale as int <= 0x1_0000_0000,
                    FP as int == 0x1_0000,
            ;
        }
        let inv_scale = crate::fixed::fp_div(FP, scale);
        let t = Texture::Checker(
            CheckerTexture { inv_scale, even: Box::new(even), odd: Box::new(odd) },
        );
        proof {
            assert(tex_wf(t) == (t matches Texture::Checker(c) && 1 <= c.inv_scale
                <= 0x1_0000_0000 && tex_wf(*c.even) && tex_wf(*c.odd)));
        }
        t
    }

    /// Alternate two solid colors.
    pub fn new_color(scale: i64, c1: Color, c2: Color) -> (t: Texture)
        requires
            1 <= scale <= 0x1_0000_0000,
            bounded(c1, COLOR_MAX as int),
            bounded(c2, COLOR_MAX as int),
        ensures
            tex_wf(t),
            t matches Texture::Checker(c) && *c.even == Texture::Solid(SolidColor { albedo: c1 })
                && *c.odd == Texture::Solid(SolidColor { albedo: c2 }) && c.inv_scale == fdiv(
                FP as int,
                scale as int,
            ),
    {
        CheckerTexture::new(
            scale,
            Texture::Solid(SolidColor::new(c1)),
            Texture::Solid(SolidColor::new(c2)),
        )
    }
}

impl NoiseTexture {
    /// Marble-like bands driven by turbulence.
    pub fn new(scale: i64, seed: u64) -> (t: Texture)
        requires
            -16 * FP <= scale <= 16 * FP,
        ensures
            tex_wf(t),
            t matches Texture::Noise(n) && n.scale == scale,
    {
        Texture::Noise(NoiseTexture { noise: Perlin::new(seed), scale })
    }
}

impl ImageTexture {
    /// A texture over decoded pixel data in row-major order (dimensions and
    /// fixed-point colors; decoding image files is the caller's concern).
    pub fn new(width: usize, height: usize, pixels: Vec<Color>) -> (t: Texture)
        requires
            width <= 0x8000,
            height <= 0x8000,
            pixels@.len() == width * height,
            forall|i: int| 0 <= i < pixels@.len() ==> bounded(#[trigger] pixels@[i], 0x1000_0000_0000),
        ensures
            tex_wf(t),
            t matches Texture::Image(im) && im.width == width && im.height == height && im.pixels@
                == pixels@,
    {
        Texture::Image(ImageTexture { width, height, pixels })
    }
}

impl Texture {
    /// The color at surface coordinates (u, v) and point p: exactly what
    /// tex_value_spec describes, always within the color bound.
    pub fn value(&self, u: i64, v: i64, p: Point3) -> (r: Color)
        requires
            tex_wf(*self),
            bounded(p, RAY_MAX as int),
        ensures
            r == tex_value_spec(*self, u as int, v as int, p),
            bounded(r, COLOR_MAX as int),
        decreases *self,
    {
        match self {
            Texture::Solid(s) => {
                proof {
                    assert(tex_value_spec(*self, u as int, v as int, p) == s.albedo);
                }
                s.albedo
            },
            Texture::Checker(c) => {
                proof {
                    assert(tex_value_spec(*self, u as int, v as int, p) == (
                    if (fmul(c.inv_scale as int, p.x as int) / (FP as int) + fmul(
                        c.inv_scale as int,
                        p.y as int,
                    ) / (FP as int) + fmul(c.inv_scale as int, p.z as int) / (FP as int)) % 2
                        == 0 {
                        tex_value_spec(*c.even, u as int, v as int, p)
                    } else {
                        tex_value_spec(*c.odd, u as int, v as int, p)
                    }));
                }
                let xi = cell_index(c.inv_scale, p.x);
                let yi = cell_index(c.inv_scale, p.y);
                let zi = cell_index(c.inv_scale, p.z);
                let s: i64 = xi + yi + zi;
                let parity: i64 = if s >= 0 {
                    s % 2
                } else {
                    (-s) % 2
                };
                proof {
                    if s < 0 {
                        vstd::arithmetic::div_mod::lemma_mod_bound(s as int, 2);
                        vstd::arithmetic::div_mod::lemma_mod_bound(-(s as int), 2);
                        assert((s as int % 2 == 0) == ((-(s as int)) % 2 == 0)) by {
                            vstd::arithmetic::div_mod::lemma_mod_neg_neg(s as int, 2);
                        }
                    }
                }
                if parity == 0 {
                    c.even.value(u, v, p)
                } else {
                    c.odd.value(u, v, p)
                }
            },
            Texture::Noise(n) => {
                proof {
                    assert(tex_value_spec(*self, u as int, v as int, p) == {
                        let phase = (fmul(n.scale as int, p.z as int) + 10 * turb_spec(
                            n.noise,
                            p,
                            7,
                        )) % (TWO_PI_FP as int);
                        let s = (FP as int + sin_spec(phase)) / 2;
                        Vec3 { x: s as i64, y: s as i64, z: s as i64 }
                    });
                    crate::fixed::lemma_mul_abs_bound(
                        n.scale as int,
                        p.z as int,
                        0x10_0000,
                        0x4000_0000,
                    );
                    crate::fixed::lemma_fmul_div_scale(n.scale as int * p.z as int, 0x4_0000_0000_0000);
                }
                let base = crate::fixed::fp_mul(n.scale, p.z);
                let tb = n.noise.turb(p, 7);
                let raw: i64 = base + 10 * tb;
                let phase: i64 = euclid_mod_two_pi(raw);
                let sv = sin_fp(phase);
                let sval: i64 = (FP + sv) / 2;
                Vec3::new(sval, sval, sval)
            },
            Texture::Image(im) => {
                proof {
                    assert(tex_value_spec(*self, u as int, v as int, p) == (
                    if im.width == 0 || im.height == 0 {
                        Vec3 { x: 0i64, y: FP as i64, z: FP as i64 }
                    } else {
                        let uc = clamp01(u as int);
                        let vc = FP - clamp01(v as int);
                        let i0 = (uc * im.width) / (FP as int);
                        let j0 = (vc * im.height) / (FP as int);
                        let i = if i0 >= im.width {
                            im.width as int - 1
                        } else {
                            i0
                        };
                        let j = if j0 >= im.height {
                            im.height as int - 1
                        } else {
                            j0
                        };
                        im.pixels@[j * im.width + i]
                    }));
                }
                proof {
                    assert(im.width <= 0x8000 && im.height <= 0x8000 && im.pixels@.len()
                        == im.width * im.height) by {
                        assert(tex_wf(*self));
                    }
                }
                if im.width == 0 || im.height == 0 {
                    return Vec3::new(0, FP, FP);
                }
                let uc: i64 = if u < 0 {
                    0
                } else if u > FP {
                    FP
                } else {
                    u
                };
                let vc: i64 = FP - (if v < 0 {
                    0
                } else if v > FP {
                    FP
                } else {
                    v
                });
                proof {
                    vstd::arithmetic::div_mod::lemma_div_pos_is_pos(
                        uc as int * im.width as int,
                        FP as int,
                    );
                    vstd::arithmetic::div_mod::lemma_div_pos_is_pos(
                        vc as int * im.height as int,
                        FP as int,
                    );
                    assert(0 <= (uc as int) * (im.width as int) <= 0x1_0000_0000_0000)
                        by (nonlinear_arith)
                        requires
                            0 <= (uc as int) && (uc as int) <= 0x1_0000,
                            0 <= (im.width as int) && (im.width as int) <= 0x8000,
                    ;
                    assert(0 <= (vc as int) * (im.height as int) <= 0x1_0000_0000_0000)
                        by (nonlinear_arith)
                        requires
                            0 <= (vc as int) && (vc as int) <= 0x1_0000,
                            0 <= (im.height as int) && (im.height as int) <= 0x8000,
                    ;
                    crate::fixed::lemma_fmul_div_scale(uc as int * im.width as int, 0x1_0000_0000);
                    crate::fixed::lemma_fmul_div_scale(vc as int * im.height as int, 0x1_0000_0000);
                }
                let i0: i64 = div_floor_i128(
                    (uc as i128) * (im.width as i128),
                    FP as i128,
                ) as i64;
                let j0: i64 = div_floor_i128(
                    (vc as i128) * (im.height as i128),
                    FP as i128,
                ) as i64;
                let i: usize = if i0 >= im.width as i64 {
                    im.width - 1
                } else {
                    i0 as usize
                };
                let j: usize = if j0 >= im.height as i64 {
                    im.height - 1
                } else {
                    j0 as usize
                };
                proof {
                    assert((j as int) * (im.width as int) + (i as int) < (im.width as int)
                        * (im.height as int)) by (nonlinear_arith)
                        requires
                            0 <= (i as int) && (i as int) < (im.width as int),
                            0 <= (j as int) && (j as int) < (im.height as int),
                    ;
                    assert(0 <= j as int * im.width as int) by (nonlinear_arith)
                        requires
                            0 <= j as int,
                            0 <= im.width as int,
                    ;
                    assert((im.width as int) * (im.height as int) <= 0x4000_0000)
                        by (nonlinear_arith)
                        requires
                            0 <= (im.width as int) && (im.width as int) <= 0x8000,
                            0 <= (im.height as int) && (im.height as int) <= 0x8000,
                    ;
                }
                let idx: usize = j * im.width + i;
                im.pixels[idx]
            },
        }
    }
}

/// The checker cell index of one coordinate: the floor of the scaled value.
fn cell_index(inv_scale: i64, x: i64) -> (r: i64)
    requires
        1 <= inv_scale <= 0x1_0000_0000,
        -RAY_MAX <= x <= RAY_MAX,
    ensures
        r == fmul(inv_scale as int, x as int) / (FP as int),
        -0x1_0000_0000_0000 <= r <= 0x1_0000_0000_0000,
{
    proof {
        crate::fixed::lemma_mul_abs_bound(inv_scale as int, x as int, 0x1_0000_0000, 0x4000_0000);
        crate::fixed::lemma_fmul_div_scale(inv_scale as int * x as int, 0x4000_0000_0000);
        crate::fixed::lemma_div_abs_bound(
            fmul(inv_scale as int, x as int),
            FP as int,
            0x4000_0000_0000,
        );
    }
    let scaled = crate::fixed::fp_mul(inv_scale, x);
    div_floor_i128(scaled as i128, FP as i128) as i64
}

/// The representative of a value modulo one turn, in [0, 2 pi).
fn euclid_mod_two_pi(x: i64) -> (r: i64)
    ensures
        r == x as int % (TWO_PI_FP as int),
        0 <= r < TWO_PI_FP,
{
    proof {
        vstd::arithmetic::div_mod::lemma_mod_bound(x as int, TWO_PI_FP as int);
        vstd::arithmetic::div_mod::lemma_fundamental_div_mod(x as int, TWO_PI_FP as int);
        crate::fixed::lemma_div_abs_bound(x as int, TWO_PI_FP as int, 0x8000_0000_0000_0000);
        vstd::arithmetic::mul::lemma_mul_is_commutative(
            x as int / (TWO_PI_FP as int),
            TWO_PI_FP as int,
        );
    }
    let q = div_floor_i128(x as i128, TWO_PI_FP as i128);
    (x as i128 - q * (TWO_PI_FP as i128)) as i64
}

} // verus!
