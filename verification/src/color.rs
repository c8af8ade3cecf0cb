//! Display encoding of linear radiance: a square-root transfer function,
//! clamping, and quantization to byte triplets.
use vstd::prelude::*;
use crate::fixed::{FP, fdiv, isqrt_spec};
use crate::vec3::{Vec3, Color};

verus! {

/// The display transfer function: the square root of a nonnegative linear
/// intensity in fixed point; nonpositive values map to zero.
pub open spec fn gamma_spec(c: int) -> int {
    if c > 0 {
        isqrt_spec(c * (FP as int))
    } else {
        0
    }
}

/// Square-root display encoding of one channel.
pub fn linear_to_gamma(linear_component: i64) -> (r: i64)
    ensures
        r == gamma_spec(linear_component as int),
        r >= 0,
{
    if linear_component > 0 {
        crate::fixed::fp_sqrt(linear_component)
    } else {
        0
    }
}

/// A gamma-encoded channel clamped into [0, 0.999] and quantized to a byte:
/// floor(256 * clamped / FP).
pub open spec fn byte_of(c: int) -> int {
    let g = gamma_spec(c);
    let cl = if g < 0 {
        0
    } else if g > 65470 {
        65470
    } else {
        g
    };
    256 * cl / (FP as int)
}

/// Quantize a color to its display bytes (red, green, blue).
pub fn write_color(pixel_color: &Color) -> (bytes: (u8, u8, u8))
    ensures
        bytes.0 == byte_of(pixel_color.x as int),
        bytes.1 == byte_of(pixel_color.y as int),
        bytes.2 == byte_of(pixel_color.z as int),
{
    (
        channel_byte(pixel_color.x),
        channel_byte(pixel_color.y),
        channel_byte(pixel_color.z),
    )
}

/// One channel's display byte.
pub fn channel_byte(c: i64) -> (b: u8)
    ensures
        b == byte_of(c as int),
{
    let g = linear_to_gamma(c);
    let cl: i64 = if g > 65470 {
        65470
    } else {
        g
    };
    proof {
        crate::fixed::lemma_div_ge_iff(256 * cl as int, 256, FP as int);
        assert(256 * (cl as int) < 256 * (FP as int)) by (nonlinear_arith)
            requires
                (cl as int) <= 65470,
                FP as int == 0x1_0000,
        ;
        vstd::arithmetic::div_mod::lemma_div_pos_is_pos(256 * cl as int, FP as int);
    }
    ((256 * (cl as i128)) / (FP as i128)) as u8
}

} // verus!
