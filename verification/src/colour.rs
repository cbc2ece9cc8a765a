//! Turning an accumulated colour into one raster line `"R G B"`.
//!
//! The accumulated channel is divided by the sample count (the Monte
//! Carlo mean), gamma-corrected by a square root, clamped to
//! `[0, 0.999]`, scaled by 256 and truncated to an integer in
//! `[0, 255]`, then printed in decimal.

use crate::fx::{fx_sqrt, sat_i128, spec_sqrt, tdiv, tdiv_i128, SCALE};
use crate::vec3::{Colour, Vec3};
use vstd::prelude::*;
use vstd::string::*;

verus! {

/// The clamp ceiling `0.999` as a scalar: `floor(0.999 * SCALE)`.
pub const CLAMP_CEILING: i64 = 16760438;

/// The integer in `[0, 255]` that one accumulated channel quantizes to,
/// for the given sample count: mean, square-root gamma, clamp, scale by
/// 256, truncate.  A non-positive mean (a float pipeline would produce
/// no finite digit there) quantizes to 0.
pub open spec fn channel_quant(x: int, spp: int) -> int
    recommends
        spp >= 1,
{
    let mean = tdiv(x, spp);
    if mean <= 0 {
        0
    } else {
        let gamma = spec_sqrt(mean);
        let clamped = if gamma > CLAMP_CEILING {
            CLAMP_CEILING as int
        } else {
            gamma
        };
        tdiv(256 * clamped, SCALE as int)
    }
}

/// The digit character for one of 0 to 9.
pub open spec fn digit_char(d: int) -> char {
    if d == 0 {
        '0'
    } else if d == 1 {
        '1'
    } else if d == 2 {
        '2'
    } else if d == 3 {
        '3'
    } else if d == 4 {
        '4'
    } else if d == 5 {
        '5'
    } else if d == 6 {
        '6'
    } else if d == 7 {
        '7'
    } else if d == 8 {
        '8'
    } else {
        '9'
    }
}

/// The decimal digits of an integer in `[0, 999]`, no leading zeros.
pub open spec fn dec_spec(n: int) -> Seq<char>
    recommends
        0 <= n <= 999,
{
    if n < 10 {
        seq![digit_char(n)]
    } else if n < 100 {
        seq![digit_char(n / 10), digit_char(n % 10)]
    } else {
        seq![digit_char(n / 100), digit_char((n / 10) % 10), digit_char(n % 10)]
    }
}

/// The full raster line of a pixel: three quantized channels separated
/// by single spaces.
pub open spec fn pixel_line_spec(c: Vec3, spp: int) -> Seq<char> {
    dec_spec(channel_quant(c.x as int, spp)) + seq![' '] + dec_spec(channel_quant(c.y as int, spp))
        + seq![' '] + dec_spec(channel_quant(c.z as int, spp))
}

/// One quantized channel lies in `[0, 255]`.
pub proof fn lemma_channel_quant_bounds(x: int, spp: int)
    requires
        spp >= 1,
    ensures
        0 <= channel_quant(x, spp) <= 255,
{
    let mean = tdiv(x, spp);
    if mean <= 0 {
    } else {
        crate::fx::lemma_sqrt_floor_bounds(mean * SCALE);
        assert(mean * SCALE >= 0) by (nonlinear_arith)
            requires
                mean >= 0,
                SCALE as int > 0,
        ;
        let gamma = spec_sqrt(mean);
        let clamped = if gamma > CLAMP_CEILING {
            CLAMP_CEILING as int
        } else {
            gamma
        };
        crate::fx::lemma_tdiv_bounds(256 * clamped, SCALE as int);
        crate::fx::lemma_tdiv_mono(256 * clamped, 256 * (CLAMP_CEILING as int), SCALE as int);
        assert(tdiv(256 * (CLAMP_CEILING as int), SCALE as int) == 255);
    }
}

/// Quantize one accumulated channel for the given sample count.
fn channel_to_byte(x: i64, spp: i64) -> (r: u8)
    requires
        spp >= 1,
    ensures
        r as int == channel_quant(x as int, spp as int),
{
    let mean_wide = tdiv_i128(x as i128, spp as i128);
    proof {
        crate::fx::lemma_tdiv_bounds(x as int, spp as int);
        lemma_channel_quant_bounds(x as int, spp as int);
    }
    let mean = mean_wide as i64;
    if mean <= 0 {
        0
    } else {
        let gamma = fx_sqrt(mean);
        let clamped = if gamma > CLAMP_CEILING {
            CLAMP_CEILING
        } else {
            gamma
        };
        let v = tdiv_i128(256 * (clamped as i128), SCALE as i128);
        v as u8
    }
}

/// The one-character string of a decimal digit.
fn digit_str(d: u8) -> (r: &'static str)
    requires
        d <= 9,
    ensures
        r@ == seq![digit_char(d as int)],
{
    proof {
        reveal_strlit("0");
        reveal_strlit("1");
        reveal_strlit("2");
        reveal_strlit("3");
        reveal_strlit("4");
        reveal_strlit("5");
        reveal_strlit("6");
        reveal_strlit("7");
        reveal_strlit("8");
        reveal_strlit("9");
    }
    match d {
        0 => "0",
        1 => "1",
        2 => "2",
        3 => "3",
        4 => "4",
        5 => "5",
        6 => "6",
        7 => "7",
        8 => "8",
        _ => {
            proof {
                assert(d == 9);
            }
            "9"
        },
    }
}

/// The decimal digits of a byte, appended to `out`.
fn push_decimal(out: &mut String, v: u8)
    ensures
        final(out)@ == old(out)@ + dec_spec(v as int),
{
    if v < 10 {
        out.append(digit_str(v));
    } else if v < 100 {
        out.append(digit_str(v / 10));
        out.append(digit_str(v % 10));
    } else {
        out.append(digit_str(v / 100));
        out.append(digit_str((v / 10) % 10));
        out.append(digit_str(v % 10));
    }
}

impl Colour {
    /// Format the accumulated colour as its raster line `"R G B"`.
    pub fn to_string(&self, samples_per_pixel: usize) -> (r: String)
        requires
            1 <= samples_per_pixel <= 0x7fff_ffff_ffff_ffff,
        ensures
            r@ == pixel_line_spec(*self, samples_per_pixel as int),
    {
        proof {
            reveal_strlit(" ");
        }
        let spp = samples_per_pixel as i64;
        let mut out = String::new();
        push_decimal(&mut out, channel_to_byte(self.x, spp));
        out.append(" ");
        push_decimal(&mut out, channel_to_byte(self.y, spp));
        out.append(" ");
        push_decimal(&mut out, channel_to_byte(self.z, spp));
        proof {
            assert(" "@ =~= seq![' ']);
            assert(out@ =~= pixel_line_spec(*self, samples_per_pixel as int));
        }
        out
    }
}

} // verus!
