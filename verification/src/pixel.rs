//! The pixel type and elementwise pixel arithmetic.
//!
//! A pixel is four unsigned 8-bit channels (R, G, B, A). `WidePixel` is the
//! canonical wide accumulator: the same four channels held in 64 bits each,
//! wide enough that a sum of `255 * width * height` per channel never
//! overflows for any raster whose well-formedness bound holds.

use vstd::prelude::*;

verus! {

/// One RGBA pixel: four unsigned 8-bit channels.
#[derive(Clone, Copy, Debug, PartialEq, Eq, Structural)]
pub struct Pixel {
    pub r: u8,
    pub g: u8,
    pub b: u8,
    pub a: u8,
}

/// One pixel widened to 64 bits per channel, the canonical accumulator
/// for per-channel sums.
#[derive(Clone, Copy, Debug, PartialEq, Eq, Structural)]
pub struct WidePixel {
    pub r: u64,
    pub g: u64,
    pub b: u64,
    pub a: u64,
}

/// Channel `c` of `p`: 0 is R, 1 is G, 2 is B, 3 is A.
pub open spec fn channel(p: Pixel, c: int) -> u8 {
    if c == 0 {
        p.r
    } else if c == 1 {
        p.g
    } else if c == 2 {
        p.b
    } else {
        p.a
    }
}

/// The integer-approximated grayscale brightness of a pixel:
/// `r/10*3 + g/10*6 + b/10`, a fixed-point stand-in for the usual
/// 0.299/0.587/0.114 weights. Integer division truncates on purpose.
pub open spec fn luma(p: Pixel) -> u8 {
    ((p.r / 10) * 3 + (p.g / 10) * 6 + p.b / 10) as u8
}

/// Clamp one channel into `[min, max]` the way the filters do: a value
/// below `min` is pulled up to `min`, otherwise a value not below `max`
/// is pulled down to `max`.
pub open spec fn clamp_channel(v: u8, min: u8, max: u8) -> u8 {
    if v < min {
        min
    } else if v < max {
        v
    } else {
        max
    }
}

impl Pixel {
    pub fn new(r: u8, g: u8, b: u8, a: u8) -> (p: Pixel)
        ensures
            p == (Pixel { r, g, b, a }),
    {
        Pixel { r, g, b, a }
    }

    /// Widen every channel to 64 bits.
    pub fn into(self) -> (w: WidePixel)
        ensures
            w.r == self.r as u64,
            w.g == self.g as u64,
            w.b == self.b as u64,
            w.a == self.a as u64,
    {
        WidePixel { r: self.r as u64, g: self.g as u64, b: self.b as u64, a: self.a as u64 }
    }

    /// Clamp every channel into `[min, max]`.
    pub fn clamp(self, min: u8, max: u8) -> (p: Pixel)
        ensures
            p.r == clamp_channel(self.r, min, max),
            p.g == clamp_channel(self.g, min, max),
            p.b == clamp_channel(self.b, min, max),
            p.a == clamp_channel(self.a, min, max),
    {
        Pixel {
            r: clamp_u8(self.r, min, max),
            g: clamp_u8(self.g, min, max),
            b: clamp_u8(self.b, min, max),
            a: clamp_u8(self.a, min, max),
        }
    }

    /// The integer-approximated grayscale brightness; at most 250, so the
    /// fixed-point sum never overflows a `u8`.
    pub fn as_gray(self) -> (g: u8)
        ensures
            g == luma(self),
            g <= 250,
    {
        (self.r / 10) * 3 + (self.g / 10) * 6 + self.b / 10
    }
}

fn clamp_u8(v: u8, min: u8, max: u8) -> (r: u8)
    ensures
        r == clamp_channel(v, min, max),
{
    if v < min {
        min
    } else if v < max {
        v
    } else {
        max
    }
}

/// Fold `pix` into a running per-channel minimum.
pub fn min(pix: &Pixel, min: &mut Pixel)
    ensures
        final(min).r == if old(min).r < pix.r { old(min).r } else { pix.r },
        final(min).g == if old(min).g < pix.g { old(min).g } else { pix.g },
        final(min).b == if old(min).b < pix.b { old(min).b } else { pix.b },
        final(min).a == if old(min).a < pix.a { old(min).a } else { pix.a },
{
    min.r = if min.r < pix.r { min.r } else { pix.r };
    min.g = if min.g < pix.g { min.g } else { pix.g };
    min.b = if min.b < pix.b { min.b } else { pix.b };
    min.a = if min.a < pix.a { min.a } else { pix.a };
}

/// Fold `pix` into a running per-channel maximum.
pub fn max(pix: &Pixel, max: &mut Pixel)
    ensures
        final(max).r == if old(max).r < pix.r { pix.r } else { old(max).r },
        final(max).g == if old(max).g < pix.g { pix.g } else { old(max).g },
        final(max).b == if old(max).b < pix.b { pix.b } else { old(max).b },
        final(max).a == if old(max).a < pix.a { pix.a } else { old(max).a },
{
    max.r = if max.r < pix.r { pix.r } else { max.r };
    max.g = if max.g < pix.g { pix.g } else { max.g };
    max.b = if max.b < pix.b { pix.b } else { max.b };
    max.a = if max.a < pix.a { pix.a } else { max.a };
}

} // verus!
