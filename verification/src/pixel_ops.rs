//! Widened per-channel pixel arithmetic on plain channel arrays.

use vstd::prelude::*;

use crate::pixel::Pixel;

verus! {

/// Widen the four channels of a pixel to 32 bits.
pub fn pix_as_u32(pix: Pixel) -> (r: [u32; 4])
    ensures
        r[0] == pix.r as u32,
        r[1] == pix.g as u32,
        r[2] == pix.b as u32,
        r[3] == pix.a as u32,
{
    [pix.r as u32, pix.g as u32, pix.b as u32, pix.a as u32]
}

/// Elementwise sum of two widened pixels.
pub fn add_pix(lhs: [u32; 4], rhs: [u32; 4]) -> (r: [u32; 4])
    requires
        forall|i: int| 0 <= i < 4 ==> lhs[i] + rhs[i] <= u32::MAX,
    ensures
        forall|i: int| 0 <= i < 4 ==> r[i] == lhs[i] + rhs[i],
{
    [lhs[0] + rhs[0], lhs[1] + rhs[1], lhs[2] + rhs[2], lhs[3] + rhs[3]]
}

/// Elementwise difference of two widened pixels.
pub fn sub_pix(lhs: [u32; 4], rhs: [u32; 4]) -> (r: [u32; 4])
    requires
        forall|i: int| 0 <= i < 4 ==> rhs[i] <= lhs[i],
    ensures
        forall|i: int| 0 <= i < 4 ==> r[i] == lhs[i] - rhs[i],
{
    [lhs[0] - rhs[0], lhs[1] - rhs[1], lhs[2] - rhs[2], lhs[3] - rhs[3]]
}

} // verus!
