//! The CIE Lab side of the metric. The conversion from RGB to Lab and the
//! squared distance between two Lab triples are computed by the `lab` crate;
//! this module names their results so that contracts can speak of them.
//!
//! A Lab triple is held as the IEEE-754 bit patterns of its three `f32`
//! components. A squared Lab distance is likewise identified by the bit
//! pattern of its `f32` value: squared distances are finite and
//! non-negative, and on such floats the unsigned bit-pattern order coincides
//! with the numeric order, so comparing the `u32` patterns ranks palette
//! candidates exactly as comparing the float distances would.

use vstd::prelude::*;
use crate::color::Color;

verus! {

/// The perceptual representation of a color: the bit patterns of the three
/// `f32` CIE Lab components (lightness, a, b).
#[derive(Clone, Copy, PartialEq, Eq, Debug, Structural)]
pub struct LabColor {
    pub l_bits: u32,
    pub a_bits: u32,
    pub b_bits: u32,
}

/// The CIE Lab triple that the `lab` crate's RGB-to-Lab conversion returns
/// for a color, as bit patterns. A pure function of the color alone.
pub uninterp spec fn lab_of(c: Color) -> LabColor;

/// The squared Lab distance that the `lab` crate computes between two Lab
/// triples, as the bit pattern of the `f32` result. A pure function of the
/// two triples alone.
pub uninterp spec fn lab_dist_of(a: LabColor, b: LabColor) -> u32;

/// Relies on `lab::Lab::from_rgb`: the standard sRGB (D65) to CIE Lab
/// conversion, a pure function of the three 8-bit components.
#[verifier::external_body]
pub(crate) fn rgb_to_lab(c: &Color) -> (r: LabColor)
    ensures
        r == lab_of(*c),
{
    let l = lab::Lab::from_rgb(&[c.x, c.y, c.z]);
    LabColor { l_bits: l.l.to_bits(), a_bits: l.a.to_bits(), b_bits: l.b.to_bits() }
}

/// Relies on `lab::Lab::from_rgb` (as above) and `lab::Lab::squared_distance`:
/// the sum of the squared component differences of the two colors' Lab
/// triples, a pure function of those triples alone. Its result components
/// are finite for every 8-bit input, and on equal triples every difference
/// is exactly +0.0, so the result's bit pattern is 0.
#[verifier::external_body]
pub(crate) fn lab_sq_dist(a: &Color, b: &Color) -> (r: u32)
    ensures
        r == lab_dist_of(lab_of(*a), lab_of(*b)),
        lab_of(*a) == lab_of(*b) ==> r == 0,
{
    let x = lab::Lab::from_rgb(&[a.x, a.y, a.z]);
    let y = lab::Lab::from_rgb(&[b.x, b.y, b.z]);
    x.squared_distance(&y).to_bits()
}

} // verus!
