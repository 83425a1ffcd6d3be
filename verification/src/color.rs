//! A single RGB color sample and the squared-distance metric over RGB space.

use vstd::prelude::*;

verus! {

/// One RGB sample: three 8-bit components. Two colors are the same palette
/// entry iff all three components are exactly equal.
#[derive(Clone, Copy, PartialEq, Eq, Hash, Debug, Structural)]
pub struct Color {
    pub x: u8,
    pub y: u8,
    pub z: u8,
}

/// Squared Euclidean distance between two colors in RGB space. Component
/// differences are at most 255, so the sum is at most 3 * 255 * 255 = 195075.
pub open spec fn rgb_dist(a: Color, b: Color) -> int {
    (a.x - b.x) * (a.x - b.x) + (a.y - b.y) * (a.y - b.y) + (a.z - b.z) * (a.z - b.z)
}

/// The squared RGB distance of any pair of colors is bounded by 195075.
pub proof fn lemma_rgb_dist_bounds(a: Color, b: Color)
    ensures
        0 <= rgb_dist(a, b) <= 195075,
{
    let dx = a.x - b.x;
    let dy = a.y - b.y;
    let dz = a.z - b.z;
    assert(0 <= dx * dx <= 65025) by (nonlinear_arith)
        requires -255 <= dx <= 255,
    ;
    assert(0 <= dy * dy <= 65025) by (nonlinear_arith)
        requires -255 <= dy <= 255,
    ;
    assert(0 <= dz * dz <= 65025) by (nonlinear_arith)
        requires -255 <= dz <= 255,
    ;
}

/// The squared RGB distance is zero exactly on equal colors.
pub proof fn lemma_rgb_dist_zero(a: Color, b: Color)
    ensures
        rgb_dist(a, b) == 0 <==> a == b,
{
    let dx = a.x - b.x;
    let dy = a.y - b.y;
    let dz = a.z - b.z;
    assert(dx * dx >= 0 && (dx * dx == 0 <==> dx == 0)) by (nonlinear_arith);
    assert(dy * dy >= 0 && (dy * dy == 0 <==> dy == 0)) by (nonlinear_arith);
    assert(dz * dz >= 0 && (dz * dz == 0 <==> dz == 0)) by (nonlinear_arith);
}

impl Color {
    pub fn new(x: u8, y: u8, z: u8) -> (c: Color)
        ensures
            c == (Color { x, y, z }),
    {
        Color { x, y, z }
    }

    /// Squared Euclidean distance between `self` and `other` in RGB space.
    pub fn squared_distance(&self, other: &Color) -> (d: u32)
        ensures
            d == rgb_dist(*self, *other),
    {
        proof {
            lemma_rgb_dist_bounds(*self, *other);
        }
        let dx = self.x as i32 - other.x as i32;
        let dy = self.y as i32 - other.y as i32;
        let dz = self.z as i32 - other.z as i32;
        proof {
            assert(0 <= dx * dx <= 65025) by (nonlinear_arith)
                requires -255 <= dx <= 255,
            ;
            assert(0 <= dy * dy <= 65025) by (nonlinear_arith)
                requires -255 <= dy <= 255,
            ;
            assert(0 <= dz * dz <= 65025) by (nonlinear_arith)
                requires -255 <= dz <= 255,
            ;
        }
        (dx * dx + dy * dy + dz * dz) as u32
    }
}

} // verus!
