//! The per-pixel record that the rasterizer hands to the fragment stage.

use vstd::prelude::*;
use crate::vector::Vec3;

verus! {

/// A pixel of the target, counted from the top-left corner.
#[derive(Clone, Copy, Debug, PartialEq, Eq, Structural)]
pub struct Pixel {
    pub x: usize,
    pub y: usize,
}

/// A candidate pixel with its interpolated attributes.
///
/// `depth` and the vectors are fixed-point; `intensity` is a fixed-point
/// lighting factor in `[0, 1]`.
#[derive(Clone, Copy, Debug, PartialEq, Eq, Structural)]
pub struct Fragment {
    pub position: Pixel,
    pub depth: i32,
    pub vertex_position: Vec3,
    pub normal: Vec3,
    pub intensity: i32,
}

impl Fragment {
    pub fn new(
        position: Pixel,
        depth: i32,
        normal: Vec3,
        intensity: i32,
        vertex_position: Vec3,
    ) -> (f: Fragment)
        ensures
            f == (Fragment { position, depth, vertex_position, normal, intensity }),
    {
        Fragment { position, depth, vertex_position, normal, intensity }
    }
}

} // verus!
