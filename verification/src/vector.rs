//! Fixed-point vectors of two, three and four components.

use vstd::prelude::*;
use crate::fixed::{floor_div, narrow, saturate, wide_mul, ONE};

verus! {

#[derive(Clone, Copy, Debug, PartialEq, Eq, Structural)]
pub struct Vec2 {
    pub x: i32,
    pub y: i32,
}

#[derive(Clone, Copy, Debug, PartialEq, Eq, Structural)]
pub struct Vec3 {
    pub x: i32,
    pub y: i32,
    pub z: i32,
}

#[derive(Clone, Copy, Debug, PartialEq, Eq, Structural)]
pub struct Vec4 {
    pub x: i32,
    pub y: i32,
    pub z: i32,
    pub w: i32,
}

/// The exact dot product of the raw components.
pub open spec fn dot3(a: Vec3, b: Vec3) -> int {
    a.x as int * b.x as int + a.y as int * b.y as int + a.z as int * b.z as int
}

/// The exact dot product of the raw components.
pub open spec fn dot4(a: Vec4, b: Vec4) -> int {
    a.x as int * b.x as int + a.y as int * b.y as int + a.z as int * b.z as int + a.w as int
        * b.w as int
}

/// The fixed-point dot product: the exact sum of products, scaled back once,
/// rounded down and clamped.
pub open spec fn fx_dot3(a: Vec3, b: Vec3) -> i32 {
    saturate(dot3(a, b) / (ONE as int))
}

/// The fixed-point dot product of four components.
pub open spec fn fx_dot4(a: Vec4, b: Vec4) -> i32 {
    saturate(dot4(a, b) / (ONE as int))
}

impl Vec2 {
    pub fn new(x: i32, y: i32) -> (v: Vec2)
        ensures
            v == (Vec2 { x, y }),
    {
        Vec2 { x, y }
    }
}

impl Vec3 {
    pub fn new(x: i32, y: i32, z: i32) -> (v: Vec3)
        ensures
            v == (Vec3 { x, y, z }),
    {
        Vec3 { x, y, z }
    }

    pub fn zeros() -> (v: Vec3)
        ensures
            v == (Vec3 { x: 0, y: 0, z: 0 }),
    {
        Vec3 { x: 0, y: 0, z: 0 }
    }

    /// The point `(x, y, z, 1)` in homogeneous coordinates.
    pub open spec fn homogeneous(self) -> Vec4 {
        Vec4 { x: self.x, y: self.y, z: self.z, w: ONE }
    }

    /// The exact sum of the squared raw components.
    pub open spec fn norm_squared(self) -> int {
        dot3(self, self)
    }

    /// Computes the exact dot product of the raw components.
    pub fn raw_dot(&self, other: &Vec3) -> (d: i128)
        ensures
            d == dot3(*self, *other),
    {
        wide_mul(self.x, other.x) as i128 + wide_mul(self.y, other.y) as i128 + wide_mul(
            self.z,
            other.z,
        ) as i128
    }

    /// Computes the fixed-point dot product.
    pub fn dot(&self, other: &Vec3) -> (d: i32)
        ensures
            d == fx_dot3(*self, *other),
    {
        narrow(floor_div(self.raw_dot(other), 65536))
    }
}

impl Vec4 {
    pub fn new(x: i32, y: i32, z: i32, w: i32) -> (v: Vec4)
        ensures
            v == (Vec4 { x, y, z, w }),
    {
        Vec4 { x, y, z, w }
    }

    /// The first three components.
    pub open spec fn xyz(self) -> Vec3 {
        Vec3 { x: self.x, y: self.y, z: self.z }
    }

    /// Computes the fixed-point dot product.
    pub fn dot(&self, other: &Vec4) -> (d: i32)
        ensures
            d == fx_dot4(*self, *other),
    {
        let s: i128 = wide_mul(self.x, other.x) as i128 + wide_mul(self.y, other.y) as i128
            + wide_mul(self.z, other.z) as i128 + wide_mul(self.w, other.w) as i128;
        narrow(floor_div(s, 65536))
    }
}

} // verus!
