//! Fixed-point 3x3 and 4x4 matrices, stored by rows.

use vstd::prelude::*;
use crate::fixed::{floor_ratio, lemma_mul_bounds, narrow, ratio, saturate, wide_mul, ONE};
use crate::vector::{fx_dot3, fx_dot4, Vec3, Vec4};

verus! {

/// A 3x3 matrix given by its rows.
#[derive(Clone, Copy, Debug, PartialEq, Eq, Structural)]
pub struct Mat3 {
    pub r0: Vec3,
    pub r1: Vec3,
    pub r2: Vec3,
}

/// A 4x4 matrix given by its rows.
#[derive(Clone, Copy, Debug, PartialEq, Eq, Structural)]
pub struct Mat4 {
    pub r0: Vec4,
    pub r1: Vec4,
    pub r2: Vec4,
    pub r3: Vec4,
}

/// The exact 2x2 determinant `a * d - b * c` of raw values.
pub open spec fn det2(a: i32, b: i32, c: i32, d: i32) -> int {
    a as int * d as int - b as int * c as int
}

impl Mat4 {
    pub open spec fn spec_identity() -> Mat4 {
        Mat4 {
            r0: Vec4 { x: ONE, y: 0, z: 0, w: 0 },
            r1: Vec4 { x: 0, y: ONE, z: 0, w: 0 },
            r2: Vec4 { x: 0, y: 0, z: ONE, w: 0 },
            r3: Vec4 { x: 0, y: 0, z: 0, w: ONE },
        }
    }

    /// The rows of the transpose, which are the columns of `self`.
    pub open spec fn transposed(self) -> Mat4 {
        Mat4 {
            r0: Vec4 { x: self.r0.x, y: self.r1.x, z: self.r2.x, w: self.r3.x },
            r1: Vec4 { x: self.r0.y, y: self.r1.y, z: self.r2.y, w: self.r3.y },
            r2: Vec4 { x: self.r0.z, y: self.r1.z, z: self.r2.z, w: self.r3.z },
            r3: Vec4 { x: self.r0.w, y: self.r1.w, z: self.r2.w, w: self.r3.w },
        }
    }

    /// The matrix applied to a column vector: each component is the
    /// fixed-point dot product of a row with `v`.
    pub open spec fn apply(self, v: Vec4) -> Vec4 {
        Vec4 {
            x: fx_dot4(self.r0, v),
            y: fx_dot4(self.r1, v),
            z: fx_dot4(self.r2, v),
            w: fx_dot4(self.r3, v),
        }
    }

    /// The matrix product `self * other`: column by column, `self` applied to
    /// the columns of `other`.
    pub open spec fn times(self, other: Mat4) -> Mat4 {
        let t = other.transposed();
        Mat4 {
            r0: t.apply(self.r0),
            r1: t.apply(self.r1),
            r2: t.apply(self.r2),
            r3: t.apply(self.r3),
        }
    }

    pub fn identity() -> (m: Mat4)
        ensures
            m == Mat4::spec_identity(),
    {
        Mat4 {
            r0: Vec4 { x: ONE, y: 0, z: 0, w: 0 },
            r1: Vec4 { x: 0, y: ONE, z: 0, w: 0 },
            r2: Vec4 { x: 0, y: 0, z: ONE, w: 0 },
            r3: Vec4 { x: 0, y: 0, z: 0, w: ONE },
        }
    }

    pub fn from_rows(r0: Vec4, r1: Vec4, r2: Vec4, r3: Vec4) -> (m: Mat4)
        ensures
            m == (Mat4 { r0, r1, r2, r3 }),
    {
        Mat4 { r0, r1, r2, r3 }
    }

    /// A translation by `t`.
    pub fn new_translation(t: &Vec3) -> (m: Mat4)
        ensures
            m == (Mat4 {
                r0: Vec4 { x: ONE, y: 0, z: 0, w: t.x },
                r1: Vec4 { x: 0, y: ONE, z: 0, w: t.y },
                r2: Vec4 { x: 0, y: 0, z: ONE, w: t.z },
                r3: Vec4 { x: 0, y: 0, z: 0, w: ONE },
            }),
    {
        Mat4 {
            r0: Vec4 { x: ONE, y: 0, z: 0, w: t.x },
            r1: Vec4 { x: 0, y: ONE, z: 0, w: t.y },
            r2: Vec4 { x: 0, y: 0, z: ONE, w: t.z },
            r3: Vec4 { x: 0, y: 0, z: 0, w: ONE },
        }
    }

    pub fn transpose(&self) -> (m: Mat4)
        ensures
            m == self.transposed(),
    {
        Mat4 {
            r0: Vec4 { x: self.r0.x, y: self.r1.x, z: self.r2.x, w: self.r3.x },
            r1: Vec4 { x: self.r0.y, y: self.r1.y, z: self.r2.y, w: self.r3.y },
            r2: Vec4 { x: self.r0.z, y: self.r1.z, z: self.r2.z, w: self.r3.z },
            r3: Vec4 { x: self.r0.w, y: self.r1.w, z: self.r2.w, w: self.r3.w },
        }
    }

    /// Applies the matrix to a column vector.
    pub fn mul_vec(&self, v: &Vec4) -> (out: Vec4)
        ensures
            out == self.apply(*v),
    {
        Vec4 { x: self.r0.dot(v), y: self.r1.dot(v), z: self.r2.dot(v), w: self.r3.dot(v) }
    }

    /// Multiplies two matrices.
    pub fn mul_mat(&self, other: &Mat4) -> (out: Mat4)
        ensures
            out == self.times(*other),
    {
        let t = other.transpose();
        Mat4 {
            r0: t.mul_vec(&self.r0),
            r1: t.mul_vec(&self.r1),
            r2: t.mul_vec(&self.r2),
            r3: t.mul_vec(&self.r3),
        }
    }
}

impl Mat3 {
    pub open spec fn spec_identity() -> Mat3 {
        Mat3 {
            r0: Vec3 { x: ONE, y: 0, z: 0 },
            r1: Vec3 { x: 0, y: ONE, z: 0 },
            r2: Vec3 { x: 0, y: 0, z: ONE },
        }
    }

    /// The upper-left 3x3 block of a 4x4 matrix.
    pub open spec fn upper_left(m: Mat4) -> Mat3 {
        Mat3 { r0: m.r0.xyz(), r1: m.r1.xyz(), r2: m.r2.xyz() }
    }

    pub open spec fn transposed(self) -> Mat3 {
        Mat3 {
            r0: Vec3 { x: self.r0.x, y: self.r1.x, z: self.r2.x },
            r1: Vec3 { x: self.r0.y, y: self.r1.y, z: self.r2.y },
            r2: Vec3 { x: self.r0.z, y: self.r1.z, z: self.r2.z },
        }
    }

    pub open spec fn apply(self, v: Vec3) -> Vec3 {
        Vec3 { x: fx_dot3(self.r0, v), y: fx_dot3(self.r1, v), z: fx_dot3(self.r2, v) }
    }

    /// The exact determinant of the raw entries, by expansion along the
    /// first row.
    pub open spec fn raw_det(self) -> int {
        self.r0.x as int * det2(self.r1.y, self.r1.z, self.r2.y, self.r2.z) - self.r0.y as int
            * det2(self.r1.x, self.r1.z, self.r2.x, self.r2.z) + self.r0.z as int * det2(
            self.r1.x,
            self.r1.y,
            self.r2.x,
            self.r2.y,
        )
    }

    /// One entry of the inverse: the exact cofactor `c` of raw entries over
    /// the exact determinant `d`, brought back to 16.16, rounded down and
    /// clamped.
    pub open spec fn inverse_entry(c: int, d: int) -> i32 {
        saturate(ratio(c * (ONE as int) * (ONE as int), d))
    }

    /// The inverse by the adjugate formula, where the determinant is not
    /// zero.
    pub open spec fn inverse(self) -> Option<Mat3> {
        let d = self.raw_det();
        if d == 0 {
            None
        } else {
            let m = self;
            Some(
                Mat3 {
                    r0: Vec3 {
                        x: Mat3::inverse_entry(det2(m.r1.y, m.r1.z, m.r2.y, m.r2.z), d),
                        y: Mat3::inverse_entry(-det2(m.r0.y, m.r0.z, m.r2.y, m.r2.z), d),
                        z: Mat3::inverse_entry(det2(m.r0.y, m.r0.z, m.r1.y, m.r1.z), d),
                    },
                    r1: Vec3 {
                        x: Mat3::inverse_entry(-det2(m.r1.x, m.r1.z, m.r2.x, m.r2.z), d),
                        y: Mat3::inverse_entry(det2(m.r0.x, m.r0.z, m.r2.x, m.r2.z), d),
                        z: Mat3::inverse_entry(-det2(m.r0.x, m.r0.z, m.r1.x, m.r1.z), d),
                    },
                    r2: Vec3 {
                        x: Mat3::inverse_entry(det2(m.r1.x, m.r1.y, m.r2.x, m.r2.y), d),
                        y: Mat3::inverse_entry(-det2(m.r0.x, m.r0.y, m.r2.x, m.r2.y), d),
                        z: Mat3::inverse_entry(det2(m.r0.x, m.r0.y, m.r1.x, m.r1.y), d),
                    },
                },
            )
        }
    }

    pub fn identity() -> (m: Mat3)
        ensures
            m == Mat3::spec_identity(),
    {
        Mat3 {
            r0: Vec3 { x: ONE, y: 0, z: 0 },
            r1: Vec3 { x: 0, y: ONE, z: 0 },
            r2: Vec3 { x: 0, y: 0, z: ONE },
        }
    }

    /// Takes the upper-left 3x3 block of `m`.
    pub fn from_mat4(m: &Mat4) -> (out: Mat3)
        ensures
            out == Mat3::upper_left(*m),
    {
        Mat3 {
            r0: Vec3 { x: m.r0.x, y: m.r0.y, z: m.r0.z },
            r1: Vec3 { x: m.r1.x, y: m.r1.y, z: m.r1.z },
            r2: Vec3 { x: m.r2.x, y: m.r2.y, z: m.r2.z },
        }
    }

    pub fn transpose(&self) -> (m: Mat3)
        ensures
            m == self.transposed(),
    {
        Mat3 {
            r0: Vec3 { x: self.r0.x, y: self.r1.x, z: self.r2.x },
            r1: Vec3 { x: self.r0.y, y: self.r1.y, z: self.r2.y },
            r2: Vec3 { x: self.r0.z, y: self.r1.z, z: self.r2.z },
        }
    }

    /// Applies the matrix to a column vector.
    pub fn mul_vec(&self, v: &Vec3) -> (out: Vec3)
        ensures
            out == self.apply(*v),
    {
        Vec3 { x: self.r0.dot(v), y: self.r1.dot(v), z: self.r2.dot(v) }
    }

    /// Inverts the matrix; `None` exactly when its determinant is zero.
    pub fn try_inverse(&self) -> (out: Option<Mat3>)
        ensures
            out == self.inverse(),
    {
        let c00 = minor(self.r1.y, self.r1.z, self.r2.y, self.r2.z);
        let c01 = minor(self.r1.x, self.r1.z, self.r2.x, self.r2.z);
        let c02 = minor(self.r1.x, self.r1.y, self.r2.x, self.r2.y);
        let d: i128 = times_entry(self.r0.x, c00) - times_entry(self.r0.y, c01) + times_entry(
            self.r0.z,
            c02,
        );
        if d == 0 {
            return None;
        }
        let c10 = minor(self.r0.y, self.r0.z, self.r2.y, self.r2.z);
        let c11 = minor(self.r0.x, self.r0.z, self.r2.x, self.r2.z);
        let c12 = minor(self.r0.x, self.r0.y, self.r2.x, self.r2.y);
        let c20 = minor(self.r0.y, self.r0.z, self.r1.y, self.r1.z);
        let c21 = minor(self.r0.x, self.r0.z, self.r1.x, self.r1.z);
        let c22 = minor(self.r0.x, self.r0.y, self.r1.x, self.r1.y);
        Some(
            Mat3 {
                r0: Vec3 { x: over(c00, d), y: over(-c10, d), z: over(c20, d) },
                r1: Vec3 { x: over(-c01, d), y: over(c11, d), z: over(-c21, d) },
                r2: Vec3 { x: over(c02, d), y: over(-c12, d), z: over(c22, d) },
            },
        )
    }
}

/// The exact 2x2 determinant of raw entries.
fn minor(a: i32, b: i32, c: i32, d: i32) -> (m: i128)
    ensures
        m == det2(a, b, c, d),
        -0x8000_0000_0000_0000 <= m <= 0x8000_0000_0000_0000,
{
    let p: i64 = wide_mul(a, d);
    let q: i64 = wide_mul(b, c);
    proof {
        lemma_mul_bounds(a as int, d as int, 0x8000_0000, 0x8000_0000);
        lemma_mul_bounds(b as int, c as int, 0x8000_0000, 0x8000_0000);
    }
    p as i128 - q as i128
}

/// The exact product of a raw entry and a 2x2 determinant.
fn times_entry(a: i32, m: i128) -> (p: i128)
    requires
        -0x8000_0000_0000_0000 <= m <= 0x8000_0000_0000_0000,
    ensures
        p == a as int * m as int,
        -0x4000_0000_0000_0000_0000_0000 <= p <= 0x4000_0000_0000_0000_0000_0000,
{
    assert(-(0x8000_0000 * 0x8000_0000_0000_0000) <= a as int * m as int <= 0x8000_0000
        * 0x8000_0000_0000_0000) by (nonlinear_arith)
        requires
            -0x8000_0000 <= a as int <= 0x8000_0000,
            -0x8000_0000_0000_0000 <= m as int <= 0x8000_0000_0000_0000,
    ;
    (a as i128) * m
}

/// One entry of the inverse from its cofactor and the determinant.
fn over(c: i128, d: i128) -> (e: i32)
    requires
        -0x8000_0000_0000_0000 <= c <= 0x8000_0000_0000_0000,
        d != 0,
        -0x1_0000_0000_0000_0000_0000_0000 <= d <= 0x1_0000_0000_0000_0000_0000_0000,
    ensures
        e == Mat3::inverse_entry(c as int, d as int),
{
    assert(c as int * 65536 * 65536 == c as int * 0x1_0000_0000) by (nonlinear_arith);
    narrow(floor_ratio(c * 0x1_0000_0000, d))
}

/// One times a value, scaled back, is the value.
proof fn lemma_unit_product(v: i32)
    ensures
        saturate((65536 * v as int) / 65536) == v,
        saturate((v as int * 65536) / 65536) == v,
{
}

/// The identity matrix maps every vector to itself.
pub proof fn lemma_identity_apply(v: Vec4, n: Vec3)
    ensures
        Mat4::spec_identity().apply(v) == v,
        Mat3::spec_identity().apply(n) == n,
{
    lemma_unit_product(v.x);
    lemma_unit_product(v.y);
    lemma_unit_product(v.z);
    lemma_unit_product(v.w);
    lemma_unit_product(n.x);
    lemma_unit_product(n.y);
    lemma_unit_product(n.z);
    let e = Mat4::spec_identity();
    assert(crate::vector::dot4(e.r0, v) == 65536 * v.x as int) by (nonlinear_arith)
        requires
            e.r0 == (Vec4 { x: 65536, y: 0, z: 0, w: 0 }),
    ;
    assert(crate::vector::dot4(e.r1, v) == 65536 * v.y as int) by (nonlinear_arith)
        requires
            e.r1 == (Vec4 { x: 0, y: 65536, z: 0, w: 0 }),
    ;
    assert(crate::vector::dot4(e.r2, v) == 65536 * v.z as int) by (nonlinear_arith)
        requires
            e.r2 == (Vec4 { x: 0, y: 0, z: 65536, w: 0 }),
    ;
    assert(crate::vector::dot4(e.r3, v) == 65536 * v.w as int) by (nonlinear_arith)
        requires
            e.r3 == (Vec4 { x: 0, y: 0, z: 0, w: 65536 }),
    ;
    let f = Mat3::spec_identity();
    assert(crate::vector::dot3(f.r0, n) == 65536 * n.x as int) by (nonlinear_arith)
        requires
            f.r0 == (Vec3 { x: 65536, y: 0, z: 0 }),
    ;
    assert(crate::vector::dot3(f.r1, n) == 65536 * n.y as int) by (nonlinear_arith)
        requires
            f.r1 == (Vec3 { x: 0, y: 65536, z: 0 }),
    ;
    assert(crate::vector::dot3(f.r2, n) == 65536 * n.z as int) by (nonlinear_arith)
        requires
            f.r2 == (Vec3 { x: 0, y: 0, z: 65536 }),
    ;
}

/// Multiplying by the identity matrix on either side changes nothing.
pub proof fn lemma_identity_times(m: Mat4)
    ensures
        Mat4::spec_identity().times(m) == m,
        m.times(Mat4::spec_identity()) == m,
{
    let e = Mat4::spec_identity();
    let t = m.transposed();
    // Rows of the identity pick the columns of `m` apart.
    lemma_row_picks(t.r0, t.r1, t.r2, t.r3);
    // The identity is its own transpose, and maps every row to itself.
    assert(e.transposed() == e);
    lemma_identity_apply(m.r0, Vec3 { x: 0, y: 0, z: 0 });
    lemma_identity_apply(m.r1, Vec3 { x: 0, y: 0, z: 0 });
    lemma_identity_apply(m.r2, Vec3 { x: 0, y: 0, z: 0 });
    lemma_identity_apply(m.r3, Vec3 { x: 0, y: 0, z: 0 });
}

/// A matrix applied to the unit vectors gives its columns: for the matrix
/// with rows `c0` to `c3`, component `k` of row `i` of the identity picks
/// component `i` of `ck`.
proof fn lemma_row_picks(c0: Vec4, c1: Vec4, c2: Vec4, c3: Vec4)
    ensures
        ({
            let t = Mat4 { r0: c0, r1: c1, r2: c2, r3: c3 };
            let e = Mat4::spec_identity();
            &&& t.apply(e.r0) == (Vec4 { x: c0.x, y: c1.x, z: c2.x, w: c3.x })
            &&& t.apply(e.r1) == (Vec4 { x: c0.y, y: c1.y, z: c2.y, w: c3.y })
            &&& t.apply(e.r2) == (Vec4 { x: c0.z, y: c1.z, z: c2.z, w: c3.z })
            &&& t.apply(e.r3) == (Vec4 { x: c0.w, y: c1.w, z: c2.w, w: c3.w })
        }),
{
    lemma_unit_picks(c0);
    lemma_unit_picks(c1);
    lemma_unit_picks(c2);
    lemma_unit_picks(c3);
}

/// The dot product with a unit vector picks one component.
proof fn lemma_unit_picks(c: Vec4)
    ensures
        fx_dot4(c, Vec4 { x: 65536, y: 0, z: 0, w: 0 }) == c.x,
        fx_dot4(c, Vec4 { x: 0, y: 65536, z: 0, w: 0 }) == c.y,
        fx_dot4(c, Vec4 { x: 0, y: 0, z: 65536, w: 0 }) == c.z,
        fx_dot4(c, Vec4 { x: 0, y: 0, z: 0, w: 65536 }) == c.w,
{
    lemma_unit_product(c.x);
    lemma_unit_product(c.y);
    lemma_unit_product(c.z);
    lemma_unit_product(c.w);
    assert(c.x as int * 65536 + c.y as int * 0 + c.z as int * 0 + c.w as int * 0 == c.x as int
        * 65536);
    assert(c.x as int * 0 + c.y as int * 65536 + c.z as int * 0 + c.w as int * 0 == c.y as int
        * 65536);
    assert(c.x as int * 0 + c.y as int * 0 + c.z as int * 65536 + c.w as int * 0 == c.z as int
        * 65536);
    assert(c.x as int * 0 + c.y as int * 0 + c.z as int * 0 + c.w as int * 65536 == c.w as int
        * 65536);
}

/// The identity matrix is its own inverse.
pub proof fn lemma_identity_inverse()
    ensures
        Mat3::spec_identity().inverse() == Some(Mat3::spec_identity()),
{
    let e = Mat3::spec_identity();
    assert(det2(65536, 0, 0, 65536) == 0x1_0000_0000) by (nonlinear_arith);
    assert(det2(0, 0, 0, 65536) == 0) by (nonlinear_arith);
    assert(det2(0, 65536, 0, 0) == 0) by (nonlinear_arith);
    assert(det2(0, 0, 65536, 0) == 0) by (nonlinear_arith);
    assert(det2(65536, 0, 0, 0) == 0) by (nonlinear_arith);
    assert(det2(0, 0, 0, 0) == 0) by (nonlinear_arith);
    assert(e.raw_det() == 0x1_0000_0000_0000) by (nonlinear_arith)
        requires
            e.raw_det() == 65536 * det2(65536, 0, 0, 65536) - 0 * det2(0, 0, 0, 65536) + 0
                * det2(0, 65536, 0, 0),
            det2(65536, 0, 0, 65536) == 0x1_0000_0000,
    ;
    assert(Mat3::inverse_entry(0x1_0000_0000, 0x1_0000_0000_0000) == 65536) by (nonlinear_arith);
    assert(Mat3::inverse_entry(0, 0x1_0000_0000_0000) == 0) by (nonlinear_arith);
    assert(-0int == 0);
}

/// Transposing twice gives the matrix back.
pub proof fn lemma_transpose_twice(m: Mat4, n: Mat3)
    ensures
        m.transposed().transposed() == m,
        n.transposed().transposed() == n,
{
}

} // verus!
