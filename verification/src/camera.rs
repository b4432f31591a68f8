//! The orbit camera: an eye that circles a centre and moves towards it or
//! away from it.

use vstd::prelude::*;
use crate::fixed::{floor_div, isqrt, lemma_mul_bounds, narrow, saturate, sqrt_floor, wide_mul64};
use crate::vector::Vec3;
use crate::Angle;

verus! {

/// The camera: where it stands, what it looks at, and which way is up.
#[derive(Clone, Copy, Debug, PartialEq, Eq, Structural)]
pub struct Camera {
    pub eye: Vec3,
    pub center: Vec3,
    pub up: Vec3,
}

/// The quotient of `n` by a positive `d`, rounded towards zero.
pub open spec fn toward_zero(n: int, d: int) -> int {
    if n >= 0 {
        n / d
    } else {
        -((-n) / d)
    }
}

/// The exact squared length of the raw vector `(dx, dy, dz)`.
pub open spec fn squared_length(dx: int, dy: int, dz: int) -> int {
    dx * dx + dy * dy + dz * dz
}

/// How far a zoom by `delta` moves an eye that is `len` away from the centre:
/// `delta` itself, but never as far as the centre.
pub open spec fn zoom_step(delta: i32, len: int) -> int {
    if delta as int >= len {
        len - 1
    } else {
        delta as int
    }
}

/// One coordinate of the eye after it moved by `step` along an offset of
/// which `d` is this coordinate and `len` the length.
pub open spec fn moved(eye: i32, d: int, step: int, len: int) -> i32 {
    saturate(eye as int + toward_zero(d * step, len))
}

/// The first coordinate of `(u, v)` turned by the angle `a`.
pub open spec fn turned_first(u: int, v: int, a: Angle) -> int {
    (u * a.cos as int - v * a.sin as int) / 65536
}

/// The second coordinate of `(u, v)` turned by the angle `a`.
pub open spec fn turned_second(u: int, v: int, a: Angle) -> int {
    (u * a.sin as int + v * a.cos as int) / 65536
}

impl Camera {
    /// The offset of the eye from the centre after an orbit: turned about the
    /// vertical axis by `azimuth`, then about the horizontal axis across the
    /// line of sight by `elevation`. The second turn is left out where the eye
    /// stands on the vertical axis or would be carried onto it or past it.
    pub open spec fn orbited_offset(self, azimuth: Angle, elevation: Angle) -> (int, int, int) {
        let x = self.eye.x as int - self.center.x as int;
        let y = self.eye.y as int - self.center.y as int;
        let z = self.eye.z as int - self.center.z as int;
        let x1 = turned_first(x, z, azimuth);
        let z1 = turned_second(x, z, azimuth);
        let h = sqrt_floor(x1 * x1 + z1 * z1);
        let h1 = turned_second(y, h, elevation);
        let y1 = turned_first(y, h, elevation);
        if h <= 0 || h1 <= 0 {
            (x1, y, z1)
        } else {
            (toward_zero(x1 * h1, h), y1, toward_zero(z1 * h1, h))
        }
    }

    /// The camera after an orbit by the two angles: the eye is the centre
    /// plus the turned offset, the centre and the up vector stay.
    pub open spec fn orbited(self, azimuth: Angle, elevation: Angle) -> Camera {
        let (x, y, z) = self.orbited_offset(azimuth, elevation);
        Camera {
            eye: Vec3 {
                x: saturate(self.center.x as int + x),
                y: saturate(self.center.y as int + y),
                z: saturate(self.center.z as int + z),
            },
            ..self
        }
    }

    /// The raw distance from the eye to the centre, rounded down.
    pub open spec fn distance(self) -> int {
        sqrt_floor(
            squared_length(
                self.center.x as int - self.eye.x as int,
                self.center.y as int - self.eye.y as int,
                self.center.z as int - self.eye.z as int,
            ),
        )
    }

    /// The camera after a zoom by `delta`: the eye has moved by `zoom_step`
    /// along the line to the centre. An eye that stands on the centre stays.
    pub open spec fn zoomed(self, delta: i32) -> Camera {
        let len = self.distance();
        if len <= 0 {
            self
        } else {
            let step = zoom_step(delta, len);
            Camera {
                eye: Vec3 {
                    x: moved(self.eye.x, self.center.x as int - self.eye.x as int, step, len),
                    y: moved(self.eye.y, self.center.y as int - self.eye.y as int, step, len),
                    z: moved(self.eye.z, self.center.z as int - self.eye.z as int, step, len),
                },
                ..self
            }
        }
    }

    /// The camera after the zooms of `deltas`, one after the other.
    pub open spec fn zoomed_all(self, deltas: Seq<i32>) -> Camera
        decreases deltas.len(),
    {
        if deltas.len() == 0 {
            self
        } else {
            self.zoomed_all(deltas.drop_last()).zoomed(deltas.last())
        }
    }

    pub fn new(eye: Vec3, center: Vec3, up: Vec3) -> (c: Camera)
        ensures
            c == (Camera { eye, center, up }),
    {
        Camera { eye, center, up }
    }

    /// Turns the eye around the centre, by `azimuth` about the vertical axis
    /// and by `elevation` up or down, given the sines and cosines of the two
    /// angles. The up vector is held fixed.
    pub fn orbit(&mut self, azimuth: Angle, elevation: Angle)
        ensures
            *final(self) == old(self).orbited(azimuth, elevation),
    {
        let x: i128 = self.eye.x as i128 - self.center.x as i128;
        let y: i128 = self.eye.y as i128 - self.center.y as i128;
        let z: i128 = self.eye.z as i128 - self.center.z as i128;
        let (x1, z1) = turn(x, z, &azimuth);
        proof {
            lemma_mul_bounds(x1 as int, x1 as int, 0x1_0000_0000_0000, 0x1_0000_0000_0000);
            lemma_mul_bounds(z1 as int, z1 as int, 0x1_0000_0000_0000, 0x1_0000_0000_0000);
            assert(x1 * x1 >= 0) by (nonlinear_arith);
            assert(z1 * z1 >= 0) by (nonlinear_arith);
        }
        let square: i128 = x1 * x1 + z1 * z1;
        let root: u64 = isqrt(square as u128);
        proof {
            assert(root < 0x2_0000_0000_0000) by (nonlinear_arith)
                requires
                    root as int * root as int <= square,
                    square <= 2 * (0x1_0000_0000_0000 * 0x1_0000_0000_0000),
                    root >= 0,
            ;
        }
        let h: i128 = root as i128;
        let (y1, h1) = turn(y, h, &elevation);
        if h <= 0 || h1 <= 0 {
            self.eye = Vec3 {
                x: narrow(self.center.x as i128 + x1),
                y: narrow(self.center.y as i128 + y),
                z: narrow(self.center.z as i128 + z1),
            };
        } else {
            self.eye = Vec3 {
                x: narrow(self.center.x as i128 + rescale(x1, h1, h)),
                y: narrow(self.center.y as i128 + y1),
                z: narrow(self.center.z as i128 + rescale(z1, h1, h)),
            };
        }
    }

    /// Moves the eye by `delta` towards the centre, or away from it where
    /// `delta` is negative. The eye stops short of the centre: it never
    /// reaches it and never passes through it.
    pub fn zoom(&mut self, delta: i32)
        ensures
            *final(self) == old(self).zoomed(delta),
            old(self).eye != old(self).center ==> final(self).eye != final(self).center,
    {
        proof {
            lemma_zoom_keeps_apart(*self, delta);
        }
        let dx: i64 = self.center.x as i64 - self.eye.x as i64;
        let dy: i64 = self.center.y as i64 - self.eye.y as i64;
        let dz: i64 = self.center.z as i64 - self.eye.z as i64;
        proof {
            lemma_mul_bounds(dx as int, dx as int, 0x1_0000_0000, 0x1_0000_0000);
            lemma_mul_bounds(dy as int, dy as int, 0x1_0000_0000, 0x1_0000_0000);
            lemma_mul_bounds(dz as int, dz as int, 0x1_0000_0000, 0x1_0000_0000);
            assert(dx * dx >= 0) by (nonlinear_arith);
            assert(dy * dy >= 0) by (nonlinear_arith);
            assert(dz * dz >= 0) by (nonlinear_arith);
        }
        let square: i128 = wide_mul64(dx, dx) + wide_mul64(dy, dy) + wide_mul64(dz, dz);
        let root: u64 = isqrt(square as u128);
        proof {
            assert(root < 0x2_0000_0000) by (nonlinear_arith)
                requires
                    root as int * root as int <= square,
                    square <= 3 * 0x1_0000_0000_0000_0000,
                    root >= 0,
            ;
        }
        if root == 0 {
            return ;
        }
        let len: i64 = root as i64;
        let step: i64 = if delta as i64 >= len {
            len - 1
        } else {
            delta as i64
        };
        self.eye = Vec3 {
            x: move_along(self.eye.x, dx, step, len),
            y: move_along(self.eye.y, dy, step, len),
            z: move_along(self.eye.z, dz, step, len),
        };
    }
}

/// Turns the pair `(u, v)` by the angle `a`.
fn turn(u: i128, v: i128, a: &Angle) -> (r: (i128, i128))
    requires
        -0x2_0000_0000_0000 <= u <= 0x2_0000_0000_0000,
        -0x2_0000_0000_0000 <= v <= 0x2_0000_0000_0000,
    ensures
        r.0 == turned_first(u as int, v as int, *a),
        r.1 == turned_second(u as int, v as int, *a),
        -0x4_0000_0000_0000_0000 <= r.0 <= 0x4_0000_0000_0000_0000,
        -0x4_0000_0000_0000_0000 <= r.1 <= 0x4_0000_0000_0000_0000,
        -0x1_0000_0000 <= u <= 0x1_0000_0000 && -0x1_0000_0000 <= v <= 0x1_0000_0000 ==> {
            &&& -0x1_0000_0000_0000 <= r.0 <= 0x1_0000_0000_0000
            &&& -0x1_0000_0000_0000 <= r.1 <= 0x1_0000_0000_0000
        },
{
    let c: i128 = a.cos as i128;
    let s: i128 = a.sin as i128;
    proof {
        lemma_mul_bounds(u as int, c as int, 0x2_0000_0000_0000, 0x8000_0000);
        lemma_mul_bounds(u as int, s as int, 0x2_0000_0000_0000, 0x8000_0000);
        lemma_mul_bounds(v as int, c as int, 0x2_0000_0000_0000, 0x8000_0000);
        lemma_mul_bounds(v as int, s as int, 0x2_0000_0000_0000, 0x8000_0000);
        if -0x1_0000_0000 <= u <= 0x1_0000_0000 && -0x1_0000_0000 <= v <= 0x1_0000_0000 {
            lemma_mul_bounds(u as int, c as int, 0x1_0000_0000, 0x8000_0000);
            lemma_mul_bounds(u as int, s as int, 0x1_0000_0000, 0x8000_0000);
            lemma_mul_bounds(v as int, c as int, 0x1_0000_0000, 0x8000_0000);
            lemma_mul_bounds(v as int, s as int, 0x1_0000_0000, 0x8000_0000);
        }
    }
    (floor_div(u * c - v * s, 65536), floor_div(u * s + v * c, 65536))
}

/// `v * num / den`, rounded towards zero.
fn rescale(v: i128, num: i128, den: i128) -> (r: i128)
    requires
        -0x1_0000_0000_0000 <= v <= 0x1_0000_0000_0000,
        0 < num <= 0x4_0000_0000_0000_0000,
        0 < den,
    ensures
        r == toward_zero(v as int * num as int, den as int),
        -0x4_0000_0000_0000_0000_0000_0000_0000 <= r
            <= 0x4_0000_0000_0000_0000_0000_0000_0000,
{
    proof {
        lemma_mul_bounds(v as int, num as int, 0x1_0000_0000_0000, 0x4_0000_0000_0000_0000);
    }
    let n: i128 = v * num;
    proof {
        let m = n as int;
        let l = den as int;
        assert(m <= 0 ==> 0 <= (-m) / l <= -m) by (nonlinear_arith)
            requires
                l > 0,
        ;
        assert(m >= 0 ==> 0 <= m / l <= m) by (nonlinear_arith)
            requires
                l > 0,
        ;
    }
    if n >= 0 {
        n / den
    } else {
        -((-n) / den)
    }
}

fn move_along(eye: i32, d: i64, step: i64, len: i64) -> (e: i32)
    requires
        -0x1_0000_0000 <= d <= 0x1_0000_0000,
        -0x8000_0000 <= step <= 0x2_0000_0000,
        0 < len,
    ensures
        e == moved(eye, d as int, step as int, len as int),
{
    proof {
        lemma_mul_bounds(d as int, step as int, 0x1_0000_0000, 0x2_0000_0000);
    }
    let n: i128 = wide_mul64(d, step);
    proof {
        let m = n as int;
        let l = len as int;
        assert(m <= 0 ==> 0 <= (-m) / l <= -m) by (nonlinear_arith)
            requires
                l > 0,
        ;
        assert(m >= 0 ==> 0 <= m / l <= m) by (nonlinear_arith)
            requires
                l > 0,
        ;
    }
    let q: i128 = if n >= 0 {
        n / (len as i128)
    } else {
        -((-n) / (len as i128))
    };
    narrow(eye as i128 + q)
}

/// Zooming never brings the eye onto the centre, and leaves the centre and
/// the up vector alone.
pub proof fn lemma_zoom_keeps_apart(c: Camera, delta: i32)
    ensures
        c.zoomed(delta).center == c.center,
        c.zoomed(delta).up == c.up,
        c.eye != c.center ==> c.zoomed(delta).eye != c.center,
{
    let dx = c.center.x as int - c.eye.x as int;
    let dy = c.center.y as int - c.eye.y as int;
    let dz = c.center.z as int - c.eye.z as int;
    let len = c.distance();
    if len > 0 {
        let step = zoom_step(delta, len);
        lemma_moved_keeps_side(c.eye.x, c.center.x, step, len);
        lemma_moved_keeps_side(c.eye.y, c.center.y, step, len);
        lemma_moved_keeps_side(c.eye.z, c.center.z, step, len);
    }
}

/// After any sequence of zooms the eye is still apart from the centre.
pub proof fn lemma_zooms_keep_apart(c: Camera, deltas: Seq<i32>)
    requires
        c.eye != c.center,
    ensures
        c.zoomed_all(deltas).center == c.center,
        c.zoomed_all(deltas).up == c.up,
        c.zoomed_all(deltas).eye != c.center,
    decreases deltas.len(),
{
    if deltas.len() > 0 {
        lemma_zooms_keep_apart(c, deltas.drop_last());
        lemma_zoom_keeps_apart(c.zoomed_all(deltas.drop_last()), deltas.last());
    }
}

/// A coordinate of the eye never changes sides: after a move by a step less
/// than the distance it is still on the side of the centre where it was, and
/// a coordinate that agreed with the centre still agrees.
pub proof fn lemma_moved_keeps_side(eye: i32, center: i32, step: int, len: int)
    requires
        0 < len,
        step < len,
    ensures
        eye < center ==> moved(eye, center as int - eye as int, step, len) < center,
        eye > center ==> moved(eye, center as int - eye as int, step, len) > center,
        eye == center ==> moved(eye, center as int - eye as int, step, len) == center,
{
    let d = center as int - eye as int;
    lemma_product_sign(d, step);
    if d > 0 {
        if step >= 0 {
            lemma_partial_move(d, step, len);
        } else {
            lemma_quotient_sign(-(d * step), len);
        }
    } else if d < 0 {
        if step >= 0 {
            lemma_partial_move(-d, step, len);
            assert(-(d * step) == (-d) * step);
        } else {
            lemma_quotient_sign(d * step, len);
        }
    } else {
        assert(0int / len == 0) by (nonlinear_arith)
            requires
                len > 0,
        ;
    }
}

/// An orbit by two zero angles leaves the camera where it is.
pub proof fn lemma_orbit_by_nothing(c: Camera)
    ensures
        c.orbited(Angle { sin: 0, cos: 65536 }, Angle { sin: 0, cos: 65536 }) == c,
{
    let still = Angle { sin: 0, cos: 65536 };
    let x = c.eye.x as int - c.center.x as int;
    let y = c.eye.y as int - c.center.y as int;
    let z = c.eye.z as int - c.center.z as int;
    assert(turned_first(x, z, still) == x && turned_second(x, z, still) == z) by {
        assert(x * 65536 - z * 0 == x * 65536);
        assert(x * 0 + z * 65536 == z * 65536);
    }
    let h = sqrt_floor(x * x + z * z);
    assert(turned_first(y, h, still) == y && turned_second(y, h, still) == h) by {
        assert(y * 65536 - h * 0 == y * 65536);
        assert(y * 0 + h * 65536 == h * 65536);
    }
    if h > 0 {
        lemma_whole_rescale(x, h);
        lemma_whole_rescale(z, h);
    }
}

/// A step short of the whole way covers less than the whole offset: for
/// `0 <= step < len` the move along a positive `d` is at least zero and less
/// than `d`.
proof fn lemma_partial_move(d: int, step: int, len: int)
    by (nonlinear_arith)
    requires
        d > 0,
        0 <= step < len,
    ensures
        0 <= (d * step) / len < d,
{
    assert(d * step < d * len);
    assert(d * step >= 0);
    if (d * step) / len >= d {
        assert(((d * step) / len) * len >= d * len);
        assert(((d * step) / len) * len <= d * step);
    }
}

/// A quotient of a non-negative number by a positive one is not negative.
proof fn lemma_quotient_sign(n: int, len: int)
    by (nonlinear_arith)
    requires
        n >= 0,
        len > 0,
    ensures
        n / len >= 0,
{
}

proof fn lemma_product_sign(d: int, step: int)
    by (nonlinear_arith)
    ensures
        d > 0 && step >= 0 ==> d * step >= 0,
        d < 0 && step >= 0 ==> d * step <= 0,
        d > 0 && step <= 0 ==> d * step <= 0,
        d < 0 && step <= 0 ==> d * step >= 0,
        d == 0 ==> d * step == 0,
        (-d) * step == -(d * step),
{
}

proof fn lemma_whole_rescale(v: int, h: int)
    by (nonlinear_arith)
    requires
        h > 0,
    ensures
        toward_zero(v * h, h) == v,
{
    if v >= 0 {
        assert(v * h >= 0);
        assert((v * h) / h == v);
    } else {
        assert(v * h < 0);
        assert(-(v * h) == (-v) * h);
        assert(((-v) * h) / h == -v);
    }
}

} // verus!
