//! RGB colours with saturating arithmetic and a packed `0xRRGGBB` encoding.

use vstd::prelude::*;
use crate::fixed::ONE;

verus! {

/// An RGB triple, each channel in `0..=255`.
#[derive(Clone, Copy, Debug, PartialEq, Eq, Structural)]
pub struct Color {
    pub r: u8,
    pub g: u8,
    pub b: u8,
}

/// One channel multiplied by the fixed-point factor `k`, rounded down and
/// clamped to `0..=255`.
pub open spec fn scaled_channel(c: u8, k: i32) -> u8 {
    let v = (c as int * k as int) / (ONE as int);
    if v < 0 {
        0u8
    } else if v > 255 {
        255u8
    } else {
        v as u8
    }
}

/// The fixed-point factor `t` clamped to `[0, 1]`.
pub open spec fn unit_clamped(t: i32) -> int {
    if t < 0 {
        0
    } else if t > ONE {
        ONE as int
    } else {
        t as int
    }
}

/// The channel a fraction `t` of the way from `a` to `b`, rounded to the
/// nearest integer.
pub open spec fn mixed_channel(a: u8, b: u8, t: i32) -> u8 {
    let u = unit_clamped(t);
    ((a as int * (ONE as int - u) + b as int * u + ONE as int / 2) / (ONE as int)) as u8
}

/// The sum of two channels, at most 255.
pub open spec fn summed_channel(a: u8, b: u8) -> u8 {
    if a as int + b as int > 255 {
        255u8
    } else {
        (a as int + b as int) as u8
    }
}

pub proof fn lemma_scaled_range(c: u8, k: i32)
    ensures
        k <= 0 ==> scaled_channel(c, k) == 0,
        k == ONE ==> scaled_channel(c, k) == c,
        0 <= k <= ONE ==> scaled_channel(c, k) <= c,
{
    let p = c as int * k as int;
    if k <= 0 {
        assert(p <= 0) by (nonlinear_arith)
            requires
                p == c as int * k as int,
                c >= 0,
                k <= 0,
        ;
    } else if k <= ONE {
        assert(0 <= p <= c as int * 65536) by (nonlinear_arith)
            requires
                p == c as int * k as int,
                c >= 0,
                0 < k <= 65536,
        ;
    }
}

pub proof fn lemma_mixed_range(a: u8, b: u8, t: i32)
    ensures
        t <= 0 ==> mixed_channel(a, b, t) == a,
        t >= ONE ==> mixed_channel(a, b, t) == b,
        a <= b ==> a <= mixed_channel(a, b, t) <= b,
        b <= a ==> b <= mixed_channel(a, b, t) <= a,
        0 <= a as int * (ONE as int - unit_clamped(t)) + b as int * unit_clamped(t) <= 255 * 65536,
{
    let u = unit_clamped(t);
    let w = ONE as int - u;
    let x = a as int * w;
    let y = b as int * u;
    assert(x + y == a as int * 65536 + (b as int - a as int) * u) by (nonlinear_arith)
        requires
            x == a as int * w,
            y == b as int * u,
            w == 65536 - u,
    ;
    assert(a <= b ==> 0 <= (b as int - a as int) * u <= (b as int - a as int) * 65536)
        by (nonlinear_arith)
        requires
            0 <= u <= 65536,
    ;
    assert(b <= a ==> (b as int - a as int) * 65536 <= (b as int - a as int) * u <= 0)
        by (nonlinear_arith)
        requires
            0 <= u <= 65536,
    ;
}

impl Color {
    /// The colour packed as `0xRRGGBB`.
    pub open spec fn packed(self) -> int {
        self.r as int * 65536 + self.g as int * 256 + self.b as int
    }

    /// The colour that the low 24 bits of `hex` encode.
    pub open spec fn unpacked(hex: u32) -> Color {
        Color {
            r: ((hex as int / 65536) % 256) as u8,
            g: ((hex as int / 256) % 256) as u8,
            b: (hex as int % 256) as u8,
        }
    }

    /// Every channel scaled by `k`.
    pub open spec fn scaled(self, k: i32) -> Color {
        Color {
            r: scaled_channel(self.r, k),
            g: scaled_channel(self.g, k),
            b: scaled_channel(self.b, k),
        }
    }

    /// The colour a fraction `t` of the way from `self` to `other`.
    pub open spec fn mixed(self, other: Color, t: i32) -> Color {
        Color {
            r: mixed_channel(self.r, other.r, t),
            g: mixed_channel(self.g, other.g, t),
            b: mixed_channel(self.b, other.b, t),
        }
    }

    /// The channel-wise saturating sum.
    pub open spec fn summed(self, other: Color) -> Color {
        Color {
            r: summed_channel(self.r, other.r),
            g: summed_channel(self.g, other.g),
            b: summed_channel(self.b, other.b),
        }
    }

    pub fn new(r: u8, g: u8, b: u8) -> (c: Color)
        ensures
            c == (Color { r, g, b }),
    {
        Color { r, g, b }
    }

    pub fn black() -> (c: Color)
        ensures
            c == (Color { r: 0, g: 0, b: 0 }),
    {
        Color { r: 0, g: 0, b: 0 }
    }

    /// Reads `0xRRGGBB`; bits above the low 24 are ignored.
    pub fn from_hex(hex: u32) -> (c: Color)
        ensures
            c == Color::unpacked(hex),
    {
        Color {
            r: ((hex / 65536) % 256) as u8,
            g: ((hex / 256) % 256) as u8,
            b: (hex % 256) as u8,
        }
    }

    pub fn to_hex(&self) -> (hex: u32)
        ensures
            hex == self.packed(),
            hex <= 0xFF_FFFF,
    {
        (self.r as u32) * 65536 + (self.g as u32) * 256 + (self.b as u32)
    }

    /// Adds channel by channel, stopping at 255.
    pub fn saturating_add(&self, other: &Color) -> (c: Color)
        ensures
            c == self.summed(*other),
    {
        Color {
            r: add_channel(self.r, other.r),
            g: add_channel(self.g, other.g),
            b: add_channel(self.b, other.b),
        }
    }

    /// Multiplies every channel by the fixed-point intensity `k`.
    ///
    /// An intensity of zero or less gives black, an intensity of one the
    /// colour itself, and no channel leaves `0..=255`.
    pub fn scale(&self, k: i32) -> (c: Color)
        ensures
            c == self.scaled(k),
            k <= 0 ==> c == (Color { r: 0, g: 0, b: 0 }),
            k == ONE ==> c == *self,
    {
        proof {
            lemma_scaled_range(self.r, k);
            lemma_scaled_range(self.g, k);
            lemma_scaled_range(self.b, k);
        }
        Color {
            r: scale_channel(self.r, k),
            g: scale_channel(self.g, k),
            b: scale_channel(self.b, k),
        }
    }

    /// Interpolates linearly towards `other` by `t`, which is clamped to
    /// `[0, 1]`.
    pub fn lerp(&self, other: &Color, t: i32) -> (c: Color)
        ensures
            c == self.mixed(*other, t),
            t <= 0 ==> c == *self,
            t >= ONE ==> c == *other,
    {
        proof {
            lemma_mixed_range(self.r, other.r, t);
            lemma_mixed_range(self.g, other.g, t);
            lemma_mixed_range(self.b, other.b, t);
        }
        Color {
            r: mix_channel(self.r, other.r, t),
            g: mix_channel(self.g, other.g, t),
            b: mix_channel(self.b, other.b, t),
        }
    }
}

fn add_channel(a: u8, b: u8) -> (c: u8)
    ensures
        c == summed_channel(a, b),
{
    let s: u16 = a as u16 + b as u16;
    if s > 255 {
        255
    } else {
        s as u8
    }
}

fn scale_channel(c: u8, k: i32) -> (out: u8)
    ensures
        out == scaled_channel(c, k),
{
    proof {
        lemma_scaled_range(c, k);
    }
    if k <= 0 {
        0
    } else {
        assert(0 <= c as int * k as int <= 255 * 0x7fff_ffff) by (nonlinear_arith)
            requires
                0 <= c <= 255,
                0 < k <= 0x7fff_ffff,
        ;
        let v: i64 = (c as i64 * k as i64) / 65536;
        if v > 255 {
            255
        } else {
            v as u8
        }
    }
}

fn mix_channel(a: u8, b: u8, t: i32) -> (out: u8)
    ensures
        out == mixed_channel(a, b, t),
{
    let u: i64 = if t < 0 {
        0
    } else if t > ONE {
        65536
    } else {
        t as i64
    };
    proof {
        lemma_mixed_range(a, b, t);
        assert(0 <= a as int * (65536 - u) <= 255 * 65536) by (nonlinear_arith)
            requires
                0 <= a <= 255,
                0 <= u <= 65536,
        ;
        assert(0 <= b as int * u <= 255 * 65536) by (nonlinear_arith)
            requires
                0 <= b <= 255,
                0 <= u <= 65536,
        ;
    }
    let v: i64 = (a as i64 * (65536 - u) + b as i64 * u + 32768) / 65536;
    v as u8
}

/// Packing a colour and reading it back gives the colour; reading a word and
/// packing it again keeps its low 24 bits.
pub proof fn lemma_hex_round_trip(c: Color, hex: u32)
    ensures
        c.packed() <= 0xFF_FFFF,
        Color::unpacked(c.packed() as u32) == c,
        Color::unpacked(hex).packed() == hex as int % 0x100_0000,
{
    let r = c.r as u32;
    let g = c.g as u32;
    let b = c.b as u32;
    let p = (r * 65536 + g * 256 + b) as u32;
    assert(p == c.packed());
    assert((p / 65536) % 256 == r && (p / 256) % 256 == g && p % 256 == b) by (bit_vector)
        requires
            r < 256,
            g < 256,
            b < 256,
            p == r * 65536 + g * 256 + b,
    ;
    assert(((hex / 65536) % 256) * 65536 + ((hex / 256) % 256) * 256 + hex % 256 == hex
        % 0x100_0000) by (bit_vector);
}

/// Scaling by zero gives black, scaling by one changes nothing, and scaling
/// by a factor in between never brightens a channel.
pub proof fn lemma_scale_limits(c: Color, k: i32)
    ensures
        c.scaled(0) == (Color { r: 0, g: 0, b: 0 }),
        c.scaled(ONE) == c,
        0 <= k <= ONE ==> c.scaled(k).r <= c.r && c.scaled(k).g <= c.g && c.scaled(k).b <= c.b,
{
    lemma_scaled_range(c.r, 0);
    lemma_scaled_range(c.g, 0);
    lemma_scaled_range(c.b, 0);
    lemma_scaled_range(c.r, ONE);
    lemma_scaled_range(c.g, ONE);
    lemma_scaled_range(c.b, ONE);
    lemma_scaled_range(c.r, k);
    lemma_scaled_range(c.g, k);
    lemma_scaled_range(c.b, k);
}

} // verus!
