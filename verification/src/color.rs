//! The color model: a pixel color with four 8-bit channels, and the
//! solid / per-corner color choice used by the primitives.
use vstd::prelude::*;

verus! {

/// A pixel color. Each channel is an 8-bit value; 0 is the channel's
/// minimum intensity and 255 its maximum (alpha 255 is fully opaque).
#[derive(Clone, Copy, Eq, PartialEq, Structural, Debug)]
pub struct FBColor {
    pub r: u8,
    pub g: u8,
    pub b: u8,
    pub a: u8,
}

/// A choice between one solid color and one color per geometry corner,
/// where `N` is the corner count of the owning primitive (2 for lines,
/// 3 for triangles, 4 for rects and sprites).
#[derive(Clone, Copy)]
pub enum ColorMode<const N: usize> {
    Solid(FBColor),
    PerPoint([FBColor; N]),
}

/// A color as its 8-bit RGBA quadruple.
pub open spec fn rgba8_of(c: FBColor) -> Seq<u8> {
    seq![c.r, c.g, c.b, c.a]
}

/// The color an 8-bit RGBA quadruple denotes.
pub open spec fn of_rgba8(q: Seq<u8>) -> FBColor {
    FBColor { r: q[0], g: q[1], b: q[2], a: q[3] }
}

impl FBColor {
    pub fn black() -> (c: Self)
        ensures
            c == (FBColor { r: 0, g: 0, b: 0, a: 255 }),
    {
        FBColor { r: 0, g: 0, b: 0, a: 255 }
    }

    pub fn cyan() -> (c: Self)
        ensures
            c == (FBColor { r: 0, g: 255, b: 255, a: 255 }),
    {
        FBColor { r: 0, g: 255, b: 255, a: 255 }
    }

    /// The empty color: all channels zero, fully transparent.
    pub fn empty() -> (c: Self)
        ensures
            c == (FBColor { r: 0, g: 0, b: 0, a: 0 }),
    {
        FBColor { r: 0, g: 0, b: 0, a: 0 }
    }

    pub fn gray50() -> (c: Self)
        ensures
            c == (FBColor { r: 128, g: 128, b: 128, a: 255 }),
    {
        FBColor { r: 128, g: 128, b: 128, a: 255 }
    }

    pub fn magenta() -> (c: Self)
        ensures
            c == (FBColor { r: 255, g: 0, b: 255, a: 255 }),
    {
        FBColor { r: 255, g: 0, b: 255, a: 255 }
    }

    pub fn red() -> (c: Self)
        ensures
            c == (FBColor { r: 255, g: 0, b: 0, a: 255 }),
    {
        FBColor { r: 255, g: 0, b: 0, a: 255 }
    }

    pub fn white() -> (c: Self)
        ensures
            c == (FBColor { r: 255, g: 255, b: 255, a: 255 }),
    {
        FBColor { r: 255, g: 255, b: 255, a: 255 }
    }

    pub fn yellow() -> (c: Self)
        ensures
            c == (FBColor { r: 255, g: 255, b: 0, a: 255 }),
    {
        FBColor { r: 255, g: 255, b: 0, a: 255 }
    }

    pub fn new(r: u8, g: u8, b: u8, a: u8) -> (c: Self)
        ensures
            c == (FBColor { r, g, b, a }),
    {
        FBColor { r, g, b, a }
    }

    /// Builds a color from an 8-bit RGBA quadruple.
    pub fn from_rgba8(r: u8, g: u8, b: u8, a: u8) -> (c: Self)
        ensures
            c == (FBColor { r, g, b, a }),
            c == of_rgba8(seq![r, g, b, a]),
    {
        FBColor { r, g, b, a }
    }

    /// The color as an 8-bit RGBA quadruple.
    pub fn to_rgba8(&self) -> (q: [u8; 4])
        ensures
            q@ == rgba8_of(*self),
    {
        let q = [self.r, self.g, self.b, self.a];
        proof {
            assert(q@ =~= rgba8_of(*self));
        }
        q
    }

    pub fn r(&self) -> (v: u8)
        ensures
            v == self.r,
    {
        self.r
    }

    pub fn g(&self) -> (v: u8)
        ensures
            v == self.g,
    {
        self.g
    }

    pub fn b(&self) -> (v: u8)
        ensures
            v == self.b,
    {
        self.b
    }

    pub fn a(&self) -> (v: u8)
        ensures
            v == self.a,
    {
        self.a
    }

    pub fn set_r(&mut self, value: u8)
        ensures
            *final(self) == (FBColor { r: value, ..*old(self) }),
    {
        self.r = value;
    }

    pub fn set_g(&mut self, value: u8)
        ensures
            *final(self) == (FBColor { g: value, ..*old(self) }),
    {
        self.g = value;
    }

    pub fn set_b(&mut self, value: u8)
        ensures
            *final(self) == (FBColor { b: value, ..*old(self) }),
    {
        self.b = value;
    }

    pub fn set_a(&mut self, value: u8)
        ensures
            *final(self) == (FBColor { a: value, ..*old(self) }),
    {
        self.a = value;
    }

    /// The same color with the alpha channel replaced.
    pub fn with_a(&self, a: u8) -> (c: Self)
        ensures
            c == (FBColor { a, ..*self }),
    {
        FBColor { a, ..*self }
    }
}

/// One channel of a linear interpolation between `a` (at `t == 0`) and
/// `b` (at `t == 255`), rounded to nearest and clamped to 8 bits.
pub open spec fn lerp_ch(a: int, b: int, t: int) -> int {
    let v = (a * (255 - t) + b * t + 127) / 255;
    if v > 255 {
        255
    } else {
        v
    }
}

/// Linear interpolation between two colors, per channel.
pub open spec fn lerp_spec(c0: FBColor, c1: FBColor, t: int) -> FBColor {
    FBColor {
        r: lerp_ch(c0.r as int, c1.r as int, t) as u8,
        g: lerp_ch(c0.g as int, c1.g as int, t) as u8,
        b: lerp_ch(c0.b as int, c1.b as int, t) as u8,
        a: lerp_ch(c0.a as int, c1.a as int, t) as u8,
    }
}

/// One channel of a channel-wise multiply, where 255 acts as 1.0:
/// multiplying by 255 leaves the channel unchanged.
pub open spec fn mul_ch(a: int, b: int) -> int {
    let v = (a * b + 127) / 255;
    if v > 255 {
        255
    } else {
        v
    }
}

/// Channel-wise multiply of two colors (used to modulate sprite pixels).
pub open spec fn mul_spec(c0: FBColor, c1: FBColor) -> FBColor {
    FBColor {
        r: mul_ch(c0.r as int, c1.r as int) as u8,
        g: mul_ch(c0.g as int, c1.g as int) as u8,
        b: mul_ch(c0.b as int, c1.b as int) as u8,
        a: mul_ch(c0.a as int, c1.a as int) as u8,
    }
}

/// One channel of a weighted blend of three channels: the weighted sum
/// divided by the total weight, clamped to 8 bits.
pub open spec fn lerp3_ch(a0: int, a1: int, a2: int, w0: int, w1: int, w2: int) -> int {
    let v = (a0 * w0 + a1 * w1 + a2 * w2) / (w0 + w1 + w2);
    if v > 255 {
        255
    } else {
        v
    }
}

/// Barycentric blend of three colors with integer weights.
pub open spec fn lerp3_spec(c0: FBColor, c1: FBColor, c2: FBColor, w0: int, w1: int, w2: int) -> FBColor {
    FBColor {
        r: lerp3_ch(c0.r as int, c1.r as int, c2.r as int, w0, w1, w2) as u8,
        g: lerp3_ch(c0.g as int, c1.g as int, c2.g as int, w0, w1, w2) as u8,
        b: lerp3_ch(c0.b as int, c1.b as int, c2.b as int, w0, w1, w2) as u8,
        a: lerp3_ch(c0.a as int, c1.a as int, c2.a as int, w0, w1, w2) as u8,
    }
}

fn lerp_channel(a: u8, b: u8, t: u8) -> (v: u8)
    ensures
        v == lerp_ch(a as int, b as int, t as int),
{
    proof {
        assert((a as int) * (255 - t as int) + (b as int) * (t as int) <= 255 * 255) by (nonlinear_arith)
            requires
                a <= 255,
                b <= 255,
                0 <= t <= 255,
        ;
        assert((a as int) * (255 - t as int) >= 0 && (b as int) * (t as int) >= 0) by (nonlinear_arith)
            requires
                a >= 0,
                b >= 0,
                0 <= t <= 255,
        ;
    }
    let num: u32 = (a as u32) * (255 - t as u32) + (b as u32) * (t as u32) + 127;
    let v: u32 = num / 255;
    if v > 255 {
        255
    } else {
        v as u8
    }
}

fn mul_channel(a: u8, b: u8) -> (v: u8)
    ensures
        v == mul_ch(a as int, b as int),
{
    proof {
        assert(0 <= (a as int) * (b as int) <= 255 * 255) by (nonlinear_arith)
            requires
                0 <= a <= 255,
                0 <= b <= 255,
        ;
    }
    let num: u32 = (a as u32) * (b as u32) + 127;
    let v: u32 = num / 255;
    if v > 255 {
        255
    } else {
        v as u8
    }
}

/// Largest weight accepted by `lerp3`, chosen so that the weighted sums
/// stay comfortably inside 64-bit arithmetic.
pub const LERP3_MAX_WEIGHT: u64 = 0x4_0000_0000;

fn lerp3_channel(a0: u8, a1: u8, a2: u8, w: &[u64; 3]) -> (v: u8)
    requires
        w[0] + w[1] + w[2] > 0,
        w[0] <= LERP3_MAX_WEIGHT,
        w[1] <= LERP3_MAX_WEIGHT,
        w[2] <= LERP3_MAX_WEIGHT,
    ensures
        v == lerp3_ch(a0 as int, a1 as int, a2 as int, w[0] as int, w[1] as int, w[2] as int),
{
    proof {
        assert(0 <= (a0 as int) * (w[0] as int) <= 255 * (LERP3_MAX_WEIGHT as int)) by (nonlinear_arith)
            requires
                0 <= a0 <= 255,
                0 <= w[0] <= LERP3_MAX_WEIGHT,
        ;
        assert(0 <= (a1 as int) * (w[1] as int) <= 255 * (LERP3_MAX_WEIGHT as int)) by (nonlinear_arith)
            requires
                0 <= a1 <= 255,
                0 <= w[1] <= LERP3_MAX_WEIGHT,
        ;
        assert(0 <= (a2 as int) * (w[2] as int) <= 255 * (LERP3_MAX_WEIGHT as int)) by (nonlinear_arith)
            requires
                0 <= a2 <= 255,
                0 <= w[2] <= LERP3_MAX_WEIGHT,
        ;
    }
    let num: u64 = (a0 as u64) * w[0] + (a1 as u64) * w[1] + (a2 as u64) * w[2];
    let total: u64 = w[0] + w[1] + w[2];
    let v: u64 = num / total;
    if v > 255 {
        255
    } else {
        v as u8
    }
}

impl FBColor {
    /// Linear interpolation toward `rhs`: `by == 0` gives `self`,
    /// `by == 255` gives `rhs`.
    pub fn lerp(&self, rhs: Self, by: u8) -> (c: Self)
        ensures
            c == lerp_spec(*self, rhs, by as int),
    {
        FBColor {
            r: lerp_channel(self.r, rhs.r, by),
            g: lerp_channel(self.g, rhs.g, by),
            b: lerp_channel(self.b, rhs.b, by),
            a: lerp_channel(self.a, rhs.a, by),
        }
    }

    /// Barycentric blend of three colors: the weighted sum of the colors
    /// divided by the total weight, per channel.
    pub fn lerp3(colors: &[Self; 3], weights: &[u64; 3]) -> (c: Self)
        requires
            weights[0] + weights[1] + weights[2] > 0,
            weights[0] <= LERP3_MAX_WEIGHT,
            weights[1] <= LERP3_MAX_WEIGHT,
            weights[2] <= LERP3_MAX_WEIGHT,
        ensures
            c == lerp3_spec(
                colors[0],
                colors[1],
                colors[2],
                weights[0] as int,
                weights[1] as int,
                weights[2] as int,
            ),
    {
        FBColor {
            r: lerp3_channel(colors[0].r, colors[1].r, colors[2].r, weights),
            g: lerp3_channel(colors[0].g, colors[1].g, colors[2].g, weights),
            b: lerp3_channel(colors[0].b, colors[1].b, colors[2].b, weights),
            a: lerp3_channel(colors[0].a, colors[1].a, colors[2].a, weights),
        }
    }

    /// Channel-wise multiply, with 255 acting as the unit.
    pub fn mul(self, rhs: Self) -> (c: Self)
        ensures
            c == mul_spec(self, rhs),
    {
        FBColor {
            r: mul_channel(self.r, rhs.r),
            g: mul_channel(self.g, rhs.g),
            b: mul_channel(self.b, rhs.b),
            a: mul_channel(self.a, rhs.a),
        }
    }
}

/// Round-trip law: converting a color to its 8-bit RGBA quadruple and
/// building a color back from that quadruple reproduces the color exactly.
pub proof fn lemma_rgba8_round_trip(c: FBColor)
    ensures
        of_rgba8(rgba8_of(c)) == c,
{
}

/// Multiplying a color by all-channel 255 leaves it unchanged: 255 is the
/// unit of the channel-wise multiply.
pub proof fn lemma_mul_white_identity(c: FBColor)
    ensures
        mul_spec(c, FBColor { r: 255, g: 255, b: 255, a: 255 }) == c,
{
    assert forall|x: u8| mul_ch(x as int, 255) == x as int by {
        assert((x as int) * 255 + 127 == 255 * (x as int) + 127) by (nonlinear_arith);
        assert((255 * (x as int) + 127) / 255 == x as int) by (nonlinear_arith)
            requires
                0 <= x <= 255,
        ;
    }
    assert(mul_spec(c, FBColor { r: 255, g: 255, b: 255, a: 255 }) == c);
}

} // verus!
