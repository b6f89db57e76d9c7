//! The sprite primitive: an affine (rotation + scale) "rotozoom" blit of
//! a shared, read-only pixel buffer into the framebuffer.
//!
//! Every destination pixel inside a conservative bounding box is mapped
//! back to source-image coordinates through the inverse transform, held
//! in 16.16 fixed point; pixels whose source coordinate falls inside the
//! current frame are sampled (nearest neighbor), modulated and blended.
//! Rotation is a fraction of a full turn (256 units per turn); scale is a
//! fixed-point multiplier where 256 is 1.0.
//!
//! The contract is exact for every transform: `sprite_covers` names, per
//! destination pixel, whether the blit paints it (inside the clamped
//! bounding box with the inverse-mapped source coordinate inside the
//! frame), and `sprite_color_at` the modulated sample it blends in. A
//! separate clause restates the identity transform (no rotation, unit
//! scale, solid modulation) in plain integer terms: the source image
//! reproduced pixel for pixel, centered on the destination position.
use vstd::prelude::*;

use std::sync::Arc;

use vstd::arithmetic::div_mod::lemma_div_is_ordered;
use vstd::arithmetic::div_mod::lemma_div_is_ordered_by_denominator;
use vstd::arithmetic::div_mod::lemma_div_pos_is_pos;
use vstd::arithmetic::div_mod::lemma_fundamental_div_mod_converse;

use crate::BlendMode;
use crate::ColorMode;
use crate::Drawable;
use crate::FBColor;
use crate::I16Vec2;
use crate::Renderer;
use crate::bilinear_spec;
use crate::blend_spec;
use crate::color::mul_spec;
use crate::renderer::pix;

verus! {

/// One frame of a sprite atlas: an offset into the shared pixel buffer
/// plus the frame's width and height.
#[derive(Clone, Copy)]
pub struct SpriteFrame {
    pub offset: usize,
    pub width: u8,
    pub height: u8,
}

impl SpriteFrame {
    pub fn new(offset: usize, width: u8, height: u8) -> (f: Self)
        ensures
            f.offset == offset,
            f.width == width,
            f.height == height,
    {
        SpriteFrame { offset, width, height }
    }
}

/// Either a single still image (width, height, offset 0) or a list of
/// atlas frames addressed by the sprite's current frame index.
#[derive(Clone)]
pub enum SpriteFrameMode {
    StillImage(u8, u8),
    MultipleFrames(Vec<SpriteFrame>),
}

/// A sprite: a shared, read-only source pixel buffer drawn at a position
/// with a rotation, a scale, a blend mode and a modulation color.
pub struct Sprite {
    pub pixels: Arc<Vec<FBColor>>,
    pub position: I16Vec2,
    pub rotation: i16,
    pub scale: u16,
    pub blend_mode: BlendMode,
    pub modulate: ColorMode<4>,
    pub frame_mode: SpriteFrameMode,
    pub cur_frame: usize,
}

impl Sprite {
    /// The shared source pixel buffer.
    pub open spec fn spec_pixels(&self) -> Seq<FBColor> {
        self.pixels@
    }

    /// The current frame index.
    pub open spec fn spec_cur_frame(&self) -> int {
        self.cur_frame as int
    }

    /// Whether the current frame index addresses an existing frame.
    pub open spec fn frame_in_range(&self) -> bool {
        match self.frame_mode {
            SpriteFrameMode::StillImage(_, _) => true,
            SpriteFrameMode::MultipleFrames(frames) => self.cur_frame < frames.len(),
        }
    }

    /// The offset of the current frame in the shared pixel buffer.
    pub open spec fn spec_frame_offset(&self) -> int {
        match self.frame_mode {
            SpriteFrameMode::StillImage(_, _) => 0,
            SpriteFrameMode::MultipleFrames(frames) => frames[self.cur_frame as int].offset as int,
        }
    }

    /// The width of the current frame.
    pub open spec fn spec_frame_width(&self) -> int {
        match self.frame_mode {
            SpriteFrameMode::StillImage(w, _) => w as int,
            SpriteFrameMode::MultipleFrames(frames) => frames[self.cur_frame as int].width as int,
        }
    }

    /// The height of the current frame.
    pub open spec fn spec_frame_height(&self) -> int {
        match self.frame_mode {
            SpriteFrameMode::StillImage(_, h) => h as int,
            SpriteFrameMode::MultipleFrames(frames) => frames[self.cur_frame as int].height as int,
        }
    }

    pub fn new(
        pixels: Arc<Vec<FBColor>>,
        position: I16Vec2,
        rotation: i16,
        scale: u16,
        blend_mode: BlendMode,
        modulate: ColorMode<4>,
        frame_mode: SpriteFrameMode,
    ) -> (s: Self)
        ensures
            s.spec_pixels() == pixels@,
            s.position == position,
            s.rotation == rotation,
            s.scale == scale,
            s.blend_mode == blend_mode,
            s.modulate == modulate,
            s.spec_cur_frame() == 0,
            s.frame_mode == frame_mode,
            frame_mode matches SpriteFrameMode::StillImage(w, h) ==> s.spec_frame_offset() == 0
                && s.spec_frame_width() == w && s.spec_frame_height() == h && s.frame_in_range(),
            frame_mode matches SpriteFrameMode::MultipleFrames(fs) ==> (s.frame_in_range() <==> fs@.len()
                > 0) && (fs@.len() > 0 ==> s.spec_frame_offset() == fs@[0].offset
                && s.spec_frame_width() == fs@[0].width && s.spec_frame_height() == fs@[0].height),
    {
        Sprite { pixels, position, rotation, scale, blend_mode, modulate, frame_mode, cur_frame: 0 }
    }

    /// Selects the atlas frame drawn by the next `draw` call.
    pub fn set_frame(&mut self, frame: usize)
        ensures
            final(self).spec_cur_frame() == frame,
            final(self).pixels == old(self).pixels,
            final(self).spec_pixels() == old(self).spec_pixels(),
            final(self).frame_mode == old(self).frame_mode,
            final(self).position == old(self).position,
            final(self).rotation == old(self).rotation,
            final(self).scale == old(self).scale,
            final(self).blend_mode == old(self).blend_mode,
            final(self).modulate == old(self).modulate,
    {
        self.cur_frame = frame;
    }

    /// The current frame's offset, width and height.
    fn frame_params(&self) -> (r: (usize, u8, u8))
        requires
            self.frame_in_range(),
        ensures
            r.0 == self.spec_frame_offset(),
            r.1 == self.spec_frame_width(),
            r.2 == self.spec_frame_height(),
    {
        match &self.frame_mode {
            SpriteFrameMode::StillImage(w, h) => (0, *w, *h),
            SpriteFrameMode::MultipleFrames(frames) => {
                let f = frames[self.cur_frame];
                (f.offset, f.width, f.height)
            },
        }
    }
}

/// The source sample the sprite holds at frame coordinate `(sx, sy)`.
pub open spec fn sprite_sample(s: Sprite, sx: int, sy: int) -> FBColor {
    s.spec_pixels()[s.spec_frame_offset() + sy * s.spec_frame_width() + sx]
}

/// The half-turn fixed-point sine (Bhaskara's approximation) of `v / 256`
/// turns, for `v` in `[0, 128]`, in 16.16 fixed point.
pub open spec fn sin_fp_half_spec(v: int) -> int {
    (16 * (v * (128 - v)) * 65536) / (81920 - 4 * (v * (128 - v)))
}

/// The fixed-point sine of `u / 256` turns, `u` in `[0, 256)`.
pub open spec fn sin_fp_spec(u: int) -> int {
    if u < 128 {
        sin_fp_half_spec(u)
    } else {
        -sin_fp_half_spec(u - 128)
    }
}

/// The fixed-point cosine of `u / 256` turns, `u` in `[0, 256)`.
pub open spec fn cos_fp_spec(u: int) -> int {
    sin_fp_spec(
        if u + 64 >= 256 {
            u - 192
        } else {
            u + 64
        },
    )
}

/// A 16.16 fixed-point value scaled by `256 / scale`, rounded toward
/// zero.
pub open spec fn muldiv256_spec(v: int, scale: int) -> int {
    if v >= 0 {
        (v * 256) / scale
    } else {
        -(((-v) * 256) / scale)
    }
}

/// The integer square root of `n`.
pub open spec fn isqrt_spec(n: int) -> int {
    choose|s: int| 0 <= s && #[trigger] (s * s) <= n && n < (s + 1) * (s + 1)
}

/// The sprite's rotation, normalized to `[0, 256)` units of 1/256 turn.
pub open spec fn sprite_turn_units(s: Sprite) -> int {
    (s.rotation + 32768) % 256
}

/// How the 16.16 source coordinate changes per destination row.
pub open spec fn sprite_dcol_x(s: Sprite) -> int {
    muldiv256_spec(sin_fp_spec(sprite_turn_units(s)), s.scale as int)
}

/// How the 16.16 source coordinate changes per destination column.
pub open spec fn sprite_dcol_y(s: Sprite) -> int {
    muldiv256_spec(cos_fp_spec(sprite_turn_units(s)), s.scale as int)
}

/// The 16.16 source x coordinate the inverse transform assigns to the
/// destination pixel `(qx, qy)`.
pub open spec fn sprite_uv_x(s: Sprite, qx: int, qy: int) -> int {
    s.spec_frame_width() * 32768 - (s.position.x * sprite_dcol_y(s) + s.position.y * sprite_dcol_x(
        s,
    )) + qy * sprite_dcol_x(s) + qx * sprite_dcol_y(s)
}

/// The 16.16 source y coordinate the inverse transform assigns to the
/// destination pixel `(qx, qy)`.
pub open spec fn sprite_uv_y(s: Sprite, qx: int, qy: int) -> int {
    s.spec_frame_height() * 32768 - (s.position.x * (-sprite_dcol_x(s)) + s.position.y
        * sprite_dcol_y(s)) + qy * sprite_dcol_y(s) + qx * (-sprite_dcol_x(s))
}

/// The half-extent of the blit's conservative bounding box: half the
/// source diagonal, scaled.
pub open spec fn sprite_rad(s: Sprite) -> int {
    (isqrt_spec(
        s.spec_frame_width() * s.spec_frame_width() + s.spec_frame_height()
            * s.spec_frame_height(),
    ) * s.scale) / 512 + 1
}

/// Whether `(qx, qy)` lies inside the blit's clamped bounding box on a
/// `w` by `h` framebuffer.
pub open spec fn sprite_in_bbox(s: Sprite, w: int, h: int, qx: int, qy: int) -> bool {
    let rad = sprite_rad(s);
    &&& (if s.position.x - rad > 0 {
        s.position.x - rad
    } else {
        0
    }) <= qx
    &&& qx < (if s.position.x + rad + 1 < w {
        s.position.x + rad + 1
    } else {
        w
    })
    &&& (if s.position.y - rad > 0 {
        s.position.y - rad
    } else {
        0
    }) <= qy
    &&& qy < (if s.position.y + rad + 1 < h {
        s.position.y + rad + 1
    } else {
        h
    })
}

/// Whether drawing the sprite on a `w` by `h` framebuffer paints the
/// pixel `(qx, qy)`: it must lie inside the bounding box, and its
/// inverse-mapped source coordinate inside the current frame.
pub open spec fn sprite_covers(s: Sprite, w: int, h: int, qx: int, qy: int) -> bool {
    &&& s.scale >= 1
    &&& sprite_in_bbox(s, w, h, qx, qy)
    &&& 0 <= sprite_uv_x(s, qx, qy) < s.spec_frame_width() * 65536
    &&& 0 <= sprite_uv_y(s, qx, qy) < s.spec_frame_height() * 65536
}

/// The color the sprite paints at destination pixel `(qx, qy)`: the
/// source sample at the truncated inverse-mapped coordinate, modulated by
/// the modulation color (solid, or the bilinear corner blend at the
/// fractional position within the source image).
pub open spec fn sprite_color_at(s: Sprite, qx: int, qy: int) -> FBColor {
    let uvx = sprite_uv_x(s, qx, qy);
    let uvy = sprite_uv_y(s, qx, qy);
    let sample = sprite_sample(s, uvx / 65536, uvy / 65536);
    match s.modulate {
        ColorMode::Solid(m) => mul_spec(sample, m),
        ColorMode::PerPoint(cs) => mul_spec(
            sample,
            bilinear_spec(
                (uvx * 255) / (s.spec_frame_width() * 65536),
                (uvy * 255) / (s.spec_frame_height() * 65536),
                cs[0],
                cs[1],
                cs[2],
                cs[3],
            ),
        ),
    }
}

/// Whether the sprite is drawn with the identity transform: a whole
/// number of turns and a scale of exactly 1.0.
pub open spec fn sprite_identity(s: Sprite) -> bool {
    s.rotation as int % 256 == 0 && s.scale == 256
}

/// Half-wave fixed-point sine (Bhaskara's approximation): the sine of
/// `v / 256` turns, for `v` in the first half turn, in 16.16 fixed point.
/// Exact at the quarter-turn points.
fn sin_fp_half(v: i64) -> (s: i64)
    requires
        0 <= v <= 128,
    ensures
        s == sin_fp_half_spec(v as int),
        0 <= s <= 0x10000,
        v == 0 ==> s == 0,
        v == 128 ==> s == 0,
        v == 64 ==> s == 0x10000,
{
    proof {
        assert((v - 64) * (v - 64) >= 0) by (nonlinear_arith);
        assert(v * (128 - v) == 64 * 128 - 4096 - (v - 64) * (v - 64)) by (nonlinear_arith);
        assert(0 <= v * (128 - v)) by (nonlinear_arith)
            requires
                0 <= v <= 128,
        ;
    }
    let p: u64 = (v as u64) * (128 - v as u64);
    let num: u64 = 16 * p * 65536;
    let den: u64 = 81920 - 4 * p;
    proof {
        lemma_div_pos_is_pos(num as int, den as int);
        assert(num <= 0x10000 * den) by (nonlinear_arith)
            requires
                num == 16 * p * 65536,
                den == 81920 - 4 * p,
                p <= 4096,
        ;
        lemma_fundamental_div_mod_converse(0x10000 * (den as int), den as int, 0x10000, 0);
        lemma_div_is_ordered(num as int, 0x10000 * (den as int), den as int);
    }
    (num / den) as i64
}

/// Fixed-point sine of `u / 256` turns, `u` in `[0, 256)`.
fn sin_fp(u: i16) -> (s: i64)
    requires
        0 <= u < 256,
    ensures
        s == sin_fp_spec(u as int),
        -0x10000 <= s <= 0x10000,
        u == 0 ==> s == 0,
        u == 64 ==> s == 0x10000,
{
    if u < 128 {
        sin_fp_half(u as i64)
    } else {
        -sin_fp_half(u as i64 - 128)
    }
}

/// Fixed-point cosine of `u / 256` turns, `u` in `[0, 256)`.
fn cos_fp(u: i16) -> (s: i64)
    requires
        0 <= u < 256,
    ensures
        s == cos_fp_spec(u as int),
        -0x10000 <= s <= 0x10000,
        u == 0 ==> s == 0x10000,
{
    let q: i16 = if u + 64 >= 256 {
        u - 192
    } else {
        u + 64
    };
    sin_fp(q)
}

/// Integer square root: the largest `s` with `s * s <= n`.
fn isqrt_u64(n: u64) -> (s: u64)
    requires
        n <= 0x2_0000,
    ensures
        s == isqrt_spec(n as int),
        s * s <= n,
        n < (s + 1) * (s + 1),
        s <= 0x200,
{
    let mut s: u64 = 0;
    let mut sq: u64 = 1;
    while sq <= n
        invariant
            n <= 0x2_0000,
            sq == (s + 1) * (s + 1),
            s * s <= n,
            s <= 0x200,
        decreases n - s,
    {
        proof {
            assert((s + 1) * (s + 1) <= 0x2_0000 ==> s + 1 <= 0x200) by (nonlinear_arith);
            assert((s + 2) * (s + 2) == (s + 1) * (s + 1) + 2 * (s + 1) + 1) by (nonlinear_arith);
            assert(s <= s * s || s == 0) by (nonlinear_arith);
        }
        s = s + 1;
        sq = sq + 2 * s + 1;
        proof {
            assert(s <= s * s) by (nonlinear_arith)
                requires
                    s >= 1,
            ;
        }
    }
    proof {
        assert(exists|t: int|
            0 <= t && #[trigger] (t * t) <= n && n < (t + 1) * (t + 1)) by {
            assert(0 <= s as int && (s as int) * (s as int) <= n && n < ((s as int) + 1) * ((
            s as int) + 1));
        }
        let t = isqrt_spec(n as int);
        assert(0 <= t && t * t <= n && n < (t + 1) * (t + 1));
        assert(t == s as int) by (nonlinear_arith)
            requires
                0 <= t,
                t * t <= n as int,
                (n as int) < (t + 1) * (t + 1),
                0 <= s as int,
                (s as int) * (s as int) <= n as int,
                (n as int) < ((s as int) + 1) * ((s as int) + 1),
        ;
    }
    s
}

/// Scales a 16.16 fixed-point value by `256 / scale`, rounding toward
/// zero: one step of the inverse-transform delta computation.
fn muldiv256(v: i64, scale: i64) -> (r: i64)
    requires
        -0x10000 <= v <= 0x10000,
        1 <= scale <= 0xffff,
    ensures
        r == muldiv256_spec(v as int, scale as int),
        -0x100_0000 <= r <= 0x100_0000,
        v == 0 ==> r == 0,
        v == 0x10000 && scale == 256 ==> r == 0x10000,
{
    proof {
        lemma_fundamental_div_mod_converse(0x10000int * 256, 256int, 0x10000int, 0int);
    }
    if v >= 0 {
        let q: u64 = ((v as u64) * 256) / (scale as u64);
        proof {
            lemma_div_is_ordered_by_denominator((v as int) * 256, 1, scale as int);
            assert((v as int) * 256 / 1 == (v as int) * 256) by (nonlinear_arith);
            assert((v as int) * 256 <= 0x100_0000) by (nonlinear_arith)
                requires
                    0 <= v <= 0x10000,
            ;
            lemma_div_pos_is_pos((v as int) * 256, scale as int);
        }
        q as i64
    } else {
        let q: u64 = (((-v) as u64) * 256) / (scale as u64);
        proof {
            lemma_div_is_ordered_by_denominator(((-v) as int) * 256, 1, scale as int);
            assert(((-v) as int) * 256 / 1 == ((-v) as int) * 256) by (nonlinear_arith);
            assert(((-v) as int) * 256 <= 0x100_0000) by (nonlinear_arith)
                requires
                    0 < -v <= 0x10000,
            ;
            lemma_div_pos_is_pos(((-v) as int) * 256, scale as int);
        }
        -(q as i64)
    }
}

/// The integer part of a nonnegative 16.16 fixed-point coordinate,
/// bounded by the extent whose fixed-point form bounds the input.
fn fp_floor(v: i64, extent: i64) -> (r: i64)
    requires
        1 <= extent <= 255,
        0 <= v < extent * 0x10000,
    ensures
        0 <= r < extent,
        r == v / 0x10000,
{
    proof {
        lemma_div_pos_is_pos(v as int, 0x10000);
        assert(extent * 0x10000 == 0x10000 * (extent as int)) by (nonlinear_arith);
        lemma_fundamental_div_mod_converse(
            0x10000 * (extent as int) - 0x10000 + 0xffff,
            0x10000,
            (extent as int) - 1,
            0xffff,
        );
        lemma_div_is_ordered(v as int, 0x10000 * (extent as int) - 0x10000 + 0xffff, 0x10000);
    }
    ((v as u64) / 0x10000) as i64
}

/// The fractional position of a nonnegative 16.16 fixed-point coordinate
/// within its extent, scaled to 0..=255.
fn fp_frac255(v: i64, extent_fp: i64) -> (t: u8)
    requires
        1 <= extent_fp <= 0x100_0000,
        0 <= v < extent_fp,
    ensures
        t == ((v as int) * 255) / (extent_fp as int),
        0 <= t <= 255,
{
    proof {
        assert(0 <= (v as int) * 255 <= ((extent_fp as int) - 1) * 255) by (nonlinear_arith)
            requires
                0 <= v <= extent_fp - 1,
        ;
        assert(((extent_fp as int) - 1) * 255 == (extent_fp as int) * 255 - 255) by (nonlinear_arith);
        lemma_fundamental_div_mod_converse(
            (extent_fp as int) * 255,
            extent_fp as int,
            255,
            0,
        );
        lemma_div_is_ordered((v as int) * 255, (extent_fp as int) * 255, extent_fp as int);
        lemma_div_pos_is_pos((v as int) * 255, extent_fp as int);
    }
    (((v as u64) * 255) / (extent_fp as u64)) as u8
}

/// At the identity transform, the fixed-point membership test and sample
/// coordinate collapse to plain integer arithmetic: the destination
/// offset `k` from the sprite's position maps to source column
/// `k + w / 2`.
proof fn lemma_identity_axis(k: int, w: int)
    requires
        1 <= w <= 255,
    ensures
        (0 <= k * 0x10000 + w * 0x8000 < w * 0x10000) <==> (0 <= k + w / 2 < w),
        0 <= k * 0x10000 + w * 0x8000 ==> (k * 0x10000 + w * 0x8000) / 0x10000 == k + w / 2,
{
    if w % 2 == 0 {
        assert(w * 0x8000 == (w / 2) * 0x10000) by (nonlinear_arith)
            requires
                w % 2 == 0,
                1 <= w,
        ;
        assert(k * 0x10000 + (w / 2) * 0x10000 == (k + w / 2) * 0x10000) by (nonlinear_arith);
        lemma_fundamental_div_mod_converse(
            (k + w / 2) * 0x10000,
            0x10000,
            k + w / 2,
            0,
        );
        assert((0 <= (k + w / 2) * 0x10000 < w * 0x10000) <==> (0 <= k + w / 2 < w))
            by (nonlinear_arith);
    } else {
        assert(w * 0x8000 == (w / 2) * 0x10000 + 0x8000) by (nonlinear_arith)
            requires
                w % 2 == 1,
                1 <= w,
        ;
        assert(k * 0x10000 + (w / 2) * 0x10000 + 0x8000 == (k + w / 2) * 0x10000 + 0x8000)
            by (nonlinear_arith);
        lemma_fundamental_div_mod_converse(
            (k + w / 2) * 0x10000 + 0x8000,
            0x10000,
            k + w / 2,
            0x8000,
        );
        assert((0 <= (k + w / 2) * 0x10000 + 0x8000 < w * 0x10000) <==> (0 <= k + w / 2 < w))
            by (nonlinear_arith);
    }
}

/// The exact framebuffer value after an identity-transform blit (no
/// rotation, unit scale) with a solid modulation color: the source image
/// reproduced centered on the sprite position, every other pixel left
/// alone.
pub open spec fn sprite_identity_result(s: Sprite, before: FBColor, qx: int, qy: int) -> FBColor {
    match s.modulate {
        ColorMode::Solid(m) => {
            let sx = qx - s.position.x + s.spec_frame_width() / 2;
            let sy = qy - s.position.y + s.spec_frame_height() / 2;
            if 0 <= sx < s.spec_frame_width() && 0 <= sy < s.spec_frame_height() {
                blend_spec(s.blend_mode, mul_spec(sprite_sample(s, sx, sy), m), before)
            } else {
                before
            }
        },
        ColorMode::PerPoint(_) => before,
    }
}

impl Drawable for Sprite {
    /// The current frame must exist and fit inside the shared pixel
    /// buffer.
    open spec fn valid(&self) -> bool {
        &&& self.frame_in_range()
        &&& self.spec_frame_offset() + self.spec_frame_width() * self.spec_frame_height()
            <= self.spec_pixels().len()
    }

    open spec fn paints(&self, w: int, h: int, qx: int, qy: int) -> bool {
        sprite_covers(*self, w, h, qx, qy)
    }

    open spec fn paint_color(&self, qx: int, qy: int) -> FBColor {
        sprite_color_at(*self, qx, qy)
    }

    open spec fn spec_blend(&self) -> BlendMode {
        self.blend_mode
    }

    fn draw(&self, renderer: &mut Renderer)
        ensures
            final(renderer).scratch() == old(renderer).scratch(),
            self.scale == 0 ==> final(renderer)@ == old(renderer)@,
            forall|qx: int, qy: int|
                old(renderer).contains_pixel(qx, qy) ==> #[trigger] final(renderer)@[pix(
                    old(renderer).spec_width(),
                    qx,
                    qy,
                )] == if sprite_covers(
                    *self,
                    old(renderer).spec_width(),
                    old(renderer).spec_height(),
                    qx,
                    qy,
                ) {
                    blend_spec(
                        self.blend_mode,
                        sprite_color_at(*self, qx, qy),
                        old(renderer)@[pix(old(renderer).spec_width(), qx, qy)],
                    )
                } else {
                    old(renderer)@[pix(old(renderer).spec_width(), qx, qy)]
                },
            (sprite_identity(*self) && self.modulate matches ColorMode::Solid(m)) ==> forall|
                qx: int,
                qy: int,
            |
                old(renderer).contains_pixel(qx, qy) ==> #[trigger] final(renderer)@[pix(
                    old(renderer).spec_width(),
                    qx,
                    qy,
                )] == sprite_identity_result(
                    *self,
                    old(renderer)@[pix(old(renderer).spec_width(), qx, qy)],
                    qx,
                    qy,
                ),
    {
        if self.scale == 0 {
            return;
        }
        let (offset, fw, fh) = self.frame_params();
        if fw == 0 || fh == 0 {
            return;
        }
        let w_i: i64 = fw as i64;
        let h_i: i64 = fh as i64;
        let px_: i64 = self.position.x as i64;
        let py_: i64 = self.position.y as i64;
        let scale_: i64 = self.scale as i64;

        // Rotation, normalized to [0, 256) units of 1/256 turn. Adding a
        // whole number of turns first keeps the value nonnegative.
        let rot: i64 = self.rotation as i64;
        let rot_shifted: i64 = rot + 32768;
        let u: i16 = ((rot_shifted as u64) % 256) as i16;
        proof {
            vstd::arithmetic::div_mod::lemma_mod_multiples_vanish(128, rot as int, 256);
        }
        proof {
            assert(u as int == sprite_turn_units(*self));
        }
        let s_fp: i64 = sin_fp(u);
        let c_fp: i64 = cos_fp(u);

        let dcol_x: i64 = muldiv256(s_fp, scale_);
        let dcol_y: i64 = muldiv256(c_fp, scale_);
        let drow_x: i64 = dcol_y;
        let drow_y: i64 = 0 - dcol_x;

        proof {
            assert(-0x80_0000_0000 <= px_ * dcol_y <= 0x80_0000_0000
                && -0x80_0000_0000 <= py_ * dcol_x <= 0x80_0000_0000
                && -0x80_0000_0000 <= px_ * drow_y <= 0x80_0000_0000
                && -0x80_0000_0000 <= py_ * drow_x <= 0x80_0000_0000) by (nonlinear_arith)
                requires
                    -0x8000 <= px_ <= 0x8000,
                    -0x8000 <= py_ <= 0x8000,
                    -0x100_0000 <= dcol_x <= 0x100_0000,
                    -0x100_0000 <= dcol_y <= 0x100_0000,
                    -0x100_0000 <= drow_x <= 0x100_0000,
                    -0x100_0000 <= drow_y <= 0x100_0000,
            ;
        }
        let start_x: i64 = w_i * 32768 - (px_ * dcol_y + py_ * dcol_x);
        let start_y: i64 = h_i * 32768 - (px_ * drow_y + py_ * drow_x);
        let wfp: i64 = w_i * 65536;
        let hfp: i64 = h_i * 65536;

        // Conservative bounding box: half the source diagonal, scaled.
        proof {
            assert(0 <= (fw as int) * (fw as int) <= 0xfe01 && 0 <= (fh as int) * (fh as int)
                <= 0xfe01) by (nonlinear_arith)
                requires
                    0 <= fw <= 255,
                    0 <= fh <= 255,
            ;
        }
        let d2: u64 = (fw as u64) * (fw as u64) + (fh as u64) * (fh as u64);
        let diag: i64 = isqrt_u64(d2) as i64;
        proof {
            assert(0 <= (diag as int) * (scale_ as int) <= 0x200 * 0xffff) by (nonlinear_arith)
                requires
                    0 <= diag <= 0x200,
                    1 <= scale_ <= 0xffff,
            ;
        }
        let rad: i64 = (((diag as u64) * (scale_ as u64)) / 512) as i64 + 1;
        proof {
            assert(diag <= w_i + h_i) by (nonlinear_arith)
                requires
                    (diag as int) * (diag as int) <= d2,
                    d2 == w_i * w_i + h_i * h_i,
                    diag >= 0,
                    w_i >= 0,
                    h_i >= 0,
            ;
            assert(w_i <= diag && h_i <= diag) by (nonlinear_arith)
                requires
                    d2 < ((diag as int) + 1) * ((diag as int) + 1),
                    d2 == w_i * w_i + h_i * h_i,
                    diag >= 0,
                    w_i >= 0,
                    h_i >= 0,
            ;
            assert((diag as int) * (scale_ as int) <= (w_i + h_i) * (scale_ as int))
                by (nonlinear_arith)
                requires
                    diag <= w_i + h_i,
                    scale_ >= 1,
            ;
            lemma_div_is_ordered(
                (diag as int) * (scale_ as int),
                (w_i as int + h_i as int) * (scale_ as int),
                512int,
            );
            lemma_div_pos_is_pos((diag as int) * (scale_ as int), 512);
            assert((diag as int) * (scale_ as int) <= 0x200 * 0xffff) by (nonlinear_arith)
                requires
                    0 <= diag <= 0x200,
                    1 <= scale_ <= 0xffff,
            ;
            lemma_div_is_ordered((diag as int) * (scale_ as int), 0x200int * 0xffff, 512);
        }
        proof {
            assert(d2 as int == w_i * w_i + h_i * h_i);
            assert(diag as int == isqrt_spec(d2 as int));
            assert(rad as int == sprite_rad(*self));
            assert(dcol_x == sprite_dcol_x(*self));
            assert(dcol_y == sprite_dcol_y(*self));
        }

        let wr: i64 = renderer.width() as i64;
        let hr: i64 = renderer.height() as i64;
        let min_x: i64 = if px_ - rad > 0 { px_ - rad } else { 0 };
        let max_x: i64 = if px_ + rad + 1 < wr { px_ + rad + 1 } else { wr };
        let min_y: i64 = if py_ - rad > 0 { py_ - rad } else { 0 };
        let max_y: i64 = if py_ + rad + 1 < hr { py_ + rad + 1 } else { hr };

        let ghost ident = sprite_identity(*self) && (self.modulate matches ColorMode::Solid(_));
        proof {
            if ident {
                assert(u == 0);
                assert(py_ * dcol_x == 0 && px_ * drow_y == 0) by (nonlinear_arith)
                    requires
                        dcol_x == 0,
                        drow_y == 0,
                ;
                assert(px_ * dcol_y == px_ * 0x10000 && py_ * drow_x == py_ * 0x10000)
                    by (nonlinear_arith)
                    requires
                        dcol_y == 0x10000,
                        drow_x == 0x10000,
                ;
                // cover the whole centered source image: the scaled
                // half-diagonal is at least half of either side
                assert(((diag as int) * 256) / 512 >= (diag as int) / 2) by {
                    assert((diag as int) * 256 == ((diag as int) / 2) * 512 + ((diag as int) % 2)
                        * 256) by (nonlinear_arith);
                    lemma_fundamental_div_mod_converse(
                        (diag as int) * 256,
                        512,
                        (diag as int) / 2,
                        ((diag as int) % 2) * 256,
                    );
                }
                lemma_div_is_ordered(w_i as int, diag as int, 2);
                lemma_div_is_ordered(h_i as int, diag as int, 2);
            }
        }

        let ghost wd = renderer.spec_width();
        let ghost fb0 = renderer@;

        let mut dy_: i64 = min_y;
        while dy_ < max_y
            invariant
                renderer.wf(),
                renderer.spec_width() == old(renderer).spec_width(),
                renderer.spec_height() == old(renderer).spec_height(),
                renderer.scratch() == old(renderer).scratch(),
                renderer@.len() == fb0.len(),
                wd == old(renderer).spec_width(),
                fb0 == old(renderer)@,
                wr == old(renderer).spec_width(),
                hr == old(renderer).spec_height(),
                self.valid(),
                self.scale != 0,
                scale_ == self.scale as int,
                1 <= scale_ <= 0xffff,
                offset == self.spec_frame_offset(),
                w_i == self.spec_frame_width(),
                h_i == self.spec_frame_height(),
                fw as int == w_i,
                fh as int == h_i,
                1 <= w_i <= 255,
                1 <= h_i <= 255,
                px_ == self.position.x as int,
                py_ == self.position.y as int,
                wfp == w_i * 65536,
                hfp == h_i * 65536,
                -0x100_0000 <= dcol_x <= 0x100_0000,
                -0x100_0000 <= dcol_y <= 0x100_0000,
                drow_x == dcol_y,
                drow_y == -dcol_x,
                -0x200_0000_0000 <= start_x <= 0x200_0000_0000,
                -0x200_0000_0000 <= start_y <= 0x200_0000_0000,
                dcol_x == sprite_dcol_x(*self),
                dcol_y == sprite_dcol_y(*self),
                start_x == w_i * 32768 - (px_ * dcol_y + py_ * dcol_x),
                start_y == h_i * 32768 - (px_ * drow_y + py_ * drow_x),
                0 <= rad,
                rad == sprite_rad(*self),
                min_x == if px_ - rad > 0 { px_ - rad } else { 0 },
                max_x == if px_ + rad + 1 < wr { px_ + rad + 1 } else { wr as int },
                min_y == if py_ - rad > 0 { py_ - rad } else { 0 },
                max_y == if py_ + rad + 1 < hr { py_ + rad + 1 } else { hr as int },
                min_y <= dy_,
                dy_ <= max_y || dy_ == min_y,
                ident == (sprite_identity(*self) && self.modulate matches ColorMode::Solid(_)),
                ident ==> dcol_x == 0 && dcol_y == 0x10000 && drow_x == 0x10000 && drow_y == 0
                    && start_x == w_i * 32768 - px_ * 0x10000 && start_y == h_i * 32768 - py_
                    * 0x10000 && rad >= w_i / 2 + 1 && rad >= h_i / 2 + 1,
                forall|qx: int, qy: int|
                    old(renderer).contains_pixel(qx, qy) ==> #[trigger] renderer@[pix(wd, qx, qy)]
                        == if sprite_covers(*self, wd, hr as int, qx, qy) && qy < dy_ {
                        blend_spec(self.blend_mode, sprite_color_at(*self, qx, qy), fb0[pix(wd, qx, qy)])
                    } else {
                        fb0[pix(wd, qx, qy)]
                    },
                ident ==> forall|qx: int, qy: int|
                    old(renderer).contains_pixel(qx, qy) ==> #[trigger] renderer@[pix(wd, qx, qy)]
                        == if qy < dy_ && min_x <= qx < max_x {
                        sprite_identity_result(*self, fb0[pix(wd, qx, qy)], qx, qy)
                    } else {
                        fb0[pix(wd, qx, qy)]
                    },
            decreases max_y - dy_,
        {
            let mut dx_: i64 = min_x;
            while dx_ < max_x
                invariant
                    renderer.wf(),
                    renderer.spec_width() == old(renderer).spec_width(),
                    renderer.spec_height() == old(renderer).spec_height(),
                    renderer.scratch() == old(renderer).scratch(),
                    renderer@.len() == fb0.len(),
                    wd == old(renderer).spec_width(),
                    fb0 == old(renderer)@,
                    wr == old(renderer).spec_width(),
                    hr == old(renderer).spec_height(),
                    self.valid(),
                    self.scale != 0,
                    scale_ == self.scale as int,
                    1 <= scale_ <= 0xffff,
                    offset == self.spec_frame_offset(),
                    w_i == self.spec_frame_width(),
                    h_i == self.spec_frame_height(),
                    fw as int == w_i,
                    fh as int == h_i,
                    1 <= w_i <= 255,
                    1 <= h_i <= 255,
                    px_ == self.position.x as int,
                    py_ == self.position.y as int,
                    wfp == w_i * 65536,
                    hfp == h_i * 65536,
                    -0x100_0000 <= dcol_x <= 0x100_0000,
                    -0x100_0000 <= dcol_y <= 0x100_0000,
                    drow_x == dcol_y,
                    drow_y == -dcol_x,
                    -0x200_0000_0000 <= start_x <= 0x200_0000_0000,
                    -0x200_0000_0000 <= start_y <= 0x200_0000_0000,
                    dcol_x == sprite_dcol_x(*self),
                    dcol_y == sprite_dcol_y(*self),
                    start_x == w_i * 32768 - (px_ * dcol_y + py_ * dcol_x),
                    start_y == h_i * 32768 - (px_ * drow_y + py_ * drow_x),
                    0 <= rad,
                    rad == sprite_rad(*self),
                    min_x == if px_ - rad > 0 { px_ - rad } else { 0 },
                    max_x == if px_ + rad + 1 < wr { px_ + rad + 1 } else { wr as int },
                    min_y == if py_ - rad > 0 { py_ - rad } else { 0 },
                    max_y == if py_ + rad + 1 < hr { py_ + rad + 1 } else { hr as int },
                    min_y <= dy_ < max_y,
                    0 <= dy_ < hr,
                    min_x <= dx_,
                    dx_ <= max_x || dx_ == min_x,
                    ident == (sprite_identity(*self) && self.modulate matches ColorMode::Solid(_)),
                    ident ==> dcol_x == 0 && dcol_y == 0x10000 && drow_x == 0x10000 && drow_y == 0
                        && start_x == w_i * 32768 - px_ * 0x10000 && start_y == h_i * 32768 - py_
                        * 0x10000 && rad >= w_i / 2 + 1 && rad >= h_i / 2 + 1,
                    forall|qx: int, qy: int|
                        old(renderer).contains_pixel(qx, qy) ==> #[trigger] renderer@[pix(wd, qx, qy)]
                            == if sprite_covers(*self, wd, hr as int, qx, qy) && (qy < dy_ || (qy
                            == dy_ && qx < dx_)) {
                            blend_spec(self.blend_mode, sprite_color_at(*self, qx, qy), fb0[pix(wd, qx, qy)])
                        } else {
                            fb0[pix(wd, qx, qy)]
                        },
                    ident ==> forall|qx: int, qy: int|
                        old(renderer).contains_pixel(qx, qy) ==> #[trigger] renderer@[pix(wd, qx, qy)]
                            == if ((qy < dy_ || (qy == dy_ && qx < dx_)) && min_x <= qx < max_x) {
                            sprite_identity_result(*self, fb0[pix(wd, qx, qy)], qx, qy)
                        } else {
                            fb0[pix(wd, qx, qy)]
                        },
                decreases max_x - dx_,
            {
                proof {
                    assert(-0x8_0000_0000_0000 <= dy_ * dcol_x <= 0x8_0000_0000_0000
                        && -0x8_0000_0000_0000 <= dx_ * drow_x <= 0x8_0000_0000_0000
                        && -0x8_0000_0000_0000 <= dy_ * dcol_y <= 0x8_0000_0000_0000
                        && -0x8_0000_0000_0000 <= dx_ * drow_y <= 0x8_0000_0000_0000)
                        by (nonlinear_arith)
                        requires
                            0 <= dy_ <= 0x10000,
                            0 <= dx_ <= 0x10000,
                            -0x100_0000 <= dcol_x <= 0x100_0000,
                            -0x100_0000 <= dcol_y <= 0x100_0000,
                            -0x100_0000 <= drow_x <= 0x100_0000,
                            -0x100_0000 <= drow_y <= 0x100_0000,
                    ;
                }
                let uvx: i64 = start_x + dy_ * dcol_x + dx_ * drow_x;
                let uvy: i64 = start_y + dy_ * dcol_y + dx_ * drow_y;
                proof {
                    if ident {
                        assert(dy_ * dcol_x == 0 && dx_ * drow_y == 0) by (nonlinear_arith)
                            requires
                                dcol_x == 0,
                                drow_y == 0,
                        ;
                        assert(dx_ * drow_x == dx_ * 0x10000 && dy_ * dcol_y == dy_ * 0x10000)
                            by (nonlinear_arith)
                            requires
                                drow_x == 0x10000,
                                dcol_y == 0x10000,
                        ;
                        assert(uvx == (dx_ - px_) * 0x10000 + w_i * 32768) by (nonlinear_arith)
                            requires
                                uvx == start_x + dy_ * dcol_x + dx_ * drow_x,
                                start_x == w_i * 32768 - px_ * 0x10000,
                                dy_ * dcol_x == 0,
                                dx_ * drow_x == dx_ * 0x10000,
                        ;
                        assert(uvy == (dy_ - py_) * 0x10000 + h_i * 32768) by (nonlinear_arith)
                            requires
                                uvy == start_y + dy_ * dcol_y + dx_ * drow_y,
                                start_y == h_i * 32768 - py_ * 0x10000,
                                dx_ * drow_y == 0,
                                dy_ * dcol_y == dy_ * 0x10000,
                        ;
                        lemma_identity_axis(dx_ - px_, w_i as int);
                        lemma_identity_axis(dy_ - py_, h_i as int);
                    }
                }
                let ghost pre = renderer@;
                if 0 <= uvx && uvx < wfp && 0 <= uvy && uvy < hfp {
                    let sx: i64 = fp_floor(uvx, w_i);
                    let sy: i64 = fp_floor(uvy, h_i);
                    proof {
                        crate::renderer::lemma_pix_in_range(
                            w_i as int,
                            h_i as int,
                            sx as int,
                            sy as int,
                        );
                    }
                    proof {
                        assert(0 <= (sy as int) * (fw as int) <= 0xfe01) by (nonlinear_arith)
                            requires
                                0 <= sy <= 255,
                                0 <= fw <= 255,
                        ;
                        assert((sy as int) * (w_i as int) + (sx as int) < (w_i as int) * (h_i as int));
                    }
                    let plen: usize = self.pixels.len();
                    proof {
                        assert(offset + (sy as int) * (w_i as int) + (sx as int) < plen as int);
                    }
                    let idx: usize = offset + (sy as usize) * (fw as usize) + (sx as usize);
                    let sample: FBColor = self.pixels[idx];
                    let mcolor: FBColor = match self.modulate {
                        ColorMode::Solid(m) => m,
                        ColorMode::PerPoint(cs) => {
                            let tx = fp_frac255(uvx, wfp);
                            let ty = fp_frac255(uvy, hfp);
                            crate::bilinear_4_colors(tx, ty, cs[0], cs[1], cs[2], cs[3])
                        },
                    };
                    let color = sample.mul(mcolor);
                    renderer.set_at(dx_ as i32, dy_ as i32, color, self.blend_mode);
                    proof {
                        assert(uvx as int == sprite_uv_x(*self, dx_ as int, dy_ as int));
                        assert(uvy as int == sprite_uv_y(*self, dx_ as int, dy_ as int));
                        assert(sprite_covers(*self, wd, hr as int, dx_ as int, dy_ as int));
                        assert(sample == sprite_sample(*self, sx as int, sy as int));
                        assert(color == sprite_color_at(*self, dx_ as int, dy_ as int));
                        assert(renderer@ == pre.update(
                            pix(wd, dx_ as int, dy_ as int),
                            blend_spec(
                                self.blend_mode,
                                color,
                                pre[pix(wd, dx_ as int, dy_ as int)],
                            ),
                        ));
                        assert forall|qx: int, qy: int|
                            old(renderer).contains_pixel(qx, qy) && !(qx == dx_ as int && qy
                                == dy_ as int) implies #[trigger] renderer@[pix(wd, qx, qy)]
                            == pre[pix(wd, qx, qy)] by {
                            crate::renderer::lemma_pix_injective(wd, qx, qy, dx_ as int, dy_ as int);
                            crate::renderer::lemma_pix_in_range(wd, hr as int, qx, qy);
                            crate::renderer::lemma_pix_in_range(wd, hr as int, dx_ as int, dy_ as int);
                        }
                        crate::renderer::lemma_pix_in_range(wd, hr as int, dx_ as int, dy_ as int);
                        if ident {
                            assert(sx == (dx_ - px_) + w_i / 2 && sy == (dy_ - py_) + h_i / 2);
                            match self.modulate {
                                ColorMode::Solid(m) => {
                                    assert(idx as int == offset + (sy as int) * (w_i as int) + (
                                    sx as int));
                                    assert(sample == sprite_sample(*self, sx as int, sy as int));
                                    assert(color == mul_spec(
                                        sprite_sample(*self, sx as int, sy as int),
                                        m,
                                    ));
                                    assert(renderer@[pix(wd, dx_ as int, dy_ as int)]
                                        == sprite_identity_result(
                                        *self,
                                        fb0[pix(wd, dx_ as int, dy_ as int)],
                                        dx_ as int,
                                        dy_ as int,
                                    ));
                                },
                                ColorMode::PerPoint(_) => {},
                            }
                        }
                    }
                }
                dx_ = dx_ + 1;
            }
            dy_ = dy_ + 1;
        }
    }
}

} // verus!
