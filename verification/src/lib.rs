//! A software 2D rasterizer: draws geometric and bitmap primitives into an
//! owned, in-memory color buffer using integer and fixed-point arithmetic.
//!
//! The crate owns a framebuffer (`Renderer`), a color/blend model
//! (`FBColor`, `ColorMode`, `BlendMode`), and one drawable value type per
//! primitive: `ColorVec2` (point), `Line`, `ColorRect`, `Circle`,
//! `Triangle` and `Sprite`.
use vstd::prelude::*;

pub mod circle;
pub mod color;
pub mod line;
pub mod point;
pub mod rect;
pub mod renderer;
pub mod sprite;
pub mod triangle;
pub mod vec2;

pub use crate::circle::Circle;
pub use crate::color::ColorMode;
pub use crate::color::FBColor;
pub use crate::line::Line;
pub use crate::point::ColorVec2;
pub use crate::rect::ColorRect;
pub use crate::rect::Rect;
pub use crate::renderer::Renderer;
pub use crate::sprite::Sprite;
pub use crate::sprite::SpriteFrame;
pub use crate::sprite::SpriteFrameMode;
pub use crate::triangle::Triangle;
pub use crate::triangle::edge;
pub use crate::vec2::I16Vec2;

verus! {

/// Anything that can be rasterized into a `Renderer`.
pub trait Drawable {
    /// The inputs on which drawing is defined; a primitive whose geometry
    /// needs no side condition returns `true`.
    spec fn valid(&self) -> bool;

    /// Whether drawing `self` on a `w` by `h` framebuffer paints the
    /// pixel `(qx, qy)`.
    spec fn paints(&self, w: int, h: int, qx: int, qy: int) -> bool;

    /// The color `self` paints at pixel `(qx, qy)` (meaningful where
    /// `paints` holds).
    spec fn paint_color(&self, qx: int, qy: int) -> FBColor;

    /// The blend mode every painted pixel is written with.
    spec fn spec_blend(&self) -> BlendMode;

    /// Rasterizes `self` into the renderer's framebuffer: exactly the
    /// pixels `paints` names change, each to one blend of `paint_color`
    /// over its previous value.
    fn draw(&self, renderer: &mut Renderer)
        requires
            self.valid(),
            old(renderer).wf(),
        ensures
            final(renderer).wf(),
            final(renderer).spec_width() == old(renderer).spec_width(),
            final(renderer).spec_height() == old(renderer).spec_height(),
            final(renderer)@.len() == old(renderer)@.len(),
            forall|qx: int, qy: int|
                old(renderer).contains_pixel(qx, qy) ==> #[trigger] final(renderer)@[crate::renderer::pix(
                    old(renderer).spec_width(),
                    qx,
                    qy,
                )] == if self.paints(old(renderer).spec_width(), old(renderer).spec_height(), qx, qy) {
                    blend_spec(
                        self.spec_blend(),
                        self.paint_color(qx, qy),
                        old(renderer)@[crate::renderer::pix(old(renderer).spec_width(), qx, qy)],
                    )
                } else {
                    old(renderer)@[crate::renderer::pix(old(renderer).spec_width(), qx, qy)]
                },
    ;
}

/// Policy for combining a newly drawn color with the color already stored
/// at a pixel.
#[derive(Clone, Copy, Eq, PartialEq, Structural, Debug)]
pub enum BlendMode {
    Opaque,
    Alpha,
}

/// One channel of the alpha (source-over) blend: the source channel plus
/// the destination channel scaled by the remaining coverage, clamped.
pub open spec fn blend_alpha_ch(s: int, d: int, sa: int) -> int {
    let v = s + (d * (255 - sa) + 127) / 255;
    if v > 255 {
        255
    } else {
        v
    }
}

/// The alpha (source-over) blend. A source alpha of 255 replaces the
/// destination; a source alpha of 0 leaves it untouched; anything in
/// between blends every channel, alpha included.
pub open spec fn blend_alpha_spec(src: FBColor, dst: FBColor) -> FBColor {
    if src.a == 255 {
        src
    } else if src.a == 0 {
        dst
    } else {
        FBColor {
            r: blend_alpha_ch(src.r as int, dst.r as int, src.a as int) as u8,
            g: blend_alpha_ch(src.g as int, dst.g as int, src.a as int) as u8,
            b: blend_alpha_ch(src.b as int, dst.b as int, src.a as int) as u8,
            a: blend_alpha_ch(src.a as int, dst.a as int, src.a as int) as u8,
        }
    }
}

/// What one pixel write stores: the blend of the drawn color with the
/// color already there, under the given mode.
pub open spec fn blend_spec(mode: BlendMode, src: FBColor, dst: FBColor) -> FBColor {
    match mode {
        BlendMode::Opaque => src,
        BlendMode::Alpha => blend_alpha_spec(src, dst),
    }
}

pub(crate) fn blend_none(src: FBColor, dst: &mut FBColor)
    ensures
        *final(dst) == blend_spec(BlendMode::Opaque, src, *old(dst)),
{
    *dst = src;
}

fn blend_alpha_channel(s: u8, d: u8, sa: u8) -> (v: u8)
    ensures
        v == blend_alpha_ch(s as int, d as int, sa as int),
{
    proof {
        assert(0 <= (d as int) * (255 - sa as int) <= 255 * 255) by (nonlinear_arith)
            requires
                0 <= d <= 255,
                0 <= sa <= 255,
        ;
    }
    let scaled: u32 = ((d as u32) * (255 - sa as u32) + 127) / 255;
    let v: u32 = s as u32 + scaled;
    if v > 255 {
        255
    } else {
        v as u8
    }
}

pub(crate) fn blend_alpha(src: FBColor, dst: &mut FBColor)
    ensures
        *final(dst) == blend_spec(BlendMode::Alpha, src, *old(dst)),
{
    if src.a >= 255 {
        *dst = src;
        return;
    }
    if src.a == 0 {
        return;
    }
    let r = blend_alpha_channel(src.r, dst.r, src.a);
    let g = blend_alpha_channel(src.g, dst.g, src.a);
    let b = blend_alpha_channel(src.b, dst.b, src.a);
    let a = blend_alpha_channel(src.a, dst.a, src.a);
    dst.set_r(r);
    dst.set_g(g);
    dst.set_b(b);
    dst.set_a(a);
}

/// Applies the blend function selected by `mode` to one pixel.
pub(crate) fn blend_pixel(mode: BlendMode, src: FBColor, dst: &mut FBColor)
    ensures
        *final(dst) == blend_spec(mode, src, *old(dst)),
{
    match mode {
        BlendMode::Opaque => blend_none(src, dst),
        BlendMode::Alpha => blend_alpha(src, dst),
    }
}

/// Opaque blending ignores the destination: the result is the source,
/// whatever was stored before.
pub proof fn lemma_blend_opaque(c: FBColor, d: FBColor)
    ensures
        blend_spec(BlendMode::Opaque, c, d) == c,
{
}

/// Alpha blending with a fully transparent source is the identity on the
/// destination.
pub proof fn lemma_blend_alpha_transparent(c: FBColor, d: FBColor)
    requires
        c.a == 0,
    ensures
        blend_spec(BlendMode::Alpha, c, d) == d,
{
}

/// Alpha blending with a fully opaque source replaces the destination.
pub proof fn lemma_blend_alpha_opaque_source(c: FBColor, d: FBColor)
    requires
        c.a == 255,
    ensures
        blend_spec(BlendMode::Alpha, c, d) == c,
{
}

/// Bilinear blend of four corner colors at the fractional position
/// `(tx, ty)` (each 0 at the top-left, 255 at the far edge): interpolate
/// the top and bottom edges horizontally, then vertically.
pub open spec fn bilinear_spec(
    tx: int,
    ty: int,
    top_left: FBColor,
    top_right: FBColor,
    bottom_left: FBColor,
    bottom_right: FBColor,
) -> FBColor {
    color::lerp_spec(
        color::lerp_spec(top_left, top_right, tx),
        color::lerp_spec(bottom_left, bottom_right, tx),
        ty,
    )
}

pub(crate) fn bilinear_4_colors(
    tx: u8,
    ty: u8,
    top_left: FBColor,
    top_right: FBColor,
    bottom_left: FBColor,
    bottom_right: FBColor,
) -> (c: FBColor)
    ensures
        c == bilinear_spec(tx as int, ty as int, top_left, top_right, bottom_left, bottom_right),
{
    let top_linear = top_left.lerp(top_right, tx);
    let bottom_linear = bottom_left.lerp(bottom_right, tx);
    top_linear.lerp(bottom_linear, ty)
}

} // verus!
