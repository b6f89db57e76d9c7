//! The axis-aligned filled rectangle primitive.
use vstd::prelude::*;

use crate::BlendMode;
use crate::ColorMode;
use crate::Drawable;
use crate::FBColor;
use crate::I16Vec2;
use crate::Renderer;
use crate::bilinear_4_colors;
use crate::bilinear_spec;
use crate::blend_spec;
use crate::renderer::lemma_pix_injective;
use crate::renderer::pix;

verus! {

/// An axis-aligned rectangle: a position and a possibly negative size.
/// A negative size component flips the rectangle across that axis; a zero
/// component makes it empty.
#[derive(Clone, Copy, Eq, PartialEq, Structural, Debug)]
pub struct Rect {
    pub position: I16Vec2,
    pub size: I16Vec2,
}

/// The left edge of the rectangle after normalizing a negative size.
pub open spec fn rect_min_x(r: Rect) -> int {
    if r.size.x < 0 {
        r.position.x + r.size.x
    } else {
        r.position.x as int
    }
}

/// One past the right edge of the rectangle after normalization.
pub open spec fn rect_max_x(r: Rect) -> int {
    if r.size.x < 0 {
        r.position.x as int
    } else {
        r.position.x + r.size.x
    }
}

/// The top edge of the rectangle after normalization.
pub open spec fn rect_min_y(r: Rect) -> int {
    if r.size.y < 0 {
        r.position.y + r.size.y
    } else {
        r.position.y as int
    }
}

/// One past the bottom edge of the rectangle after normalization.
pub open spec fn rect_max_y(r: Rect) -> int {
    if r.size.y < 0 {
        r.position.y as int
    } else {
        r.position.y + r.size.y
    }
}

/// Whether the rectangle covers the pixel at `(px, py)`.
pub open spec fn rect_covers(r: Rect, px: int, py: int) -> bool {
    &&& rect_min_x(r) <= px < rect_max_x(r)
    &&& rect_min_y(r) <= py < rect_max_y(r)
}

/// The fractional position of `off` within `extent`, scaled to 0..=255
/// (rounded down).
pub open spec fn frac255(off: int, extent: int) -> int {
    (off * 255) / extent
}

/// A filled rectangle with a solid or 4-corner interpolated color.
pub struct ColorRect {
    pub rect: Rect,
    pub color: ColorMode<4>,
    pub blend_mode: BlendMode,
}

/// The color the rectangle paints at pixel `(px, py)`: the solid color,
/// or the bilinear blend of the four corner colors at the pixel's
/// fractional position within the unclamped rectangle extent, so that
/// clipping does not distort the gradient.
pub open spec fn rect_color_at(cr: ColorRect, px: int, py: int) -> FBColor {
    match cr.color {
        ColorMode::Solid(c) => c,
        ColorMode::PerPoint(cs) => bilinear_spec(
            frac255(px - rect_min_x(cr.rect), rect_max_x(cr.rect) - rect_min_x(cr.rect)),
            frac255(py - rect_min_y(cr.rect), rect_max_y(cr.rect) - rect_min_y(cr.rect)),
            cs[0],
            cs[1],
            cs[2],
            cs[3],
        ),
    }
}

impl ColorRect {
    pub fn new(rect: Rect, color: ColorMode<4>, blend_mode: BlendMode) -> (r: Self)
        ensures
            r.rect == rect,
            r.color == color,
            r.blend_mode == blend_mode,
    {
        ColorRect { rect, color, blend_mode }
    }
}

fn frac_u8(off: i32, extent: i32) -> (t: u8)
    requires
        0 <= off < extent,
        extent <= 0x10000,
    ensures
        t == frac255(off as int, extent as int),
{
    proof {
        assert(0 <= off * 255 <= (extent - 1) * 255) by (nonlinear_arith)
            requires
                0 <= off <= extent - 1,
        ;
        assert(((extent - 1) * 255) / (extent as int) <= 255) by (nonlinear_arith)
            requires
                1 <= extent,
        ;
        assert((off * 255) / (extent as int) <= ((extent - 1) * 255) / (extent as int))
            by (nonlinear_arith)
            requires
                0 <= off * 255 <= (extent - 1) * 255,
                1 <= extent,
        ;
        assert((off * 255) / (extent as int) >= 0) by (nonlinear_arith)
            requires
                0 <= off * 255,
                1 <= extent,
        ;
    }
    ((off * 255) / extent) as u8
}

impl Drawable for ColorRect {
    open spec fn valid(&self) -> bool {
        true
    }

    open spec fn paints(&self, w: int, h: int, qx: int, qy: int) -> bool {
        rect_covers(self.rect, qx, qy)
    }

    open spec fn paint_color(&self, qx: int, qy: int) -> FBColor {
        rect_color_at(*self, qx, qy)
    }

    open spec fn spec_blend(&self) -> BlendMode {
        self.blend_mode
    }

    fn draw(&self, renderer: &mut Renderer)
        ensures
            final(renderer).scratch() == old(renderer).scratch(),
            forall|qx: int, qy: int|
                old(renderer).contains_pixel(qx, qy) ==> #[trigger] final(renderer)@[pix(
                    old(renderer).spec_width(),
                    qx,
                    qy,
                )] == if rect_covers(self.rect, qx, qy) {
                    blend_spec(
                        self.blend_mode,
                        rect_color_at(*self, qx, qy),
                        old(renderer)@[pix(old(renderer).spec_width(), qx, qy)],
                    )
                } else {
                    old(renderer)@[pix(old(renderer).spec_width(), qx, qy)]
                },
            (self.rect.size.x == 0 || self.rect.size.y == 0) ==> final(renderer)@ == old(
                renderer,
            )@,
    {
        if self.rect.size.x == 0 || self.rect.size.y == 0 {
            return;
        }
        let single_color: bool;
        let colors: [FBColor; 4] = match self.color {
            ColorMode::Solid(c) => {
                single_color = true;
                [c, c, c, c]
            },
            ColorMode::PerPoint(cs) => {
                single_color = false;
                cs
            },
        };

        let w = renderer.width();
        let h = renderer.height();

        let x0 = self.rect.position.x as i32;
        let x1 = x0 + self.rect.size.x as i32;
        let y0 = self.rect.position.y as i32;
        let y1 = y0 + self.rect.size.y as i32;

        let min_x = if x0 < x1 { x0 } else { x1 };
        let max_x = if x0 < x1 { x1 } else { x0 };
        let min_y = if y0 < y1 { y0 } else { y1 };
        let max_y = if y0 < y1 { y1 } else { y0 };

        let extent_x = max_x - min_x;
        let extent_y = max_y - min_y;

        let clip_min_x = if min_x > 0 { min_x } else { 0 };
        let clip_max_x = if max_x < w { max_x } else { w };
        let clip_min_y = if min_y > 0 { min_y } else { 0 };
        let clip_max_y = if max_y < h { max_y } else { h };

        let ghost wd = renderer.spec_width();
        let ghost fb0 = renderer@;

        let mut py = clip_min_y;
        while py < clip_max_y
            invariant
                renderer.wf(),
                renderer.spec_width() == old(renderer).spec_width(),
                renderer.spec_height() == old(renderer).spec_height(),
                renderer.scratch() == old(renderer).scratch(),
                renderer@.len() == fb0.len(),
                wd == old(renderer).spec_width(),
                fb0 == old(renderer)@,
                w == old(renderer).spec_width(),
                h == old(renderer).spec_height(),
                min_x == rect_min_x(self.rect),
                max_x == rect_max_x(self.rect),
                min_y == rect_min_y(self.rect),
                max_y == rect_max_y(self.rect),
                extent_x == max_x - min_x,
                extent_y == max_y - min_y,
                1 <= extent_x <= 0x10000,
                1 <= extent_y <= 0x10000,
                single_color <==> self.color matches ColorMode::Solid(_),
                self.color matches ColorMode::Solid(c) ==> colors[0] == c,
                self.color matches ColorMode::PerPoint(cs) ==> colors == cs,
                clip_min_x == if min_x > 0 { min_x as int } else { 0 },
                clip_max_x == if max_x < w { max_x as int } else { w as int },
                clip_min_y == if min_y > 0 { min_y as int } else { 0 },
                clip_max_y == if max_y < h { max_y as int } else { h as int },
                clip_min_y <= py,
                py <= clip_max_y || py == clip_min_y,
                forall|qx: int, qy: int|
                    old(renderer).contains_pixel(qx, qy) ==> #[trigger] renderer@[pix(wd, qx, qy)]
                        == if rect_covers(self.rect, qx, qy) && qy < py {
                        blend_spec(self.blend_mode, rect_color_at(*self, qx, qy), fb0[pix(wd, qx, qy)])
                    } else {
                        fb0[pix(wd, qx, qy)]
                    },
            decreases clip_max_y - py,
        {
            let mut px = clip_min_x;
            while px < clip_max_x
                invariant
                    renderer.wf(),
                    renderer.spec_width() == old(renderer).spec_width(),
                    renderer.spec_height() == old(renderer).spec_height(),
                    renderer.scratch() == old(renderer).scratch(),
                    renderer@.len() == fb0.len(),
                    wd == old(renderer).spec_width(),
                    fb0 == old(renderer)@,
                    w == old(renderer).spec_width(),
                    h == old(renderer).spec_height(),
                    min_x == rect_min_x(self.rect),
                    max_x == rect_max_x(self.rect),
                    min_y == rect_min_y(self.rect),
                    max_y == rect_max_y(self.rect),
                    extent_x == max_x - min_x,
                    extent_y == max_y - min_y,
                    1 <= extent_x <= 0x10000,
                    1 <= extent_y <= 0x10000,
                    single_color <==> self.color matches ColorMode::Solid(_),
                    self.color matches ColorMode::Solid(c) ==> colors[0] == c,
                    self.color matches ColorMode::PerPoint(cs) ==> colors == cs,
                    clip_min_x == if min_x > 0 { min_x as int } else { 0 },
                    clip_max_x == if max_x < w { max_x as int } else { w as int },
                    0 <= py < h,
                    clip_min_y <= py < clip_max_y,
                    clip_max_y <= h,
                    min_y <= py < max_y,
                    clip_min_x <= px,
                    px <= clip_max_x || px == clip_min_x,
                    forall|qx: int, qy: int|
                        old(renderer).contains_pixel(qx, qy) ==> #[trigger] renderer@[pix(wd, qx, qy)]
                            == if rect_covers(self.rect, qx, qy) && (qy < py || (qy == py && qx < px)) {
                            blend_spec(self.blend_mode, rect_color_at(*self, qx, qy), fb0[pix(wd, qx, qy)])
                        } else {
                            fb0[pix(wd, qx, qy)]
                        },
                decreases clip_max_x - px,
            {
                let color = if single_color {
                    colors[0]
                } else {
                    let tx = frac_u8(px - min_x, extent_x);
                    let ty = frac_u8(py - min_y, extent_y);
                    bilinear_4_colors(tx, ty, colors[0], colors[1], colors[2], colors[3])
                };
                let ghost pre = renderer@;
                renderer.set_at(px, py, color, self.blend_mode);
                proof {
                    assert(color == rect_color_at(*self, px as int, py as int));
                    assert forall|qx: int, qy: int|
                        old(renderer).contains_pixel(qx, qy) implies #[trigger] renderer@[pix(wd, qx, qy)]
                            == if rect_covers(self.rect, qx, qy) && (qy < py || (qy == py && qx < px + 1)) {
                            blend_spec(self.blend_mode, rect_color_at(*self, qx, qy), fb0[pix(wd, qx, qy)])
                        } else {
                            fb0[pix(wd, qx, qy)]
                        } by {
                        lemma_pix_injective(wd, qx, qy, px as int, py as int);
                        crate::renderer::lemma_pix_in_range(
                            wd,
                            old(renderer).spec_height(),
                            qx,
                            qy,
                        );
                        crate::renderer::lemma_pix_in_range(
                            wd,
                            old(renderer).spec_height(),
                            px as int,
                            py as int,
                        );
                    }
                }
                px = px + 1;
            }
            py = py + 1;
        }
    }
}

} // verus!
