//! The point primitive: one colored pixel.
use vstd::prelude::*;

use crate::BlendMode;
use crate::Drawable;
use crate::FBColor;
use crate::I16Vec2;
use crate::Renderer;
use crate::blend_spec;
use crate::renderer::pix;

verus! {

/// A single pixel at a position, drawn with one color and one blend mode.
pub struct ColorVec2 {
    pub position: I16Vec2,
    pub color: FBColor,
    pub blend_mode: BlendMode,
}

impl ColorVec2 {
    pub fn new(position: I16Vec2, color: FBColor, blend_mode: BlendMode) -> (p: Self)
        ensures
            p.position == position,
            p.color == color,
            p.blend_mode == blend_mode,
    {
        ColorVec2 { position, color, blend_mode }
    }
}

impl Drawable for ColorVec2 {
    open spec fn valid(&self) -> bool {
        true
    }

    open spec fn paints(&self, w: int, h: int, qx: int, qy: int) -> bool {
        qx == self.position.x && qy == self.position.y
    }

    open spec fn paint_color(&self, qx: int, qy: int) -> FBColor {
        self.color
    }

    open spec fn spec_blend(&self) -> BlendMode {
        self.blend_mode
    }

    fn draw(&self, renderer: &mut Renderer)
        ensures
            old(renderer).contains_pixel(self.position.x as int, self.position.y as int)
                ==> final(renderer)@ == old(renderer)@.update(
                pix(old(renderer).spec_width(), self.position.x as int, self.position.y as int),
                blend_spec(
                    self.blend_mode,
                    self.color,
                    old(renderer)@[pix(
                        old(renderer).spec_width(),
                        self.position.x as int,
                        self.position.y as int,
                    )],
                ),
            ),
            !old(renderer).contains_pixel(self.position.x as int, self.position.y as int)
                ==> final(renderer)@ == old(renderer)@,
    {
        let ghost wd = renderer.spec_width();
        let ghost fb0 = renderer@;
        renderer.set(self.position.x, self.position.y, self.color, self.blend_mode);
        proof {
            assert forall|qx: int, qy: int|
                old(renderer).contains_pixel(qx, qy) implies #[trigger] renderer@[pix(wd, qx, qy)]
                    == if self.paints(wd, old(renderer).spec_height(), qx, qy) {
                    blend_spec(self.blend_mode, self.color, fb0[pix(wd, qx, qy)])
                } else {
                    fb0[pix(wd, qx, qy)]
                } by {
                crate::renderer::lemma_pix_in_range(wd, old(renderer).spec_height(), qx, qy);
                if old(renderer).contains_pixel(self.position.x as int, self.position.y as int) {
                    crate::renderer::lemma_pix_injective(
                        wd,
                        qx,
                        qy,
                        self.position.x as int,
                        self.position.y as int,
                    );
                    crate::renderer::lemma_pix_in_range(
                        wd,
                        old(renderer).spec_height(),
                        self.position.x as int,
                        self.position.y as int,
                    );
                }
            }
        }
    }
}

} // verus!
