//! The circle primitive: midpoint circle scan conversion.
//!
//! The generation loop records, per affected framebuffer row, the
//! horizontal span reached at that row into the renderer's scratch row
//! buffer; the fill phase then paints every recorded row, either the
//! whole span (fill mode) or only its two endpoints (outline mode).
//!
//! The contract is exact: `circle_covers` names, per pixel, whether the
//! draw paints it, in terms of the per-row span half-widths the midpoint
//! algorithm records (`circle_halfwidth`), and every painted pixel holds
//! exactly one blend of the circle's color. In particular the visible
//! result depends only on the circle's fields and the prior framebuffer,
//! never on the scratch buffer's previous contents.
use vstd::prelude::*;

use crate::BlendMode;
use crate::Drawable;
use crate::FBColor;
use crate::I16Vec2;
use crate::Renderer;
use crate::blend_spec;
use crate::renderer::pix;

verus! {

/// A circle, filled or outlined, with one solid color.
pub struct Circle {
    pub position: I16Vec2,
    pub radius: u16,
    pub fill: bool,
    pub color: FBColor,
    pub blend_mode: BlendMode,
}

impl Circle {
    pub fn new(x: i16, y: i16, radius: u16, fill: bool, color: FBColor, blend_mode: BlendMode) -> (c:
        Self)
        ensures
            c.position == (I16Vec2 { x, y }),
            c.radius == radius,
            c.fill == fill,
            c.color == color,
            c.blend_mode == blend_mode,
    {
        Circle { position: I16Vec2::new(x, y), radius, fill, color, blend_mode }
    }
}

/// The minor (steep-octant) coordinate the midpoint algorithm holds
/// after its `x`-th step for a circle of radius `r`: it starts at `r`
/// and steps down by one whenever the midpoint error term turns
/// nonnegative.
pub open spec fn circle_y(r: int, x: int) -> int
    decreases x,
{
    if x <= 0 {
        r
    } else {
        let yp = circle_y(r, x - 1);
        if x * x + (yp - 1) * yp - r * r >= 0 {
            yp - 1
        } else {
            yp
        }
    }
}

/// The step at which the generation loop stops: the first step whose
/// minor coordinate has reached the diagonal.
pub open spec fn circle_stop_from(r: int, x: int) -> int
    decreases r - x,
{
    if x >= circle_y(r, x) || x >= r {
        x
    } else {
        circle_stop_from(r, x + 1)
    }
}

/// The half-width of the span recorded for row distance `k` after the
/// first `x` steps of the generation loop. Step `x` records half-width
/// `x` at row distance `circle_y(r, x)` and half-width `circle_y(r, x)`
/// at row distance `x`; a later write overwrites an earlier one, and the
/// center row starts out seeded with the full half-width `r`.
pub open spec fn circle_hw_at(r: int, k: int, x: int) -> int
    decreases x,
{
    if x <= 0 {
        r
    } else if k == x {
        circle_y(r, x)
    } else if k == circle_y(r, x) {
        x
    } else {
        circle_hw_at(r, k, x - 1)
    }
}

/// Whether the generation loop has recorded a span for row distance `k`
/// within its first `x` steps (the center row is seeded before step 1).
pub open spec fn circle_row_written(r: int, k: int, x: int) -> bool
    decreases x,
{
    if x <= 0 {
        k == 0
    } else {
        k == x || k == circle_y(r, x) || circle_row_written(r, k, x - 1)
    }
}

/// The half-width of the span the full generation loop records for row
/// distance `k`.
pub open spec fn circle_halfwidth(r: int, k: int) -> int {
    circle_hw_at(r, k, circle_stop_from(r, 0))
}

/// Whether drawing the circle on a `w`-wide framebuffer paints the pixel
/// `(qx, qy)`: the pixel's row must lie within the circle's vertical
/// extent, and its column within that row's recorded span — the whole
/// span (clamped to the circle's horizontal extent and the framebuffer)
/// in fill mode, or just the span's two endpoints in outline mode.
pub open spec fn circle_covers(c: Circle, w: int, qx: int, qy: int) -> bool {
    let cx = c.position.x as int;
    let cy = c.position.y as int;
    let r = c.radius as int;
    let k = if qy >= cy {
        qy - cy
    } else {
        cy - qy
    };
    let hw = circle_halfwidth(r, k);
    &&& r >= 1
    &&& k <= r
    &&& if c.fill {
        let lo0 = if cx - hw > cx - r {
            cx - hw
        } else {
            cx - r
        };
        let hi0 = if cx + hw < cx + r {
            cx + hw
        } else {
            cx + r
        };
        let lo = if lo0 > 0 {
            lo0
        } else {
            0
        };
        let hi = if hi0 < w - 1 {
            hi0
        } else {
            w - 1
        };
        lo <= qx <= hi
    } else {
        (qx == cx - hw || qx == cx + hw) && cx - r <= qx <= cx + r
    }
}

impl Drawable for Circle {
    open spec fn valid(&self) -> bool {
        true
    }

    open spec fn paints(&self, w: int, h: int, qx: int, qy: int) -> bool {
        circle_covers(*self, w, qx, qy)
    }

    open spec fn paint_color(&self, qx: int, qy: int) -> FBColor {
        self.color
    }

    open spec fn spec_blend(&self) -> BlendMode {
        self.blend_mode
    }

    fn draw(&self, renderer: &mut Renderer)
        ensures
            self.radius == 0 ==> final(renderer)@ == old(renderer)@,
            forall|qx: int, qy: int|
                old(renderer).contains_pixel(qx, qy) ==> #[trigger] final(renderer)@[pix(
                    old(renderer).spec_width(),
                    qx,
                    qy,
                )] == if circle_covers(*self, old(renderer).spec_width(), qx, qy) {
                    blend_spec(
                        self.blend_mode,
                        self.color,
                        old(renderer)@[pix(old(renderer).spec_width(), qx, qy)],
                    )
                } else {
                    old(renderer)@[pix(old(renderer).spec_width(), qx, qy)]
                },
    {
        if self.radius == 0 {
            return;
        }
        let r: i32 = self.radius as i32;
        let cx: i32 = self.position.x as i32;
        let cy: i32 = self.position.y as i32;
        let w: i32 = renderer.width();
        let h: i32 = renderer.height();

        let r64: i64 = r as i64;
        let mut f: i64 = 1 - r64;
        let mut dx: i64 = 0;
        let mut dy: i64 = 0 - 2 * r64;
        let mut x: i32 = 0;
        let mut y: i32 = r;

        let ghost wd = renderer.spec_width();
        let ghost fb0 = renderer@;
        let ghost scratch0 = renderer.scratch();
        let ghost stop = circle_stop_from(r as int, 0);

        if 0 <= cy && cy < h {
            renderer.set_span(cy as usize, (cx - r, cx + r));
        }
        proof {
            assert((0 + 1) * (0 + 1) + ((r as int) - 1) * (r as int) - (r as int) * (r as int) == 1
                - r) by (nonlinear_arith);
        }

        while x < y
            invariant
                renderer.wf(),
                renderer.spec_width() == old(renderer).spec_width(),
                renderer.spec_height() == old(renderer).spec_height(),
                renderer@ == fb0,
                wd == old(renderer).spec_width(),
                fb0 == old(renderer)@,
                scratch0 == old(renderer).scratch(),
                w == old(renderer).spec_width(),
                h == old(renderer).spec_height(),
                1 <= r <= 0xffff,
                cx == self.position.x as int,
                cy == self.position.y as int,
                r == self.radius as int,
                0 <= x <= r,
                0 <= y <= r,
                x <= y + 1,
                dx == 2 * (x as int),
                dy == -2 * (y as int),
                f == (x + 1) * (x + 1) + (y - 1) * (y as int) - (r as int) * (r as int),
                y == circle_y(r as int, x as int),
                stop == circle_stop_from(r as int, x as int),
                forall|k: int|
                    0 <= k <= r && (k <= x || (x >= 1 && y <= k)) ==> #[trigger] circle_row_written(
                        r as int,
                        k,
                        x as int,
                    ),
                forall|rw: int|
                    0 <= rw < h ==> {
                        let k = if rw >= cy {
                            rw - cy
                        } else {
                            cy - rw
                        };
                        if k <= r && circle_row_written(r as int, k, x as int) {
                            (#[trigger] renderer.scratch()[rw]).0 == cx - circle_hw_at(
                                r as int,
                                k,
                                x as int,
                            ) && renderer.scratch()[rw].1 == cx + circle_hw_at(r as int, k, x as int)
                        } else {
                            renderer.scratch()[rw] == scratch0[rw]
                        }
                    },
            decreases y + 1 - x,
        {
            proof {
                assert((x + 2) * (x + 2) - (x + 1) * (x + 1) == 2 * (x as int) + 3)
                    by (nonlinear_arith);
                assert((y - 2) * ((y as int) - 1) - (y - 1) * (y as int) == -2 * (y as int) + 2)
                    by (nonlinear_arith);
                assert(0 <= (x + 1) * (x + 1) <= 0x1_0000_0000 && -0x1_0000_0000 <= (y - 1) * (
                y as int) <= 0x1_0000_0000 && 0 <= (r as int) * (r as int) <= 0x1_0000_0000)
                    by (nonlinear_arith)
                    requires
                        0 <= x <= 0xffff,
                        0 <= y <= 0xffff,
                        1 <= r <= 0xffff,
                ;
            }
            let ghost f_head = f as int;
            let ghost x_head = x as int;
            let ghost y_head = y as int;
            if f >= 0 {
                y = y - 1;
                dy = dy + 2;
                f = f + dy;
            }
            x = x + 1;
            dx = dx + 2;
            f = f + dx + 1;
            proof {
                assert(y == circle_y(r as int, x as int));
                assert(stop == circle_stop_from(r as int, x as int));
                assert forall|k: int|
                    0 <= k <= r && (k <= x || (x >= 1 && y <= k)) implies #[trigger] circle_row_written(
                    r as int,
                    k,
                    x as int,
                ) by {
                    if k == x as int || k == y as int {
                        // recorded at this very step
                    } else if k <= x_head || (x_head >= 1 && y_head <= k) {
                        // recorded at an earlier step; recording is never undone
                        assert(circle_row_written(r as int, k, x_head));
                    } else {
                        // only reachable at the very first step: at a later
                        // step the old coverage already includes k
                        assert(y_head - 1 <= y as int <= y_head);
                        assert(x_head == 0);
                        assert(y_head == r);
                        // the error term starts at 1 - r, so the minor
                        // coordinate drops at the first step only for a
                        // radius-one circle, whose two row distances are
                        // both recorded at that step
                        assert((x_head + 1) * (x_head + 1) == 1 && (y_head - 1) * y_head - (r as int)
                            * (r as int) == 0 - y_head) by (nonlinear_arith)
                            requires
                                x_head == 0,
                                y_head == r,
                        ;
                        assert(f_head == 1 - r);
                        if y as int == y_head {
                            assert(k == r && k == y as int);
                        } else {
                            assert(f_head >= 0 && r == 1);
                        }
                        assert(false);
                    }
                }
            }

            if 0 <= cy - y && cy - y < h {
                renderer.set_span((cy - y) as usize, (cx - x, cx + x));
            }
            if 0 <= cy + y && cy + y < h {
                renderer.set_span((cy + y) as usize, (cx - x, cx + x));
            }
            if 0 <= cy - x && cy - x < h {
                renderer.set_span((cy - x) as usize, (cx - y, cx + y));
            }
            if 0 <= cy + x && cy + x < h {
                renderer.set_span((cy + x) as usize, (cx - y, cx + y));
            }
        }
        proof {
            assert(stop == x as int);
            assert forall|k: int| 0 <= k <= r implies #[trigger] circle_row_written(
                r as int,
                k,
                x as int,
            ) by {}
        }

        let rlo: i32 = if cy - r > 0 { cy - r } else { 0 };
        let rhi: i32 = if cy + r < h - 1 { cy + r } else { h - 1 };
        if rlo > rhi {
            proof {
                assert forall|qx: int, qy: int|
                    old(renderer).contains_pixel(qx, qy) implies !circle_covers(
                    *self,
                    wd,
                    qx,
                    qy,
                ) by {}
            }
            return;
        }

        let mut row = rlo;
        while row <= rhi
            invariant
                renderer.wf(),
                renderer.spec_width() == old(renderer).spec_width(),
                renderer.spec_height() == old(renderer).spec_height(),
                renderer@.len() == fb0.len(),
                wd == old(renderer).spec_width(),
                fb0 == old(renderer)@,
                w == old(renderer).spec_width(),
                h == old(renderer).spec_height(),
                1 <= r <= 0xffff,
                cx == self.position.x as int,
                cy == self.position.y as int,
                r == self.radius as int,
                rlo == if cy - r > 0 { cy - r as int } else { 0 },
                rhi == if cy + r < h - 1 { cy + r as int } else { h - 1 as int },
                0 <= rlo,
                rhi < h,
                rlo <= row,
                row <= rhi + 1,
                forall|rw: int|
                    0 <= rw < h && (if rw >= cy { rw - cy } else { cy - rw }) <= r ==> {
                        let k = if rw >= cy {
                            rw - cy
                        } else {
                            cy - rw
                        };
                        (#[trigger] renderer.scratch()[rw]).0 == cx - circle_halfwidth(r as int, k)
                            && renderer.scratch()[rw].1 == cx + circle_halfwidth(r as int, k)
                    },
                forall|qx: int, qy: int|
                    old(renderer).contains_pixel(qx, qy) ==> #[trigger] renderer@[pix(wd, qx, qy)]
                        == if circle_covers(*self, wd, qx, qy) && qy < row {
                        blend_spec(self.blend_mode, self.color, fb0[pix(wd, qx, qy)])
                    } else {
                        fb0[pix(wd, qx, qy)]
                    },
            decreases rhi + 1 - row,
        {
            let span = renderer.get_span(row as usize);
            let ghost k: int = if row >= cy { row - cy } else { (cy - row) as int };
            let ghost hw: int = circle_halfwidth(r as int, k);
            proof {
                assert(span.0 == cx - hw && span.1 == cx + hw);
            }
            if self.fill {
                let lo0: i32 = if span.0 > cx - r { span.0 } else { cx - r };
                let hi0: i32 = if span.1 < cx + r { span.1 } else { cx + r };
                let lo: i32 = if lo0 > 0 { lo0 } else { 0 };
                let hi: i32 = if hi0 < w - 1 { hi0 } else { w - 1 };
                let mut px = lo;
                while px <= hi
                    invariant
                        renderer.wf(),
                        renderer.spec_width() == old(renderer).spec_width(),
                        renderer.spec_height() == old(renderer).spec_height(),
                        renderer@.len() == fb0.len(),
                        wd == old(renderer).spec_width(),
                        fb0 == old(renderer)@,
                        w == old(renderer).spec_width(),
                        h == old(renderer).spec_height(),
                        1 <= r <= 0xffff,
                        cx == self.position.x as int,
                        cy == self.position.y as int,
                        r == self.radius as int,
                        self.fill,
                        0 <= row < h,
                        cy - r <= row <= cy + r,
                        k == if row >= cy { row - cy as int } else { cy - row as int },
                        hw == circle_halfwidth(r as int, k),
                        lo == {
                            let lo0 = if cx - hw > cx - r { cx - hw } else { cx - r as int };
                            if lo0 > 0 { lo0 } else { 0 }
                        },
                        hi == {
                            let hi0 = if cx + hw < cx + r { cx + hw } else { cx + r as int };
                            if hi0 < w - 1 { hi0 } else { w - 1 as int }
                        },
                        0 <= lo,
                        hi < w,
                        lo <= px,
                        px <= hi + 1 || px == lo,
                        forall|rw: int|
                            0 <= rw < h && (if rw >= cy { rw - cy } else { cy - rw }) <= r ==> {
                                let kk = if rw >= cy {
                                    rw - cy
                                } else {
                                    cy - rw
                                };
                                (#[trigger] renderer.scratch()[rw]).0 == cx - circle_halfwidth(
                                    r as int,
                                    kk,
                                ) && renderer.scratch()[rw].1 == cx + circle_halfwidth(r as int, kk)
                            },
                        forall|qx: int, qy: int|
                            old(renderer).contains_pixel(qx, qy) ==> #[trigger] renderer@[pix(wd, qx, qy)]
                                == if circle_covers(*self, wd, qx, qy) && (qy < row || (qy == row
                                && qx < px)) {
                                blend_spec(self.blend_mode, self.color, fb0[pix(wd, qx, qy)])
                            } else {
                                fb0[pix(wd, qx, qy)]
                            },
                    decreases hi + 1 - px,
                {
                    let ghost pre = renderer@;
                    renderer.set_at(px, row, self.color, self.blend_mode);
                    proof {
                        assert(circle_covers(*self, wd, px as int, row as int));
                        crate::renderer::lemma_pix_in_range(
                            wd,
                            old(renderer).spec_height(),
                            px as int,
                            row as int,
                        );
                        assert forall|qx: int, qy: int|
                            old(renderer).contains_pixel(qx, qy) && !(qx == px as int && qy
                                == row as int) implies #[trigger] renderer@[pix(wd, qx, qy)]
                            == pre[pix(wd, qx, qy)] by {
                            crate::renderer::lemma_pix_injective(
                                wd,
                                qx,
                                qy,
                                px as int,
                                row as int,
                            );
                            crate::renderer::lemma_pix_in_range(
                                wd,
                                old(renderer).spec_height(),
                                qx,
                                qy,
                            );
                        }
                    }
                    px = px + 1;
                }
            } else {
                let e0 = span.0;
                let e1 = span.1;
                if 0 <= e0 && e0 < w && cx - r <= e0 && e0 <= cx + r {
                    let ghost pre0 = renderer@;
                    renderer.set_at(e0, row, self.color, self.blend_mode);
                    proof {
                        assert(circle_covers(*self, wd, e0 as int, row as int));
                        crate::renderer::lemma_pix_in_range(
                            wd,
                            old(renderer).spec_height(),
                            e0 as int,
                            row as int,
                        );
                        assert forall|qx: int, qy: int|
                            old(renderer).contains_pixel(qx, qy) && !(qx == e0 as int && qy
                                == row as int) implies #[trigger] renderer@[pix(wd, qx, qy)]
                            == pre0[pix(wd, qx, qy)] by {
                            crate::renderer::lemma_pix_injective(wd, qx, qy, e0 as int, row as int);
                            crate::renderer::lemma_pix_in_range(
                                wd,
                                old(renderer).spec_height(),
                                qx,
                                qy,
                            );
                        }
                    }
                }
                if e1 != e0 && 0 <= e1 && e1 < w && cx - r <= e1 && e1 <= cx + r {
                    let ghost pre1 = renderer@;
                    renderer.set_at(e1, row, self.color, self.blend_mode);
                    proof {
                        assert(circle_covers(*self, wd, e1 as int, row as int));
                        crate::renderer::lemma_pix_in_range(
                            wd,
                            old(renderer).spec_height(),
                            e1 as int,
                            row as int,
                        );
                        assert forall|qx: int, qy: int|
                            old(renderer).contains_pixel(qx, qy) && !(qx == e1 as int && qy
                                == row as int) implies #[trigger] renderer@[pix(wd, qx, qy)]
                            == pre1[pix(wd, qx, qy)] by {
                            crate::renderer::lemma_pix_injective(wd, qx, qy, e1 as int, row as int);
                            crate::renderer::lemma_pix_in_range(
                                wd,
                                old(renderer).spec_height(),
                                qx,
                                qy,
                            );
                        }
                    }
                }
            }
            row = row + 1;
        }
    }
}

} // verus!
