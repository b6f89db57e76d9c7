//! The line primitive: a digital (midpoint/Bresenham family) line
//! between two endpoints.
//!
//! The rasterized pixel set is pinned down exactly: one pixel per step of
//! the driving axis (the axis with the larger absolute delta), whose
//! minor coordinate is the nearest-integer position along the minor axis
//! with ties rounded toward the starting endpoint. A perfectly horizontal
//! or vertical segment collapses to a straight span of the same form.
//! The segment is half-open along the driving axis: the endpoint with the
//! larger driving coordinate is not painted, so a line between two equal
//! points paints nothing.
use vstd::prelude::*;

use vstd::arithmetic::div_mod::lemma_basic_div;
use vstd::arithmetic::div_mod::lemma_div_is_ordered;
use vstd::arithmetic::div_mod::lemma_div_pos_is_pos;
use vstd::arithmetic::div_mod::lemma_fundamental_div_mod_converse;

use crate::BlendMode;
use crate::ColorMode;
use crate::Drawable;
use crate::FBColor;
use crate::I16Vec2;
use crate::Renderer;
use crate::blend_spec;
use crate::color::lerp_spec;
use crate::rect::frac255;
use crate::renderer::lemma_pix_injective;
use crate::renderer::pix;

verus! {

/// The absolute difference of two coordinates.
pub open spec fn coord_dist(p: int, q: int) -> int {
    if p >= q {
        p - q
    } else {
        q - p
    }
}

/// Whether the x axis drives the stepping: the line is "low" when its
/// horizontal extent strictly exceeds its vertical extent.
pub open spec fn line_is_low(a: I16Vec2, b: I16Vec2) -> bool {
    coord_dist(a.y as int, b.y as int) < coord_dist(a.x as int, b.x as int)
}

/// The minor-axis offset after `k` driving steps of a line with minor
/// delta `dm` and driving delta `dmaj`: the nearest integer to
/// `k * dm / dmaj`, ties rounded down.
pub open spec fn line_pixel_minor(k: int, dm: int, dmaj: int) -> int {
    (2 * k * dm + dmaj - 1) / (2 * dmaj)
}

/// Whether the line from `a` to `b`, with x driving, covers `(qx, qy)`.
pub open spec fn line_covers_low(a: I16Vec2, b: I16Vec2, qx: int, qy: int) -> bool {
    let sx: int = if a.x <= b.x { a.x as int } else { b.x as int };
    let sy: int = if a.x <= b.x { a.y as int } else { b.y as int };
    let ex: int = if a.x <= b.x { b.x as int } else { a.x as int };
    let ey: int = if a.x <= b.x { b.y as int } else { a.y as int };
    let j = line_pixel_minor(qx - sx, coord_dist(ey, sy), ex - sx);
    &&& sx <= qx < ex
    &&& qy == if ey >= sy { sy + j } else { sy - j }
}

/// Whether the line from `a` to `b`, with y driving, covers `(qx, qy)`.
pub open spec fn line_covers_high(a: I16Vec2, b: I16Vec2, qx: int, qy: int) -> bool {
    let sy: int = if a.y <= b.y { a.y as int } else { b.y as int };
    let sx: int = if a.y <= b.y { a.x as int } else { b.x as int };
    let ey: int = if a.y <= b.y { b.y as int } else { a.y as int };
    let ex: int = if a.y <= b.y { b.x as int } else { a.x as int };
    let j = line_pixel_minor(qy - sy, coord_dist(ex, sx), ey - sy);
    &&& sy <= qy < ey
    &&& qx == if ex >= sx { sx + j } else { sx - j }
}

/// Whether the line from `a` to `b` covers the pixel `(qx, qy)`. A line
/// between two equal points covers nothing.
pub open spec fn line_covers(a: I16Vec2, b: I16Vec2, qx: int, qy: int) -> bool {
    if a == b {
        false
    } else if line_is_low(a, b) {
        line_covers_low(a, b, qx, qy)
    } else {
        line_covers_high(a, b, qx, qy)
    }
}

/// A line segment between two endpoints, with a solid color or one color
/// per endpoint, linearly interpolated along the segment.
pub struct Line {
    pub a: I16Vec2,
    pub b: I16Vec2,
    pub color: ColorMode<2>,
    pub blend_mode: BlendMode,
}

/// The color the line paints at pixel `(qx, qy)`: the solid color, or the
/// interpolation between the two endpoint colors by the pixel's
/// parametric position along the driving axis (0 at `a`, 255 at `b`).
pub open spec fn line_color_at(l: Line, qx: int, qy: int) -> FBColor {
    match l.color {
        ColorMode::Solid(c) => c,
        ColorMode::PerPoint(cs) => {
            let t = if line_is_low(l.a, l.b) {
                frac255(coord_dist(qx, l.a.x as int), coord_dist(l.b.x as int, l.a.x as int))
            } else {
                frac255(coord_dist(qy, l.a.y as int), coord_dist(l.b.y as int, l.a.y as int))
            };
            lerp_spec(cs[0], cs[1], t)
        },
    }
}

impl Line {
    pub fn new(
        a_x: i16,
        a_y: i16,
        b_x: i16,
        b_y: i16,
        color: ColorMode<2>,
        blend_mode: BlendMode,
    ) -> (l: Self)
        ensures
            l.a == (I16Vec2 { x: a_x, y: a_y }),
            l.b == (I16Vec2 { x: b_x, y: b_y }),
            l.color == color,
            l.blend_mode == blend_mode,
    {
        Line { a: I16Vec2::new(a_x, a_y), b: I16Vec2::new(b_x, b_y), color, blend_mode }
    }
}

/// The first pixel sits on the starting endpoint: the minor offset of
/// step 0 is 0.
proof fn lemma_minor_base(dm: int, dmaj: int)
    requires
        1 <= dmaj,
        0 <= dm,
    ensures
        line_pixel_minor(0, dm, dmaj) == 0,
{
    assert(2 * 0 * dm == 0) by (nonlinear_arith);
    lemma_basic_div(dmaj - 1, 2 * dmaj);
}

/// The minor offset never leaves the line's minor extent.
proof fn lemma_minor_bounds(k: int, dm: int, dmaj: int)
    requires
        1 <= dmaj,
        0 <= dm <= dmaj,
        0 <= k <= dmaj,
    ensures
        0 <= line_pixel_minor(k, dm, dmaj) <= dm,
{
    assert(0 <= 2 * k * dm) by (nonlinear_arith)
        requires
            0 <= k,
            0 <= dm,
    ;
    lemma_div_pos_is_pos(2 * k * dm + dmaj - 1, 2 * dmaj);
    assert(2 * k * dm <= 2 * dmaj * dm) by (nonlinear_arith)
        requires
            0 <= k <= dmaj,
            0 <= dm,
    ;
    assert((2 * dmaj) * dm + (2 * dmaj - 1) == 2 * dmaj * dm + dmaj - 1 + dmaj) by (nonlinear_arith);
    lemma_fundamental_div_mod_converse(2 * dmaj * dm + dmaj - 1 + dmaj, 2 * dmaj, dm, 2 * dmaj - 1);
    lemma_div_is_ordered(2 * k * dm + dmaj - 1, 2 * dmaj * dm + dmaj - 1 + dmaj, 2 * dmaj);
}

/// How the minor offset advances by one driving step, phrased over the
/// midpoint error term `d` that the rasterizer maintains.
proof fn lemma_minor_step(k: int, dm: int, dmaj: int, j: int, d: int)
    requires
        1 <= dmaj,
        0 <= dm <= dmaj,
        0 <= k,
        d == 2 * dm * (k + 1) - dmaj * (2 * j + 1),
        2 * dm - 2 * dmaj < d <= 2 * dm,
    ensures
        line_pixel_minor(k + 1, dm, dmaj) == if d > 0 {
            j + 1
        } else {
            j
        },
{
    assert(2 * (k + 1) * dm == 2 * dm * (k + 1)) by (nonlinear_arith);
    if d > 0 {
        assert(2 * (k + 1) * dm + dmaj - 1 == (2 * dmaj) * (j + 1) + (d - 1)) by (nonlinear_arith)
            requires
                2 * (k + 1) * dm == 2 * dm * (k + 1),
                d == 2 * dm * (k + 1) - dmaj * (2 * j + 1),
        ;
        lemma_fundamental_div_mod_converse(2 * (k + 1) * dm + dmaj - 1, 2 * dmaj, j + 1, d - 1);
    } else {
        assert(2 * (k + 1) * dm + dmaj - 1 == (2 * dmaj) * j + (d + 2 * dmaj - 1)) by (nonlinear_arith)
            requires
                2 * (k + 1) * dm == 2 * dm * (k + 1),
                d == 2 * dm * (k + 1) - dmaj * (2 * j + 1),
        ;
        lemma_fundamental_div_mod_converse(
            2 * (k + 1) * dm + dmaj - 1,
            2 * dmaj,
            j,
            d + 2 * dmaj - 1,
        );
    }
}

fn frac_u8_incl(off: i64, extent: i64) -> (t: u8)
    requires
        0 <= off <= extent,
        1 <= extent <= 0x10000,
    ensures
        t == frac255(off as int, extent as int),
{
    proof {
        assert(0 <= off * 255 <= extent * 255) by (nonlinear_arith)
            requires
                0 <= off <= extent,
        ;
        lemma_fundamental_div_mod_converse(extent * 255, extent as int, 255, 0);
        lemma_div_is_ordered(off * 255, extent * 255, extent as int);
        lemma_div_pos_is_pos(off * 255, extent as int);
    }
    ((off * 255) / extent) as u8
}

impl Line {
    /// The color painted at driving offset `off_from_a` out of `dmaj`
    /// driving steps away from endpoint `a`.
    fn color_at_offset(&self, off_from_a: i64, dmaj: i64) -> (c: FBColor)
        requires
            0 <= off_from_a <= dmaj,
            1 <= dmaj <= 0x10000,
        ensures
            self.color matches ColorMode::Solid(sc) ==> c == sc,
            self.color matches ColorMode::PerPoint(cs) ==> c == lerp_spec(
                cs[0],
                cs[1],
                frac255(off_from_a as int, dmaj as int),
            ),
    {
        match self.color {
            ColorMode::Solid(c) => c,
            ColorMode::PerPoint(cs) => {
                let t = frac_u8_incl(off_from_a, dmaj);
                cs[0].lerp(cs[1], t)
            },
        }
    }
}

/// Every pixel a line covers lies inside the bounding box of its two
/// endpoints.
pub proof fn lemma_line_covers_bbox(a: I16Vec2, b: I16Vec2, qx: int, qy: int)
    requires
        line_covers(a, b, qx, qy),
    ensures
        (if a.x <= b.x { a.x as int } else { b.x as int }) <= qx <= (if a.x <= b.x { b.x as int } else { a.x as int }),
        (if a.y <= b.y { a.y as int } else { b.y as int }) <= qy <= (if a.y <= b.y { b.y as int } else { a.y as int }),
{
    if line_is_low(a, b) {
        let sx: int = if a.x <= b.x { a.x as int } else { b.x as int };
        let sy: int = if a.x <= b.x { a.y as int } else { b.y as int };
        let ex: int = if a.x <= b.x { b.x as int } else { a.x as int };
        let ey: int = if a.x <= b.x { b.y as int } else { a.y as int };
        lemma_minor_bounds(qx - sx, coord_dist(ey, sy), ex - sx);
    } else {
        let sy: int = if a.y <= b.y { a.y as int } else { b.y as int };
        let sx: int = if a.y <= b.y { a.x as int } else { b.x as int };
        let ey: int = if a.y <= b.y { b.y as int } else { a.y as int };
        let ex: int = if a.y <= b.y { b.x as int } else { a.x as int };
        lemma_minor_bounds(qy - sy, coord_dist(ex, sx), ey - sy);
    }
}

impl Line {
    fn draw_low(&self, renderer: &mut Renderer)
        requires
            old(renderer).wf(),
            line_is_low(self.a, self.b),
        ensures
            final(renderer).wf(),
            final(renderer).spec_width() == old(renderer).spec_width(),
            final(renderer).spec_height() == old(renderer).spec_height(),
            final(renderer)@.len() == old(renderer)@.len(),
            final(renderer).scratch() == old(renderer).scratch(),
            forall|qx: int, qy: int|
                old(renderer).contains_pixel(qx, qy) ==> #[trigger] final(renderer)@[pix(
                    old(renderer).spec_width(),
                    qx,
                    qy,
                )] == if line_covers(self.a, self.b, qx, qy) {
                    blend_spec(
                        self.blend_mode,
                        line_color_at(*self, qx, qy),
                        old(renderer)@[pix(old(renderer).spec_width(), qx, qy)],
                    )
                } else {
                    old(renderer)@[pix(old(renderer).spec_width(), qx, qy)]
                },
    {
        let a_first = self.a.x <= self.b.x;
        let sx: i64 = if a_first { self.a.x as i64 } else { self.b.x as i64 };
        let sy: i64 = if a_first { self.a.y as i64 } else { self.b.y as i64 };
        let ex: i64 = if a_first { self.b.x as i64 } else { self.a.x as i64 };
        let ey: i64 = if a_first { self.b.y as i64 } else { self.a.y as i64 };
        let dmaj: i64 = ex - sx;
        let dm: i64 = if ey >= sy { ey - sy } else { sy - ey };
        let up = ey >= sy;

        let mut d: i64 = 2 * dm - dmaj;
        let mut x: i64 = sx;
        let mut y: i64 = sy;
        let ghost mut j: int = 0;
        proof {
            lemma_minor_base(dm as int, dmaj as int);
        }

        proof {
            assert(2 * (dm as int) * (sx - sx + 1) == 2 * (dm as int)) by (nonlinear_arith);
            assert((dmaj as int) * (2 * 0 + 1) == dmaj as int) by (nonlinear_arith);
        }
        let ghost wd = renderer.spec_width();
        let ghost fb0 = renderer@;

        while x < ex
            invariant
                renderer.wf(),
                renderer.spec_width() == old(renderer).spec_width(),
                renderer.spec_height() == old(renderer).spec_height(),
                renderer.scratch() == old(renderer).scratch(),
                renderer@.len() == fb0.len(),
                wd == old(renderer).spec_width(),
                fb0 == old(renderer)@,
                line_is_low(self.a, self.b),
                a_first <==> self.a.x <= self.b.x,
                sx == if a_first { self.a.x as int } else { self.b.x as int },
                sy == if a_first { self.a.y as int } else { self.b.y as int },
                ex == if a_first { self.b.x as int } else { self.a.x as int },
                ey == if a_first { self.b.y as int } else { self.a.y as int },
                dmaj == ex - sx,
                dm == coord_dist(ey as int, sy as int),
                0 <= dm < dmaj <= 0x10000,
                up <==> ey >= sy,
                sx <= x <= ex,
                d == 2 * (dm as int) * (x - sx + 1) - (dmaj as int) * (2 * j + 1),
                2 * dm - 2 * dmaj < d <= 2 * dm,
                j == line_pixel_minor(x - sx, dm as int, dmaj as int),
                0 <= j <= dm,
                y == if up { sy + j } else { sy - j },
                forall|qx: int, qy: int|
                    old(renderer).contains_pixel(qx, qy) ==> #[trigger] renderer@[pix(wd, qx, qy)]
                        == if line_covers(self.a, self.b, qx, qy) && qx < x {
                        blend_spec(self.blend_mode, line_color_at(*self, qx, qy), fb0[pix(wd, qx, qy)])
                    } else {
                        fb0[pix(wd, qx, qy)]
                    },
            decreases ex - x,
        {
            let off_from_a: i64 = if a_first { x - sx } else { ex - x };
            let color = self.color_at_offset(off_from_a, dmaj);
            proof {
                assert(line_covers(self.a, self.b, x as int, y as int));
                assert(color == line_color_at(*self, x as int, y as int));
            }
            renderer.set(x as i16, y as i16, color, self.blend_mode);
            proof {
                assert forall|qx: int, qy: int|
                    old(renderer).contains_pixel(qx, qy) implies #[trigger] renderer@[pix(wd, qx, qy)]
                        == if line_covers(self.a, self.b, qx, qy) && qx < x + 1 {
                        blend_spec(self.blend_mode, line_color_at(*self, qx, qy), fb0[pix(wd, qx, qy)])
                    } else {
                        fb0[pix(wd, qx, qy)]
                    } by {
                    crate::renderer::lemma_pix_in_range(wd, old(renderer).spec_height(), qx, qy);
                    if old(renderer).contains_pixel(x as int, y as int) {
                        lemma_pix_injective(wd, qx, qy, x as int, y as int);
                        crate::renderer::lemma_pix_in_range(
                            wd,
                            old(renderer).spec_height(),
                            x as int,
                            y as int,
                        );
                    }
                }
            }
            let ghost k = x - sx;
            let ghost d_old = d as int;
            let ghost j_old = j;
            if d > 0 {
                y = if up {
                    y + 1
                } else {
                    y - 1
                };
                d = d + 2 * (dm - dmaj);
                proof {
                    j = j + 1;
                }
            } else {
                d = d + 2 * dm;
            }
            x = x + 1;
            proof {
                lemma_minor_step(k, dm as int, dmaj as int, j_old, d_old);
                lemma_minor_bounds(k + 1, dm as int, dmaj as int);
                assert(2 * (dm as int) * (k + 2) == 2 * (dm as int) * (k + 1) + 2 * (dm as int))
                    by (nonlinear_arith);
                assert((dmaj as int) * (2 * (j_old + 1) + 1) == (dmaj as int) * (2 * j_old + 1) + 2
                    * (dmaj as int)) by (nonlinear_arith);
            }
        }
    }

    fn draw_high(&self, renderer: &mut Renderer)
        requires
            old(renderer).wf(),
            !line_is_low(self.a, self.b),
            self.a != self.b,
        ensures
            final(renderer).wf(),
            final(renderer).spec_width() == old(renderer).spec_width(),
            final(renderer).spec_height() == old(renderer).spec_height(),
            final(renderer)@.len() == old(renderer)@.len(),
            final(renderer).scratch() == old(renderer).scratch(),
            forall|qx: int, qy: int|
                old(renderer).contains_pixel(qx, qy) ==> #[trigger] final(renderer)@[pix(
                    old(renderer).spec_width(),
                    qx,
                    qy,
                )] == if line_covers(self.a, self.b, qx, qy) {
                    blend_spec(
                        self.blend_mode,
                        line_color_at(*self, qx, qy),
                        old(renderer)@[pix(old(renderer).spec_width(), qx, qy)],
                    )
                } else {
                    old(renderer)@[pix(old(renderer).spec_width(), qx, qy)]
                },
    {
        let a_first = self.a.y <= self.b.y;
        let sy: i64 = if a_first { self.a.y as i64 } else { self.b.y as i64 };
        let sx: i64 = if a_first { self.a.x as i64 } else { self.b.x as i64 };
        let ey: i64 = if a_first { self.b.y as i64 } else { self.a.y as i64 };
        let ex: i64 = if a_first { self.b.x as i64 } else { self.a.x as i64 };
        let dmaj: i64 = ey - sy;
        let dm: i64 = if ex >= sx { ex - sx } else { sx - ex };
        let up = ex >= sx;

        proof {
            if self.a.y == self.b.y {
                assert(coord_dist(self.a.x as int, self.b.x as int) > 0 || self.a == self.b);
            }
        }

        let mut d: i64 = 2 * dm - dmaj;
        let mut y: i64 = sy;
        let mut x: i64 = sx;
        let ghost mut j: int = 0;
        proof {
            lemma_minor_base(dm as int, dmaj as int);
        }

        proof {
            assert(2 * (dm as int) * (sy - sy + 1) == 2 * (dm as int)) by (nonlinear_arith);
            assert((dmaj as int) * (2 * 0 + 1) == dmaj as int) by (nonlinear_arith);
        }
        let ghost wd = renderer.spec_width();
        let ghost fb0 = renderer@;

        while y < ey
            invariant
                renderer.wf(),
                renderer.spec_width() == old(renderer).spec_width(),
                renderer.spec_height() == old(renderer).spec_height(),
                renderer.scratch() == old(renderer).scratch(),
                renderer@.len() == fb0.len(),
                wd == old(renderer).spec_width(),
                fb0 == old(renderer)@,
                !line_is_low(self.a, self.b),
                self.a != self.b,
                a_first <==> self.a.y <= self.b.y,
                sy == if a_first { self.a.y as int } else { self.b.y as int },
                sx == if a_first { self.a.x as int } else { self.b.x as int },
                ey == if a_first { self.b.y as int } else { self.a.y as int },
                ex == if a_first { self.b.x as int } else { self.a.x as int },
                dmaj == ey - sy,
                dm == coord_dist(ex as int, sx as int),
                0 <= dm <= dmaj <= 0x10000,
                1 <= dmaj,
                up <==> ex >= sx,
                sy <= y <= ey,
                d == 2 * (dm as int) * (y - sy + 1) - (dmaj as int) * (2 * j + 1),
                2 * dm - 2 * dmaj < d <= 2 * dm,
                j == line_pixel_minor(y - sy, dm as int, dmaj as int),
                0 <= j <= dm,
                x == if up { sx + j } else { sx - j },
                forall|qx: int, qy: int|
                    old(renderer).contains_pixel(qx, qy) ==> #[trigger] renderer@[pix(wd, qx, qy)]
                        == if line_covers(self.a, self.b, qx, qy) && qy < y {
                        blend_spec(self.blend_mode, line_color_at(*self, qx, qy), fb0[pix(wd, qx, qy)])
                    } else {
                        fb0[pix(wd, qx, qy)]
                    },
            decreases ey - y,
        {
            let off_from_a: i64 = if a_first { y - sy } else { ey - y };
            let color = self.color_at_offset(off_from_a, dmaj);
            proof {
                assert(line_covers(self.a, self.b, x as int, y as int));
                assert(color == line_color_at(*self, x as int, y as int));
            }
            renderer.set(x as i16, y as i16, color, self.blend_mode);
            proof {
                assert forall|qx: int, qy: int|
                    old(renderer).contains_pixel(qx, qy) implies #[trigger] renderer@[pix(wd, qx, qy)]
                        == if line_covers(self.a, self.b, qx, qy) && qy < y + 1 {
                        blend_spec(self.blend_mode, line_color_at(*self, qx, qy), fb0[pix(wd, qx, qy)])
                    } else {
                        fb0[pix(wd, qx, qy)]
                    } by {
                    crate::renderer::lemma_pix_in_range(wd, old(renderer).spec_height(), qx, qy);
                    if old(renderer).contains_pixel(x as int, y as int) {
                        lemma_pix_injective(wd, qx, qy, x as int, y as int);
                        crate::renderer::lemma_pix_in_range(
                            wd,
                            old(renderer).spec_height(),
                            x as int,
                            y as int,
                        );
                    }
                }
            }
            let ghost k = y - sy;
            let ghost d_old = d as int;
            let ghost j_old = j;
            if d > 0 {
                x = if up {
                    x + 1
                } else {
                    x - 1
                };
                d = d + 2 * (dm - dmaj);
                proof {
                    j = j + 1;
                }
            } else {
                d = d + 2 * dm;
            }
            y = y + 1;
            proof {
                lemma_minor_step(k, dm as int, dmaj as int, j_old, d_old);
                lemma_minor_bounds(k + 1, dm as int, dmaj as int);
                assert(2 * (dm as int) * (k + 2) == 2 * (dm as int) * (k + 1) + 2 * (dm as int))
                    by (nonlinear_arith);
                assert((dmaj as int) * (2 * (j_old + 1) + 1) == (dmaj as int) * (2 * j_old + 1) + 2
                    * (dmaj as int)) by (nonlinear_arith);
            }
        }
    }
}

impl Drawable for Line {
    open spec fn valid(&self) -> bool {
        true
    }

    open spec fn paints(&self, w: int, h: int, qx: int, qy: int) -> bool {
        line_covers(self.a, self.b, qx, qy)
    }

    open spec fn paint_color(&self, qx: int, qy: int) -> FBColor {
        line_color_at(*self, qx, qy)
    }

    open spec fn spec_blend(&self) -> BlendMode {
        self.blend_mode
    }

    fn draw(&self, renderer: &mut Renderer)
        ensures
            final(renderer).scratch() == old(renderer).scratch(),
            self.a == self.b ==> final(renderer)@ == old(renderer)@,
            forall|qx: int, qy: int|
                old(renderer).contains_pixel(qx, qy) ==> #[trigger] final(renderer)@[pix(
                    old(renderer).spec_width(),
                    qx,
                    qy,
                )] == if line_covers(self.a, self.b, qx, qy) {
                    blend_spec(
                        self.blend_mode,
                        line_color_at(*self, qx, qy),
                        old(renderer)@[pix(old(renderer).spec_width(), qx, qy)],
                    )
                } else {
                    old(renderer)@[pix(old(renderer).spec_width(), qx, qy)]
                },
    {
        if self.a.x == self.b.x && self.a.y == self.b.y {
            return;
        }
        let w = renderer.width();
        let h = renderer.height();
        if (self.a.x < 0 && self.b.x < 0) || (self.a.y < 0 && self.b.y < 0) || (self.a.x as i32
            >= w && self.b.x as i32 >= w) || (self.a.y as i32 >= h && self.b.y as i32 >= h) {
            proof {
                assert forall|qx: int, qy: int|
                    old(renderer).contains_pixel(qx, qy) implies !line_covers(
                    self.a,
                    self.b,
                    qx,
                    qy,
                ) by {
                    if line_covers(self.a, self.b, qx, qy) {
                        lemma_line_covers_bbox(self.a, self.b, qx, qy);
                    }
                }
            }
            return;
        }
        let ady = if self.a.y >= self.b.y {
            self.a.y as i64 - self.b.y as i64
        } else {
            self.b.y as i64 - self.a.y as i64
        };
        let adx = if self.a.x >= self.b.x {
            self.a.x as i64 - self.b.x as i64
        } else {
            self.b.x as i64 - self.a.x as i64
        };
        if ady < adx {
            self.draw_low(renderer);
        } else {
            self.draw_high(renderer);
        }
    }
}

} // verus!
