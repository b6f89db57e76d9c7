//! The filled triangle primitive: half-space (edge-function)
//! rasterization with barycentric color interpolation.
use vstd::prelude::*;

use crate::BlendMode;
use crate::ColorMode;
use crate::Drawable;
use crate::FBColor;
use crate::I16Vec2;
use crate::Renderer;
use crate::blend_spec;
use crate::color::LERP3_MAX_WEIGHT;
use crate::color::lerp3_spec;
use crate::renderer::lemma_pix_injective;
use crate::renderer::pix;

verus! {

/// The edge function: twice the signed area of the triangle `(a, b, p)`,
/// where `p` is the point `(px, py)`. Positive when `p` lies to the left
/// of the directed edge from `a` to `b`.
pub open spec fn edge_at(a: I16Vec2, b: I16Vec2, px: int, py: int) -> int {
    (b.x - a.x) * (py - a.y) - (b.y - a.y) * (px - a.x)
}

/// The edge function of three points: twice the signed area of the
/// triangle `(a, b, c)`.
pub open spec fn edge_spec(a: I16Vec2, b: I16Vec2, c: I16Vec2) -> int {
    edge_at(a, b, c.x as int, c.y as int)
}

/// Twice the signed area of the triangle `(a, b, c)`, computed exactly.
pub fn edge(a: I16Vec2, b: I16Vec2, c: I16Vec2) -> (e: i64)
    ensures
        e == edge_spec(a, b, c),
{
    proof {
        lemma_edge_at_bound(a, b, c.x as int, c.y as int);
        assert(-0x1_0000_0000 <= (b.x - a.x) * (c.y - a.y) <= 0x1_0000_0000) by (nonlinear_arith)
            requires
                -0x10000 <= b.x - a.x <= 0x10000,
                -0x10000 <= c.y - a.y <= 0x10000,
        ;
        assert(-0x1_0000_0000 <= (b.y - a.y) * (c.x - a.x) <= 0x1_0000_0000) by (nonlinear_arith)
            requires
                -0x10000 <= b.y - a.y <= 0x10000,
                -0x10000 <= c.x - a.x <= 0x10000,
        ;
    }
    (b.x as i64 - a.x as i64) * (c.y as i64 - a.y as i64) - (b.y as i64 - a.y as i64) * (c.x as i64
        - a.x as i64)
}

/// The edge function of points with 16-bit coordinates stays well inside
/// 64-bit arithmetic.
pub proof fn lemma_edge_at_bound(a: I16Vec2, b: I16Vec2, px: int, py: int)
    requires
        -0x8000 <= px <= 0x7fff,
        -0x8000 <= py <= 0x7fff,
    ensures
        -0x2_0000_0000 <= edge_at(a, b, px, py) <= 0x2_0000_0000,
{
    assert((b.x - a.x) * (py - a.y) - (b.y - a.y) * (px - a.x) <= 0x2_0000_0000
        && (b.x - a.x) * (py - a.y) - (b.y - a.y) * (px - a.x) >= -0x2_0000_0000)
        by (nonlinear_arith)
        requires
            -0x10000 <= b.x - a.x <= 0x10000,
            -0x10000 <= py - a.y <= 0x10000,
            -0x10000 <= b.y - a.y <= 0x10000,
            -0x10000 <= px - a.x <= 0x10000,
    ;
}

#[verifier::rlimit(100)]
proof fn lemma_edge_sum_int(
    ax: int,
    ay: int,
    bx: int,
    by: int,
    cx: int,
    cy: int,
    px: int,
    py: int,
)
    ensures
        (bx - ax) * (py - ay) - (by - ay) * (px - ax) + ((cx - bx) * (py - by) - (cy - by) * (px
            - bx)) + ((ax - cx) * (py - cy) - (ay - cy) * (px - cx)) == (bx - ax) * (cy - ay) - (by
            - ay) * (cx - ax),
{
    assert((bx - ax) * (py - ay) == bx * py - bx * ay - ax * py + ax * ay) by (nonlinear_arith);
    assert((by - ay) * (px - ax) == by * px - by * ax - ay * px + ay * ax) by (nonlinear_arith);
    assert((cx - bx) * (py - by) == cx * py - cx * by - bx * py + bx * by) by (nonlinear_arith);
    assert((cy - by) * (px - bx) == cy * px - cy * bx - by * px + by * bx) by (nonlinear_arith);
    assert((ax - cx) * (py - cy) == ax * py - ax * cy - cx * py + cx * cy) by (nonlinear_arith);
    assert((ay - cy) * (px - cx) == ay * px - ay * cx - cy * px + cy * cx) by (nonlinear_arith);
    assert((bx - ax) * (cy - ay) == bx * cy - bx * ay - ax * cy + ax * ay) by (nonlinear_arith);
    assert((by - ay) * (cx - ax) == by * cx - by * ax - ay * cx + ay * ax) by (nonlinear_arith);
}

/// The three edge functions of a triangle at any point sum to the
/// triangle's own edge function (twice its signed area).
pub proof fn lemma_edge_sum(a: I16Vec2, b: I16Vec2, c: I16Vec2, px: int, py: int)
    ensures
        edge_at(a, b, px, py) + edge_at(b, c, px, py) + edge_at(c, a, px, py) == edge_spec(a, b, c),
{
    lemma_edge_sum_int(
        a.x as int,
        a.y as int,
        b.x as int,
        b.y as int,
        c.x as int,
        c.y as int,
        px,
        py,
    );
}

/// Reversing a directed edge negates its edge function.
pub proof fn lemma_edge_reverse(a: I16Vec2, b: I16Vec2, px: int, py: int)
    ensures
        edge_at(b, a, px, py) == -edge_at(a, b, px, py),
{
    assert((a.x - b.x) * (py - b.y) - (a.y - b.y) * (px - b.x) == -((b.x - a.x) * (py - a.y) - (b.y
        - a.y) * (px - a.x))) by (nonlinear_arith);
}

/// Whether the triangle `(a, b, c)` contains the pixel `(px, py)`: all
/// three edge functions carry the sign of the triangle's own winding.
pub open spec fn tri_contains(a: I16Vec2, b: I16Vec2, c: I16Vec2, px: int, py: int) -> bool {
    if edge_spec(a, b, c) < 0 {
        &&& edge_at(a, b, px, py) <= 0
        &&& edge_at(b, c, px, py) <= 0
        &&& edge_at(c, a, px, py) <= 0
    } else {
        &&& edge_at(a, b, px, py) >= 0
        &&& edge_at(b, c, px, py) >= 0
        &&& edge_at(c, a, px, py) >= 0
    }
}

/// Winding-order independence: swapping two vertices (reversing the
/// winding) leaves the set of contained pixels unchanged.
pub proof fn lemma_triangle_winding_independent(
    a: I16Vec2,
    b: I16Vec2,
    c: I16Vec2,
    px: int,
    py: int,
)
    ensures
        tri_contains(a, b, c, px, py) == tri_contains(a, c, b, px, py),
{
    lemma_edge_reverse(a, b, px, py);
    lemma_edge_reverse(b, c, px, py);
    lemma_edge_reverse(c, a, px, py);
    lemma_edge_sum(a, b, c, px, py);
    lemma_edge_sum(a, c, b, px, py);
    assert(edge_spec(a, c, b) == -edge_spec(a, b, c)) by {
        assert((c.x - a.x) * (b.y - a.y) - (c.y - a.y) * (b.x - a.x) == -((b.x - a.x) * (c.y - a.y)
            - (b.y - a.y) * (c.x - a.x))) by (nonlinear_arith);
    }
    assert(edge_at(a, c, px, py) == -edge_at(c, a, px, py));
    assert(edge_at(c, b, px, py) == -edge_at(b, c, px, py));
    assert(edge_at(b, a, px, py) == -edge_at(a, b, px, py));
}

/// Winding-order independence of the whole drawing effect for a solid
/// color: a triangle and its winding-reversed twin paint exactly the same
/// pixels with exactly the same color, so drawing them on equal
/// framebuffers leaves equal framebuffers.
pub proof fn lemma_triangle_winding_same_effect(
    t1: Triangle,
    t2: Triangle,
    w: int,
    h: int,
    qx: int,
    qy: int,
)
    requires
        t2.a == t1.a,
        t2.b == t1.c,
        t2.c == t1.b,
        t2.color_mode == t1.color_mode,
        t1.color_mode matches ColorMode::Solid(_),
        t2.blend_mode == t1.blend_mode,
    ensures
        t1.paints(w, h, qx, qy) == t2.paints(w, h, qx, qy),
        t1.paint_color(qx, qy) == t2.paint_color(qx, qy),
        t1.spec_blend() == t2.spec_blend(),
{
    lemma_triangle_winding_independent(t1.a, t1.b, t1.c, qx, qy);
    assert(edge_spec(t1.a, t1.c, t1.b) == -edge_spec(t1.a, t1.b, t1.c)) by {
        assert((t1.c.x - t1.a.x) * (t1.b.y - t1.a.y) - (t1.c.y - t1.a.y) * (t1.b.x - t1.a.x) == -((
        t1.b.x - t1.a.x) * (t1.c.y - t1.a.y) - (t1.b.y - t1.a.y) * (t1.c.x - t1.a.x)))
            by (nonlinear_arith);
    }
}

/// The smallest x coordinate of the three vertices.
pub open spec fn tri_min_x(a: I16Vec2, b: I16Vec2, c: I16Vec2) -> int {
    if a.x <= b.x && a.x <= c.x {
        a.x as int
    } else if b.x <= c.x {
        b.x as int
    } else {
        c.x as int
    }
}

/// The largest x coordinate of the three vertices.
pub open spec fn tri_max_x(a: I16Vec2, b: I16Vec2, c: I16Vec2) -> int {
    if a.x >= b.x && a.x >= c.x {
        a.x as int
    } else if b.x >= c.x {
        b.x as int
    } else {
        c.x as int
    }
}

/// The smallest y coordinate of the three vertices.
pub open spec fn tri_min_y(a: I16Vec2, b: I16Vec2, c: I16Vec2) -> int {
    if a.y <= b.y && a.y <= c.y {
        a.y as int
    } else if b.y <= c.y {
        b.y as int
    } else {
        c.y as int
    }
}

/// The largest y coordinate of the three vertices.
pub open spec fn tri_max_y(a: I16Vec2, b: I16Vec2, c: I16Vec2) -> int {
    if a.y >= b.y && a.y >= c.y {
        a.y as int
    } else if b.y >= c.y {
        b.y as int
    } else {
        c.y as int
    }
}

/// Whether `(px, py)` lies inside the (inclusive) bounding box of the
/// three vertices.
pub open spec fn tri_in_bbox(a: I16Vec2, b: I16Vec2, c: I16Vec2, px: int, py: int) -> bool {
    &&& tri_min_x(a, b, c) <= px <= tri_max_x(a, b, c)
    &&& tri_min_y(a, b, c) <= py <= tri_max_y(a, b, c)
}

/// A filled triangle with a solid or 3-corner interpolated color.
pub struct Triangle {
    pub a: I16Vec2,
    pub b: I16Vec2,
    pub c: I16Vec2,
    pub color_mode: ColorMode<3>,
    pub blend_mode: BlendMode,
}

/// The color the triangle paints at pixel `(px, py)`: the solid color, or
/// the barycentric blend of the three corner colors, weighted by the
/// winding-normalized edge functions opposite each corner.
pub open spec fn tri_color_at(t: Triangle, px: int, py: int) -> FBColor {
    match t.color_mode {
        ColorMode::Solid(c) => c,
        ColorMode::PerPoint(cs) => {
            let s: int = if edge_spec(t.a, t.b, t.c) < 0 {
                -1
            } else {
                1
            };
            lerp3_spec(
                cs[0],
                cs[1],
                cs[2],
                s * edge_at(t.b, t.c, px, py),
                s * edge_at(t.c, t.a, px, py),
                s * edge_at(t.a, t.b, px, py),
            )
        },
    }
}

impl Triangle {
    pub fn new(
        a: I16Vec2,
        b: I16Vec2,
        c: I16Vec2,
        color_mode: ColorMode<3>,
        blend_mode: BlendMode,
    ) -> (t: Self)
        ensures
            t.a == a,
            t.b == b,
            t.c == c,
            t.color_mode == color_mode,
            t.blend_mode == blend_mode,
    {
        Triangle { a, b, c, color_mode, blend_mode }
    }
}

impl Drawable for Triangle {
    open spec fn valid(&self) -> bool {
        true
    }

    open spec fn paints(&self, w: int, h: int, qx: int, qy: int) -> bool {
        &&& edge_spec(self.a, self.b, self.c) != 0
        &&& tri_in_bbox(self.a, self.b, self.c, qx, qy)
        &&& tri_contains(self.a, self.b, self.c, qx, qy)
    }

    open spec fn paint_color(&self, qx: int, qy: int) -> FBColor {
        tri_color_at(*self, qx, qy)
    }

    open spec fn spec_blend(&self) -> BlendMode {
        self.blend_mode
    }

    fn draw(&self, renderer: &mut Renderer)
        ensures
            final(renderer).scratch() == old(renderer).scratch(),
            edge_spec(self.a, self.b, self.c) == 0 ==> final(renderer)@ == old(renderer)@,
            forall|qx: int, qy: int|
                old(renderer).contains_pixel(qx, qy) ==> #[trigger] final(renderer)@[pix(
                    old(renderer).spec_width(),
                    qx,
                    qy,
                )] == if edge_spec(self.a, self.b, self.c) != 0 && tri_in_bbox(
                    self.a,
                    self.b,
                    self.c,
                    qx,
                    qy,
                ) && tri_contains(self.a, self.b, self.c, qx, qy) {
                    blend_spec(
                        self.blend_mode,
                        tri_color_at(*self, qx, qy),
                        old(renderer)@[pix(old(renderer).spec_width(), qx, qy)],
                    )
                } else {
                    old(renderer)@[pix(old(renderer).spec_width(), qx, qy)]
                },
    {
        let a = self.a;
        let b = self.b;
        let c = self.c;
        let self_edge: i64 = edge(a, b, c);
        if self_edge == 0 {
            return;
        }
        let flip_sign = self_edge < 0;

        let single_color: bool;
        let colors: [FBColor; 3] = match self.color_mode {
            ColorMode::Solid(fbcolor) => {
                single_color = true;
                [fbcolor, fbcolor, fbcolor]
            },
            ColorMode::PerPoint(cs) => {
                single_color = false;
                cs
            },
        };

        let w = renderer.width();
        let h = renderer.height();

        let vx_min = if a.x <= b.x && a.x <= c.x {
            a.x
        } else if b.x <= c.x {
            b.x
        } else {
            c.x
        };
        let vx_max = if a.x >= b.x && a.x >= c.x {
            a.x
        } else if b.x >= c.x {
            b.x
        } else {
            c.x
        };
        let vy_min = if a.y <= b.y && a.y <= c.y {
            a.y
        } else if b.y <= c.y {
            b.y
        } else {
            c.y
        };
        let vy_max = if a.y >= b.y && a.y >= c.y {
            a.y
        } else if b.y >= c.y {
            b.y
        } else {
            c.y
        };

        let min_x: i32 = if (vx_min as i32) > 0 { vx_min as i32 } else { 0 };
        let max_x: i32 = if (vx_max as i32) < w - 1 { vx_max as i32 } else { w - 1 };
        let min_y: i32 = if (vy_min as i32) > 0 { vy_min as i32 } else { 0 };
        let max_y: i32 = if (vy_max as i32) < h - 1 { vy_max as i32 } else { h - 1 };

        let ghost wd = renderer.spec_width();
        let ghost fb0 = renderer@;

        let mut py = min_y;
        while py <= max_y
            invariant
                renderer.wf(),
                renderer.spec_width() == old(renderer).spec_width(),
                renderer.spec_height() == old(renderer).spec_height(),
                renderer.scratch() == old(renderer).scratch(),
                renderer@.len() == fb0.len(),
                wd == old(renderer).spec_width(),
                fb0 == old(renderer)@,
                w == old(renderer).spec_width(),
                h == old(renderer).spec_height(),
                a == self.a && b == self.b && c == self.c,
                self_edge == edge_spec(a, b, c),
                self_edge != 0,
                flip_sign <==> self_edge < 0,
                single_color <==> self.color_mode matches ColorMode::Solid(_),
                self.color_mode matches ColorMode::Solid(cc) ==> colors[0] == cc,
                self.color_mode matches ColorMode::PerPoint(cs) ==> colors[0] == cs[0] && colors[1]
                        == cs[1] && colors[2] == cs[2],
                min_x == if tri_min_x(a, b, c) > 0 { tri_min_x(a, b, c) } else { 0 },
                max_x == if tri_max_x(a, b, c) < w - 1 { tri_max_x(a, b, c) } else { w - 1 as int },
                min_y == if tri_min_y(a, b, c) > 0 { tri_min_y(a, b, c) } else { 0 },
                max_y == if tri_max_y(a, b, c) < h - 1 { tri_max_y(a, b, c) } else { h - 1 as int },
                min_y <= py,
                py <= max_y + 1 || py == min_y,
                forall|qx: int, qy: int|
                    old(renderer).contains_pixel(qx, qy) ==> #[trigger] renderer@[pix(wd, qx, qy)]
                        == if tri_in_bbox(a, b, c, qx, qy) && tri_contains(a, b, c, qx, qy) && qy
                        < py {
                        blend_spec(self.blend_mode, tri_color_at(*self, qx, qy), fb0[pix(wd, qx, qy)])
                    } else {
                        fb0[pix(wd, qx, qy)]
                    },
            decreases max_y + 1 - py,
        {
            let mut px = min_x;
            while px <= max_x
                invariant
                    renderer.wf(),
                    renderer.spec_width() == old(renderer).spec_width(),
                    renderer.spec_height() == old(renderer).spec_height(),
                    renderer.scratch() == old(renderer).scratch(),
                    renderer@.len() == fb0.len(),
                    wd == old(renderer).spec_width(),
                    fb0 == old(renderer)@,
                    w == old(renderer).spec_width(),
                    h == old(renderer).spec_height(),
                    a == self.a && b == self.b && c == self.c,
                    self_edge == edge_spec(a, b, c),
                    self_edge != 0,
                    flip_sign <==> self_edge < 0,
                    single_color <==> self.color_mode matches ColorMode::Solid(_),
                    self.color_mode matches ColorMode::Solid(cc) ==> colors[0] == cc,
                    self.color_mode matches ColorMode::PerPoint(cs) ==> colors[0] == cs[0] && colors[1]
                        == cs[1] && colors[2] == cs[2],
                    min_x == if tri_min_x(a, b, c) > 0 { tri_min_x(a, b, c) } else { 0 },
                    max_x == if tri_max_x(a, b, c) < w - 1 { tri_max_x(a, b, c) } else { w - 1 as int },
                    min_y == if tri_min_y(a, b, c) > 0 { tri_min_y(a, b, c) } else { 0 },
                    max_y == if tri_max_y(a, b, c) < h - 1 { tri_max_y(a, b, c) } else { h - 1 as int },
                    0 <= py < h,
                    min_y <= py <= max_y,
                    min_x <= px,
                    px <= max_x + 1 || px == min_x,
                    forall|qx: int, qy: int|
                        old(renderer).contains_pixel(qx, qy) ==> #[trigger] renderer@[pix(wd, qx, qy)]
                            == if tri_in_bbox(a, b, c, qx, qy) && tri_contains(a, b, c, qx, qy) && (
                        qy < py || (qy == py && qx < px)) {
                            blend_spec(self.blend_mode, tri_color_at(*self, qx, qy), fb0[pix(wd, qx, qy)])
                        } else {
                            fb0[pix(wd, qx, qy)]
                        },
                decreases max_x + 1 - px,
            {
                let p = I16Vec2::new(px as i16, py as i16);
                proof {
                    lemma_edge_at_bound(a, b, px as int, py as int);
                    lemma_edge_at_bound(b, c, px as int, py as int);
                    lemma_edge_at_bound(c, a, px as int, py as int);
                }
                let mut edge_a: i64 = edge(a, b, p);
                let mut edge_b: i64 = edge(b, c, p);
                let mut edge_c: i64 = edge(c, a, p);

                if flip_sign {
                    edge_a = -edge_a;
                    edge_b = -edge_b;
                    edge_c = -edge_c;
                }

                if edge_a >= 0 && edge_b >= 0 && edge_c >= 0 {
                    let color = if single_color {
                        colors[0]
                    } else {
                        proof {
                            lemma_edge_sum(a, b, c, px as int, py as int);
                        }
                        let weights: [u64; 3] = [edge_b as u64, edge_c as u64, edge_a as u64];
                        let c2 = FBColor::lerp3(&colors, &weights);
                        proof {
                            assert(weights[0] == edge_b as u64);
                            assert(weights[1] == edge_c as u64);
                            assert(weights[2] == edge_a as u64);
                            if edge_spec(a, b, c) < 0 {
                                assert(edge_b as int == (-1) * edge_at(b, c, px as int, py as int))
                                    by (nonlinear_arith)
                                    requires
                                        edge_b as int == -edge_at(b, c, px as int, py as int),
                                ;
                                assert(edge_c as int == (-1) * edge_at(c, a, px as int, py as int))
                                    by (nonlinear_arith)
                                    requires
                                        edge_c as int == -edge_at(c, a, px as int, py as int),
                                ;
                                assert(edge_a as int == (-1) * edge_at(a, b, px as int, py as int))
                                    by (nonlinear_arith)
                                    requires
                                        edge_a as int == -edge_at(a, b, px as int, py as int),
                                ;
                            } else {
                                assert(edge_b as int == 1 * edge_at(b, c, px as int, py as int));
                                assert(edge_c as int == 1 * edge_at(c, a, px as int, py as int));
                                assert(edge_a as int == 1 * edge_at(a, b, px as int, py as int));
                            }
                            assert(c2 == tri_color_at(*self, px as int, py as int));
                        }
                        c2
                    };
                    let ghost pre = renderer@;
                    renderer.set(px as i16, py as i16, color, self.blend_mode);
                    proof {
                        assert(color == tri_color_at(*self, px as int, py as int));
                        assert(tri_contains(a, b, c, px as int, py as int));
                        assert forall|qx: int, qy: int|
                            old(renderer).contains_pixel(qx, qy) implies #[trigger] renderer@[pix(
                            wd,
                            qx,
                            qy,
                        )] == if tri_in_bbox(a, b, c, qx, qy) && tri_contains(a, b, c, qx, qy) && (
                        qy < py || (qy == py && qx < px + 1)) {
                            blend_spec(self.blend_mode, tri_color_at(*self, qx, qy), fb0[pix(wd, qx, qy)])
                        } else {
                            fb0[pix(wd, qx, qy)]
                        } by {
                            lemma_pix_injective(wd, qx, qy, px as int, py as int);
                            crate::renderer::lemma_pix_in_range(wd, old(renderer).spec_height(), qx, qy);
                            crate::renderer::lemma_pix_in_range(
                                wd,
                                old(renderer).spec_height(),
                                px as int,
                                py as int,
                            );
                        }
                    }
                } else {
                    proof {
                        assert(!tri_contains(a, b, c, px as int, py as int));
                    }
                }
                px = px + 1;
            }
            py = py + 1;
        }
    }
}

} // verus!
