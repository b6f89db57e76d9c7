//! The renderer: owner of the destination framebuffer and of the scratch
//! row buffer used by the circle scan fill.
use vstd::prelude::*;

use crate::BlendMode;
use crate::FBColor;
use crate::blend_pixel;
use crate::Drawable;
use crate::blend_spec;

verus! {

/// The flat framebuffer index of the pixel at column `x`, row `y`, in a
/// buffer `w` pixels wide (row-major, origin top-left).
pub open spec fn pix(w: int, x: int, y: int) -> int {
    y * w + x
}

/// Two in-range coordinate pairs index the same framebuffer cell exactly
/// when they are the same pair.
pub proof fn lemma_pix_injective(w: int, x1: int, y1: int, x2: int, y2: int)
    requires
        0 <= x1 < w,
        0 <= x2 < w,
    ensures
        pix(w, x1, y1) == pix(w, x2, y2) <==> (x1 == x2 && y1 == y2),
{
    assert(y1 * w + x1 == y2 * w + x2 <==> (x1 == x2 && y1 == y2)) by (nonlinear_arith)
        requires
            0 <= x1 < w,
            0 <= x2 < w,
    ;
}

/// Every in-range coordinate pair indexes inside the framebuffer.
pub proof fn lemma_pix_in_range(w: int, h: int, x: int, y: int)
    requires
        0 <= x < w,
        0 <= y < h,
    ensures
        0 <= pix(w, x, y) < w * h,
{
    assert(0 <= y * w + x < w * h) by (nonlinear_arith)
        requires
            0 <= x < w,
            0 <= y < h,
    ;
}

/// The color pixel `(qx, qy)` holds after drawing every element of `ds`
/// in order on a `w` by `h` framebuffer, starting from `c0`.
pub open spec fn draw_seq_pixel<D: Drawable>(
    ds: Seq<D>,
    w: int,
    h: int,
    qx: int,
    qy: int,
    c0: FBColor,
) -> FBColor
    decreases ds.len(),
{
    if ds.len() == 0 {
        c0
    } else {
        let prev = draw_seq_pixel(ds.drop_last(), w, h, qx, qy, c0);
        if ds.last().paints(w, h, qx, qy) {
            crate::blend_spec(ds.last().spec_blend(), ds.last().paint_color(qx, qy), prev)
        } else {
            prev
        }
    }
}

/// Owns the destination framebuffer (a flat, row-major sequence of
/// colors, `width * height` long) and a scratch buffer of one horizontal
/// span per row, reused by the circle scan fill.
#[derive(Clone)]
pub struct Renderer {
    fb: Vec<FBColor>,
    width: u16,
    height: u16,
    work_edges: Vec<(i32, i32)>,
}

impl View for Renderer {
    type V = Seq<FBColor>;

    closed spec fn view(&self) -> Seq<FBColor> {
        self.fb@
    }
}

impl Renderer {
    pub closed spec fn spec_width(&self) -> int {
        self.width as int
    }

    pub closed spec fn spec_height(&self) -> int {
        self.height as int
    }

    /// The scratch row buffer. Its content has no meaning between draw
    /// calls; it is exposed to specifications only so that contracts can
    /// say which operations leave it alone.
    pub closed spec fn scratch(&self) -> Seq<(i32, i32)> {
        self.work_edges@
    }

    /// Structural well-formedness: the framebuffer holds exactly one
    /// color per pixel and the scratch buffer one span per row.
    pub open spec fn wf(&self) -> bool {
        &&& self@.len() == self.spec_width() * self.spec_height()
        &&& self.scratch().len() == self.spec_height()
        &&& 1 <= self.spec_width() <= 0xffff
        &&& 1 <= self.spec_height() <= 0xffff
    }

    /// Whether the pixel coordinate `(x, y)` lies inside the framebuffer.
    pub open spec fn contains_pixel(&self, x: int, y: int) -> bool {
        0 <= x < self.spec_width() && 0 <= y < self.spec_height()
    }

    /// Allocates a `width * height` framebuffer with every pixel set to
    /// the empty (all-zero, fully transparent) color, and a scratch span
    /// per row.
    pub fn new(width: u16, height: u16) -> (r: Self)
        requires
            width >= 1,
            height >= 1,
        ensures
            r.wf(),
            r.spec_width() == width,
            r.spec_height() == height,
            r@.len() == width * height,
            forall|i: int| 0 <= i < r@.len() ==> r@[i] == (FBColor { r: 0, g: 0, b: 0, a: 0 }),
    {
        proof {
            assert(width * height <= 0xffff * 0xffff) by (nonlinear_arith)
                requires
                    1 <= width <= 0xffff,
                    1 <= height <= 0xffff,
            ;
            assert(width * height >= 1) by (nonlinear_arith)
                requires
                    1 <= width,
                    1 <= height,
            ;
        }
        let n: usize = (width as usize) * (height as usize);
        let mut fb: Vec<FBColor> = Vec::new();
        let mut i: usize = 0;
        while i < n
            invariant
                i <= n,
                fb@.len() == i,
                forall|j: int| 0 <= j < i ==> fb@[j] == (FBColor { r: 0, g: 0, b: 0, a: 0 }),
            decreases n - i,
        {
            fb.push(FBColor { r: 0, g: 0, b: 0, a: 0 });
            i = i + 1;
        }
        let mut work_edges: Vec<(i32, i32)> = Vec::new();
        let mut j: usize = 0;
        while j < height as usize
            invariant
                j <= height as usize,
                work_edges@.len() == j,
            decreases height as usize - j,
        {
            work_edges.push((i32::MAX, i32::MIN));
            j = j + 1;
        }
        Renderer { fb, width, height, work_edges }
    }

    /// The framebuffer width as a signed coordinate.
    pub fn width(&self) -> (w: i32)
        requires
            self.wf(),
        ensures
            w == self.spec_width(),
    {
        self.width as i32
    }

    /// The framebuffer height as a signed coordinate.
    pub fn height(&self) -> (h: i32)
        requires
            self.wf(),
        ensures
            h == self.spec_height(),
    {
        self.height as i32
    }

    /// Read-only access to the framebuffer.
    pub fn fb(&self) -> (fb: &Vec<FBColor>)
        ensures
            fb@ == self@,
    {
        &self.fb
    }

    /// The framebuffer as a flat byte sequence of 8-bit RGBA quadruples,
    /// row-major.
    pub fn fb_rgba8(&self) -> (bytes: Vec<u8>)
        ensures
            bytes@.len() == 4 * self@.len(),
            forall|i: int|
                0 <= i < self@.len() ==> {
                    &&& bytes@[4 * i] == self@[i].r
                    &&& bytes@[4 * i + 1] == self@[i].g
                    &&& bytes@[4 * i + 2] == self@[i].b
                    &&& bytes@[4 * i + 3] == self@[i].a
                },
    {
        let mut bytes: Vec<u8> = Vec::new();
        let n = self.fb.len();
        let mut i: usize = 0;
        while i < n
            invariant
                i <= n,
                n == self@.len(),
                bytes@.len() == 4 * i,
                forall|k: int|
                    0 <= k < i ==> {
                        &&& bytes@[4 * k] == self@[k].r
                        &&& bytes@[4 * k + 1] == self@[k].g
                        &&& bytes@[4 * k + 2] == self@[k].b
                        &&& bytes@[4 * k + 3] == self@[k].a
                    },
            decreases n - i,
        {
            let c = self.fb[i];
            bytes.push(c.r);
            bytes.push(c.g);
            bytes.push(c.b);
            bytes.push(c.a);
            i = i + 1;
        }
        bytes
    }

    /// Bounds-checked pixel write: blends `color` into the pixel at
    /// `(x, y)`, and does nothing at all when the coordinate lies outside
    /// the framebuffer.
    pub fn set(&mut self, x: i16, y: i16, color: FBColor, blend_mode: BlendMode)
        requires
            old(self).wf(),
        ensures
            final(self).wf(),
            final(self).spec_width() == old(self).spec_width(),
            final(self).spec_height() == old(self).spec_height(),
            final(self).scratch() == old(self).scratch(),
            old(self).contains_pixel(x as int, y as int) ==> final(self)@ == old(self)@.update(
                pix(old(self).spec_width(), x as int, y as int),
                blend_spec(blend_mode, color, old(self)@[pix(old(self).spec_width(), x as int, y as int)]),
            ),
            !old(self).contains_pixel(x as int, y as int) ==> final(self)@ == old(self)@,
    {
        self.set_at(x as i32, y as i32, color, blend_mode);
    }

    /// Bounds-checked pixel write over the full coordinate range of the
    /// framebuffer (rows and columns can exceed the signed 16-bit range
    /// that geometry positions use).
    pub(crate) fn set_at(&mut self, x: i32, y: i32, color: FBColor, blend_mode: BlendMode)
        requires
            old(self).wf(),
        ensures
            final(self).wf(),
            final(self).spec_width() == old(self).spec_width(),
            final(self).spec_height() == old(self).spec_height(),
            final(self).scratch() == old(self).scratch(),
            old(self).contains_pixel(x as int, y as int) ==> final(self)@ == old(self)@.update(
                pix(old(self).spec_width(), x as int, y as int),
                blend_spec(blend_mode, color, old(self)@[pix(old(self).spec_width(), x as int, y as int)]),
            ),
            !old(self).contains_pixel(x as int, y as int) ==> final(self)@ == old(self)@,
    {
        if x < 0 || x >= self.width as i32 || y < 0 || y >= self.height as i32 {
            return;
        }
        proof {
            lemma_pix_in_range(self.spec_width(), self.spec_height(), x as int, y as int);
            assert(self.spec_width() * self.spec_height() <= 0xffff * 0xffff) by (nonlinear_arith)
                requires
                    1 <= self.spec_width() <= 0xffff,
                    1 <= self.spec_height() <= 0xffff,
            ;
        }
        let idx: usize = (y as usize) * (self.width as usize) + (x as usize);
        let mut d = self.fb[idx];
        blend_pixel(blend_mode, color, &mut d);
        self.fb[idx] = d;
    }

    /// Unchecked pixel write: blends `color` into the pixel at `(x, y)`,
    /// which the caller must have proven to lie inside the framebuffer.
    pub fn set_unchecked(&mut self, x: i16, y: i16, color: FBColor, blend_mode: BlendMode)
        requires
            old(self).wf(),
            old(self).contains_pixel(x as int, y as int),
        ensures
            final(self).wf(),
            final(self).spec_width() == old(self).spec_width(),
            final(self).spec_height() == old(self).spec_height(),
            final(self).scratch() == old(self).scratch(),
            final(self)@ == old(self)@.update(
                pix(old(self).spec_width(), x as int, y as int),
                blend_spec(blend_mode, color, old(self)@[pix(old(self).spec_width(), x as int, y as int)]),
            ),
    {
        proof {
            lemma_pix_in_range(
                self.spec_width(),
                self.spec_height(),
                x as int,
                y as int,
            );
            assert(self.spec_width() * self.spec_height() <= 0xffff * 0xffff) by (nonlinear_arith)
                requires
                    1 <= self.spec_width() <= 0xffff,
                    1 <= self.spec_height() <= 0xffff,
            ;
        }
        let idx: usize = (y as usize) * (self.width as usize) + (x as usize);
        let mut d = self.fb[idx];
        blend_pixel(blend_mode, color, &mut d);
        self.fb[idx] = d;
    }

    /// Blends `color` into every pixel of the framebuffer. Under the
    /// opaque mode this overwrites the whole buffer with `color`.
    pub fn fill(&mut self, color: FBColor, blend_mode: BlendMode)
        requires
            old(self).wf(),
        ensures
            final(self).wf(),
            final(self).spec_width() == old(self).spec_width(),
            final(self).spec_height() == old(self).spec_height(),
            final(self).scratch() == old(self).scratch(),
            final(self)@.len() == old(self)@.len(),
            forall|i: int|
                0 <= i < old(self)@.len() ==> final(self)@[i] == blend_spec(
                    blend_mode,
                    color,
                    old(self)@[i],
                ),
            blend_mode == BlendMode::Opaque ==> forall|i: int|
                0 <= i < old(self)@.len() ==> final(self)@[i] == color,
    {
        let n = self.fb.len();
        let mut i: usize = 0;
        while i < n
            invariant
                i <= n,
                n == self@.len(),
                self@.len() == old(self)@.len(),
                self.spec_width() == old(self).spec_width(),
                self.spec_height() == old(self).spec_height(),
                self.scratch() == old(self).scratch(),
                self.wf(),
                forall|k: int| 0 <= k < i ==> self@[k] == blend_spec(blend_mode, color, old(self)@[k]),
                forall|k: int| i <= k < n ==> self@[k] == old(self)@[k],
            decreases n - i,
        {
            let mut d = self.fb[i];
            blend_pixel(blend_mode, color, &mut d);
            self.fb[i] = d;
            i = i + 1;
        }
    }

    /// Records the scratch span for one framebuffer row (used by the
    /// circle scan fill). Leaves the framebuffer itself untouched.
    pub(crate) fn set_span(&mut self, row: usize, span: (i32, i32))
        requires
            old(self).wf(),
            row < old(self).spec_height(),
        ensures
            final(self).wf(),
            final(self).spec_width() == old(self).spec_width(),
            final(self).spec_height() == old(self).spec_height(),
            final(self)@ == old(self)@,
            final(self).scratch() == old(self).scratch().update(row as int, span),
    {
        self.work_edges[row] = span;
    }

    /// Reads back the scratch span recorded for one framebuffer row.
    pub(crate) fn get_span(&self, row: usize) -> (span: (i32, i32))
        requires
            self.wf(),
            row < self.spec_height(),
        ensures
            span == self.scratch()[row as int],
    {
        self.work_edges[row]
    }

    /// Draws one primitive into the framebuffer: exactly the pixels its
    /// `paints` spec names change, each to one blend of its `paint_color`.
    pub fn draw<D: Drawable>(&mut self, drawable: &D)
        requires
            old(self).wf(),
            drawable.valid(),
        ensures
            final(self).wf(),
            final(self).spec_width() == old(self).spec_width(),
            final(self).spec_height() == old(self).spec_height(),
            final(self)@.len() == old(self)@.len(),
            forall|qx: int, qy: int|
                old(self).contains_pixel(qx, qy) ==> #[trigger] final(self)@[pix(
                    old(self).spec_width(),
                    qx,
                    qy,
                )] == if drawable.paints(old(self).spec_width(), old(self).spec_height(), qx, qy) {
                    crate::blend_spec(
                        drawable.spec_blend(),
                        drawable.paint_color(qx, qy),
                        old(self)@[pix(old(self).spec_width(), qx, qy)],
                    )
                } else {
                    old(self)@[pix(old(self).spec_width(), qx, qy)]
                },
    {
        drawable.draw(self);
    }

    /// Draws a sequence of primitives in order: the final framebuffer is
    /// the sequential composition of every drawable's per-pixel effect.
    pub fn draw_multiple<D: Drawable>(&mut self, drawables: &[D])
        requires
            old(self).wf(),
            forall|i: int| 0 <= i < drawables@.len() ==> drawables@[i].valid(),
        ensures
            final(self).wf(),
            final(self).spec_width() == old(self).spec_width(),
            final(self).spec_height() == old(self).spec_height(),
            final(self)@.len() == old(self)@.len(),
            forall|qx: int, qy: int|
                old(self).contains_pixel(qx, qy) ==> #[trigger] final(self)@[pix(
                    old(self).spec_width(),
                    qx,
                    qy,
                )] == draw_seq_pixel(
                    drawables@,
                    old(self).spec_width(),
                    old(self).spec_height(),
                    qx,
                    qy,
                    old(self)@[pix(old(self).spec_width(), qx, qy)],
                ),
    {
        let ghost wd = self.spec_width();
        let ghost hd = self.spec_height();
        let ghost fb0 = self@;
        let n = drawables.len();
        let mut i: usize = 0;
        while i < n
            invariant
                i <= n,
                n == drawables@.len(),
                forall|k: int| 0 <= k < drawables@.len() ==> drawables@[k].valid(),
                self.wf(),
                self.spec_width() == old(self).spec_width(),
                self.spec_height() == old(self).spec_height(),
                self@.len() == old(self)@.len(),
                wd == old(self).spec_width(),
                hd == old(self).spec_height(),
                fb0 == old(self)@,
                forall|qx: int, qy: int|
                    old(self).contains_pixel(qx, qy) ==> #[trigger] self@[pix(wd, qx, qy)]
                        == draw_seq_pixel(
                        drawables@.take(i as int),
                        wd,
                        hd,
                        qx,
                        qy,
                        fb0[pix(wd, qx, qy)],
                    ),
            decreases n - i,
        {
            let d = &drawables[i];
            let ghost pre = self@;
            d.draw(self);
            proof {
                assert(drawables@.take(i as int + 1).drop_last() =~= drawables@.take(i as int));
                assert(drawables@.take(i as int + 1).last() == drawables@[i as int]);
                assert forall|qx: int, qy: int|
                    old(self).contains_pixel(qx, qy) implies #[trigger] self@[pix(wd, qx, qy)]
                        == draw_seq_pixel(
                    drawables@.take(i as int + 1),
                    wd,
                    hd,
                    qx,
                    qy,
                    fb0[pix(wd, qx, qy)],
                ) by {}
            }
            i = i + 1;
        }
        proof {
            assert(drawables@.take(n as int) =~= drawables@);
        }
    }
}

} // verus!
