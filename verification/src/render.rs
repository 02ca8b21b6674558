//! The render orchestrator: enumerate every pixel of the viewport, evaluate
//! and colour each one, and fold the results into the output image.
//!
//! The per-pixel work items are independent, so a caller may compute them in
//! any order — in particular fanned out over worker threads — and feed the
//! results back through [`OutputImage::put`] or [`apply_points`] as they
//! arrive. The lemmas here show that any complete stream of correct results
//! assembles the same image as the sequential [`render`].

use vstd::prelude::*;

verus! {

use vstd::arithmetic::div_mod::{
    lemma_fundamental_div_mod, lemma_mod_division_less_than_divisor, lemma_multiply_divide_lt,
};
use crate::color::{black, colorize, colorize_spec, ColorMode, PixelColor};
use crate::escape::{eval_result_spec, evaluate};
use crate::plane::{map_im_spec, map_pixel, map_re_spec, Viewport};

/// The unit of work result: one pixel's coordinate and its colour.
#[derive(Clone, Copy, Debug, PartialEq, Eq, Structural)]
pub struct MandelbrotPoint {
    pub x: u32,
    pub y: u32,
    pub color: PixelColor,
}

/// The colour the render owes pixel `(x, y)` of a viewport: map the pixel
/// onto the plane, run the escape iteration, colour the outcome.
pub open spec fn point_color_spec(
    x: int,
    y: int,
    vp: Viewport,
    budget: nat,
    mode: ColorMode,
) -> PixelColor {
    colorize_spec(
        eval_result_spec(map_re_spec(x, vp), map_im_spec(y, vp), budget),
        budget as int,
        mode,
    )
}

/// A work result that is in range and carries exactly the colour its
/// coordinate is owed.
pub open spec fn point_ok(p: MandelbrotPoint, vp: Viewport, budget: nat, mode: ColorMode) -> bool {
    &&& p.x < vp.width
    &&& p.y < vp.height
    &&& p.color == point_color_spec(p.x as int, p.y as int, vp, budget, mode)
}

/// One worker's job: produce the work result of a single pixel.
pub fn compute_point(x: u32, y: u32, vp: Viewport, budget: u32, mode: ColorMode) -> (p:
    MandelbrotPoint)
    requires
        vp.wf(),
        x < vp.width,
        y < vp.height,
        budget >= 1,
    ensures
        p.x == x,
        p.y == y,
        p.color == point_color_spec(x as int, y as int, vp, budget as nat, mode),
        point_ok(p, vp, budget as nat, mode),
{
    let c = map_pixel(x, y, vp);
    let result = evaluate(c, budget);
    let color = colorize(result, budget, mode);
    MandelbrotPoint { x, y, color }
}

/// A row-major index stays inside the pixel buffer.
pub(crate) proof fn lemma_row_major_index(x: int, y: int, w: int, h: int)
    requires
        0 <= x < w,
        0 <= y < h,
    ensures
        0 <= y * w + x < w * h,
{
    assert(0 <= y * w + x < w * h) by (nonlinear_arith)
        requires
            0 <= x < w,
            0 <= y < h,
    ;
}

/// Row-major indexing is injective over the grid: equal indices mean equal
/// coordinates.
pub(crate) proof fn lemma_row_major_injective(x1: int, y1: int, x2: int, y2: int, w: int)
    requires
        0 <= x1 < w,
        0 <= x2 < w,
        0 <= y1,
        0 <= y2,
        y1 * w + x1 == y2 * w + x2,
    ensures
        x1 == x2 && y1 == y2,
{
    assert(x1 == x2 && y1 == y2) by (nonlinear_arith)
        requires
            0 <= x1 < w,
            0 <= x2 < w,
            0 <= y1,
            0 <= y2,
            y1 * w + x1 == y2 * w + x2,
    ;
}

/// The output buffer: a `width * height` grid of colours, row-major,
/// exclusively owned by whoever collects the work results.
#[derive(Debug, PartialEq, Eq)]
pub struct OutputImage {
    pub width: u32,
    pub height: u32,
    pub pixels: Vec<PixelColor>,
}

impl OutputImage {
    /// The buffer holds exactly one colour per pixel of the grid.
    pub open spec fn wf(self) -> bool {
        self.pixels@.len() == (self.width as int) * (self.height as int)
    }

    /// The colour stored for pixel `(x, y)`.
    pub open spec fn pixel_spec(self, x: int, y: int) -> PixelColor {
        self.pixels@[y * (self.width as int) + x]
    }

    /// A fresh all-black buffer for the grid.
    pub fn new(width: u32, height: u32) -> (img: OutputImage)
        requires
            width >= 1,
            height >= 1,
            (width as int) * (height as int) <= usize::MAX as int,
        ensures
            img.width == width,
            img.height == height,
            img.wf(),
            forall|x: int, y: int|
                0 <= x < width && 0 <= y < height ==> img.pixel_spec(x, y) == black(),
    {
        let total: usize = (width as usize) * (height as usize);
        let mut pixels: Vec<PixelColor> = Vec::new();
        let mut k: usize = 0;
        while k < total
            invariant
                k <= total,
                pixels@.len() == k,
                forall|j: int| 0 <= j < k ==> pixels@[j] == black(),
            decreases total - k,
        {
            pixels.push(PixelColor { r: 0, g: 0, b: 0 });
            k = k + 1;
        }
        let img = OutputImage { width, height, pixels };
        proof {
            assert forall|x: int, y: int|
                0 <= x < width && 0 <= y < height implies img.pixel_spec(x, y) == black() by {
                lemma_row_major_index(x, y, width as int, height as int);
            }
        }
        img
    }

    /// Read the colour of one pixel of the buffer.
    pub fn pixel_at(&self, x: u32, y: u32) -> (color: PixelColor)
        requires
            self.wf(),
            x < self.width,
            y < self.height,
        ensures
            color == self.pixel_spec(x as int, y as int),
    {
        proof {
            lemma_row_major_index(x as int, y as int, self.width as int, self.height as int);
        }
        let total: usize = self.pixels.len();
        proof {
            assert((y as int) * (self.width as int) + (x as int) < total);
        }
        let idx: usize = (y as usize) * (self.width as usize) + (x as usize);
        self.pixels[idx]
    }

    /// Write one work result into its own cell of the buffer. Every other
    /// cell keeps its colour, so results may arrive in any order.
    pub fn put(&mut self, p: &MandelbrotPoint)
        requires
            old(self).wf(),
            p.x < old(self).width,
            p.y < old(self).height,
        ensures
            final(self).wf(),
            final(self).width == old(self).width,
            final(self).height == old(self).height,
            final(self).pixel_spec(p.x as int, p.y as int) == p.color,
            forall|x: int, y: int|
                0 <= x < old(self).width && 0 <= y < old(self).height && !(x == p.x && y == p.y)
                    ==> final(self).pixel_spec(x, y) == old(self).pixel_spec(x, y),
    {
        let total: usize = self.pixels.len();
        proof {
            lemma_row_major_index(
                p.x as int,
                p.y as int,
                self.width as int,
                self.height as int,
            );
            assert((p.y as int) * (self.width as int) + (p.x as int) < total);
        }
        let idx: usize = (p.y as usize) * (self.width as usize) + (p.x as usize);
        self.pixels.set(idx, p.color);
        proof {
            assert forall|x: int, y: int|
                0 <= x < old(self).width && 0 <= y < old(self).height && !(x == p.x && y
                    == p.y) implies self.pixel_spec(x, y) == old(self).pixel_spec(x, y) by {
                lemma_row_major_index(x, y, self.width as int, self.height as int);
                if y * (self.width as int) + x == idx {
                    lemma_row_major_injective(
                        x,
                        y,
                        p.x as int,
                        p.y as int,
                        self.width as int,
                    );
                }
            }
        }
    }
}

/// Whether any of the work results is for pixel `(x, y)`.
pub open spec fn has_point(pts: Seq<MandelbrotPoint>, x: int, y: int) -> bool {
    exists|k: int| 0 <= k < pts.len() && pts[k].x == x && pts[k].y == y
}

/// The colour the latest work result for pixel `(x, y)` carries — the one a
/// collector consuming the stream in order leaves in the buffer.
pub open spec fn last_color(pts: Seq<MandelbrotPoint>, x: int, y: int) -> PixelColor
    decreases pts.len(),
{
    if pts.len() == 0 {
        black()
    } else if pts.last().x == x && pts.last().y == y {
        pts.last().color
    } else {
        last_color(pts.drop_last(), x, y)
    }
}

/// Fold a batch of work results into the buffer, in the order given. A
/// covered pixel ends with the colour of its latest result; an uncovered
/// one keeps its colour.
pub fn apply_points(img: &mut OutputImage, pts: &Vec<MandelbrotPoint>)
    requires
        old(img).wf(),
        forall|k: int|
            0 <= k < pts@.len() ==> pts@[k].x < old(img).width && pts@[k].y < old(img).height,
    ensures
        final(img).wf(),
        final(img).width == old(img).width,
        final(img).height == old(img).height,
        forall|x: int, y: int|
            0 <= x < old(img).width && 0 <= y < old(img).height ==> final(img).pixel_spec(x, y)
                == if has_point(pts@, x, y) {
                last_color(pts@, x, y)
            } else {
                old(img).pixel_spec(x, y)
            },
{
    let ghost img0 = *img;
    let mut k: usize = 0;
    while k < pts.len()
        invariant
            k <= pts@.len(),
            img.wf(),
            img.width == img0.width,
            img.height == img0.height,
            forall|j: int| 0 <= j < pts@.len() ==> pts@[j].x < img0.width && pts@[j].y
                < img0.height,
            forall|x: int, y: int|
                0 <= x < img0.width && 0 <= y < img0.height ==> img.pixel_spec(x, y)
                    == if has_point(pts@.subrange(0, k as int), x, y) {
                    last_color(pts@.subrange(0, k as int), x, y)
                } else {
                    img0.pixel_spec(x, y)
                },
        decreases pts@.len() - k,
    {
        let ghost prefix = pts@.subrange(0, k as int);
        let p = pts[k];
        img.put(&p);
        proof {
            let extended = pts@.subrange(0, k as int + 1);
            assert(extended =~= prefix.push(p));
            assert(extended.drop_last() =~= prefix);
            assert forall|x: int, y: int|
                0 <= x < img0.width && 0 <= y < img0.height implies img.pixel_spec(x, y)
                == if has_point(extended, x, y) {
                last_color(extended, x, y)
            } else {
                img0.pixel_spec(x, y)
            } by {
                if x == p.x && y == p.y {
                    assert(extended[k as int] == p);
                    assert(has_point(extended, x, y));
                    assert(last_color(extended, x, y) == p.color);
                } else {
                    assert(last_color(extended, x, y) == last_color(prefix, x, y));
                    assert(has_point(extended, x, y) == has_point(prefix, x, y)) by {
                        if has_point(prefix, x, y) {
                            let j = choose|j: int|
                                0 <= j < prefix.len() && prefix[j].x == x && prefix[j].y == y;
                            assert(extended[j].x == x && extended[j].y == y);
                        }
                        if has_point(extended, x, y) {
                            let j = choose|j: int|
                                0 <= j < extended.len() && extended[j].x == x && extended[j].y
                                    == y;
                            assert(j < prefix.len());
                            assert(prefix[j].x == x && prefix[j].y == y);
                        }
                    }
                }
            }
        }
        k = k + 1;
    }
    proof {
        assert(pts@.subrange(0, pts@.len() as int) =~= pts@);
    }
}

/// However the results are ordered, a stream in which every result carries
/// the colour its coordinate is owed hands any covered pixel that owed
/// colour as its latest result. This is what makes the collection safe to
/// run over workers finishing in any order.
pub proof fn lemma_uniform_stream_last_color(
    pts: Seq<MandelbrotPoint>,
    vp: Viewport,
    budget: nat,
    mode: ColorMode,
    x: int,
    y: int,
)
    requires
        forall|k: int| 0 <= k < pts.len() ==> point_ok(#[trigger] pts[k], vp, budget, mode),
        has_point(pts, x, y),
    ensures
        0 <= x < vp.width,
        0 <= y < vp.height,
        last_color(pts, x, y) == point_color_spec(x, y, vp, budget, mode),
    decreases pts.len(),
{
    let p = pts.last();
    if p.x == x && p.y == y {
        assert(point_ok(p, vp, budget, mode));
    } else {
        let j = choose|j: int| 0 <= j < pts.len() && pts[j].x == x && pts[j].y == y;
        assert(j < pts.len() - 1);
        assert(pts.drop_last()[j].x == x && pts.drop_last()[j].y == y);
        lemma_uniform_stream_last_color(pts.drop_last(), vp, budget, mode, x, y);
    }
}

/// Where the work result of pixel `(x, y)` sits in the dispatch order:
/// column by column, top to bottom within a column.
pub open spec fn dispatch_slot(x: int, y: int, height: int) -> int {
    x * height + y
}

/// The work result pixel `(x, y)` of a viewport is owed.
pub open spec fn owed_point(x: int, y: int, vp: Viewport, budget: nat, mode: ColorMode) -> MandelbrotPoint {
    MandelbrotPoint {
        x: x as u32,
        y: y as u32,
        color: point_color_spec(x, y, vp, budget, mode),
    }
}

/// Enumerate the whole grid and produce its work results: exactly one per
/// coordinate, column by column as dispatched, each carrying the colour its
/// pixel is owed.
pub fn render_points(vp: Viewport, budget: u32, mode: ColorMode) -> (pts: Vec<MandelbrotPoint>)
    requires
        vp.wf(),
        budget >= 1,
    ensures
        pts@.len() == (vp.width as int) * (vp.height as int),
        forall|k: int| 0 <= k < pts@.len() ==> point_ok(#[trigger] pts@[k], vp, budget as nat, mode),
        forall|x: int, y: int|
            0 <= x < vp.width && 0 <= y < vp.height ==> pts@[#[trigger] dispatch_slot(
                x,
                y,
                vp.height as int,
            )] == owed_point(x, y, vp, budget as nat, mode),
{
    let mut pts: Vec<MandelbrotPoint> = Vec::new();
    let mut x: u32 = 0;
    while x < vp.width
        invariant
            vp.wf(),
            budget >= 1,
            x <= vp.width,
            pts@.len() == (x as int) * (vp.height as int),
            forall|k: int|
                0 <= k < pts@.len() ==> point_ok(#[trigger] pts@[k], vp, budget as nat, mode),
            forall|a: int, b: int|
                0 <= a < x && 0 <= b < vp.height ==> pts@[#[trigger] dispatch_slot(
                    a,
                    b,
                    vp.height as int,
                )] == owed_point(a, b, vp, budget as nat, mode),
        decreases vp.width - x,
    {
        let mut y: u32 = 0;
        while y < vp.height
            invariant
                vp.wf(),
                budget >= 1,
                x < vp.width,
                y <= vp.height,
                pts@.len() == (x as int) * (vp.height as int) + y as int,
                forall|k: int|
                    0 <= k < pts@.len() ==> point_ok(#[trigger] pts@[k], vp, budget as nat, mode),
                forall|a: int, b: int|
                    0 <= a < x && 0 <= b < vp.height ==> pts@[#[trigger] dispatch_slot(
                        a,
                        b,
                        vp.height as int,
                    )] == owed_point(a, b, vp, budget as nat, mode),
                forall|b: int|
                    0 <= b < y ==> pts@[#[trigger] dispatch_slot(x as int, b, vp.height as int)]
                        == owed_point(x as int, b, vp, budget as nat, mode),
            decreases vp.height - y,
        {
            let p = compute_point(x, y, vp, budget, mode);
            let ghost before = pts@;
            pts.push(p);
            proof {
                assert(dispatch_slot(x as int, y as int, vp.height as int) == before.len());
                assert forall|a: int, b: int|
                    0 <= a < x && 0 <= b < vp.height implies pts@[#[trigger] dispatch_slot(
                    a,
                    b,
                    vp.height as int,
                )] == owed_point(a, b, vp, budget as nat, mode) by {
                    assert(0 <= a * (vp.height as int) + b < (x as int) * (
                    vp.height as int)) by (nonlinear_arith)
                        requires
                            0 <= a < x,
                            0 <= b < vp.height,
                    ;
                    assert(pts@[dispatch_slot(a, b, vp.height as int)] == before[dispatch_slot(
                        a,
                        b,
                        vp.height as int,
                    )]);
                }
            }
            y = y + 1;
        }
        proof {
            assert((x as int + 1) * (vp.height as int) == (x as int) * (vp.height as int)
                + vp.height as int) by (nonlinear_arith);
        }
        x = x + 1;
    }
    pts
}

/// A finished frame of a viewport: the grid's dimensions, and at every
/// pixel exactly the colour its coordinate is owed.
pub open spec fn rendered_spec(
    img: OutputImage,
    vp: Viewport,
    budget: nat,
    mode: ColorMode,
) -> bool {
    &&& img.wf()
    &&& img.width == vp.width
    &&& img.height == vp.height
    &&& forall|x: int, y: int|
        0 <= x < vp.width && 0 <= y < vp.height ==> img.pixel_spec(x, y) == point_color_spec(
            x,
            y,
            vp,
            budget,
            mode,
        )
}

/// Render the whole frame: enumerate every pixel, evaluate and colour it,
/// and collect the results into the buffer. The image depends only on the
/// viewport, the budget and the mode — `worker_count` is a scheduling hint
/// for callers that fan the work items out, and cannot change the result.
#[allow(unused_variables)]
pub fn render(vp: Viewport, budget: u32, mode: ColorMode, worker_count: usize) -> (img:
    OutputImage)
    requires
        vp.wf(),
        budget >= 1,
        worker_count >= 1,
    ensures
        rendered_spec(img, vp, budget as nat, mode),
{
    let pts = render_points(vp, budget, mode);
    let mut img = OutputImage::new(vp.width, vp.height);
    apply_points(&mut img, &pts);
    proof {
        assert forall|x: int, y: int|
            0 <= x < vp.width && 0 <= y < vp.height implies img.pixel_spec(x, y)
            == point_color_spec(x, y, vp, budget as nat, mode) by {
            lemma_row_major_index(y, x, vp.height as int, vp.width as int);
            assert((vp.height as int) * (vp.width as int) == (vp.width as int) * (
            vp.height as int)) by (nonlinear_arith);
            let k0 = dispatch_slot(x, y, vp.height as int);
            assert(pts@[dispatch_slot(x, y, vp.height as int)] == owed_point(
                x,
                y,
                vp,
                budget as nat,
                mode,
            ));
            assert(0 <= k0 < pts@.len() && pts@[k0].x == x && pts@[k0].y == y);
            assert(has_point(pts@, x, y));
            lemma_uniform_stream_last_color(pts@, vp, budget as nat, mode, x, y);
        }
    }
    img
}

/// A complete batch covers each coordinate exactly once: two distinct slots
/// never carry the same pixel — no coordinate is rendered twice.
pub proof fn lemma_render_points_exactly_once(
    pts: Seq<MandelbrotPoint>,
    vp: Viewport,
    budget: nat,
    mode: ColorMode,
    k1: int,
    k2: int,
)
    requires
        vp.wf(),
        pts.len() == (vp.width as int) * (vp.height as int),
        forall|x: int, y: int|
            0 <= x < vp.width && 0 <= y < vp.height ==> pts[#[trigger] dispatch_slot(
                x,
                y,
                vp.height as int,
            )] == owed_point(x, y, vp, budget, mode),
        0 <= k1 < pts.len(),
        0 <= k2 < pts.len(),
        k1 != k2,
    ensures
        !(pts[k1].x == pts[k2].x && pts[k1].y == pts[k2].y),
{
    let h = vp.height as int;
    let x1 = k1 / h;
    let y1 = k1 % h;
    let x2 = k2 / h;
    let y2 = k2 % h;
    lemma_fundamental_div_mod(k1, h);
    lemma_fundamental_div_mod(k2, h);
    lemma_mod_division_less_than_divisor(k1, h);
    lemma_mod_division_less_than_divisor(k2, h);
    assert(h * x1 == x1 * h && h * x2 == x2 * h) by (nonlinear_arith);
    assert(k1 < h * (vp.width as int) && k2 < h * (vp.width as int)) by (nonlinear_arith)
        requires
            k1 < (vp.width as int) * h,
            k2 < (vp.width as int) * h,
    ;
    lemma_multiply_divide_lt(k1, h, vp.width as int);
    lemma_multiply_divide_lt(k2, h, vp.width as int);
    assert(k1 == dispatch_slot(x1, y1, h) && k2 == dispatch_slot(x2, y2, h));
    assert(pts[dispatch_slot(x1, y1, h)] == owed_point(x1, y1, vp, budget, mode));
    assert(pts[dispatch_slot(x2, y2, h)] == owed_point(x2, y2, vp, budget, mode));
    assert(pts[k1].x == x1 && pts[k1].y == y1);
    assert(pts[k2].x == x2 && pts[k2].y == y2);
}

/// Any two finished frames of the same viewport, budget and mode are the
/// same image, buffer and all: however many workers computed the points and
/// in whatever order they arrived, the result is byte-identical.
pub proof fn lemma_render_deterministic(
    img1: OutputImage,
    img2: OutputImage,
    vp: Viewport,
    budget: nat,
    mode: ColorMode,
)
    requires
        vp.wf(),
        rendered_spec(img1, vp, budget, mode),
        rendered_spec(img2, vp, budget, mode),
    ensures
        img1.width == img2.width,
        img1.height == img2.height,
        img1.pixels@ == img2.pixels@,
{
    let w = vp.width as int;
    let h = vp.height as int;
    assert forall|i: int| 0 <= i < img1.pixels@.len() implies img1.pixels@[i]
        == img2.pixels@[i] by {
        let y = i / w;
        let x = i % w;
        lemma_fundamental_div_mod(i, w);
        lemma_mod_division_less_than_divisor(i, w);
        assert(i < w * h) by (nonlinear_arith)
            requires
                i < w * h,
        ;
        lemma_multiply_divide_lt(i, w, h);
        assert(w * y == y * w) by (nonlinear_arith);
        assert(img1.pixel_spec(x, y) == img2.pixel_spec(x, y));
    }
    assert(img1.pixels@ =~= img2.pixels@);
}

} // verus!
