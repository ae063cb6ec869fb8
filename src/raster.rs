use vstd::prelude::*;

use crate::color::Color;
use crate::point::Point2f;
use crate::triangle::{edge_x, edge_x_at, fix_triangle, flat_halves, Triangle2D};
use vstd::arithmetic::div_mod::{lemma_fundamental_div_mod, lemma_fundamental_div_mod_converse};

verus! {

/// One row of a filled triangle: the pixels `x_begin <= x < x_end` of row `y`.
#[derive(Clone, Copy, Debug, PartialEq, Eq, Structural)]
pub struct Span {
    pub y: i32,
    pub x_begin: i32,
    pub x_end: i32,
}

impl Span {
    /// The span lies on a surface of `width` by `height` pixels.
    pub open spec fn within(self, width: int, height: int) -> bool {
        0 <= self.y < height && 0 <= self.x_begin <= self.x_end < width
    }

    /// Byte `i` of an RGB buffer whose rows are `pitch` bytes apart belongs
    /// to a pixel of the span.
    pub open spec fn covers_byte(self, pitch: int, i: int) -> bool {
        i / pitch == self.y && 3 * self.x_begin <= i % pitch < 3 * self.x_end
    }
}

/// The two edges that bound the rows of a `y`-sorted triangle with a flat
/// top (`v0 -> v2`, `v1 -> v2`) or a flat bottom (`v0 -> v1`, `v0 -> v2`).
pub open spec fn side_edges(f: Triangle2D) -> (Point2f, Point2f, Point2f, Point2f) {
    if f.v0.y == f.v1.y {
        (f.v0, f.v2, f.v1, f.v2)
    } else {
        (f.v0, f.v1, f.v0, f.v2)
    }
}

/// The part of row `y` between the two side edges of `f`, cut to the
/// columns `0 ..= width - 1`; none where it lies wholly outside them.
pub open spec fn row_span(f: Triangle2D, y: int, width: int) -> Option<Span> {
    let (a1, b1, a2, b2) = side_edges(f);
    let xa = edge_x(a1, b1, y);
    let xb = edge_x(a2, b2, y);
    let lo = if xa <= xb { xa } else { xb };
    let hi = if xa <= xb { xb } else { xa };
    if lo >= width || hi < 0 {
        None
    } else {
        Some(
            Span {
                y: y as i32,
                x_begin: (if lo < 0 { 0 } else { lo }) as i32,
                x_end: (if hi > width - 1 { width - 1 } else { hi }) as i32,
            },
        )
    }
}

/// The spans of the rows `lo .. y` of `f`, top to bottom.
pub open spec fn span_rows(f: Triangle2D, lo: int, y: int, width: int) -> Seq<Span>
    decreases y - lo,
{
    if y <= lo {
        seq![]
    } else {
        span_rows(f, lo, y - 1, width) + match row_span(f, y - 1, width) {
            Some(s) => seq![s],
            None => seq![],
        }
    }
}

/// The spans of a flat `y`-sorted triangle: its rows from its top to its
/// bottom row (the bottom row left out), cut to the rows `0 .. height - 1`.
pub open spec fn flat_spans(f: Triangle2D, width: int, height: int) -> Seq<Span> {
    let lo = if f.v0.y < 0 { 0 } else { f.v0.y as int };
    let hi = if f.v2.y < height - 1 { f.v2.y as int } else { height - 1 };
    span_rows(f, lo, hi, width)
}

/// The spans that fill `t`: those of its flat upper half, then those of its
/// flat lower half.
pub open spec fn triangle_spans(t: Triangle2D, width: int, height: int) -> Seq<Span> {
    let (h1, h2) = flat_halves(t);
    flat_spans(h1, width, height) + flat_spans(h2, width, height)
}

/// Appends the spans of the flat `y`-sorted triangle `f` to `out`.
fn push_flat_spans(f: &Triangle2D, width: i32, height: i32, out: &mut Vec<Span>)
    requires
        f.is_y_sorted(),
        f.v0.y == f.v1.y || f.v1.y == f.v2.y,
        width > 0,
        height > 0,
        forall|k: int| 0 <= k < old(out)@.len() ==> (#[trigger] old(out)@[k]).within(width as int, height as int),
    ensures
        final(out)@ == old(out)@ + flat_spans(*f, width as int, height as int),
        forall|k: int| 0 <= k < final(out)@.len() ==> (#[trigger] final(out)@[k]).within(width as int, height as int),
{
    let flat_top = f.v0.y == f.v1.y;
    let (a1, b1, a2, b2) = if flat_top {
        (f.v0, f.v2, f.v1, f.v2)
    } else {
        (f.v0, f.v1, f.v0, f.v2)
    };
    let lo: i32 = if f.v0.y < 0 { 0 } else { f.v0.y };
    let hi: i32 = if f.v2.y < height - 1 { f.v2.y } else { height - 1 };
    let mut y: i32 = lo;
    while y < hi
        invariant
            lo <= y,
            y <= hi || y == lo,
            lo == (if f.v0.y < 0 { 0 } else { f.v0.y as int }),
            hi == (if f.v2.y < height - 1 { f.v2.y as int } else { height - 1 }),
            (a1, b1, a2, b2) == side_edges(*f),
            f.is_y_sorted(),
            f.v0.y == f.v1.y || f.v1.y == f.v2.y,
            width > 0,
            height > 0,
            out@ == old(out)@ + span_rows(*f, lo as int, y as int, width as int),
            forall|k: int| 0 <= k < out@.len() ==> (#[trigger] out@[k]).within(width as int, height as int),
        decreases hi - y,
    {
        let xa = edge_x_at(a1, b1, y);
        let xb = edge_x_at(a2, b2, y);
        let lo_x = if xa <= xb { xa } else { xb };
        let hi_x = if xa <= xb { xb } else { xa };
        let ghost before = out@;
        if !(lo_x >= width || hi_x < 0) {
            let x_begin = if lo_x < 0 { 0 } else { lo_x };
            let x_end = if hi_x > width - 1 { width - 1 } else { hi_x };
            out.push(Span { y, x_begin, x_end });
        }
        assert(span_rows(*f, lo as int, y + 1, width as int) == span_rows(
            *f,
            lo as int,
            y as int,
            width as int,
        ) + match row_span(*f, y as int, width as int) {
            Some(s) => seq![s],
            None => seq![],
        });
        assert(out@ == old(out)@ + span_rows(*f, lo as int, y + 1, width as int));
        y = y + 1;
    }
}

/// The spans that fill `tri` on a surface of `width` by `height` pixels,
/// top to bottom: each row from the triangle's top row down to, but not
/// including, its bottom row, and not past row `height - 2`, between its two
/// edges and cut to the columns `0 ..= width - 1`. Rows that lie wholly left
/// or right of the surface give no span.
pub fn scanline_spans(tri: &Triangle2D, width: i32, height: i32) -> (r: Vec<Span>)
    requires
        width > 0,
        height > 0,
    ensures
        r@ == triangle_spans(*tri, width as int, height as int),
        forall|k: int| 0 <= k < r@.len() ==> (#[trigger] r@[k]).within(width as int, height as int),
{
    let (h1, h2) = fix_triangle(tri);
    let mut r: Vec<Span> = Vec::new();
    push_flat_spans(&h1, width, height, &mut r);
    push_flat_spans(&h2, width, height, &mut r);
    assert(r@ == triangle_spans(*tri, width as int, height as int));
    r
}

/// Byte `i` of an RGB buffer with rows `pitch` bytes apart belongs to a
/// pixel of one of `spans` whose row is a multiple of `step`.
pub open spec fn covered(spans: Seq<Span>, pitch: int, step: int, i: int) -> bool {
    exists|k: int|
        0 <= k < spans.len() && (#[trigger] spans[k]).covers_byte(pitch, i) && (spans[k].y as int) % step == 0
}

/// `buf` with every pixel of those `spans` whose row is a multiple of `step`
/// set to `color`: red, green and blue at byte offsets 0, 1 and 2 of the
/// pixel.
pub open spec fn painted(buf: Seq<u8>, spans: Seq<Span>, pitch: int, step: int, color: Color) -> Seq<u8> {
    Seq::new(
        buf.len(),
        |i: int|
            if covered(spans, pitch, step, i) {
                color.channel((i % pitch) % 3)
            } else {
                buf[i]
            },
    )
}

proof fn lemma_covered_extend(spans: Seq<Span>, k: int, pitch: int, step: int, i: int)
    requires
        0 <= k < spans.len(),
    ensures
        covered(spans.take(k + 1), pitch, step, i) == (covered(spans.take(k), pitch, step, i) || (
        spans[k].covers_byte(pitch, i) && (spans[k].y as int) % step == 0)),
{
    if covered(spans.take(k + 1), pitch, step, i) {
        let j = choose|j: int|
            0 <= j < spans.take(k + 1).len() && (#[trigger] spans.take(k + 1)[j]).covers_byte(
                pitch,
                i,
            ) && (spans.take(k + 1)[j].y as int) % step == 0;
        if j < k {
            assert(spans.take(k)[j] == spans[j]);
        }
    }
    if covered(spans.take(k), pitch, step, i) {
        let j = choose|j: int|
            0 <= j < spans.take(k).len() && (#[trigger] spans.take(k)[j]).covers_byte(pitch, i)
                && (spans.take(k)[j].y as int) % step == 0;
        assert(spans.take(k + 1)[j] == spans[j]);
    }
    if spans[k].covers_byte(pitch, i) && (spans[k].y as int) % step == 0 {
        assert(spans.take(k + 1)[k] == spans[k]);
    }
}

/// What byte `i` of `buf` holds once `color` is written at the pixels of
/// `spans` and, where `more` holds, at byte `i` too.
spec fn painted_byte(buf: Seq<u8>, spans: Seq<Span>, pitch: int, step: int, color: Color, i: int, more: bool) -> u8 {
    if covered(spans, pitch, step, i) || more {
        color.channel((i % pitch) % 3)
    } else {
        buf[i]
    }
}

/// Byte `i` lies in row `row`, in the pixels `x_begin <= x < x_end`.
spec fn in_row_part(pitch: int, i: int, row: int, x_begin: int, x_end: int) -> bool {
    i / pitch == row && 3 * x_begin <= i % pitch < 3 * x_end
}

/// Byte `c` of the pixel at column `x` of row `row` lies at `off + c`.
proof fn lemma_pixel_byte(off: int, p: int, row: int, x: int, c: int)
    requires
        off == row * p + 3 * x,
        0 <= x,
        0 <= c < 3,
        3 * x + c < p,
    ensures
        (off + c) / p == row,
        (off + c) % p == 3 * x + c,
        (3 * x + c) % 3 == c,
{
    lemma_fundamental_div_mod_converse(off + c, p, row, 3 * x + c);
    lemma_fundamental_div_mod_converse(3 * x + c, 3, x, c);
}

/// Sets every pixel of those `spans` whose row is a multiple of `step` to
/// `color`.
fn paint_spans(
    spans: &Vec<Span>,
    color: Color,
    pixels: &mut Vec<u8>,
    pitch: usize,
    step: i32,
    width: i32,
    height: i32,
)
    requires
        step > 0,
        width > 0,
        height > 0,
        3 * width <= pitch,
        pitch * height <= old(pixels)@.len(),
        forall|k: int| 0 <= k < spans@.len() ==> (#[trigger] spans@[k]).within(width as int, height as int),
    ensures
        final(pixels)@ == painted(old(pixels)@, spans@, pitch as int, step as int, color),
{
    let ghost orig = pixels@;
    let ghost p = pitch as int;
    let n: usize = pixels.len();
    let mut k: usize = 0;
    while k < spans.len()
        invariant
            k <= spans@.len(),
            p == pitch,
            n == orig.len(),
            step > 0,
            width > 0,
            height > 0,
            3 * width <= pitch,
            pitch * height <= orig.len(),
            pixels@.len() == orig.len(),
            forall|j: int| 0 <= j < spans@.len() ==> (#[trigger] spans@[j]).within(width as int, height as int),
            forall|i: int|
                0 <= i < orig.len() ==> pixels@[i] == painted_byte(orig, spans@.take(k as int), p, step as int, color, i, false),
        decreases spans@.len() - k,
    {
        let s = spans[k];
        assert(s.within(width as int, height as int));
        let row: usize = s.y as usize;
        assert(row * pitch + 3 * s.x_end <= pitch * height) by (nonlinear_arith)
            requires
                0 <= row < height,
                3 * s.x_end <= 3 * width <= pitch,
        ;
        assert(row * pitch <= n);
        let base: usize = row * pitch;
        let mut x: usize = s.x_begin as usize;
        let x_end: usize = if s.y % step == 0 { s.x_end as usize } else { x };
        while x < x_end
            invariant
                s == spans@[k as int],
                s.within(width as int, height as int),
                k < spans@.len(),
                p == pitch,
                n == orig.len(),
                row == s.y,
                base == row * pitch,
                row * pitch + 3 * s.x_end <= pitch * height,
                s.x_begin <= x <= x_end <= s.x_end,
                x_end == (if s.y % step == 0 { s.x_end } else { s.x_begin }),
                step > 0,
                3 * width <= pitch,
                pitch * height <= orig.len(),
                pixels@.len() == orig.len(),
                forall|i: int|
                    0 <= i < orig.len() ==> pixels@[i] == painted_byte(
                        orig,
                        spans@.take(k as int),
                        p,
                        step as int,
                        color,
                        i,
                        s.y % step == 0 && in_row_part(p, i, row as int, s.x_begin as int, x as int),
                    ),
            decreases x_end - x,
        {
            assert(base + 3 * x + 3 <= n);
            let off: usize = base + 3 * x;
            proof {
                lemma_pixel_byte(off as int, p, row as int, x as int, 0);
                lemma_pixel_byte(off as int, p, row as int, x as int, 1);
                lemma_pixel_byte(off as int, p, row as int, x as int, 2);
            }
            pixels.set(off, color.r);
            pixels.set(off + 1, color.g);
            pixels.set(off + 2, color.b);
            proof {
                assert forall|i: int| 0 <= i < orig.len() implies pixels@[i] == painted_byte(
                    orig,
                    spans@.take(k as int),
                    p,
                    step as int,
                    color,
                    i,
                    s.y % step == 0 && in_row_part(p, i, row as int, s.x_begin as int, x + 1),
                ) by {
                    lemma_fundamental_div_mod(i, p);
                    if in_row_part(p, i, row as int, x as int, x + 1) {
                        assert(i == off + (i % p - 3 * x)) by (nonlinear_arith)
                            requires
                                i == p * (i / p) + i % p,
                                i / p == row,
                                off == row * p + 3 * x,
                        ;
                    }
                }
            }
            x = x + 1;
        }
        proof {
            assert forall|i: int| 0 <= i < orig.len() implies pixels@[i] == painted_byte(
                orig,
                spans@.take(k + 1),
                p,
                step as int,
                color,
                i,
                false,
            ) by {
                lemma_covered_extend(spans@, k as int, p, step as int, i);
            }
        }
        k = k + 1;
    }
    assert(spans@.take(spans@.len() as int) == spans@);
    assert(pixels@ == painted(orig, spans@, p, step as int, color));
}

/// Fills `tri`, moved by `(xoffset, yoffset)`, with `color` in an RGB buffer
/// of `width` by `height` pixels whose rows are `pitch` bytes apart: every
/// pixel of its scanline spans on a row that is a multiple of `row_step`
/// gets the colour, every other byte keeps its value. A `row_step` of 1
/// fills every row; a larger one trades coverage for speed.
pub fn draw_triangle_solid(
    tri: Triangle2D,
    xoffset: i32,
    yoffset: i32,
    color: Color,
    pixels: &mut Vec<u8>,
    pitch: usize,
    row_step: i32,
    width: i32,
    height: i32,
)
    requires
        row_step > 0,
        tri.can_offset(xoffset as int, yoffset as int),
        width > 0,
        height > 0,
        3 * width <= pitch,
        pitch * height <= old(pixels)@.len(),
    ensures
        final(pixels)@ == painted(
            old(pixels)@,
            triangle_spans(tri.spec_offset(xoffset as int, yoffset as int), width as int, height as int),
            pitch as int,
            row_step as int,
            color,
        ),
{
    let moved = tri.offset(xoffset, yoffset);
    let spans = scanline_spans(&moved, width, height);
    paint_spans(&spans, color, pixels, pitch, row_step, width, height);
}

/// The outline of `tri` sorted by `y` and moved by `(xoffset, yoffset)`:
/// its three sides, `v0 -> v1`, `v1 -> v2` and `v2 -> v0`.
pub open spec fn outline(tri: Triangle2D, xoffset: int, yoffset: int) -> Seq<(Point2f, Point2f)> {
    let m = tri.y_sorted().spec_offset(xoffset, yoffset);
    seq![(m.v0, m.v1), (m.v1, m.v2), (m.v2, m.v0)]
}

/// The vertex marker of index `i` of the `y`-sorted `tri`, at its position
/// moved by `(xoffset, yoffset)`; none where the vertex lies outside the
/// surface `0 ..= width` by `0 ..= height`.
pub open spec fn marker(tri: Triangle2D, i: int, xoffset: int, yoffset: int, width: int, height: int) -> Seq<(usize, Point2f)> {
    let v = tri.y_sorted().vert(i);
    if 0 <= v.x <= width && 0 <= v.y <= height {
        seq![(i as usize, v.spec_offset(xoffset, yoffset))]
    } else {
        seq![]
    }
}

/// The markers of the three vertices of the `y`-sorted `tri`, in order.
pub open spec fn markers(tri: Triangle2D, xoffset: int, yoffset: int, width: int, height: int) -> Seq<(usize, Point2f)> {
    marker(tri, 0, xoffset, yoffset, width, height) + marker(tri, 1, xoffset, yoffset, width, height)
        + marker(tri, 2, xoffset, yoffset, width, height)
}

/// The three sides of `tri`, sorted by `y` and moved by the offset, to be
/// drawn as lines.
pub fn wireframe_edges(tri: &Triangle2D, xoffset: i32, yoffset: i32) -> (r: Vec<(Point2f, Point2f)>)
    requires
        tri.can_offset(xoffset as int, yoffset as int),
    ensures
        r@ == outline(*tri, xoffset as int, yoffset as int),
{
    let m = tri.sort().offset(xoffset, yoffset);
    let mut r: Vec<(Point2f, Point2f)> = Vec::new();
    r.push((m.v0, m.v1));
    r.push((m.v1, m.v2));
    r.push((m.v2, m.v0));
    r
}

/// The vertices of `tri`, sorted by `y`, that lie on the surface of `width`
/// by `height` pixels, each with its index and its position moved by the
/// offset, for a marker square to be drawn round it.
pub fn wireframe_markers(tri: &Triangle2D, xoffset: i32, yoffset: i32, width: i32, height: i32) -> (r: Vec<(usize, Point2f)>)
    requires
        tri.can_offset(xoffset as int, yoffset as int),
    ensures
        r@ == markers(*tri, xoffset as int, yoffset as int, width as int, height as int),
{
    let s = tri.sort();
    let mut r: Vec<(usize, Point2f)> = Vec::new();
    let mut i: usize = 0;
    while i < 3
        invariant
            i <= 3,
            s == tri.y_sorted(),
            s.is_y_sorted(),
            tri.same_corners(s),
            tri.can_offset(xoffset as int, yoffset as int),
            r@ == (if i == 0 {
                seq![]
            } else if i == 1 {
                marker(*tri, 0, xoffset as int, yoffset as int, width as int, height as int)
            } else if i == 2 {
                marker(*tri, 0, xoffset as int, yoffset as int, width as int, height as int) + marker(
                    *tri,
                    1,
                    xoffset as int,
                    yoffset as int,
                    width as int,
                    height as int,
                )
            } else {
                markers(*tri, xoffset as int, yoffset as int, width as int, height as int)
            }),
        decreases 3 - i,
    {
        let (x, y) = s.get_vert(i);
        if 0 <= x && x <= width && 0 <= y && y <= height {
            let v = Point2f::new(x, y);
            assert(v.can_offset(xoffset as int, yoffset as int));
            r.push((i, v.offset(xoffset, yoffset)));
        }
        proof {
            if i == 0 {
                assert(r@ =~= marker(*tri, 0, xoffset as int, yoffset as int, width as int, height as int));
            } else if i == 1 {
                assert(r@ =~= marker(*tri, 0, xoffset as int, yoffset as int, width as int, height as int)
                    + marker(*tri, 1, xoffset as int, yoffset as int, width as int, height as int));
            } else {
                assert(r@ =~= markers(*tri, xoffset as int, yoffset as int, width as int, height as int));
            }
        }
        i = i + 1;
    }
    r
}

} // verus!
