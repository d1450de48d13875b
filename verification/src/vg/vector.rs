//! The rasterizer's state: its bounds, its cells, the pen, and the choice
//! between the two coverage engines.

use vstd::prelude::*;
use vstd::arithmetic::div_mod::{
    lemma_fundamental_div_mod,
    lemma_fundamental_div_mod_converse,
    lemma_mod_bound,
};
use crate::image::{lemma_offset_bounds, offset_of, Rectangle, RGBA};
use crate::vg::raster_fixed::fixed_mask;
use crate::vg::{padded, zeros, Op, Rasterizer, SimdVec};

verus! {

/// The width or height above which coverage is computed in floating point
/// instead of fixed point. A side of exactly this length keeps fixed point.
pub const FPM_THRESHOLD: usize = 512;

/// One byte of a pixel after `Over`: the destination byte `d`, widened to
/// 16 bits, keeps the share that the source alpha `sa` under the coverage
/// `ma` leaves, and the source component `s` adds its share.
pub open spec fn over_byte(d: u8, s: u32, sa: u32, ma: u32) -> u8 {
    let a = 0xFFFF - sa * ma / 0xFFFF;
    ((d * 0x101 * a + s * ma) / 0xFFFF / 256) as u8
}

/// One byte of a pixel after `Src`: the share of the source component `s`
/// under the coverage `ma`.
pub open spec fn src_byte(s: u32, ma: u32) -> u8 {
    (s * ma / 0xFFFF / 256) as u8
}

/// One byte of a pixel after a draw with the operator `op`.
pub open spec fn drawn_byte(op: Op, d: u8, s: u32, sa: u32, ma: u32) -> u8 {
    match op {
        Op::Over => over_byte(d, s, sa, ma),
        Op::Src => src_byte(s, ma),
    }
}

/// The place among red, green, blue and alpha, the order of a source colour,
/// of the channel that byte `b` of a pixel holds: a pixel keeps blue, green,
/// red and alpha, so its first byte takes the third component and its third
/// byte the first.
pub open spec fn component(b: int) -> int {
    if b == 0 {
        2
    } else if b == 2 {
        0
    } else {
        b
    }
}

/// The bytes of an image after a draw that has reached the pixel `(x, y)`
/// of a target `w` pixels wide, row by row: the target starts at the byte
/// `origin`, and its pixel `(i, j)` takes the coverage `mask[j * mask_width +
/// i]`. `color` holds red, green, blue and alpha; each byte of a pixel takes
/// the component of its own channel, and `color[3]` is the alpha. Bytes
/// outside the target stay.
pub open spec fn drawn_upto(
    op: Op,
    pix: Seq<u8>,
    origin: int,
    stride: int,
    w: int,
    y: int,
    x: int,
    mask: Seq<u32>,
    mask_width: int,
    color: Seq<u32>,
) -> Seq<u8> {
    Seq::new(
        pix.len(),
        |k: int|
            {
                let rel = k - origin;
                let row = rel / stride;
                let b = rel % stride;
                if rel >= 0 && ((row < y && b < 4 * w) || (row == y && b < 4 * x)) {
                    drawn_byte(
                        op,
                        pix[k],
                        color[component(b % 4)],
                        color[3],
                        mask[row * mask_width + b / 4],
                    )
                } else {
                    pix[k]
                }
            },
    )
}

/// The bytes of an image after a draw on a target of `w` by `h` pixels.
pub open spec fn drawn(
    op: Op,
    pix: Seq<u8>,
    origin: int,
    stride: int,
    w: int,
    h: int,
    mask: Seq<u32>,
    mask_width: int,
    color: Seq<u32>,
) -> Seq<u8> {
    drawn_upto(op, pix, origin, stride, w, h, 0, mask, mask_width, color)
}

/// The cells, each limited to the largest 16-bit coverage.
pub open spec fn limited(cells: Seq<u32>) -> Seq<u32> {
    Seq::new(cells.len(), |i: int| if cells[i] > 0xFFFF { 0xFFFFu32 } else { cells[i] })
}

/// A 16-bit source colour that a draw with `op` accepts: each component is
/// at most `0xFFFF`, and for `Over` at most the alpha, as premultiplied
/// colours are.
pub open spec fn is_source(op: Op, color: Seq<u32>) -> bool {
    &&& color.len() == 4
    &&& color[3] <= 0xFFFF
    &&& forall|k: int| 0 <= k < 3 ==> #[trigger] color[k] <= (if op is Over { color[3] } else { 0xFFFFu32 })
}

/// With a premultiplied source the sum that `Over` divides fits 32 bits, and
/// the byte it gives is a byte.
pub proof fn lemma_over_fits(d: u8, s: u32, sa: u32, ma: u32)
    requires
        s <= sa <= 0xFFFF,
        ma <= 0xFFFF,
    ensures
        sa * ma <= 0xFFFE_0001,
        0 <= sa * ma / 0xFFFF <= 0xFFFF,
        0 <= d * 0x101 * (0xFFFF - sa * ma / 0xFFFF) + s * ma <= 0xFFFF_0000,
        (d * 0x101 * (0xFFFF - sa * ma / 0xFFFF) + s * ma) / 0xFFFF / 256 <= 0xFF,
{
    let q = sa * ma / 0xFFFF;
    assert(0 <= sa * ma <= 0xFFFE_0001 && 0 <= s * ma <= sa * ma) by (nonlinear_arith)
        requires
            0 <= s <= sa <= 0xFFFF,
            0 <= ma <= 0xFFFF,
    ;
    lemma_fundamental_div_mod(sa * ma, 0xFFFF);
    let a = 0xFFFF - q;
    assert(0 <= d * 0x101 * a <= 0xFFFF * a) by (nonlinear_arith)
        requires
            0 <= d <= 255,
            0 <= a,
    ;
}

/// The share of a 16-bit source under a 16-bit coverage is a 16-bit value.
pub proof fn lemma_src_fits(s: u32, ma: u32)
    requires
        s <= 0xFFFF,
        ma <= 0xFFFF,
    ensures
        s * ma <= 0xFFFE_0001,
        s * ma / 0xFFFF / 256 <= 0xFF,
{
    assert(0 <= s * ma <= 0xFFFE_0001) by (nonlinear_arith)
        requires
            0 <= s <= 0xFFFF,
            0 <= ma <= 0xFFFF,
    ;
}

/// The row and the byte within the row of the byte `k` of an image whose
/// target starts at `origin`.
pub proof fn lemma_row_of_byte(k: int, origin: int, stride: int)
    requires
        0 < stride,
        origin <= k,
    ensures
        0 <= (k - origin) / stride,
        0 <= (k - origin) % stride < stride,
        k == origin + ((k - origin) / stride) * stride + (k - origin) % stride,
{
    let rel = k - origin;
    lemma_fundamental_div_mod(rel, stride);
    lemma_mod_bound(rel, stride);
    assert(stride * (rel / stride) == (rel / stride) * stride) by (nonlinear_arith);
    assert(0 <= rel / stride) by (nonlinear_arith)
        requires
            0 < stride,
            0 <= rel,
            rel == stride * (rel / stride) + rel % stride,
            0 <= rel % stride < stride,
    ;
}

/// The byte `c` of the pixel `(x, y)` of a target lies in row `y`, `4 * x +
/// c` bytes from its start.
pub proof fn lemma_byte_of_pixel(origin: int, stride: int, w: int, y: int, x: int, c: int)
    requires
        0 <= x < w,
        4 * w <= stride,
        0 <= c < 4,
    ensures
        (y * stride + 4 * x + c) / stride == y,
        (y * stride + 4 * x + c) % stride == 4 * x + c,
        (4 * x + c) / 4 == x,
        (4 * x + c) % 4 == c,
{
    lemma_fundamental_div_mod_converse(y * stride + 4 * x + c, stride, y, 4 * x + c);
}

/// Nothing is drawn before the first pixel.
pub proof fn lemma_drawn_none(
    op: Op,
    pix: Seq<u8>,
    origin: int,
    stride: int,
    w: int,
    mask: Seq<u32>,
    mask_width: int,
    color: Seq<u32>,
)
    requires
        0 < stride,
    ensures
        drawn_upto(op, pix, origin, stride, w, 0, 0, mask, mask_width, color) == pix,
{
    let out = drawn_upto(op, pix, origin, stride, w, 0, 0, mask, mask_width, color);
    assert forall|k: int| 0 <= k < pix.len() implies out[k] == pix[k] by {
        if origin <= k {
            lemma_row_of_byte(k, origin, stride);
        }
    }
    assert(out =~= pix);
}

/// A row that was drawn to its end is the start of the next row.
pub proof fn lemma_drawn_row(
    op: Op,
    pix: Seq<u8>,
    origin: int,
    stride: int,
    w: int,
    y: int,
    mask: Seq<u32>,
    mask_width: int,
    color: Seq<u32>,
)
    requires
        0 < stride,
    ensures
        drawn_upto(op, pix, origin, stride, w, y, w, mask, mask_width, color) == drawn_upto(
            op,
            pix,
            origin,
            stride,
            w,
            y + 1,
            0,
            mask,
            mask_width,
            color,
        ),
{
    let a = drawn_upto(op, pix, origin, stride, w, y, w, mask, mask_width, color);
    let b = drawn_upto(op, pix, origin, stride, w, y + 1, 0, mask, mask_width, color);
    assert forall|k: int| 0 <= k < pix.len() implies a[k] == b[k] by {
        if origin <= k {
            lemma_row_of_byte(k, origin, stride);
        }
    }
    assert(a =~= b);
}

/// Drawing the four bytes of the pixel `(x, y)` leads from the draw that
/// has reached it to the draw that has reached the next pixel.
#[verifier::rlimit(50)]
pub proof fn lemma_drawn_step(
    op: Op,
    pix: Seq<u8>,
    origin: int,
    stride: int,
    w: int,
    y: int,
    x: int,
    mask: Seq<u32>,
    mask_width: int,
    color: Seq<u32>,
    next: Seq<u8>,
)
    requires
        0 <= origin,
        0 <= y,
        0 <= x < w,
        4 * w <= stride,
        origin + y * stride + 4 * x + 4 <= pix.len(),
        0 <= y * stride,
        next.len() == pix.len(),
        forall|k: int|
            0 <= k < pix.len() && !(origin + y * stride + 4 * x <= k < origin + y * stride + 4 * x
                + 4) ==> #[trigger] next[k] == drawn_upto(
                op,
                pix,
                origin,
                stride,
                w,
                y,
                x,
                mask,
                mask_width,
                color,
            )[k],
        forall|k: int|
            origin + y * stride + 4 * x <= k < origin + y * stride + 4 * x + 4 ==> #[trigger] next[k]
                == drawn_byte(
                op,
                pix[k],
                color[component(k - (origin + y * stride + 4 * x))],
                color[3],
                mask[y * mask_width + x],
            ),
    ensures
        next == drawn_upto(op, pix, origin, stride, w, y, x + 1, mask, mask_width, color),
{
    let i = origin + y * stride + 4 * x;
    let before = drawn_upto(op, pix, origin, stride, w, y, x, mask, mask_width, color);
    let after = drawn_upto(op, pix, origin, stride, w, y, x + 1, mask, mask_width, color);
    assert forall|k: int| 0 <= k < pix.len() implies next[k] == after[k] by {
        let rel = k - origin;
        if i <= k < i + 4 {
            let c = k - i;
            lemma_byte_of_pixel(origin, stride, w, y, x, c);
            assert(rel == y * stride + 4 * x + c);
        } else {
            assert(next[k] == before[k]);
            if origin <= k {
                lemma_row_of_byte(k, origin, stride);
                let row = rel / stride;
                let b = rel % stride;
                if row == y {
                    assert(k == origin + y * stride + b);
                    assert(!(4 * x <= b < 4 * x + 4));
                }
            }
        }
    }
    assert(next =~= after);
}

/// What a draw leaves in byte `c` of the pixel `(x, y)` of its target: the
/// byte drawn from the byte that was there, the component of its channel
/// and the coverage of the pixel.
pub proof fn lemma_drawn_pixel(
    op: Op,
    pix: Seq<u8>,
    origin: int,
    stride: int,
    w: int,
    h: int,
    mask: Seq<u32>,
    mask_width: int,
    color: Seq<u32>,
    x: int,
    y: int,
    c: int,
)
    requires
        0 <= origin,
        0 <= x < w,
        0 <= y < h,
        0 <= c < 4,
        4 * w <= stride,
        origin + y * stride + 4 * x + c < pix.len(),
    ensures
        0 <= origin + y * stride + 4 * x + c,
        drawn(op, pix, origin, stride, w, h, mask, mask_width, color)[origin + y * stride + 4 * x
            + c] == drawn_byte(
            op,
            pix[origin + y * stride + 4 * x + c],
            color[component(c)],
            color[3],
            mask[y * mask_width + x],
        ),
{
    lemma_byte_of_pixel(origin, stride, w, y, x, c);
    assert(0 <= y * stride) by (nonlinear_arith)
        requires
            0 <= y,
            0 <= stride,
    ;
}

/// A draw leaves the bytes before its target as they were.
pub proof fn lemma_drawn_before(
    op: Op,
    pix: Seq<u8>,
    origin: int,
    stride: int,
    w: int,
    h: int,
    mask: Seq<u32>,
    mask_width: int,
    color: Seq<u32>,
    k: int,
)
    requires
        0 <= k < pix.len(),
        k < origin,
    ensures
        drawn(op, pix, origin, stride, w, h, mask, mask_width, color)[k] == pix[k],
{
}

/// A draw leaves the bytes of a row that lie right of its target, and the
/// rows below it, as they were.
pub proof fn lemma_drawn_beside(
    op: Op,
    pix: Seq<u8>,
    origin: int,
    stride: int,
    w: int,
    h: int,
    mask: Seq<u32>,
    mask_width: int,
    color: Seq<u32>,
    row: int,
    b: int,
)
    requires
        0 < stride,
        0 <= row,
        0 <= b < stride,
        0 <= h,
        4 * w <= b || h <= row,
        0 <= origin + row * stride + b < pix.len(),
    ensures
        drawn(op, pix, origin, stride, w, h, mask, mask_width, color)[origin + row * stride + b]
            == pix[origin + row * stride + b],
{
    lemma_fundamental_div_mod_converse(row * stride + b, stride, row, b);
}

/// `Src` with every component at `0xFFFF` turns the coverage into the byte:
/// the high eight bits of the 16-bit coverage.
pub proof fn lemma_src_white(ma: u32)
    requires
        ma <= 0xFFFF,
    ensures
        src_byte(0xFFFF, ma) == ma / 256,
{
    assert(0xFFFF * ma / 0xFFFF == ma) by (nonlinear_arith)
        requires
            0 <= ma,
    ;
}

/// `Over` with an opaque source under full coverage puts the high eight bits
/// of the source component in place of the byte that was there.
pub proof fn lemma_over_opaque(d: u8, s: u32)
    requires
        s <= 0xFFFF,
    ensures
        over_byte(d, s, 0xFFFF, 0xFFFF) == s / 256,
{
    assert(0xFFFFu32 * 0xFFFFu32 / 0xFFFF == 0xFFFF) by (nonlinear_arith);
    assert(d * 0x101 * 0 == 0) by (nonlinear_arith);
    assert((0 + s * 0xFFFF) / 0xFFFF == s) by (nonlinear_arith)
        requires
            0 <= s,
    ;
}

/// A draw with `Src` and every component at `0xFFFF` leaves in each byte of
/// each pixel of the target the high eight bits of the coverage of the
/// pixel, whatever was there.
pub proof fn lemma_src_white_pixel(
    pix: Seq<u8>,
    origin: int,
    stride: int,
    w: int,
    h: int,
    mask: Seq<u32>,
    mask_width: int,
    x: int,
    y: int,
    c: int,
)
    requires
        0 <= origin,
        0 <= x < w,
        0 <= y < h,
        0 <= c < 4,
        4 * w <= stride,
        origin + y * stride + 4 * x + c < pix.len(),
        mask[y * mask_width + x] <= 0xFFFF,
    ensures
        drawn(
            Op::Src,
            pix,
            origin,
            stride,
            w,
            h,
            mask,
            mask_width,
            seq![0xFFFFu32, 0xFFFFu32, 0xFFFFu32, 0xFFFFu32],
        )[origin + y * stride + 4 * x + c] == mask[y * mask_width + x] / 256,
{
    let white = seq![0xFFFFu32, 0xFFFFu32, 0xFFFFu32, 0xFFFFu32];
    lemma_drawn_pixel(Op::Src, pix, origin, stride, w, h, mask, mask_width, white, x, y, c);
    lemma_src_white(mask[y * mask_width + x]);
}

/// A draw with `Over` and an opaque source overwrites each byte of a fully
/// covered pixel with the high eight bits of the source component of its
/// channel: blue, green, red, and `0xFF` for the alpha.
pub proof fn lemma_over_opaque_pixel(
    pix: Seq<u8>,
    origin: int,
    stride: int,
    w: int,
    h: int,
    mask: Seq<u32>,
    mask_width: int,
    color: Seq<u32>,
    x: int,
    y: int,
    c: int,
)
    requires
        0 <= origin,
        0 <= x < w,
        0 <= y < h,
        0 <= c < 4,
        4 * w <= stride,
        origin + y * stride + 4 * x + c < pix.len(),
        is_source(Op::Over, color),
        color[3] == 0xFFFF,
        mask[y * mask_width + x] == 0xFFFF,
    ensures
        drawn(Op::Over, pix, origin, stride, w, h, mask, mask_width, color)[origin + y * stride + 4
            * x + c] == color[component(c)] / 256,
{
    lemma_drawn_pixel(Op::Over, pix, origin, stride, w, h, mask, mask_width, color, x, y, c);
    lemma_over_opaque(pix[origin + y * stride + 4 * x + c], color[component(c)]);
}

/// Limited cells are 16-bit coverage values.
pub proof fn lemma_limited_is_mask(cells: Seq<u32>)
    ensures
        limited(cells).len() == cells.len(),
        forall|i: int| 0 <= i < cells.len() ==> #[trigger] limited(cells)[i] <= 0xFFFF,
{
}

/// Integrated deltas are 16-bit coverage values.
pub proof fn lemma_fixed_mask_is_mask(cells: Seq<u32>)
    ensures
        fixed_mask(cells).len() == cells.len(),
        forall|i: int| 0 <= i < cells.len() ==> #[trigger] fixed_mask(cells)[i] <= 0xFFFF,
{
}

/// The mask has a coverage for each cell.
pub proof fn lemma_mask_len(cells: Seq<u32>)
    ensures
        fixed_mask(cells).len() == cells.len(),
{
}

/// The pixel `(x, y)` of a target lies `y` rows and `x` pixels after the
/// first pixel of the target.
pub proof fn lemma_pixel_offset(bounds: Rectangle, stride: int, r: Rectangle, x: int, y: int)
    ensures
        offset_of(bounds, stride, r.min.x + x, r.min.y + y) == offset_of(
            bounds,
            stride,
            r.min.x as int,
            r.min.y as int,
        ) + y * stride + 4 * x,
{
    assert((r.min.y + y - bounds.min.y) * stride == (r.min.y - bounds.min.y) * stride + y * stride)
        by (nonlinear_arith);
}

/// One byte of a pixel after `Over`.
fn over_channel(d: u8, s: u32, sa: u32, ma: u32) -> (b: u8)
    requires
        s <= sa <= 0xFFFF,
        ma <= 0xFFFF,
    ensures
        b == over_byte(d, s, sa, ma),
{
    proof {
        lemma_over_fits(d, s, sa, ma);
    }
    let a: u32 = 0xFFFF - (sa * ma / 0xFFFF);
    let wide: u32 = (d as u32) * 0x101;
    assert(wide * a <= 0xFFFF * a) by (nonlinear_arith)
        requires
            wide <= 0xFFFF,
            0 <= a,
    ;
    ((wide * a + s * ma) / 0xFFFF / 256) as u8
}

/// One byte of a pixel after `Src`.
fn src_channel(s: u32, ma: u32) -> (b: u8)
    requires
        s <= 0xFFFF,
        ma <= 0xFFFF,
    ensures
        b == src_byte(s, ma),
{
    proof {
        lemma_src_fits(s, ma);
    }
    (s * ma / 0xFFFF / 256) as u8
}

/// One byte of a pixel after a draw with the operator `op`.
fn draw_channel(op: Op, d: u8, s: u32, sa: u32, ma: u32) -> (b: u8)
    requires
        sa <= 0xFFFF,
        ma <= 0xFFFF,
        s <= (if op is Over { sa } else { 0xFFFFu32 }),
    ensures
        b == drawn_byte(op, d, s, sa, ma),
{
    match op {
        Op::Over => over_channel(d, s, sa, ma),
        Op::Src => src_channel(s, ma),
    }
}

impl Rasterizer {
    /// The cells of the buffer: area deltas while a path is being added, the
    /// coverage mask after they were integrated.
    pub closed spec fn cells(&self) -> Seq<u32> {
        self.buf@
    }

    /// The width of the mask in pixels.
    pub closed spec fn width(&self) -> int {
        self.size[0] as int
    }

    /// The height of the mask in pixels.
    pub closed spec fn height(&self) -> int {
        self.size[1] as int
    }

    /// Whether the floating-point engine is selected.
    pub closed spec fn floating(&self) -> bool {
        self.use_fpm
    }

    /// The operator of the next draw: the field `draw_op`.
    pub closed spec fn op(&self) -> Op {
        self.draw_op
    }

    /// The pen, as two bit patterns.
    pub closed spec fn pen_bits(&self) -> (u32, u32) {
        (self.pen[0], self.pen[1])
    }

    /// The start of the current sub-path, as two bit patterns.
    pub closed spec fn first_bits(&self) -> (u32, u32) {
        (self.first[0], self.first[1])
    }

    /// The buffer holds `width * height` cells rounded up to a multiple of
    /// four, a count that fits the machine, and the engine follows from the
    /// bounds.
    pub open spec fn wf(&self) -> bool {
        &&& 0 <= self.width()
        &&& 0 <= self.height()
        &&& self.width() * self.height() + 3 <= usize::MAX
        &&& self.cells().len() == padded(self.width() * self.height())
        &&& self.floating() == (self.width() > FPM_THRESHOLD || self.height() > FPM_THRESHOLD)
    }

    /// Every cell is a 16-bit coverage value.
    pub open spec fn is_mask(&self) -> bool {
        forall|i: int| 0 <= i < self.cells().len() ==> #[trigger] self.cells()[i] <= 0xFFFF
    }

    /// A rasterizer whose mask is bounded by the given width and height, with
    /// every cell zero, the pen at the origin and the operator `Over`.
    pub fn new(w: usize, h: usize) -> (z: Self)
        requires
            w * h + 3 <= usize::MAX,
        ensures
            z.wf(),
            z.width() == w,
            z.height() == h,
            z.cells() == zeros(padded(w * h)),
            z.pen_bits() == (0u32, 0u32),
            z.first_bits() == (0u32, 0u32),
            z.op() is Over,
    {
        Self {
            size: [w, h],
            first: [0, 0],
            pen: [0, 0],
            draw_op: Op::Over,
            use_fpm: w > FPM_THRESHOLD || h > FPM_THRESHOLD,
            buf: SimdVec::new(w * h),
        }
    }

    /// Resets the rasterizer as if it was just returned by `new`, with the
    /// operator `op`.
    pub fn reset(&mut self, w: usize, h: usize, op: Op)
        requires
            w * h + 3 <= usize::MAX,
        ensures
            final(self).wf(),
            final(self).width() == w,
            final(self).height() == h,
            final(self).cells() == zeros(padded(w * h)),
            final(self).pen_bits() == (0u32, 0u32),
            final(self).first_bits() == (0u32, 0u32),
            final(self).op() == op,
    {
        self.size = [w, h];
        self.first = [0, 0];
        self.pen = [0, 0];
        self.draw_op = op;
        self.use_fpm = w > FPM_THRESHOLD || h > FPM_THRESHOLD;
        self.buf.recycle(w * h);
    }

    /// Resets the rasterizer with its size and the operator `Over`.
    pub fn clear(&mut self)
        requires
            old(self).wf(),
        ensures
            final(self).wf(),
            final(self).width() == old(self).width(),
            final(self).height() == old(self).height(),
            final(self).cells() == zeros(padded(old(self).width() * old(self).height())),
            final(self).pen_bits() == (0u32, 0u32),
            final(self).first_bits() == (0u32, 0u32),
            final(self).op() is Over,
    {
        let w: usize = self.size[0];
        let h: usize = self.size[1];
        self.reset(w, h, Op::Over);
    }

    /// The width and height given to `new` or `reset`.
    pub fn size(&self) -> (s: [usize; 2])
        ensures
            s[0] == self.width(),
            s[1] == self.height(),
    {
        self.size
    }

    /// Whether the floating-point engine is selected.
    pub fn use_fpm(&self) -> (f: bool)
        ensures
            f == self.floating(),
    {
        self.use_fpm
    }

    /// The cells, read-only.
    pub fn as_mask_u32(&self) -> (m: &[u32])
        ensures
            m@ == self.cells(),
    {
        self.buf.as_slice_u32()
    }

    /// The location of the pen: the end of the most recent segment.
    pub fn pen(&self) -> (p: [u32; 2])
        ensures
            (p[0], p[1]) == self.pen_bits(),
    {
        self.pen
    }

    /// The start of the current sub-path, where `close_path` leads back to.
    pub fn first(&self) -> (p: [u32; 2])
        ensures
            (p[0], p[1]) == self.first_bits(),
    {
        self.first
    }

    /// Starts a new sub-path and moves the pen to `(ax, ay)`. The cells stay
    /// as they are.
    pub fn move_to(&mut self, ax: u32, ay: u32)
        ensures
            final(self).pen_bits() == (ax, ay),
            final(self).first_bits() == (ax, ay),
            final(self).same_raster(old(self)),
            final(self).cells() == old(self).cells(),
    {
        self.first = [ax, ay];
        self.pen = [ax, ay];
    }

    /// Moves the pen to `(bx, by)`, the end of a segment, within the current
    /// sub-path. The cells stay as they are: what the segment covers is added
    /// row by row.
    pub fn set_pen(&mut self, bx: u32, by: u32)
        ensures
            final(self).pen_bits() == (bx, by),
            final(self).first_bits() == old(self).first_bits(),
            final(self).same_raster(old(self)),
            final(self).cells() == old(self).cells(),
    {
        self.pen = [bx, by];
    }

    /// The number of cells, padding included.
    pub fn cell_count(&self) -> (n: usize)
        ensures
            n == self.cells().len(),
    {
        self.buf.len()
    }

    /// The cell at `i`.
    pub fn cell(&self, i: usize) -> (c: u32)
        requires
            i < self.cells().len(),
        ensures
            c == self.cells()[i as int],
    {
        self.buf.get(i)
    }

    /// Overwrites the cell at `i`. This is how an engine that keeps its
    /// deltas in another number format stores them.
    pub fn set_cell(&mut self, i: usize, c: u32)
        requires
            i < old(self).cells().len(),
        ensures
            final(self).cells() == old(self).cells().update(i as int, c),
            final(self).same_state(old(self)),
    {
        self.buf.set(i, c);
    }

    /// The bounds, the engine, the operator and the path agree with those
    /// of `other`.
    pub open spec fn same_state(&self, other: &Self) -> bool {
        &&& self.same_raster(other)
        &&& self.pen_bits() == other.pen_bits()
        &&& self.first_bits() == other.first_bits()
    }

    /// The bounds, the engine and the operator agree with those of `other`.
    pub open spec fn same_raster(&self, other: &Self) -> bool {
        &&& self.width() == other.width()
        &&& self.height() == other.height()
        &&& self.floating() == other.floating()
        &&& self.op() == other.op()
    }

    /// The target `r` is not empty, `dst` holds it, and the cells hold a
    /// coverage for each of its pixels.
    pub open spec fn reaches(&self, bounds: Rectangle, r: Rectangle) -> bool {
        &&& !r.is_empty()
        &&& r.within(bounds)
        &&& (r.height() - 1) * self.width() + r.width() <= self.cells().len()
    }

    /// Whether `color` is a source for a draw with `op`.
    pub fn takes_source(op: Op, color: &[u32; 4]) -> (b: bool)
        ensures
            b == is_source(op, color@),
    {
        let limit: u32 = match op {
            Op::Over => color[3],
            Op::Src => 0xFFFF,
        };
        color[3] <= 0xFFFF && color[0] <= limit && color[1] <= limit && color[2] <= limit
    }

    /// Whether a draw can reach the target `r` of `dst`: `r` is empty, or
    /// `dst` covers its bounds, holds `r`, and the cells hold a coverage for
    /// each pixel of `r`.
    #[verifier::rlimit(50)]
    pub fn takes_target(&self, dst: &RGBA, r: Rectangle) -> (b: bool)
        requires
            self.wf(),
        ensures
            b == (!r.is_empty() ==> dst.wf() && self.reaches(dst.rect, r)),
    {
        if r.min.x >= r.max.x || r.min.y >= r.max.y {
            return true;
        }
        if !dst.is_wf() {
            return false;
        }
        let inside: bool = dst.rect.min.x <= r.min.x && r.max.x <= dst.rect.max.x && dst.rect.min.y
            <= r.min.y && r.max.y <= dst.rect.max.y;
        if !inside {
            return false;
        }
        let w: i128 = r.max.x as i128 - r.min.x as i128;
        let h: i128 = r.max.y as i128 - r.min.y as i128;
        let size: [usize; 2] = self.size();
        let mw: i128 = size[0] as i128;
        let cells: usize = self.cell_count();
        proof {
            lemma_offset_bounds(
                dst.rect,
                dst.stride as int,
                dst.bytes().len() as int,
                r.min.x as int,
                r.min.y as int,
            );
        }
        assert(0 <= (h - 1) * mw <= 0x7FFF_FFFF_FFFF_FFFF * 0xFFFF_FFFF_FFFF_FFFF)
            by (nonlinear_arith)
            requires
                0 <= h - 1 <= 0x7FFF_FFFF_FFFF_FFFF,
                0 <= mw <= 0xFFFF_FFFF_FFFF_FFFF,
        ;
        (h - 1) * mw + w <= cells as i128
    }

    /// Whether every cell is a 16-bit coverage value.
    pub fn has_mask(&self) -> (b: bool)
        ensures
            b == self.is_mask(),
    {
        let n: usize = self.cell_count();
        let mut i: usize = 0;
        while i < n
            invariant
                i <= n,
                n == self.cells().len(),
                forall|k: int| 0 <= k < i ==> #[trigger] self.cells()[k] <= 0xFFFF,
            decreases n - i,
        {
            if self.cell(i) > 0xFFFF {
                return false;
            }
            i = i + 1;
        }
        true
    }

    /// Turns the cells into the mask. The deltas of the fixed-point engine
    /// are integrated. The cells of the floating-point engine are integrated
    /// where they are computed, and are limited to 16 bits here.
    fn accumulate_mask(&mut self)
        ensures
            final(self).cells() == old(self).mask(),
            final(self).is_mask(),
            final(self).same_state(old(self)),
    {
        if self.use_fpm() {
            let ghost before = self.cells();
            let n: usize = self.cell_count();
            let mut i: usize = 0;
            while i < n
                invariant
                    i <= n,
                    n == before.len(),
                    self.cells().len() == n,
                    forall|k: int| 0 <= k < i ==> self.cells()[k] == limited(before)[k],
                    forall|k: int| i <= k < n ==> self.cells()[k] == before[k],
                    self.same_state(old(self)),
                decreases n - i,
            {
                if self.cell(i) > 0xFFFF {
                    self.set_cell(i, 0xFFFF);
                }
                i = i + 1;
            }
            assert(self.cells() =~= limited(before));
        } else {
            self.fixed_accumulate_mask();
        }
    }

    /// The mask that a draw reads: for the fixed-point engine the integrated
    /// deltas, for the floating-point engine the cells, each at most
    /// `0xFFFF`.
    pub open spec fn mask(&self) -> Seq<u32> {
        if self.floating() {
            limited(self.cells())
        } else {
            fixed_mask(self.cells())
        }
    }

    /// Blends the colour into the target, pixel by pixel, under the mask in
    /// the cells.
    #[verifier::rlimit(50)]
    fn composite(&self, dst: &mut RGBA, r: Rectangle, color: [u32; 4], op: Op)
        requires
            self.is_mask(),
            0 <= self.width(),
            is_source(op, color@),
            !r.is_empty() ==> old(dst).wf() && self.reaches(old(dst).rect, r),
        ensures
            final(dst).rect == old(dst).rect,
            final(dst).stride == old(dst).stride,
            final(dst).bytes() == if r.is_empty() {
                old(dst).bytes()
            } else {
                drawn(
                    op,
                    old(dst).bytes(),
                    old(dst).offset(r.min.x as int, r.min.y as int),
                    old(dst).stride as int,
                    r.width(),
                    r.height(),
                    self.cells(),
                    self.width(),
                    color@,
                )
            },
    {
        if r.min.x >= r.max.x || r.min.y >= r.max.y {
            return ;
        }
        let ghost pix = dst.bytes();
        let ghost start = dst.offset(r.min.x as int, r.min.y as int);
        let ghost mask = self.cells();
        let ghost mask_width = self.width();
        let ghost bounds = dst.rect;
        proof {
            lemma_offset_bounds(
                dst.rect,
                dst.stride as int,
                pix.len() as int,
                r.min.x as int,
                r.min.y as int,
            );
            lemma_offset_bounds(
                dst.rect,
                dst.stride as int,
                pix.len() as int,
                r.max.x - 1,
                r.max.y - 1,
            );
        }
        let w: usize = (r.max.x - r.min.x) as usize;
        let h: usize = (r.max.y - r.min.y) as usize;
        let origin: usize = dst.pix_offset(r.min.x, r.min.y) as usize;
        let stride: usize = dst.stride as usize;
        let size: [usize; 2] = self.size();
        let mw: usize = size[0];
        let sa: u32 = color[3];
        let cells: usize = self.cell_count();
        proof {
            lemma_drawn_none(op, pix, start, stride as int, w as int, mask, mask_width, color@);
        }
        let mut y: usize = 0;
        while y < h
            invariant
                y <= h,
                self.is_mask(),
                is_source(op, color@),
                sa == color@[3],
                mask == self.cells(),
                mask_width == self.width(),
                mw == mask_width,
                origin == start,
                0 < stride,
                4 * w <= stride,
                stride == dst.stride,
                dst.rect == bounds,
                bounds == old(dst).rect,
                w == r.width(),
                h == r.height(),
                0 < w,
                bounds.min.x <= r.min.x,
                bounds.min.y <= r.min.y,
                r.max.x <= bounds.max.x,
                r.max.y <= bounds.max.y,
                0 <= bounds.width(),
                0 <= bounds.height(),
                4 * bounds.width() <= stride,
                stride * bounds.height() <= pix.len(),
                start == offset_of(bounds, stride as int, r.min.x as int, r.min.y as int),
                (h - 1) * mw + w <= mask.len() <= usize::MAX,
                dst.bytes().len() == pix.len(),
                pix.len() <= usize::MAX,
                dst.bytes() == drawn_upto(
                    op,
                    pix,
                    start,
                    stride as int,
                    w as int,
                    y as int,
                    0,
                    mask,
                    mask_width,
                    color@,
                ),
            decreases h - y,
        {
            proof {
                lemma_offset_bounds(
                    bounds,
                    stride as int,
                    pix.len() as int,
                    r.max.x - 1,
                    r.min.y + y,
                );
                lemma_pixel_offset(bounds, stride as int, r, w as int - 1, y as int);
                assert(0 <= y * mw && y * mw + w <= (h - 1) * mw + w) by (nonlinear_arith)
                    requires
                        0 <= y <= h - 1,
                        0 <= mw,
                ;
                assert(0 <= y * stride) by (nonlinear_arith)
                    requires
                        0 <= y,
                        0 <= stride,
                ;
            }
            let row: usize = origin + y * stride;
            let cover: usize = y * mw;
            let mut x: usize = 0;
            while x < w
                invariant
                    x <= w,
                    y < h,
                    self.is_mask(),
                    is_source(op, color@),
                    sa == color@[3],
                    mask == self.cells(),
                    origin == start,
                    0 < stride,
                    4 * w <= stride,
                    row == origin + y * stride,
                    0 <= y * stride,
                    row + 4 * w <= pix.len(),
                    cover == y * mw,
                    cover + w <= mask.len() <= usize::MAX,
                    pix.len() <= usize::MAX,
                    mw == mask_width,
                    stride == dst.stride,
                    dst.rect == bounds,
                    dst.bytes().len() == pix.len(),
                    dst.bytes() == drawn_upto(
                        op,
                        pix,
                        start,
                        stride as int,
                        w as int,
                        y as int,
                        x as int,
                        mask,
                        mask_width,
                        color@,
                    ),
                decreases w - x,
            {
                let ghost reached = dst.bytes();
                let ma: u32 = self.cell(cover + x);
                let i: usize = row + 4 * x;
                proof {
                    assert forall|k: int| i <= k < i + 4 implies #[trigger] reached[k] == pix[k] by {
                        lemma_byte_of_pixel(
                            start,
                            stride as int,
                            w as int,
                            y as int,
                            x as int,
                            k - i,
                        );
                    }
                }
                // A pixel keeps blue, green, red, alpha.
                let b0: u8 = draw_channel(op, dst.pix[i], color[2], sa, ma);
                let b1: u8 = draw_channel(op, dst.pix[i + 1], color[1], sa, ma);
                let b2: u8 = draw_channel(op, dst.pix[i + 2], color[0], sa, ma);
                let b3: u8 = draw_channel(op, dst.pix[i + 3], color[3], sa, ma);
                dst.pix[i] = b0;
                dst.pix[i + 1] = b1;
                dst.pix[i + 2] = b2;
                dst.pix[i + 3] = b3;
                proof {
                    lemma_drawn_step(
                        op,
                        pix,
                        start,
                        stride as int,
                        w as int,
                        y as int,
                        x as int,
                        mask,
                        mask_width,
                        color@,
                        dst.bytes(),
                    );
                }
                x = x + 1;
            }
            proof {
                lemma_drawn_row(
                    op,
                    pix,
                    start,
                    stride as int,
                    w as int,
                    y as int,
                    mask,
                    mask_width,
                    color@,
                );
            }
            y = y + 1;
        }
    }

    /// Integrates the mask and draws the colour over the target `r` of
    /// `dst`: each byte keeps what the source alpha under the mask leaves of
    /// it and takes the share of its source component.
    ///
    /// `color` holds the red, green, blue and alpha of a premultiplied
    /// colour, 16 bits each; a pixel keeps blue, green, red and alpha, and
    /// each of its bytes takes the component of its own channel. With the
    /// floating-point engine the cells are read as the mask that was
    /// integrated where the deltas were computed.
    pub fn rgba_uniform_over(&mut self, dst: &mut RGBA, r: Rectangle, color: [u32; 4])
        requires
            old(self).wf(),
            is_source(Op::Over, color@),
            !r.is_empty() ==> old(dst).wf() && old(self).reaches(old(dst).rect, r),
        ensures
            final(self).cells() == old(self).mask(),
            final(self).is_mask(),
            final(self).same_state(old(self)),
            final(self).wf(),
            final(dst).rect == old(dst).rect,
            final(dst).stride == old(dst).stride,
            final(dst).bytes() == if r.is_empty() {
                old(dst).bytes()
            } else {
                drawn(
                    Op::Over,
                    old(dst).bytes(),
                    old(dst).offset(r.min.x as int, r.min.y as int),
                    old(dst).stride as int,
                    r.width(),
                    r.height(),
                    old(self).mask(),
                    old(self).width(),
                    color@,
                )
            },
    {
        proof {
            lemma_mask_len(self.cells());
        }
        self.accumulate_mask();
        self.composite(dst, r, color, Op::Over);
    }

    /// Integrates the mask and draws the colour in place of the target `r`
    /// of `dst`: each byte becomes the share of its source component under
    /// the mask.
    ///
    /// `color` holds red, green, blue and alpha, 16 bits each; a pixel keeps
    /// blue, green, red and alpha, and each of its bytes takes the component
    /// of its own channel. With the floating-point engine the cells are read
    /// as the mask that was integrated where the deltas were computed.
    pub fn rgba_uniform_src(&mut self, dst: &mut RGBA, r: Rectangle, color: [u32; 4])
        requires
            old(self).wf(),
            is_source(Op::Src, color@),
            !r.is_empty() ==> old(dst).wf() && old(self).reaches(old(dst).rect, r),
        ensures
            final(self).cells() == old(self).mask(),
            final(self).is_mask(),
            final(self).same_state(old(self)),
            final(self).wf(),
            final(dst).rect == old(dst).rect,
            final(dst).stride == old(dst).stride,
            final(dst).bytes() == if r.is_empty() {
                old(dst).bytes()
            } else {
                drawn(
                    Op::Src,
                    old(dst).bytes(),
                    old(dst).offset(r.min.x as int, r.min.y as int),
                    old(dst).stride as int,
                    r.width(),
                    r.height(),
                    old(self).mask(),
                    old(self).width(),
                    color@,
                )
            },
    {
        proof {
            lemma_mask_len(self.cells());
        }
        self.accumulate_mask();
        self.composite(dst, r, color, Op::Src);
    }

    /// The mask that a draw reads and leaves in the cells holds 16-bit
    /// coverage values, whatever the cells held and whichever the engine.
    pub proof fn lemma_mask_is_mask(&self)
        ensures
            self.mask().len() == self.cells().len(),
            forall|i: int| 0 <= i < self.cells().len() ==> #[trigger] self.mask()[i] <= 0xFFFF,
    {
        lemma_limited_is_mask(self.cells());
        lemma_fixed_mask_is_mask(self.cells());
    }

    /// What `rgba_uniform_src` with every component at `0xFFFF` leaves in
    /// byte `c` of the pixel `(x, y)` of its target: the high eight bits of
    /// the coverage of the pixel, whatever the image held.
    pub proof fn lemma_src_white_draw(
        &self,
        pix: Seq<u8>,
        origin: int,
        stride: int,
        w: int,
        h: int,
        x: int,
        y: int,
        c: int,
    )
        requires
            0 <= origin,
            0 <= x < w,
            0 <= y < h,
            0 <= c < 4,
            4 * w <= stride,
            origin + y * stride + 4 * x + c < pix.len(),
            0 <= y * self.width() + x < self.cells().len(),
        ensures
            drawn(
                Op::Src,
                pix,
                origin,
                stride,
                w,
                h,
                self.mask(),
                self.width(),
                seq![0xFFFFu32, 0xFFFFu32, 0xFFFFu32, 0xFFFFu32],
            )[origin + y * stride + 4 * x + c] == self.mask()[y * self.width() + x] / 256,
    {
        self.lemma_mask_is_mask();
        lemma_src_white_pixel(pix, origin, stride, w, h, self.mask(), self.width(), x, y, c);
    }

    /// What `rgba_uniform_over` with an opaque source leaves in byte `c` of
    /// a pixel `(x, y)` of its target that the mask covers in full: the high
    /// eight bits of the source component of the channel of the byte,
    /// whatever the image held.
    pub proof fn lemma_over_opaque_draw(
        &self,
        pix: Seq<u8>,
        origin: int,
        stride: int,
        w: int,
        h: int,
        color: Seq<u32>,
        x: int,
        y: int,
        c: int,
    )
        requires
            0 <= origin,
            0 <= x < w,
            0 <= y < h,
            0 <= c < 4,
            4 * w <= stride,
            origin + y * stride + 4 * x + c < pix.len(),
            is_source(Op::Over, color),
            color[3] == 0xFFFF,
            self.mask()[y * self.width() + x] == 0xFFFF,
        ensures
            drawn(Op::Over, pix, origin, stride, w, h, self.mask(), self.width(), color)[origin + y
                * stride + 4 * x + c] == color[component(c)] / 256,
    {
        lemma_over_opaque_pixel(
            pix,
            origin,
            stride,
            w,
            h,
            self.mask(),
            self.width(),
            color,
            x,
            y,
            c,
        );
    }
}

} // verus!
