//! The fixed-point coverage engine.
//!
//! Coordinates are signed 32-bit numbers with nine binary digits after the
//! point. A segment is scanned row by row: each row adds signed area deltas
//! to the cells it covers, in exact integer arithmetic, and the cell itself
//! takes the sum modulo 2^32.

use vstd::prelude::*;
use vstd::arithmetic::div_mod::{lemma_add_mod_noop, lemma_small_mod};
use crate::trunc::tdiv;
use crate::vg::{clamp, clamped, Rasterizer};

verus! {

/// The number of binary digits after the fixed point.
pub const PHI: u32 = 9;

/// One, in fixed point.
pub const FX_ONE: i32 = 512;

/// One and a half, in fixed point.
pub const FX_ONE_AND_A_HALF: i32 = 768;

/// The largest fraction below one, in fixed point. Used for rounding up.
pub const FX_ONE_MINUS_IOTA: i32 = 511;

/// The larger of two numbers.
pub fn fmax(x: i32, y: i32) -> (m: i32)
    ensures
        m == if x > y { x } else { y },
{
    if x > y {
        x
    } else {
        y
    }
}

/// The smaller of two numbers.
pub fn fmin(x: i32, y: i32) -> (m: i32)
    ensures
        m == if x < y { x } else { y },
{
    if x < y {
        x
    } else {
        y
    }
}

/// The greatest whole number not above the fixed-point number `x`.
pub open spec fn floor_of(x: int) -> int {
    x / 512
}

/// The least whole number not below the fixed-point number `x`.
pub open spec fn ceil_of(x: int) -> int {
    (x + 511) / 512
}

/// The greatest whole number not above `x`.
pub fn floor(x: i32) -> (r: i32)
    ensures
        r == floor_of(x as int),
{
    assert(x >> 9u32 == x / 512) by (bit_vector);
    x >> PHI
}

/// The least whole number not below `x`. The rounding term has to fit.
pub fn ceil(x: i32) -> (r: i32)
    requires
        x + FX_ONE_MINUS_IOTA <= i32::MAX,
    ensures
        r == ceil_of(x as int),
{
    let t: i32 = x + FX_ONE_MINUS_IOTA;
    assert(t >> 9u32 == t / 512) by (bit_vector);
    t >> PHI
}

/// The value of a cell after `n` was reached by exact addition: `n` modulo
/// 2^32.
pub open spec fn wrap(n: int) -> u32 {
    (n % 0x1_0000_0000) as u32
}

/// The cells after a delta was added to each of them.
pub open spec fn shifted(cells: Seq<u32>, deltas: Seq<int>) -> Seq<u32>
    recommends
        deltas.len() == cells.len(),
{
    Seq::new(cells.len(), |k: int| wrap(cells[k] + deltas[k]))
}

/// No delta on any of `len` cells.
pub open spec fn still(len: nat) -> Seq<int> {
    Seq::new(len, |k: int| 0int)
}

/// The delta `v` on cell `i` alone; nothing where `i` is not a cell.
pub open spec fn point(len: nat, i: int, v: int) -> Seq<int> {
    Seq::new(len, |k: int| if k == i { v } else { 0int })
}

/// The sum of two fields of deltas, cell by cell.
pub open spec fn plus(a: Seq<int>, b: Seq<int>) -> Seq<int>
    recommends
        a.len() == b.len(),
{
    Seq::new(a.len(), |k: int| a[k] + b[k])
}

/// The opposite of each delta.
pub open spec fn negated(a: Seq<int>) -> Seq<int> {
    Seq::new(a.len(), |k: int| -a[k])
}

/// The same delta `v` for each column from `lo` up to, not including, `hi`,
/// each column limited to the row that starts at `base`.
pub open spec fn span(len: nat, base: int, width: int, lo: int, hi: int, v: int) -> Seq<int>
    decreases hi - lo,
{
    if hi <= lo {
        still(len)
    } else {
        plus(span(len, base, width, lo, hi - 1, v), point(len, base + clamped(hi - 1, width), v))
    }
}

/// The deltas of a row slice that stays within two neighbouring columns:
/// `d` is shared between them in proportion to where the middle of the slice
/// lies.
pub open spec fn narrow_deltas(len: nat, base: int, width: int, x: int, x_next: int, d: int) -> Seq<
    int,
> {
    let x0 = if x > x_next { x_next } else { x };
    let x0i = floor_of(x0);
    let xmf = (x + x_next) / 2 - x0i * 512;
    plus(
        point(len, base + clamped(x0i, width), d * (512 - xmf)),
        point(len, base + clamped(x0i + 1, width), d * xmf),
    )
}

/// The deltas of a row slice that spans three columns or more: a wedge at
/// the left, an even share for each column in between, a wedge at the
/// right. Each share is a product with `d` divided by twice the width of the
/// slice, rounded toward zero.
pub open spec fn wide_deltas(len: nat, base: int, width: int, x0: int, x1: int, d: int) -> Seq<
    int,
> {
    let x0i = floor_of(x0);
    let x1i = ceil_of(x1);
    let s1 = x1 - x0;
    let s2 = 2 * s1;
    let x0f = x0 - x0i * 512;
    let omx = 512 - x0f;
    let x1f = x1 - x1i * 512 + 512;
    let left = point(len, base + clamped(x0i, width), tdiv(omx * omx * d, s2));
    let right = point(len, base + clamped(x1i, width), tdiv(x1f * x1f * d, s2));
    let middle = if x1i == x0i + 2 {
        point(
            len,
            base + clamped(x0i + 1, width),
            tdiv((s2 * 512 - omx * omx - x1f * x1f) * d, s2),
        )
    } else {
        plus(
            plus(
                point(
                    len,
                    base + clamped(x0i + 1, width),
                    tdiv(((768 - x0f) * 1024 - omx * omx) * d, s2),
                ),
                span(len, base, width, x0i + 2, x1i - 1, tdiv(d * 262144, s1)),
            ),
            point(
                len,
                base + clamped(x1i - 1, width),
                tdiv(((x1f * 2 + 512) * 512 - x1f * x1f) * d, s2),
            ),
        )
    };
    plus(plus(left, middle), right)
}

/// The deltas that one row of a segment adds: the segment crosses the row
/// `y` from `x` to `x_next` and overlaps it vertically by `d`, negative when
/// the segment runs upward.
pub open spec fn row_deltas(len: nat, width: int, y: int, x: int, x_next: int, d: int) -> Seq<
    int,
> {
    let x0 = if x > x_next { x_next } else { x };
    let x1 = if x > x_next { x } else { x_next };
    if ceil_of(x1) <= floor_of(x0) + 1 {
        narrow_deltas(len, y * width, width, x, x_next, d)
    } else {
        wide_deltas(len, y * width, width, x0, x1, d)
    }
}

/// Whether the row slice from `x` to `x_next` can be computed in 32 bits.
pub open spec fn row_fits(x: int, x_next: int) -> bool {
    let x0 = if x > x_next { x_next } else { x };
    let x1 = if x > x_next { x } else { x_next };
    &&& x1 + 511 <= i32::MAX
    &&& if ceil_of(x1) <= floor_of(x0) + 1 {
        i32::MIN <= x + x_next <= i32::MAX
    } else {
        2 * (x1 - x0) <= i32::MAX
    }
}

/// The vertical overlap of the row `row` with a segment from `top` to
/// `bottom`.
pub open spec fn overlap(row: int, top: int, bottom: int) -> int {
    let lower = if (row + 1) * 512 < bottom { (row + 1) * 512 } else { bottom };
    let upper = if row * 512 > top { row * 512 } else { top };
    lower - upper
}

/// Adding deltas in two steps is adding their sum.
pub proof fn lemma_shifted_plus(cells: Seq<u32>, a: Seq<int>, b: Seq<int>)
    requires
        a.len() == cells.len(),
        b.len() == cells.len(),
    ensures
        shifted(shifted(cells, a), b) == shifted(cells, plus(a, b)),
{
    assert forall|k: int| 0 <= k < cells.len() implies shifted(shifted(cells, a), b)[k] == shifted(
        cells,
        plus(a, b),
    )[k] by {
        lemma_add_mod_noop(cells[k] + a[k], b[k], 0x1_0000_0000);
        lemma_small_mod(wrap(cells[k] + a[k]) as nat, 0x1_0000_0000);
        lemma_add_mod_noop(wrap(cells[k] + a[k]) as int, b[k], 0x1_0000_0000);
    }
    assert(shifted(shifted(cells, a), b) =~= shifted(cells, plus(a, b)));
}

/// Adding no delta leaves the cells as they are.
pub proof fn lemma_shifted_still(cells: Seq<u32>)
    ensures
        shifted(cells, still(cells.len())) == cells,
{
    assert forall|k: int| 0 <= k < cells.len() implies shifted(cells, still(cells.len()))[k]
        == cells[k] by {
        lemma_small_mod(cells[k] as nat, 0x1_0000_0000);
    }
    assert(shifted(cells, still(cells.len())) =~= cells);
}

/// Within a row that a segment reaches, the overlap is at most one, and it
/// is not negative when the segment runs downward.
pub proof fn lemma_overlap_bounds(row: int, top: int, bottom: int)
    requires
        floor_of(top) <= row < ceil_of(bottom),
    ensures
        -512 < overlap(row, top, bottom) <= 512,
        top <= bottom ==> 0 <= overlap(row, top, bottom),
{
}

/// The square of a fraction of one column is at most one column squared.
pub proof fn lemma_square_bound(f: int)
    requires
        0 <= f <= 512,
    ensures
        0 <= f * f <= 262144,
{
    assert(0 <= f * f <= 262144) by (nonlinear_arith)
        requires
            0 <= f <= 512,
    ;
}

/// A product with an overlap of at most one row stays within 512 times the
/// bound of the other factor.
pub proof fn lemma_scaled_bound(a: int, d: int, bound: int)
    requires
        -bound <= a <= bound,
        -512 <= d <= 512,
    ensures
        -512 * bound <= a * d <= 512 * bound,
{
    assert(-512 * bound <= a * d <= 512 * bound) by (nonlinear_arith)
        requires
            -bound <= a <= bound,
            -512 <= d <= 512,
    ;
}

/// A span has a delta for each cell.
pub proof fn lemma_span_len(len: nat, base: int, width: int, lo: int, hi: int, v: int)
    ensures
        span(len, base, width, lo, hi, v).len() == len,
    decreases hi - lo,
{
    if hi > lo {
        lemma_span_len(len, base, width, lo, hi - 1, v);
    }
}

/// Columns that fit 32 bits are limited alike by a width and by the same
/// width cut at the largest 32-bit number.
pub proof fn lemma_span_any_width(len: nat, base: int, cut: int, width: int, lo: int, hi: int, v: int)
    requires
        hi <= i32::MAX + 1,
        cut == if width > i32::MAX { i32::MAX as int } else { width },
    ensures
        span(len, base, cut, lo, hi, v) == span(len, base, width, lo, hi, v),
    decreases hi - lo,
{
    if hi > lo {
        lemma_span_any_width(len, base, cut, width, lo, hi - 1, v);
    }
}

/// The deltas of a wide slice do not depend on cutting the width at the
/// largest 32-bit number.
pub proof fn lemma_wide_any_width(len: nat, base: int, cut: int, width: int, x0: int, x1: int, d: int)
    requires
        x1 + 511 <= i32::MAX,
        x0 <= x1,
        cut == if width > i32::MAX { i32::MAX as int } else { width },
    ensures
        wide_deltas(len, base, cut, x0, x1, d) == wide_deltas(len, base, width, x0, x1, d),
{
    let x0i = floor_of(x0);
    let x1i = ceil_of(x1);
    lemma_span_any_width(len, base, cut, width, x0i + 2, x1i - 1, tdiv(d * 262144, x1 - x0));
}

/// The sum of the first `n` cells.
pub open spec fn total(cells: Seq<u32>, n: int) -> int
    decreases n,
{
    if n <= 0 {
        0
    } else {
        total(cells, n - 1) + cells[n - 1]
    }
}

/// The signed number that a 32-bit cell stands for.
pub open spec fn signed(c: u32) -> int {
    if c >= 0x8000_0000 {
        c - 0x1_0000_0000
    } else {
        c as int
    }
}

/// The signed area that has accumulated after the first `n` cells, in 32
/// bits.
pub open spec fn winding(cells: Seq<u32>, n: int) -> int {
    signed(wrap(total(cells, n)))
}

/// The 16-bit coverage of a signed area with eighteen binary digits after
/// the point: its absolute value, two digits dropped, at most `0xFFFF`.
pub open spec fn coverage(area: int) -> u32 {
    let a = if area < 0 { -area } else { area };
    if a / 4 > 0xFFFF {
        0xFFFFu32
    } else {
        (a / 4) as u32
    }
}

/// The mask that integrating the deltas from the first cell to the last
/// gives.
pub open spec fn fixed_mask(cells: Seq<u32>) -> Seq<u32> {
    Seq::new(cells.len(), |i: int| coverage(winding(cells, i + 1)))
}

/// The state of a scan: a segment that was put in order, top first, and the
/// row that comes next.
pub struct FixedScan {
    x: i32,
    y: i32,
    y_max: i32,
    ay: i32,
    by: i32,
    reversed: bool,
}

impl FixedScan {
    #[verifier::type_invariant]
    spec fn inv(self) -> bool {
        &&& floor_of(self.ay as int) <= self.y
        &&& self.y_max <= ceil_of(self.by as int)
    }

    /// Where the segment enters the next row.
    pub closed spec fn x(&self) -> int {
        self.x as int
    }

    /// The next row.
    pub closed spec fn row(&self) -> int {
        self.y as int
    }

    /// The row at which the scan ends.
    pub closed spec fn end(&self) -> int {
        self.y_max as int
    }

    /// The upper end of the segment.
    pub closed spec fn top(&self) -> int {
        self.ay as int
    }

    /// The lower end of the segment.
    pub closed spec fn bottom(&self) -> int {
        self.by as int
    }

    /// Whether the segment was drawn upward, so that its ends were swapped.
    pub closed spec fn upward(&self) -> bool {
        self.reversed
    }

    /// Whether no row is left.
    pub open spec fn finished(&self) -> bool {
        self.row() >= self.end()
    }

    /// The signed overlap of the next row: negative for an upward segment.
    pub open spec fn delta(&self) -> int {
        if self.upward() {
            -overlap(self.row(), self.top(), self.bottom())
        } else {
            overlap(self.row(), self.top(), self.bottom())
        }
    }

    /// Whether the next row can take the advance `step` in 32 bits: the new
    /// position fits, and from row zero on the slice can be computed.
    pub open spec fn accepts(&self, step: int) -> bool {
        &&& i32::MIN <= self.x() + step <= i32::MAX
        &&& self.row() >= 0 ==> row_fits(self.x(), self.x() + step)
    }

    /// The scan after one row: moved by `step`, one row down.
    pub open spec fn follows(&self, before: &FixedScan, step: int) -> bool {
        &&& self.x() == before.x() + step
        &&& self.row() == before.row() + 1
        &&& self.end() == before.end()
        &&& self.top() == before.top()
        &&& self.bottom() == before.bottom()
        &&& self.upward() == before.upward()
    }

    /// Starts the scan of a segment that enters at `x` and runs from `ay`
    /// down to `by`, on a mask of the given height. `reversed` says that the
    /// segment was drawn upward. The scan starts in the row of `ay` and ends
    /// before the row that `by` rounds up to, or at the height if that comes
    /// first.
    pub fn new(x: i32, ay: i32, by: i32, reversed: bool, height: usize) -> (s: Self)
        ensures
            s.x() == x,
            s.row() == floor_of(ay as int),
            s.end() == if ceil_of(by as int) > height {
                height as int
            } else {
                ceil_of(by as int)
            },
            s.top() == ay,
            s.bottom() == by,
            s.upward() == reversed,
    {
        let y: i32 = floor(ay);
        let t: i64 = by as i64 + 511;
        assert(t >> 9u32 == t / 512) by (bit_vector);
        let c: i64 = t >> PHI;
        let y_max: i32 = if height < 0x8000_0000 && c > height as i64 {
            height as i32
        } else {
            c as i32
        };
        Self { x, y, y_max, ay, by, reversed }
    }

    /// Whether no row is left.
    pub fn done(&self) -> (b: bool)
        ensures
            b == self.finished(),
    {
        self.y >= self.y_max
    }

    /// The vertical overlap of each row that is left with the segment, in
    /// their order: what the advances of `x` are computed from.
    pub fn overlaps(&self) -> (dys: Vec<i32>)
        ensures
            dys@.len() == if self.finished() {
                0
            } else {
                self.end() - self.row()
            },
            forall|k: int|
                0 <= k < dys@.len() ==> #[trigger] dys@[k] == overlap(
                    self.row() + k,
                    self.top(),
                    self.bottom(),
                ),
    {
        let mut dys: Vec<i32> = Vec::new();
        let mut y: i32 = self.y;
        proof {
            use_type_invariant(self);
        }
        while y < self.y_max
            invariant
                self.y <= y,
                y <= self.y_max || y == self.y,
                floor_of(self.ay as int) <= self.y,
                self.y_max <= ceil_of(self.by as int),
                dys@.len() == y - self.y,
                forall|k: int|
                    0 <= k < dys@.len() ==> #[trigger] dys@[k] == overlap(
                        self.y + k,
                        self.ay as int,
                        self.by as int,
                    ),
            decreases self.y_max - y,
        {
            proof {
                lemma_overlap_bounds(y as int, self.ay as int, self.by as int);
            }
            let lo: i64 = (y as i64 + 1) * 512;
            let hi: i64 = y as i64 * 512;
            let lower: i64 = if lo < self.by as i64 { lo } else { self.by as i64 };
            let upper: i64 = if hi > self.ay as i64 { hi } else { self.ay as i64 };
            dys.push((lower - upper) as i32);
            y = y + 1;
        }
        dys
    }

    /// The vertical overlap of the next row with the segment, in fixed
    /// point: what the advance of `x` over this row is computed from. Zero
    /// when no row is left.
    pub fn dy(&self) -> (dy: i32)
        ensures
            !self.finished() ==> dy == overlap(self.row(), self.top(), self.bottom()),
            self.finished() ==> dy == 0,
            -512 < dy <= 512,
    {
        if self.y >= self.y_max {
            return 0;
        }
        proof {
            use_type_invariant(self);
            lemma_overlap_bounds(self.y as int, self.ay as int, self.by as int);
        }
        let lo: i64 = (self.y as i64 + 1) * 512;
        let hi: i64 = self.y as i64 * 512;
        let lower: i64 = if lo < self.by as i64 { lo } else { self.by as i64 };
        let upper: i64 = if hi > self.ay as i64 { hi } else { self.ay as i64 };
        (lower - upper) as i32
    }
}

impl Rasterizer {
    /// Adds `v` to the cell `i`, modulo 2^32; nothing where `i` lies past
    /// the last cell.
    fn bump(&mut self, i: usize, v: i32)
        ensures
            final(self).cells() == shifted(
                old(self).cells(),
                point(old(self).cells().len(), i as int, v as int),
            ),
            final(self).same_state(old(self)),
    {
        let ghost before = self.cells();
        if i < self.cell_count() {
            let c: u32 = self.cell(i);
            self.set_cell(i, c.wrapping_add_signed(v));
            proof {
                assert forall|k: int| 0 <= k < before.len() implies self.cells()[k] == shifted(
                    before,
                    point(before.len(), i as int, v as int),
                )[k] by {
                    if k != i {
                        lemma_small_mod(before[k] as nat, 0x1_0000_0000);
                    }
                }
                assert(self.cells() =~= shifted(before, point(before.len(), i as int, v as int)));
            }
        } else {
            proof {
                assert(point(before.len(), i as int, v as int) =~= still(before.len()));
                lemma_shifted_still(before);
            }
        }
    }

    /// Adds the deltas of a row slice that stays within two neighbouring
    /// columns.
    #[verifier::rlimit(50)]
    fn fixed_narrow(&mut self, base: usize, width: i32, x: i32, x_next: i32, d: i32)
        requires
            0 <= width,
            base + width <= usize::MAX,
            -512 <= d <= 512,
            i32::MIN <= x + x_next <= i32::MAX,
            ({
                let x0 = if x > x_next { x_next } else { x };
                let x1 = if x > x_next { x } else { x_next };
                x1 + 511 <= i32::MAX && ceil_of(x1 as int) <= floor_of(x0 as int) + 1
            }),
        ensures
            final(self).cells() == shifted(
                old(self).cells(),
                narrow_deltas(
                    old(self).cells().len(),
                    base as int,
                    width as int,
                    x as int,
                    x_next as int,
                    d as int,
                ),
            ),
            final(self).same_state(old(self)),
    {
        let ghost before = self.cells();
        let ghost len = before.len();
        let x0: i32 = fmin(x, x_next);
        let x0i: i32 = floor(x0);
        let t: i32 = x + x_next;
        assert(t >> 1u32 == t / 2) by (bit_vector);
        let xmf: i32 = (t >> 1u32) - x0i * FX_ONE;
        assert(0 <= xmf <= 512);
        assert(-262144 <= d * (512 - xmf) <= 262144 && -262144 <= d * xmf <= 262144)
            by (nonlinear_arith)
            requires
                -512 <= d <= 512,
                0 <= xmf <= 512,
        ;
        let i0: usize = base + clamp(x0i, width);
        self.bump(i0, d * (FX_ONE - xmf));
        let ghost first = point(len, i0 as int, d * (512 - xmf));
        let i1: usize = base + clamp(x0i + 1, width);
        self.bump(i1, d * xmf);
        proof {
            lemma_shifted_plus(before, first, point(len, i1 as int, d * xmf));
        }
    }

    /// Adds the same delta to each column from `lo` up to, not including,
    /// `hi`.
    fn fixed_span(&mut self, base: usize, width: i32, lo: i32, hi: i32, v: i32)
        requires
            0 <= width,
            base + width <= usize::MAX,
        ensures
            final(self).cells() == shifted(
                old(self).cells(),
                span(old(self).cells().len(), base as int, width as int, lo as int, hi as int, v as int),
            ),
            final(self).same_state(old(self)),
    {
        let ghost before = self.cells();
        let ghost len = before.len();
        proof {
            lemma_shifted_still(before);
        }
        let mut xi: i32 = lo;
        while xi < hi
            invariant
                0 <= width,
                base + width <= usize::MAX,
                lo <= xi,
                xi <= hi || xi == lo,
                before.len() == len,
                self.cells() == shifted(
                    before,
                    span(len, base as int, width as int, lo as int, xi as int, v as int),
                ),
                self.same_state(old(self)),
            decreases hi - xi,
        {
            let ghost sofar = span(len, base as int, width as int, lo as int, xi as int, v as int);
            let i: usize = base + clamp(xi, width);
            self.bump(i, v);
            proof {
                lemma_span_len(len, base as int, width as int, lo as int, xi as int, v as int);
                lemma_shifted_plus(before, sofar, point(len, i as int, v as int));
            }
            xi = xi + 1;
        }
    }

    /// Adds the deltas of a row slice that spans three columns or more.
    #[verifier::rlimit(50)]
    fn fixed_wide(&mut self, base: usize, width: i32, x0: i32, x1: i32, d: i32)
        requires
            0 <= width,
            base + width <= usize::MAX,
            -512 <= d <= 512,
            x0 <= x1,
            x1 + 511 <= i32::MAX,
            2 * (x1 - x0) <= i32::MAX,
            ceil_of(x1 as int) > floor_of(x0 as int) + 1,
        ensures
            final(self).cells() == shifted(
                old(self).cells(),
                wide_deltas(
                    old(self).cells().len(),
                    base as int,
                    width as int,
                    x0 as int,
                    x1 as int,
                    d as int,
                ),
            ),
            final(self).same_state(old(self)),
    {
        let ghost before = self.cells();
        let ghost len = before.len();
        let x0i: i32 = floor(x0);
        let x1i: i32 = ceil(x1);
        let one_over_s: i32 = x1 - x0;
        let two_over_s: i32 = 2 * one_over_s;
        let x0f: i32 = x0 - x0i * FX_ONE;
        let one_minus_x0f: i32 = FX_ONE - x0f;
        assert(1 <= one_minus_x0f <= 512);
        let x1f: i32 = x1 - x1i * FX_ONE + FX_ONE;
        assert(1 <= x1f <= 512);
        assert(1 <= one_over_s);
        proof {
            lemma_square_bound(one_minus_x0f as int);
            lemma_square_bound(x1f as int);
        }
        let one_minus_x0f_squared: i32 = one_minus_x0f * one_minus_x0f;
        let x1f_squared: i32 = x1f * x1f;

        // The wedge at the left.
        proof {
            lemma_scaled_bound(one_minus_x0f_squared as int, d as int, 262144);
        }
        let i: usize = base + clamp(x0i, width);
        let left: i32 = one_minus_x0f_squared * d / two_over_s;
        self.bump(i, left);
        let ghost g_left = point(len, i as int, left as int);
        let ghost g_middle;

        if x1i == x0i + 2 {
            // One column in between takes what the two wedges leave.
            assert(one_over_s == 512 + x1f - x0f);
            let a: i32 = two_over_s * FX_ONE - one_minus_x0f_squared - x1f_squared;
            proof {
                lemma_scaled_bound(a as int, d as int, 2097152);
            }
            let i: usize = base + clamp(x0i + 1, width);
            let v: i32 = a * d / two_over_s;
            self.bump(i, v);
            proof {
                g_middle = point(len, i as int, v as int);
                lemma_shifted_plus(before, g_left, g_middle);
            }
        } else {
            let a: i32 = (FX_ONE_AND_A_HALF - x0f) * 1024 - one_minus_x0f_squared;
            proof {
                lemma_scaled_bound(a as int, d as int, 2097152);
            }
            let i: usize = base + clamp(x0i + 1, width);
            let v: i32 = a * d / two_over_s;
            self.bump(i, v);
            let ghost g_a = point(len, i as int, v as int);
            proof {
                lemma_shifted_plus(before, g_left, g_a);
            }

            let d_times_s: i32 = d * 262144 / one_over_s;
            self.fixed_span(base, width, x0i + 2, x1i - 1, d_times_s);
            let ghost g_span = span(
                len,
                base as int,
                width as int,
                x0i + 2,
                x1i - 1,
                d_times_s as int,
            );
            proof {
                lemma_span_len(len, base as int, width as int, x0i + 2, x1i - 1, d_times_s as int);
                lemma_shifted_plus(before, plus(g_left, g_a), g_span);
            }

            let b: i32 = (x1f * 2 + FX_ONE) * FX_ONE - x1f_squared;
            proof {
                lemma_scaled_bound(b as int, d as int, 2097152);
            }
            let i: usize = base + clamp(x1i - 1, width);
            let v: i32 = b * d / two_over_s;
            self.bump(i, v);
            let ghost g_b = point(len, i as int, v as int);
            proof {
                lemma_shifted_plus(before, plus(plus(g_left, g_a), g_span), g_b);
                g_middle = plus(plus(g_a, g_span), g_b);
                assert(plus(plus(plus(g_left, g_a), g_span), g_b) =~= plus(g_left, g_middle));
            }
        }

        // The wedge at the right.
        proof {
            lemma_scaled_bound(x1f_squared as int, d as int, 262144);
        }
        let i: usize = base + clamp(x1i, width);
        let right: i32 = x1f_squared * d / two_over_s;
        self.bump(i, right);
        proof {
            lemma_shifted_plus(before, plus(g_left, g_middle), point(len, i as int, right as int));
        }
    }

    /// Scans one row of a segment: moves the scan by `step` and one row
    /// down, and adds the deltas of the row where it lies on the mask.
    ///
    /// Nothing happens, and `false` comes back, where no row is left or the
    /// row cannot take `step` in 32 bits.
    #[verifier::rlimit(50)]
    pub fn fixed_row(&mut self, scan: &mut FixedScan, step: i32) -> (drawn: bool)
        requires
            old(self).wf(),
        ensures
            drawn == (!old(scan).finished() && old(scan).accepts(step as int)),
            drawn ==> final(scan).follows(old(scan), step as int),
            !drawn ==> *final(scan) == *old(scan),
            final(self).cells() == if drawn && 0 <= old(scan).row() < old(self).height() {
                shifted(
                    old(self).cells(),
                    row_deltas(
                        old(self).cells().len(),
                        old(self).width(),
                        old(scan).row(),
                        old(scan).x(),
                        old(scan).x() + step,
                        old(scan).delta(),
                    ),
                )
            } else {
                old(self).cells()
            },
            final(self).same_state(old(self)),
            final(self).wf(),
    {
        if scan.y >= scan.y_max {
            return false;
        }
        let x: i32 = scan.x;
        let y: i32 = scan.y;
        let moved: i64 = x as i64 + step as i64;
        if moved < -0x8000_0000 || moved > 0x7FFF_FFFF {
            return false;
        }
        let x_next: i32 = moved as i32;
        let dy: i32 = scan.dy();
        let d: i32 = if scan.reversed { -dy } else { dy };
        proof {
            use_type_invariant(&*scan);
        }
        if y < 0 {
            scan.x = x_next;
            scan.y = y + 1;
            return true;
        }
        let x0: i32 = fmin(x, x_next);
        let x1: i32 = fmax(x, x_next);
        if x1 > i32::MAX - FX_ONE_MINUS_IOTA {
            return false;
        }
        let narrow: bool = ceil(x1) <= floor(x0) + 1;
        if narrow {
            let sum: i64 = x as i64 + x_next as i64;
            if sum < -0x8000_0000 || sum > 0x7FFF_FFFF {
                return false;
            }
        } else {
            if 2 * (x1 as i64 - x0 as i64) > 0x7FFF_FFFF {
                return false;
            }
        }
        scan.x = x_next;
        scan.y = y + 1;
        let size: [usize; 2] = self.size();
        let w: usize = size[0];
        let h: usize = size[1];
        if y as usize >= h {
            return true;
        }
        assert(y * w + w <= h * w) by (nonlinear_arith)
            requires
                0 <= y < h,
                0 <= w,
        ;
        let base: usize = (y as usize) * w;
        let width: i32 = if w > 0x7FFF_FFFF { 0x7FFF_FFFF } else { w as i32 };
        let ghost len = self.cells().len();
        if narrow {
            self.fixed_narrow(base, width, x, x_next, d);
            assert(narrow_deltas(len, base as int, width as int, x as int, x_next as int, d as int)
                =~= narrow_deltas(len, base as int, w as int, x as int, x_next as int, d as int));
        } else {
            self.fixed_wide(base, width, x0, x1, d);
            proof {
                lemma_wide_any_width(len, base as int, width as int, w as int, x0 as int, x1 as int, d as int);
            }
        }
        true
    }

    /// Integrates the deltas from the first cell to the last and leaves in
    /// each cell its coverage, a value from 0 to `0xFFFF`.
    #[verifier::rlimit(50)]
    pub fn fixed_accumulate_mask(&mut self)
        ensures
            final(self).cells() == fixed_mask(old(self).cells()),
            final(self).is_mask(),
            final(self).same_state(old(self)),
    {
        let ghost before = self.cells();
        let n: usize = self.cell_count();
        let mut acc: u32 = 0;
        let mut i: usize = 0;
        while i < n
            invariant
                i <= n,
                n == before.len(),
                self.cells().len() == n,
                acc == wrap(total(before, i as int)),
                forall|k: int| 0 <= k < i ==> self.cells()[k] == fixed_mask(before)[k],
                forall|k: int| i <= k < n ==> self.cells()[k] == before[k],
                self.same_state(old(self)),
            decreases n - i,
        {
            let v: u32 = self.cell(i);
            proof {
                lemma_add_mod_noop(total(before, i as int), v as int, 0x1_0000_0000);
                lemma_small_mod(v as nat, 0x1_0000_0000);
            }
            acc = acc.wrapping_add(v);
            let a: u32 = if acc >= 0x8000_0000 { (0xFFFF_FFFF - acc) + 1 } else { acc };
            let a: u32 = a / 4;
            let a: u32 = if a > 0xFFFF { 0xFFFF } else { a };
            self.set_cell(i, a);
            i = i + 1;
        }
        assert(self.cells() =~= fixed_mask(before));
    }
}

} // verus!
