//! What a whole path adds to the cells, and what the mask keeps of it: the
//! order of the rows does not matter, and a path drawn the other way round
//! has the same mask.

use vstd::prelude::*;
use vstd::arithmetic::div_mod::{lemma_add_mod_noop, lemma_small_mod, lemma_fundamental_div_mod};
use vstd::seq_lib::{commutative_foldl, lemma_fold_left_permutation};
use crate::vg::raster_fixed::{
    ceil_of,
    FixedScan,
    overlap,
    coverage,
    fixed_mask,
    floor_of,
    lemma_shifted_plus,
    lemma_shifted_still,
    lemma_span_len,
    narrow_deltas,
    negated,
    plus,
    row_deltas,
    shifted,
    signed,
    span,
    still,
    total,
    wide_deltas,
    wrap,
};
use crate::trunc::tdiv;
use crate::vg::{zeros, Rasterizer};

verus! {

/// One row of a segment: the segment crosses the row `y` from `x` to
/// `x_next` and overlaps it vertically by `d`, negative when it runs upward.
pub struct RowSlice {
    pub y: int,
    pub x: int,
    pub x_next: int,
    pub d: int,
}

/// The deltas that a row slice adds.
pub open spec fn slice_deltas(len: nat, width: int, r: RowSlice) -> Seq<int> {
    row_deltas(len, width, r.y, r.x, r.x_next, r.d)
}

/// The deltas that the rows of a path add, all together.
pub open spec fn path_deltas(len: nat, width: int, rows: Seq<RowSlice>) -> Seq<int> {
    rows.fold_left(still(len), |acc: Seq<int>, r: RowSlice| plus(acc, slice_deltas(len, width, r)))
}

/// The same row, crossed in the other direction.
pub open spec fn turned(r: RowSlice) -> RowSlice {
    RowSlice { y: r.y, x: r.x, x_next: r.x_next, d: -r.d }
}

/// The rows of a path that is drawn the other way round: a segment is put in
/// order before it is scanned, so each of its rows is crossed as before, in
/// the other direction.
pub open spec fn unwound(rows: Seq<RowSlice>) -> Seq<RowSlice> {
    Seq::new(rows.len(), |i: int| turned(rows[i]))
}

/// Division that rounds toward zero is odd in the dividend.
pub proof fn lemma_tdiv_odd(n: int, m: int)
    requires
        m != 0,
    ensures
        tdiv(-n, m) == -tdiv(n, m),
{
    if n == 0 {
        assert(0int / m == 0) by (nonlinear_arith)
            requires
                m != 0,
        ;
    }
}

/// The opposite delta on the same columns.
pub proof fn lemma_span_negated(len: nat, base: int, width: int, lo: int, hi: int, v: int)
    ensures
        span(len, base, width, lo, hi, -v) == negated(span(len, base, width, lo, hi, v)),
    decreases hi - lo,
{
    if hi > lo {
        lemma_span_negated(len, base, width, lo, hi - 1, v);
        lemma_span_len(len, base, width, lo, hi - 1, v);
        lemma_span_len(len, base, width, lo, hi - 1, -v);
    }
    lemma_span_len(len, base, width, lo, hi, v);
    lemma_span_len(len, base, width, lo, hi, -v);
    assert(span(len, base, width, lo, hi, -v) =~= negated(span(len, base, width, lo, hi, v)));
}

/// A row crossed in the other direction adds the opposite deltas.
#[verifier::rlimit(50)]
pub proof fn lemma_row_negated(len: nat, width: int, y: int, x: int, x_next: int, d: int)
    ensures
        row_deltas(len, width, y, x, x_next, -d) == negated(
            row_deltas(len, width, y, x, x_next, d),
        ),
{
    let x0 = if x > x_next { x_next } else { x };
    let x1 = if x > x_next { x } else { x_next };
    let base = y * width;
    if ceil_of(x1) <= floor_of(x0) + 1 {
        let x0i = floor_of(x0);
        let xmf = (x + x_next) / 2 - x0i * 512;
        assert((-d) * (512 - xmf) == -(d * (512 - xmf))) by (nonlinear_arith);
        assert((-d) * xmf == -(d * xmf)) by (nonlinear_arith);
        assert(narrow_deltas(len, base, width, x, x_next, -d) =~= negated(
            narrow_deltas(len, base, width, x, x_next, d),
        ));
    } else {
        let x0i = floor_of(x0);
        let x1i = ceil_of(x1);
        let s1 = x1 - x0;
        let s2 = 2 * s1;
        let x0f = x0 - x0i * 512;
        let omx = 512 - x0f;
        let x1f = x1 - x1i * 512 + 512;
        assert(s1 >= 1);
        let n_left = omx * omx * d;
        let n_right = x1f * x1f * d;
        let n_mid = (s2 * 512 - omx * omx - x1f * x1f) * d;
        let n_a = ((768 - x0f) * 1024 - omx * omx) * d;
        let n_b = ((x1f * 2 + 512) * 512 - x1f * x1f) * d;
        assert(omx * omx * (-d) == -n_left) by (nonlinear_arith)
            requires
                n_left == omx * omx * d,
        ;
        assert(x1f * x1f * (-d) == -n_right) by (nonlinear_arith)
            requires
                n_right == x1f * x1f * d,
        ;
        assert((s2 * 512 - omx * omx - x1f * x1f) * (-d) == -n_mid) by (nonlinear_arith)
            requires
                n_mid == (s2 * 512 - omx * omx - x1f * x1f) * d,
        ;
        assert(((768 - x0f) * 1024 - omx * omx) * (-d) == -n_a) by (nonlinear_arith)
            requires
                n_a == ((768 - x0f) * 1024 - omx * omx) * d,
        ;
        assert(((x1f * 2 + 512) * 512 - x1f * x1f) * (-d) == -n_b) by (nonlinear_arith)
            requires
                n_b == ((x1f * 2 + 512) * 512 - x1f * x1f) * d,
        ;
        lemma_tdiv_odd(n_left, s2);
        lemma_tdiv_odd(n_right, s2);
        lemma_tdiv_odd(n_mid, s2);
        lemma_tdiv_odd(n_a, s2);
        lemma_tdiv_odd(n_b, s2);
        lemma_tdiv_odd(d * 262144, s1);
        lemma_span_negated(len, base, width, x0i + 2, x1i - 1, tdiv(d * 262144, s1));
        lemma_span_len(len, base, width, x0i + 2, x1i - 1, tdiv(d * 262144, s1));
        lemma_span_len(len, base, width, x0i + 2, x1i - 1, tdiv((-d) * 262144, s1));
        assert(wide_deltas(len, base, width, x0, x1, -d) =~= negated(
            wide_deltas(len, base, width, x0, x1, d),
        ));
    }
}

/// A path has a delta for each cell.
pub proof fn lemma_path_len(len: nat, width: int, rows: Seq<RowSlice>)
    ensures
        path_deltas(len, width, rows).len() == len,
    decreases rows.len(),
{
    if rows.len() > 0 {
        lemma_path_len(len, width, rows.drop_last());
    }
}

/// One more row adds its deltas to those of the path so far. With it, the
/// cells after each scanned row are the first cells shifted by the path.
pub proof fn lemma_path_push(len: nat, width: int, rows: Seq<RowSlice>, r: RowSlice)
    ensures
        path_deltas(len, width, rows.push(r)) == plus(
            path_deltas(len, width, rows),
            slice_deltas(len, width, r),
        ),
{
    assert(rows.push(r).drop_last() =~= rows);
}

/// The rows of a path may be scanned in any order.
pub proof fn lemma_path_order(len: nat, width: int, rows: Seq<RowSlice>, other: Seq<RowSlice>)
    requires
        rows.to_multiset() == other.to_multiset(),
    ensures
        path_deltas(len, width, rows) == path_deltas(len, width, other),
{
    let f = |acc: Seq<int>, r: RowSlice| plus(acc, slice_deltas(len, width, r));
    assert forall|a: RowSlice, b: RowSlice, v: Seq<int>| #[trigger] f(f(v, a), b) == f(f(v, b), a) by {
        assert(f(f(v, a), b) =~= f(f(v, b), a));
    }
    assert(commutative_foldl(f));
    lemma_fold_left_permutation(rows, other, f, still(len));
}

/// A path drawn the other way round adds the opposite deltas.
pub proof fn lemma_path_unwound(len: nat, width: int, rows: Seq<RowSlice>)
    ensures
        path_deltas(len, width, unwound(rows)) == negated(path_deltas(len, width, rows)),
    decreases rows.len(),
{
    if rows.len() == 0 {
        assert(path_deltas(len, width, unwound(rows)) =~= negated(path_deltas(len, width, rows)));
    } else {
        let r = rows.last();
        lemma_path_unwound(len, width, rows.drop_last());
        assert(unwound(rows).drop_last() =~= unwound(rows.drop_last()));
        assert(unwound(rows).last() == turned(r));
        lemma_row_negated(len, width, r.y, r.x, r.x_next, r.d);
        lemma_path_len(len, width, rows.drop_last());
        lemma_path_len(len, width, unwound(rows.drop_last()));
        assert(path_deltas(len, width, unwound(rows)) =~= negated(path_deltas(len, width, rows)));
    }
}

/// The sums of two buffers whose cells are opposite are opposite, modulo
/// 2^32.
pub proof fn lemma_total_negated(a: Seq<u32>, b: Seq<u32>, n: int)
    requires
        a.len() == b.len(),
        0 <= n <= a.len(),
        forall|k: int| 0 <= k < a.len() ==> #[trigger] b[k] == wrap(-a[k]),
    ensures
        wrap(total(b, n)) == wrap(-total(a, n)),
    decreases n,
{
    if n > 0 {
        lemma_total_negated(a, b, n - 1);
        let m = 0x1_0000_0000int;
        let ta = total(a, n - 1);
        let tb = total(b, n - 1);
        lemma_add_mod_noop(tb, b[n - 1] as int, m);
        lemma_add_mod_noop(-ta, -a[n - 1], m);
        lemma_small_mod(b[n - 1] as nat, m as nat);
    }
}

/// A 32-bit pattern and its opposite stand for numbers of the same size.
pub proof fn lemma_coverage_negated(t: int)
    ensures
        coverage(signed(wrap(t))) == coverage(signed(wrap(-t))),
{
    let m = 0x1_0000_0000int;
    lemma_fundamental_div_mod(t, m);
    lemma_fundamental_div_mod(-t, m);
    let w = t % m;
    let v = (-t) % m;
    assert(m * (t / m) + m * ((-t) / m) == m * (t / m + (-t) / m)) by (nonlinear_arith);
    assert(w + v == m * (-(t / m + (-t) / m)));
    let q = -(t / m + (-t) / m);
    assert(0 <= w + v < 2 * m);
    assert(q == 0 || q == 1) by (nonlinear_arith)
        requires
            0 <= m * q < 2 * m,
            m > 0,
    ;
}

/// Opposite deltas integrate to the same mask.
pub proof fn lemma_mask_negated(a: Seq<u32>, b: Seq<u32>)
    requires
        a.len() == b.len(),
        forall|k: int| 0 <= k < a.len() ==> #[trigger] b[k] == wrap(-a[k]),
    ensures
        fixed_mask(a) == fixed_mask(b),
{
    assert forall|i: int| 0 <= i < a.len() implies fixed_mask(a)[i] == fixed_mask(b)[i] by {
        lemma_total_negated(a, b, i + 1);
        lemma_coverage_negated(total(a, i + 1));
    }
    assert(fixed_mask(a) =~= fixed_mask(b));
}

/// Cells that are all zero add up to zero.
pub proof fn lemma_total_zeros(len: int, n: int)
    requires
        0 <= n <= len,
    ensures
        total(zeros(len), n) == 0,
    decreases n,
{
    if n > 0 {
        lemma_total_zeros(len, n - 1);
    }
}

/// A path that adds nothing, such as one that only moves the pen, has the
/// mask that is zero everywhere.
pub proof fn lemma_mask_of_zeros(len: int)
    requires
        0 <= len,
    ensures
        fixed_mask(zeros(len)) == zeros(len),
{
    assert forall|i: int| 0 <= i < len implies fixed_mask(zeros(len))[i] == 0u32 by {
        lemma_total_zeros(len, i + 1);
    }
    assert(fixed_mask(zeros(len)) =~= zeros(len));
}

/// Winding: a path and the same path drawn the other way round, its rows in
/// whatever order, have the same mask.
pub proof fn lemma_winding_symmetry(
    len: nat,
    width: int,
    rows: Seq<RowSlice>,
    other: Seq<RowSlice>,
)
    requires
        other.to_multiset() == unwound(rows).to_multiset(),
    ensures
        fixed_mask(shifted(zeros(len as int), path_deltas(len, width, rows))) == fixed_mask(
            shifted(zeros(len as int), path_deltas(len, width, other)),
        ),
{
    let there = path_deltas(len, width, rows);
    let back = path_deltas(len, width, other);
    lemma_path_order(len, width, other, unwound(rows));
    lemma_path_unwound(len, width, rows);
    lemma_path_len(len, width, rows);
    assert(back == negated(there));
    let a = shifted(zeros(len as int), there);
    let b = shifted(zeros(len as int), back);
    assert forall|k: int| 0 <= k < a.len() implies #[trigger] b[k] == wrap(-a[k]) by {
        lemma_wrap_opposite(there[k]);
    }
    lemma_mask_negated(a, b);
}

/// The opposite of a number and the opposite of its 32-bit pattern have the
/// same 32-bit pattern.
pub proof fn lemma_wrap_opposite(t: int)
    ensures
        wrap(-t) == wrap(-(wrap(t) as int)),
{
    let m = 0x1_0000_0000int;
    lemma_fundamental_div_mod(t, m);
    let q = t / m;
    let w = t % m;
    // -t == -w - m * q
    assert(-t == m * (-q) + (-w)) by (nonlinear_arith)
        requires
            t == m * q + w,
    ;
    vstd::arithmetic::div_mod::lemma_mod_multiples_vanish(-q, -w, m);
}

/// A path that is drawn and then drawn again the other way round, the rows
/// of both in whatever order, encloses nothing: its mask is zero everywhere.
pub proof fn lemma_retraced_path(len: nat, width: int, rows: Seq<RowSlice>, path: Seq<RowSlice>)
    requires
        path.to_multiset() == (rows + unwound(rows)).to_multiset(),
    ensures
        fixed_mask(shifted(zeros(len as int), path_deltas(len, width, path))) == zeros(len as int),
{
    lemma_path_order(len, width, path, rows + unwound(rows));
    lemma_path_append(len, width, rows, unwound(rows));
    lemma_path_unwound(len, width, rows);
    lemma_path_len(len, width, rows);
    let there = path_deltas(len, width, rows);
    assert(plus(there, negated(there)) =~= still(len));
    lemma_shifted_still(zeros(len as int));
    lemma_mask_of_zeros(len as int);
}

/// The deltas of two paths, one after the other, add up.
pub proof fn lemma_path_append(len: nat, width: int, first: Seq<RowSlice>, second: Seq<RowSlice>)
    ensures
        path_deltas(len, width, first + second) == plus(
            path_deltas(len, width, first),
            path_deltas(len, width, second),
        ),
    decreases second.len(),
{
    lemma_path_len(len, width, first);
    if second.len() == 0 {
        assert(first + second =~= first);
        assert(path_deltas(len, width, first) =~= plus(
            path_deltas(len, width, first),
            path_deltas(len, width, second),
        ));
    } else {
        let r = second.last();
        lemma_path_append(len, width, first, second.drop_last());
        assert((first + second).drop_last() =~= first + second.drop_last());
        assert((first + second).last() == r);
        lemma_path_len(len, width, second.drop_last());
        lemma_path_len(len, width, first + second.drop_last());
        assert(path_deltas(len, width, first + second) =~= plus(
            path_deltas(len, width, first),
            path_deltas(len, width, second),
        ));
    }
}

/// A rasterizer whose cells are zero, as after `new`, `reset` or `clear` and
/// any moves of the pen, has the mask that is zero everywhere, whichever the
/// engine.
pub proof fn lemma_zero_mask(z: Rasterizer)
    requires
        z.cells() == zeros(z.cells().len() as int),
    ensures
        z.mask() == zeros(z.cells().len() as int),
{
    lemma_mask_of_zeros(z.cells().len() as int);
    assert(crate::vg::vector::limited(z.cells()) =~= z.cells());
}

/// Winding, of two fixed-point rasterizers of the same size: where one holds
/// a path and the other the same path drawn the other way round, its rows in
/// whatever order, a draw finds the same mask in both.
pub proof fn lemma_winding_masks(
    a: Rasterizer,
    b: Rasterizer,
    rows: Seq<RowSlice>,
    other: Seq<RowSlice>,
)
    requires
        !a.floating(),
        !b.floating(),
        a.width() == b.width(),
        a.cells().len() == b.cells().len(),
        a.cells() == shifted(
            zeros(a.cells().len() as int),
            path_deltas(a.cells().len(), a.width(), rows),
        ),
        b.cells() == shifted(
            zeros(b.cells().len() as int),
            path_deltas(b.cells().len(), b.width(), other),
        ),
        other.to_multiset() == unwound(rows).to_multiset(),
    ensures
        a.mask() == b.mask(),
{
    lemma_winding_symmetry(a.cells().len(), a.width(), rows, other);
}

/// The sum of the first `k` advances.
pub open spec fn advance(steps: Seq<i32>, k: int) -> int
    decreases k,
{
    if k <= 0 {
        0
    } else {
        advance(steps, k - 1) + steps[k - 1]
    }
}

impl FixedScan {
    /// The row slice that the scan reaches after `k` advances.
    pub open spec fn slice_at(&self, steps: Seq<i32>, k: int) -> RowSlice {
        RowSlice {
            y: self.row() + k,
            x: self.x() + advance(steps, k),
            x_next: self.x() + advance(steps, k + 1),
            d: if self.upward() {
                -overlap(self.row() + k, self.top(), self.bottom())
            } else {
                overlap(self.row() + k, self.top(), self.bottom())
            },
        }
    }

    /// Whether the scan, after `k` advances, has a row left that can take
    /// the next advance in 32 bits.
    pub open spec fn takes(&self, steps: Seq<i32>, k: int) -> bool {
        let r = self.slice_at(steps, k);
        &&& r.y < self.end()
        &&& i32::MIN <= r.x_next <= i32::MAX
        &&& r.y >= 0 ==> crate::vg::raster_fixed::row_fits(r.x, r.x_next)
    }

    /// The rows among the first `n` of the scan that lie on a mask of the
    /// given height, in their order.
    pub open spec fn slices(&self, steps: Seq<i32>, n: int, height: int) -> Seq<RowSlice>
        decreases n,
    {
        if n <= 0 {
            Seq::empty()
        } else if 0 <= self.row() + n - 1 < height {
            self.slices(steps, n - 1, height).push(self.slice_at(steps, n - 1))
        } else {
            self.slices(steps, n - 1, height)
        }
    }

    /// The scan has made `n` advances since `before`.
    pub open spec fn advanced(&self, before: &FixedScan, steps: Seq<i32>, n: int) -> bool {
        &&& self.x() == before.x() + advance(steps, n)
        &&& self.row() == before.row() + n
        &&& self.end() == before.end()
        &&& self.top() == before.top()
        &&& self.bottom() == before.bottom()
        &&& self.upward() == before.upward()
    }
}

/// A segment scanned as drawn upward has the rows of the same segment
/// scanned as drawn downward, each crossed in the other direction. So a path
/// drawn the other way round has the rows that `unwound` gives.
pub proof fn lemma_scan_unwound(
    up: FixedScan,
    down: FixedScan,
    steps: Seq<i32>,
    n: int,
    height: int,
)
    requires
        up.x() == down.x(),
        up.row() == down.row(),
        up.top() == down.top(),
        up.bottom() == down.bottom(),
        up.upward() != down.upward(),
    ensures
        up.slices(steps, n, height) == unwound(down.slices(steps, n, height)),
    decreases n,
{
    if n > 0 {
        lemma_scan_unwound(up, down, steps, n - 1, height);
        assert(up.slice_at(steps, n - 1) == turned(down.slice_at(steps, n - 1)));
    }
    assert(up.slices(steps, n, height) =~= unwound(down.slices(steps, n, height)));
}

impl Rasterizer {
    /// Adds a segment to `(bx, by)`: moves the pen there and scans the rows
    /// of the segment, `steps[k]` being the advance of `x` over the `k`-th
    /// row that is left, as long as there are rows, advances, and room for
    /// them in 32 bits. Returns the number of rows scanned.
    ///
    /// The cells take the deltas of the scanned rows that lie on the mask.
    #[verifier::rlimit(50)]
    pub fn fixed_line_to(&mut self, bx: u32, by: u32, scan: &mut FixedScan, steps: &[i32]) -> (n:
        usize)
        requires
            old(self).wf(),
        ensures
            n <= steps@.len(),
            forall|k: int| 0 <= k < n ==> old(scan).takes(steps@, k),
            n < steps@.len() ==> !old(scan).takes(steps@, n as int),
            final(scan).advanced(old(scan), steps@, n as int),
            final(self).cells() == shifted(
                old(self).cells(),
                path_deltas(
                    old(self).cells().len(),
                    old(self).width(),
                    old(scan).slices(steps@, n as int, old(self).height()),
                ),
            ),
            final(self).pen_bits() == (bx, by),
            final(self).first_bits() == old(self).first_bits(),
            final(self).same_raster(old(self)),
            final(self).wf(),
    {
        let ghost start = *scan;
        let ghost before = self.cells();
        let ghost len = before.len();
        let ghost width = self.width();
        let ghost height = self.height();
        self.set_pen(bx, by);
        proof {
            lemma_shifted_still(before);
        }
        let mut n: usize = 0;
        while n < steps.len()
            invariant
                n <= steps@.len(),
                self.wf(),
                start == *old(scan),
                before == old(self).cells(),
                len == before.len(),
                self.cells().len() == len,
                width == self.width(),
                height == self.height(),
                forall|k: int| 0 <= k < n ==> start.takes(steps@, k),
                scan.advanced(&start, steps@, n as int),
                self.cells() == shifted(
                    before,
                    path_deltas(len, width, start.slices(steps@, n as int, height)),
                ),
                self.pen_bits() == (bx, by),
                self.first_bits() == old(self).first_bits(),
                self.same_raster(old(self)),
            decreases steps@.len() - n,
        {
            let ghost sofar = start.slices(steps@, n as int, height);
            let ghost here = start.slice_at(steps@, n as int);
            if !self.fixed_row(scan, steps[n]) {
                return n;
            }
            proof {
                lemma_path_len(len, width, sofar);
                if 0 <= here.y < height {
                    lemma_shifted_plus(before, path_deltas(len, width, sofar), slice_deltas(len, width, here));
                    lemma_path_push(len, width, sofar, here);
                }
            }
            n = n + 1;
        }
        n
    }

    /// Closes the current sub-path: adds the segment from the pen back to
    /// the start of the sub-path, as `fixed_line_to` adds a segment, and
    /// leaves the pen there. `scan` and `steps` are those of that segment.
    pub fn close_path(&mut self, scan: &mut FixedScan, steps: &[i32]) -> (n: usize)
        requires
            old(self).wf(),
        ensures
            n <= steps@.len(),
            forall|k: int| 0 <= k < n ==> old(scan).takes(steps@, k),
            n < steps@.len() ==> !old(scan).takes(steps@, n as int),
            final(scan).advanced(old(scan), steps@, n as int),
            final(self).cells() == shifted(
                old(self).cells(),
                path_deltas(
                    old(self).cells().len(),
                    old(self).width(),
                    old(scan).slices(steps@, n as int, old(self).height()),
                ),
            ),
            final(self).pen_bits() == old(self).first_bits(),
            final(self).first_bits() == old(self).first_bits(),
            final(self).same_raster(old(self)),
            final(self).wf(),
    {
        let start: [u32; 2] = self.first();
        self.fixed_line_to(start[0], start[1], scan, steps)
    }
}

} // verus!
