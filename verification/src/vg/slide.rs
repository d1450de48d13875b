//! Moving a path: a path moved by whole pixels, to the right and down, adds
//! the same deltas some cells later, and has its mask some cells later.

use vstd::prelude::*;
use crate::vg::clamped;
use crate::vg::paths::{lemma_path_len, path_deltas, slice_deltas, RowSlice};
use crate::vg::raster_fixed::{
    ceil_of,
    fixed_mask,
    floor_of,
    lemma_span_len,
    narrow_deltas,
    plus,
    point,
    shifted,
    span,
    still,
    total,
    wide_deltas,
    wrap,
};
use crate::vg::{zeros, Rasterizer};

verus! {

/// The deltas `s` cells later; what leaves the buffer is lost, and what
/// comes in is zero.
pub open spec fn later(deltas: Seq<int>, s: int) -> Seq<int> {
    Seq::new(deltas.len(), |k: int| if 0 <= k - s < deltas.len() { deltas[k - s] } else { 0int })
}

/// The cells `s` cells later; what leaves the buffer is lost, and what
/// comes in is zero.
pub open spec fn cells_later(cells: Seq<u32>, s: int) -> Seq<u32> {
    Seq::new(cells.len(), |k: int| if 0 <= k - s < cells.len() { cells[k - s] } else { 0u32 })
}

/// A row slice moved by `i` whole columns and `j` whole rows.
pub open spec fn slid(r: RowSlice, i: int, j: int) -> RowSlice {
    RowSlice { y: r.y + j, x: r.x + 512 * i, x_next: r.x_next + 512 * i, d: r.d }
}

/// Each row of a path moved by `i` whole columns and `j` whole rows.
pub open spec fn path_slid(rows: Seq<RowSlice>, i: int, j: int) -> Seq<RowSlice> {
    Seq::new(rows.len(), |k: int| slid(rows[k], i, j))
}

/// Whether the row slice lies on a mask of the given width: in a row from
/// zero on, between the columns zero and `width`, so that no column of it is
/// limited.
pub open spec fn on_mask(r: RowSlice, width: int) -> bool {
    let x0 = if r.x > r.x_next { r.x_next } else { r.x };
    let x1 = if r.x > r.x_next { r.x } else { r.x_next };
    &&& 0 <= r.y
    &&& 0 <= floor_of(x0)
    &&& floor_of(x0) + 1 <= width
    &&& ceil_of(x1) <= width
}

/// A delta on one cell, later.
pub proof fn lemma_point_later(len: nat, t: int, v: int, s: int)
    requires
        0 <= t,
        0 <= s,
    ensures
        point(len, t + s, v) == later(point(len, t, v), s),
{
    assert(point(len, t + s, v) =~= later(point(len, t, v), s));
}

/// The sum of two fields of deltas, later.
pub proof fn lemma_plus_later(a: Seq<int>, b: Seq<int>, s: int)
    requires
        a.len() == b.len(),
    ensures
        plus(later(a, s), later(b, s)) == later(plus(a, b), s),
{
    assert(plus(later(a, s), later(b, s)) =~= later(plus(a, b), s));
}

/// The same delta on a run of columns, later.
pub proof fn lemma_span_later(
    len: nat,
    base: int,
    width: int,
    lo: int,
    hi: int,
    v: int,
    i: int,
    s: int,
)
    requires
        0 <= s,
        0 <= base,
        hi > lo ==> 0 <= lo && hi - 1 <= width && 0 <= lo + i && hi - 1 + i <= width,
    ensures
        span(len, base + s - i, width, lo + i, hi + i, v) == later(
            span(len, base, width, lo, hi, v),
            s,
        ),
    decreases hi - lo,
{
    if hi > lo {
        lemma_span_later(len, base, width, lo, hi - 1, v, i, s);
        lemma_span_len(len, base, width, lo, hi - 1, v);
        lemma_point_later(len, base + clamped(hi - 1, width), v, s);
        lemma_plus_later(
            span(len, base, width, lo, hi - 1, v),
            point(len, base + clamped(hi - 1, width), v),
            s,
        );
        assert(hi + i - 1 == hi - 1 + i);
    } else {
        assert(still(len) =~= later(still(len), s));
    }
}

/// A narrow row slice that lies on the mask before and after it is moved
/// adds the same deltas later.
pub proof fn lemma_narrow_slid(
    len: nat,
    base: int,
    width: int,
    x: int,
    x_next: int,
    d: int,
    i: int,
    s: int,
)
    requires
        0 <= s,
        0 <= base,
        ({
            let x0 = if x > x_next { x_next } else { x };
            0 <= floor_of(x0) && floor_of(x0) + 1 <= width && 0 <= floor_of(x0) + i && floor_of(x0)
                + i + 1 <= width
        }),
    ensures
        narrow_deltas(len, base + s - i, width, x + 512 * i, x_next + 512 * i, d) == later(
            narrow_deltas(len, base, width, x, x_next, d),
            s,
        ),
{
    let x0 = if x > x_next { x_next } else { x };
    let x0i = floor_of(x0);
    let xmf = (x + x_next) / 2 - x0i * 512;
    let y0 = if x + 512 * i > x_next + 512 * i { x_next + 512 * i } else { x + 512 * i };
    assert(y0 == x0 + 512 * i);
    assert(floor_of(y0) == x0i + i);
    assert((x + 512 * i + (x_next + 512 * i)) / 2 - (x0i + i) * 512 == xmf);
    let a = point(len, base + x0i, d * (512 - xmf));
    let b = point(len, base + x0i + 1, d * xmf);
    lemma_point_later(len, base + x0i, d * (512 - xmf), s);
    lemma_point_later(len, base + x0i + 1, d * xmf, s);
    lemma_plus_later(a, b, s);
    assert(narrow_deltas(len, base, width, x, x_next, d) == plus(a, b));
    assert(narrow_deltas(len, base + s - i, width, x + 512 * i, x_next + 512 * i, d) == plus(
        point(len, base + x0i + s, d * (512 - xmf)),
        point(len, base + x0i + 1 + s, d * xmf),
    ));
}

/// A wide row slice that lies on the mask before and after it is moved adds
/// the same deltas later.
#[verifier::rlimit(40)]
pub proof fn lemma_wide_slid(
    len: nat,
    base: int,
    width: int,
    x0: int,
    x1: int,
    d: int,
    i: int,
    s: int,
)
    requires
        0 <= s,
        0 <= base,
        x0 <= x1,
        ceil_of(x1) > floor_of(x0) + 1,
        0 <= floor_of(x0),
        ceil_of(x1) <= width,
        0 <= floor_of(x0) + i,
        ceil_of(x1) + i <= width,
    ensures
        wide_deltas(len, base + s - i, width, x0 + 512 * i, x1 + 512 * i, d) == later(
            wide_deltas(len, base, width, x0, x1, d),
            s,
        ),
{
    let x0i = floor_of(x0);
    let x1i = ceil_of(x1);
    assert(floor_of(x0 + 512 * i) == x0i + i);
    assert(ceil_of(x1 + 512 * i) == x1i + i);
    let s1 = x1 - x0;
    let s2 = 2 * s1;
    let x0f = x0 - x0i * 512;
    let omx = 512 - x0f;
    let x1f = x1 - x1i * 512 + 512;
    assert(x0 + 512 * i - (x0i + i) * 512 == x0f);
    assert(x1 + 512 * i - (x1i + i) * 512 + 512 == x1f);
    let t_left = crate::trunc::tdiv(omx * omx * d, s2);
    let t_right = crate::trunc::tdiv(x1f * x1f * d, s2);
    let t_mid = crate::trunc::tdiv((s2 * 512 - omx * omx - x1f * x1f) * d, s2);
    let t_a = crate::trunc::tdiv(((768 - x0f) * 1024 - omx * omx) * d, s2);
    let t_b = crate::trunc::tdiv(((x1f * 2 + 512) * 512 - x1f * x1f) * d, s2);
    let v = crate::trunc::tdiv(d * 262144, s1);
    let base2 = base + s - i;

    let left = point(len, base + x0i, t_left);
    let right = point(len, base + x1i, t_right);
    lemma_point_later(len, base + x0i, t_left, s);
    lemma_point_later(len, base + x1i, t_right, s);
    let left2 = point(len, base2 + (x0i + i), t_left);
    let right2 = point(len, base2 + (x1i + i), t_right);
    assert(left2 == later(left, s));
    assert(right2 == later(right, s));

    if x1i == x0i + 2 {
        let middle = point(len, base + x0i + 1, t_mid);
        lemma_point_later(len, base + x0i + 1, t_mid, s);
        let middle2 = point(len, base2 + (x0i + i + 1), t_mid);
        assert(middle2 == later(middle, s));
        lemma_plus_later(left, middle, s);
        lemma_plus_later(plus(left, middle), right, s);
        assert(wide_deltas(len, base, width, x0, x1, d) == plus(plus(left, middle), right));
        assert(wide_deltas(len, base2, width, x0 + 512 * i, x1 + 512 * i, d) == plus(
            plus(left2, middle2),
            right2,
        ));
    } else {
        let pa = point(len, base + x0i + 1, t_a);
        let pb = point(len, base + x1i - 1, t_b);
        let sp = span(len, base, width, x0i + 2, x1i - 1, v);
        lemma_point_later(len, base + x0i + 1, t_a, s);
        lemma_point_later(len, base + x1i - 1, t_b, s);
        lemma_span_later(len, base, width, x0i + 2, x1i - 1, v, i, s);
        lemma_span_len(len, base, width, x0i + 2, x1i - 1, v);
        let pa2 = point(len, base2 + (x0i + i + 1), t_a);
        let pb2 = point(len, base2 + (x1i + i - 1), t_b);
        let span2 = span(len, base2, width, x0i + i + 2, x1i + i - 1, v);
        assert(pa2 == later(pa, s));
        assert(pb2 == later(pb, s));
        assert(x0i + i + 2 == x0i + 2 + i && x1i + i - 1 == x1i - 1 + i);
        assert(span2 == later(sp, s));
        let middle = plus(plus(pa, sp), pb);
        let middle2 = plus(plus(pa2, span2), pb2);
        lemma_plus_later(pa, sp, s);
        lemma_plus_later(plus(pa, sp), pb, s);
        assert(middle2 == later(middle, s));
        lemma_plus_later(left, middle, s);
        lemma_plus_later(plus(left, middle), right, s);
        assert(wide_deltas(len, base, width, x0, x1, d) == plus(plus(left, middle), right));
        assert(wide_deltas(len, base2, width, x0 + 512 * i, x1 + 512 * i, d) == plus(
            plus(left2, middle2),
            right2,
        ));
    }
}

/// A row slice that lies on the mask before and after it is moved adds the
/// same deltas, `j` rows and `i` cells later.
pub proof fn lemma_row_slid(len: nat, width: int, r: RowSlice, i: int, j: int)
    requires
        0 <= width,
        on_mask(r, width),
        on_mask(slid(r, i, j), width),
        0 <= j * width + i,
    ensures
        slice_deltas(len, width, slid(r, i, j)) == later(
            slice_deltas(len, width, r),
            j * width + i,
        ),
{
    let s = j * width + i;
    let x0 = if r.x > r.x_next { r.x_next } else { r.x };
    let x1 = if r.x > r.x_next { r.x } else { r.x_next };
    let base = r.y * width;
    assert(0 <= base) by (nonlinear_arith)
        requires
            0 <= r.y,
            0 <= width,
            base == r.y * width,
    ;
    assert((r.y + j) * width == base + j * width) by (nonlinear_arith)
        requires
            base == r.y * width,
    ;
    assert(floor_of(x0 + 512 * i) == floor_of(x0) + i);
    assert(ceil_of(x1 + 512 * i) == ceil_of(x1) + i);
    if ceil_of(x1) <= floor_of(x0) + 1 {
        lemma_narrow_slid(len, base, width, r.x, r.x_next, r.d, i, s);
    } else {
        lemma_wide_slid(len, base, width, x0, x1, r.d, i, s);
    }
}

/// A path whose rows lie on the mask before and after they are moved adds
/// the same deltas, `j` rows and `i` cells later.
pub proof fn lemma_path_slid(len: nat, width: int, rows: Seq<RowSlice>, i: int, j: int)
    requires
        0 <= width,
        0 <= j * width + i,
        forall|k: int| 0 <= k < rows.len() ==> on_mask(#[trigger] rows[k], width),
        forall|k: int| 0 <= k < rows.len() ==> on_mask(slid(#[trigger] rows[k], i, j), width),
    ensures
        path_deltas(len, width, path_slid(rows, i, j)) == later(
            path_deltas(len, width, rows),
            j * width + i,
        ),
    decreases rows.len(),
{
    let s = j * width + i;
    if rows.len() == 0 {
        assert(path_deltas(len, width, path_slid(rows, i, j)) =~= later(
            path_deltas(len, width, rows),
            s,
        ));
    } else {
        let r = rows.last();
        lemma_path_slid(len, width, rows.drop_last(), i, j);
        assert(path_slid(rows, i, j).drop_last() =~= path_slid(rows.drop_last(), i, j));
        assert(path_slid(rows, i, j).last() == slid(r, i, j));
        lemma_row_slid(len, width, r, i, j);
        lemma_path_len(len, width, rows.drop_last());
        lemma_plus_later(path_deltas(len, width, rows.drop_last()), slice_deltas(len, width, r), s);
    }
}

/// The sum of the first cells of a buffer that holds deltas `s` cells later.
pub proof fn lemma_total_later(len: nat, deltas: Seq<int>, s: int, n: int)
    requires
        deltas.len() == len,
        0 <= s,
        0 <= n <= len,
    ensures
        wrap(total(shifted(zeros(len as int), later(deltas, s)), n)) == wrap(
            total(shifted(zeros(len as int), deltas), n - s),
        ),
    decreases n,
{
    let a = shifted(zeros(len as int), deltas);
    let b = shifted(zeros(len as int), later(deltas, s));
    if n > 0 {
        lemma_total_later(len, deltas, s, n - 1);
        if n - 1 >= s {
            assert(b[n - 1] == a[n - 1 - s]);
            vstd::arithmetic::div_mod::lemma_add_mod_noop(
                total(b, n - 1),
                b[n - 1] as int,
                0x1_0000_0000,
            );
            vstd::arithmetic::div_mod::lemma_add_mod_noop(
                total(a, n - 1 - s),
                a[n - 1 - s] as int,
                0x1_0000_0000,
            );
        } else {
            assert(b[n - 1] == 0);
            lemma_total_before(a, n - s);
            lemma_total_before(a, n - 1 - s);
        }
    } else {
        lemma_total_before(a, n - s);
    }
}

/// Before the first cell nothing has added up.
pub proof fn lemma_total_before(cells: Seq<u32>, n: int)
    requires
        n <= 0,
    ensures
        total(cells, n) == 0,
{
}

/// A path whose rows lie on the mask before and after they are
/// moved by `i` whole columns and `j` whole rows, to the right or down, has
/// its mask `j` rows and `i` cells later.
pub proof fn lemma_mask_slid(len: nat, width: int, rows: Seq<RowSlice>, i: int, j: int)
    requires
        0 <= width,
        0 <= j * width + i,
        forall|k: int| 0 <= k < rows.len() ==> on_mask(#[trigger] rows[k], width),
        forall|k: int| 0 <= k < rows.len() ==> on_mask(slid(#[trigger] rows[k], i, j), width),
    ensures
        fixed_mask(shifted(zeros(len as int), path_deltas(len, width, path_slid(rows, i, j))))
            == cells_later(
            fixed_mask(shifted(zeros(len as int), path_deltas(len, width, rows))),
            j * width + i,
        ),
{
    let s = j * width + i;
    let deltas = path_deltas(len, width, rows);
    lemma_path_slid(len, width, rows, i, j);
    lemma_path_len(len, width, rows);
    let a = shifted(zeros(len as int), deltas);
    let b = shifted(zeros(len as int), later(deltas, s));
    assert forall|k: int| 0 <= k < len implies fixed_mask(b)[k] == cells_later(fixed_mask(a), s)[k] by {
        lemma_total_later(len, deltas, s, k + 1);
        if k - s < 0 {
            lemma_total_before(a, k + 1 - s);
        }
    }
    assert(fixed_mask(b) =~= cells_later(fixed_mask(a), s));
}

/// A path whose rows lie on the mask before and after they are moved by `i`
/// whole columns and `j` whole rows, in any direction, has in each cell that
/// a cell of its mask moves to the coverage of that cell.
pub proof fn lemma_cell_slid(
    len: nat,
    width: int,
    rows: Seq<RowSlice>,
    i: int,
    j: int,
    k: int,
)
    requires
        0 <= width,
        forall|n: int| 0 <= n < rows.len() ==> on_mask(#[trigger] rows[n], width),
        forall|n: int| 0 <= n < rows.len() ==> on_mask(slid(#[trigger] rows[n], i, j), width),
        0 <= k < len,
        0 <= k + j * width + i < len,
    ensures
        fixed_mask(shifted(zeros(len as int), path_deltas(len, width, path_slid(rows, i, j))))[k + j
            * width + i] == fixed_mask(shifted(zeros(len as int), path_deltas(len, width, rows)))[k],
{
    let s = j * width + i;
    let there = path_slid(rows, i, j);
    if s >= 0 {
        lemma_mask_slid(len, width, rows, i, j);
    } else {
        assert((-j) * width + (-i) == -s) by (nonlinear_arith)
            requires
                s == j * width + i,
        ;
        assert(path_slid(there, -i, -j) =~= rows);
        assert forall|n: int| 0 <= n < there.len() implies on_mask(
            slid(#[trigger] there[n], -i, -j),
            width,
        ) by {
            assert(slid(there[n], -i, -j) == rows[n]);
        }
        lemma_mask_slid(len, width, there, -i, -j);
    }
}

/// Of two fixed-point rasterizers of the same size: where one holds a path
/// and the other the same path moved by `i` whole columns and `j` whole rows,
/// to the right or down, the rows on the mask before and after, a draw finds
/// in the second the mask of the first, `j` rows and `i` cells later.
pub proof fn lemma_slid_masks(
    a: Rasterizer,
    b: Rasterizer,
    rows: Seq<RowSlice>,
    i: int,
    j: int,
)
    requires
        !a.floating(),
        !b.floating(),
        0 <= a.width(),
        a.width() == b.width(),
        a.cells().len() == b.cells().len(),
        0 <= j * a.width() + i,
        forall|k: int| 0 <= k < rows.len() ==> on_mask(#[trigger] rows[k], a.width()),
        forall|k: int| 0 <= k < rows.len() ==> on_mask(slid(#[trigger] rows[k], i, j), a.width()),
        a.cells() == shifted(
            zeros(a.cells().len() as int),
            path_deltas(a.cells().len(), a.width(), rows),
        ),
        b.cells() == shifted(
            zeros(b.cells().len() as int),
            path_deltas(b.cells().len(), b.width(), path_slid(rows, i, j)),
        ),
    ensures
        b.mask() == cells_later(a.mask(), j * a.width() + i),
{
    lemma_mask_slid(a.cells().len(), a.width(), rows, i, j);
}

} // verus!
