//! The area that a row adds: all its deltas together are the vertical
//! overlap of the row with the segment, less what rounding toward zero
//! leaves out, which is less than one unit for each column.

use vstd::prelude::*;
use vstd::arithmetic::div_mod::{lemma_fundamental_div_mod, lemma_mod_bound};
use crate::trunc::tdiv;
use crate::vg::clamped;
use crate::vg::paths::lemma_row_negated;
use crate::vg::raster_fixed::{
    ceil_of,
    floor_of,
    lemma_span_len,
    narrow_deltas,
    negated,
    plus,
    point,
    row_deltas,
    span,
    still,
    wide_deltas,
};

verus! {

/// All deltas together.
pub open spec fn sum(deltas: Seq<int>) -> int
    decreases deltas.len(),
{
    if deltas.len() == 0 {
        0
    } else {
        sum(deltas.drop_last()) + deltas.last()
    }
}

/// The number of units that rounding may leave out of a row: none where the
/// slice stays within two columns, else one for each column after the
/// first.
pub open spec fn slack(x: int, x_next: int) -> int {
    let x0 = if x > x_next { x_next } else { x };
    let x1 = if x > x_next { x } else { x_next };
    if ceil_of(x1) <= floor_of(x0) + 1 {
        0
    } else {
        ceil_of(x1) - floor_of(x0)
    }
}

/// No deltas add up to nothing.
pub proof fn lemma_sum_still(len: nat)
    ensures
        sum(still(len)) == 0,
    decreases len,
{
    if len > 0 {
        assert(still(len).drop_last() =~= still((len - 1) as nat));
        lemma_sum_still((len - 1) as nat);
    }
}

/// A delta on one cell adds up to itself.
pub proof fn lemma_sum_point(len: nat, t: int, v: int)
    ensures
        sum(point(len, t, v)) == if 0 <= t < len { v } else { 0 },
    decreases len,
{
    if len > 0 {
        assert(point(len, t, v).drop_last() =~= point((len - 1) as nat, t, v));
        lemma_sum_point((len - 1) as nat, t, v);
    }
}

/// Two fields of deltas add up to both their sums.
pub proof fn lemma_sum_plus(a: Seq<int>, b: Seq<int>)
    requires
        a.len() == b.len(),
    ensures
        sum(plus(a, b)) == sum(a) + sum(b),
    decreases a.len(),
{
    if a.len() > 0 {
        assert(plus(a, b).drop_last() =~= plus(a.drop_last(), b.drop_last()));
        lemma_sum_plus(a.drop_last(), b.drop_last());
    }
}

/// The opposite deltas add up to the opposite.
pub proof fn lemma_sum_negated(a: Seq<int>)
    ensures
        sum(negated(a)) == -sum(a),
    decreases a.len(),
{
    if a.len() > 0 {
        assert(negated(a).drop_last() =~= negated(a.drop_last()));
        lemma_sum_negated(a.drop_last());
    }
}

/// The same delta on a run of columns whose cells exist adds up to as many
/// times the delta.
pub proof fn lemma_sum_span(len: nat, base: int, width: int, lo: int, hi: int, v: int)
    requires
        0 <= base,
        0 <= width,
        base + width < len,
    ensures
        sum(span(len, base, width, lo, hi, v)) == (if hi > lo { hi - lo } else { 0 }) * v,
    decreases hi - lo,
{
    assert(0 * v == 0) by (nonlinear_arith);
    if hi > lo {
        lemma_sum_span(len, base, width, lo, hi - 1, v);
        lemma_span_len(len, base, width, lo, hi - 1, v);
        lemma_sum_plus(
            span(len, base, width, lo, hi - 1, v),
            point(len, base + clamped(hi - 1, width), v),
        );
        lemma_sum_point(len, base + clamped(hi - 1, width), v);
        assert((hi - 1 - lo) * v + v == (hi - lo) * v) by (nonlinear_arith);
    } else {
        lemma_sum_still(len);
    }
}

/// Shares of a whole: numbers that are not negative and add up to `t * s`
/// give quotients by `s` that add up to `t`, less one at most for each but
/// the first.
pub proof fn lemma_shares(n1: int, n2: int, n3: int, s: int, t: int)
    requires
        0 < s,
        0 <= n1,
        0 <= n2,
        0 <= n3,
        n1 + n2 + n3 == t * s,
    ensures
        t - 2 <= n1 / s + n2 / s + n3 / s <= t,
{
    lemma_fundamental_div_mod(n1, s);
    lemma_fundamental_div_mod(n2, s);
    lemma_fundamental_div_mod(n3, s);
    lemma_mod_bound(n1, s);
    lemma_mod_bound(n2, s);
    lemma_mod_bound(n3, s);
    let q = n1 / s + n2 / s + n3 / s;
    let r = n1 % s + n2 % s + n3 % s;
    assert(s * q + r == t * s) by (nonlinear_arith)
        requires
            n1 == s * (n1 / s) + n1 % s,
            n2 == s * (n2 / s) + n2 % s,
            n3 == s * (n3 / s) + n3 % s,
            q == n1 / s + n2 / s + n3 / s,
            r == n1 % s + n2 % s + n3 % s,
            n1 + n2 + n3 == t * s,
    ;
    assert(t - 2 <= q <= t) by (nonlinear_arith)
        requires
            s * q + r == t * s,
            0 <= r < 3 * s,
            0 < s,
    ;
}

/// Shares of a whole with a run of equal shares among them: two wedges, two
/// columns beside them, and `count` columns in between that take `m / s1`
/// each, where `s` is twice `s1`.
#[verifier::rlimit(50)]
pub proof fn lemma_shares_run(
    n1: int,
    n2: int,
    n3: int,
    n4: int,
    m: int,
    count: int,
    s1: int,
    t: int,
)
    requires
        0 < s1,
        0 <= count,
        0 <= n1,
        0 <= n2,
        0 <= n3,
        0 <= n4,
        0 <= m,
        n1 + n2 + n3 + n4 + count * (2 * m) == t * (2 * s1),
    ensures
        t - 3 - count <= n1 / (2 * s1) + n2 / (2 * s1) + n3 / (2 * s1) + n4 / (2 * s1) + count * (m
            / s1) <= t,
{
    let s = 2 * s1;
    lemma_fundamental_div_mod(n1, s);
    lemma_fundamental_div_mod(n2, s);
    lemma_fundamental_div_mod(n3, s);
    lemma_fundamental_div_mod(n4, s);
    lemma_fundamental_div_mod(m, s1);
    lemma_mod_bound(n1, s);
    lemma_mod_bound(n2, s);
    lemma_mod_bound(n3, s);
    lemma_mod_bound(n4, s);
    lemma_mod_bound(m, s1);
    let qm = m / s1;
    let rm = m % s1;
    let q = n1 / s + n2 / s + n3 / s + n4 / s + count * qm;
    let r = n1 % s + n2 % s + n3 % s + n4 % s + count * (2 * rm);
    assert(count * (2 * m) == s * (count * qm) + count * (2 * rm)) by (nonlinear_arith)
        requires
            m == s1 * qm + rm,
            s == 2 * s1,
    ;
    assert(s * q + r == t * s) by (nonlinear_arith)
        requires
            n1 == s * (n1 / s) + n1 % s,
            n2 == s * (n2 / s) + n2 % s,
            n3 == s * (n3 / s) + n3 % s,
            n4 == s * (n4 / s) + n4 % s,
            count * (2 * m) == s * (count * qm) + count * (2 * rm),
            q == n1 / s + n2 / s + n3 / s + n4 / s + count * qm,
            r == n1 % s + n2 % s + n3 % s + n4 % s + count * (2 * rm),
            n1 + n2 + n3 + n4 + count * (2 * m) == t * s,
    ;
    assert(0 <= count * (2 * rm) <= count * s - count) by (nonlinear_arith)
        requires
            0 <= rm <= s1 - 1,
            0 <= count,
            s == 2 * s1,
    ;
    assert(t - 3 - count <= q <= t) by (nonlinear_arith)
        requires
            s * q + r == t * s,
            0 <= r,
            r < 4 * s + count * s,
            0 < s,
    ;
}

/// The area of a narrow row: the two shares are the whole overlap.
pub proof fn lemma_narrow_area(len: nat, base: int, width: int, x: int, x_next: int, d: int)
    requires
        0 <= base,
        0 <= width,
        base + width < len,
    ensures
        sum(narrow_deltas(len, base, width, x, x_next, d)) == 512 * d,
{
    let x0 = if x > x_next { x_next } else { x };
    let x0i = floor_of(x0);
    let xmf = (x + x_next) / 2 - x0i * 512;
    let a = point(len, base + clamped(x0i, width), d * (512 - xmf));
    let b = point(len, base + clamped(x0i + 1, width), d * xmf);
    lemma_sum_plus(a, b);
    lemma_sum_point(len, base + clamped(x0i, width), d * (512 - xmf));
    lemma_sum_point(len, base + clamped(x0i + 1, width), d * xmf);
    assert(d * (512 - xmf) + d * xmf == 512 * d) by (nonlinear_arith);
}

/// The area of a wide row that runs downward: the shares are the whole
/// overlap, less what rounding leaves out.
#[verifier::rlimit(60)]
pub proof fn lemma_wide_area(len: nat, base: int, width: int, x0: int, x1: int, d: int)
    requires
        0 <= base,
        0 <= width,
        base + width < len,
        x0 <= x1,
        ceil_of(x1) > floor_of(x0) + 1,
        0 <= d,
    ensures
        512 * d - (ceil_of(x1) - floor_of(x0)) <= sum(wide_deltas(len, base, width, x0, x1, d))
            <= 512 * d,
{
    let x0i = floor_of(x0);
    let x1i = ceil_of(x1);
    let s1 = x1 - x0;
    let s2 = 2 * s1;
    let x0f = x0 - x0i * 512;
    let omx = 512 - x0f;
    let x1f = x1 - x1i * 512 + 512;
    assert(0 <= x0f <= 511 && 1 <= x1f <= 512 && 1 <= omx <= 512);
    assert(s1 == 512 * (x1i - x0i - 1) + x1f - x0f);
    assert(s1 >= 1);
    let n_left = omx * omx * d;
    let n_right = x1f * x1f * d;
    assert(0 <= n_left && 0 <= n_right) by (nonlinear_arith)
        requires
            0 <= d,
            n_left == omx * omx * d,
            n_right == x1f * x1f * d,
    ;
    let left = point(len, base + clamped(x0i, width), tdiv(n_left, s2));
    let right = point(len, base + clamped(x1i, width), tdiv(n_right, s2));
    lemma_sum_point(len, base + clamped(x0i, width), tdiv(n_left, s2));
    lemma_sum_point(len, base + clamped(x1i, width), tdiv(n_right, s2));
    if x1i == x0i + 2 {
        let n_mid = (s2 * 512 - omx * omx - x1f * x1f) * d;
        assert(0 <= n_mid && n_left + n_mid + n_right == (512 * d) * s2) by (nonlinear_arith)
            requires
                0 <= d,
                1 <= omx <= 512,
                1 <= x1f <= 512,
                s2 == 2 * (omx + x1f),
                n_left == omx * omx * d,
                n_right == x1f * x1f * d,
                n_mid == (s2 * 512 - omx * omx - x1f * x1f) * d,
        ;
        let middle = point(len, base + clamped(x0i + 1, width), tdiv(n_mid, s2));
        lemma_sum_point(len, base + clamped(x0i + 1, width), tdiv(n_mid, s2));
        lemma_sum_plus(left, middle);
        lemma_sum_plus(plus(left, middle), right);
        lemma_shares(n_left, n_mid, n_right, s2, 512 * d);
    } else {
        let count = x1i - x0i - 3;
        let n_a = ((768 - x0f) * 1024 - omx * omx) * d;
        let n_b = ((x1f * 2 + 512) * 512 - x1f * x1f) * d;
        let m = d * 262144;
        assert(0 <= n_a && 0 <= n_b && 0 <= m && n_left + n_a + n_b + n_right + count * (2 * m) == (
        512 * d) * (2 * s1)) by (nonlinear_arith)
            requires
                0 <= d,
                0 <= count,
                0 <= x0f <= 511,
                1 <= x1f <= 512,
                omx == 512 - x0f,
                s1 == 512 * (count + 2) + x1f - x0f,
                n_left == omx * omx * d,
                n_right == x1f * x1f * d,
                n_a == ((768 - x0f) * 1024 - omx * omx) * d,
                n_b == ((x1f * 2 + 512) * 512 - x1f * x1f) * d,
                m == d * 262144,
        ;
        let pa = point(len, base + clamped(x0i + 1, width), tdiv(n_a, s2));
        let pb = point(len, base + clamped(x1i - 1, width), tdiv(n_b, s2));
        let sp = span(len, base, width, x0i + 2, x1i - 1, tdiv(m, s1));
        lemma_sum_point(len, base + clamped(x0i + 1, width), tdiv(n_a, s2));
        lemma_sum_point(len, base + clamped(x1i - 1, width), tdiv(n_b, s2));
        lemma_sum_span(len, base, width, x0i + 2, x1i - 1, tdiv(m, s1));
        lemma_span_len(len, base, width, x0i + 2, x1i - 1, tdiv(m, s1));
        lemma_sum_plus(pa, sp);
        lemma_sum_plus(plus(pa, sp), pb);
        let middle = plus(plus(pa, sp), pb);
        lemma_sum_plus(left, middle);
        lemma_sum_plus(plus(left, middle), right);
        lemma_shares_run(n_left, n_a, n_b, n_right, m, count, s1, 512 * d);
        assert(sum(sp) == count * tdiv(m, s1));
    }
}

/// The area of a row whose cells exist: all its deltas together are 512
/// times the overlap `d`, the overlap in the unit of the cells, but for the
/// units that rounding toward zero leaves out, fewer than one for each
/// column.
pub proof fn lemma_row_area(len: nat, width: int, y: int, x: int, x_next: int, d: int)
    requires
        0 <= width,
        0 <= y,
        (y + 1) * width < len,
    ensures
        d >= 0 ==> 512 * d - slack(x, x_next) <= sum(row_deltas(len, width, y, x, x_next, d))
            <= 512 * d,
        d <= 0 ==> 512 * d <= sum(row_deltas(len, width, y, x, x_next, d)) <= 512 * d + slack(
            x,
            x_next,
        ),
{
    let x0 = if x > x_next { x_next } else { x };
    let x1 = if x > x_next { x } else { x_next };
    let base = y * width;
    assert(0 <= base && base + width == (y + 1) * width) by (nonlinear_arith)
        requires
            0 <= y,
            0 <= width,
            base == y * width,
    ;
    if ceil_of(x1) <= floor_of(x0) + 1 {
        lemma_narrow_area(len, base, width, x, x_next, d);
    } else {
        if d >= 0 {
            lemma_wide_area(len, base, width, x0, x1, d);
        }
        if d <= 0 {
            lemma_wide_area(len, base, width, x0, x1, -d);
            lemma_row_negated(len, width, y, x, x_next, -d);
            lemma_sum_negated(row_deltas(len, width, y, x, x_next, -d));
        }
    }
}

} // verus!
