//! Division that rounds toward zero, as the machine divides.

use vstd::prelude::*;
use vstd::arithmetic::div_mod::{lemma_div_is_ordered_by_denominator, lemma_div_pos_is_pos};

verus! {

/// The quotient of `n` by a positive `m`, rounded toward zero.
pub open spec fn tdiv(n: int, m: int) -> int {
    if n >= 0 {
        n / m
    } else {
        -((-n) / m)
    }
}

/// The quotient of `n` by `m`, rounded toward zero, for any divisor but
/// zero.
pub open spec fn quot(n: int, m: int) -> int {
    if m > 0 {
        tdiv(n, m)
    } else {
        tdiv(-n, -m)
    }
}

/// A quotient is not longer than the dividend.
pub proof fn lemma_quot_bound(n: int, m: int)
    requires
        m != 0,
    ensures
        n >= 0 ==> -n <= quot(n, m) <= n,
        n < 0 ==> n <= quot(n, m) <= -n,
{
    let a = if n >= 0 { n } else { -n };
    let b = if m > 0 { m } else { -m };
    lemma_div_pos_is_pos(a, b);
    lemma_div_is_ordered_by_denominator(a, 1, b);
}

/// Divides and rounds toward zero.
pub fn quotient(n: i128, m: i128) -> (q: i128)
    requires
        m != 0,
        i128::MIN < n,
        i128::MIN < m,
    ensures
        q == quot(n as int, m as int),
{
    if m > 0 {
        n / m
    } else {
        (-n) / (-m)
    }
}

} // verus!
