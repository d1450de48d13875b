//! Clipping of a line segment to a canvas, before it is drawn.

use vstd::prelude::*;
use vstd::arithmetic::div_mod::{lemma_div_is_ordered, lemma_div_multiples_vanish, lemma_div_pos_is_pos};
use crate::trunc::{quot, quotient, tdiv};

verus! {

/// The bound on coordinates and on the sides of the canvas: half the
/// largest machine integer. With it the difference of two coordinates fits
/// the machine word, and the product of two differences fits 128 bits.
pub open spec fn clip_limit() -> int {
    isize::MAX / 2
}

/// Whether a coordinate lies within the bound, either side of zero.
pub open spec fn in_limit(v: int) -> bool {
    -clip_limit() <= v <= clip_limit()
}

/// Whether a coordinate lies within the bound, either side of zero.
pub fn fits(v: isize) -> (b: bool)
    ensures
        b == in_limit(v as int),
{
    -(isize::MAX / 2) <= v && v <= isize::MAX / 2
}

/// Whether the point lies off the canvas, whose far borders `w` and `h`
/// count as on it.
pub open spec fn outside(x: int, y: int, w: int, h: int) -> bool {
    x < 0 || x > w || y < 0 || y > h
}

/// The point `(x1, y1)` pulled along the segment to `(x2, y2)`: first onto
/// the horizontal border that it lies beyond, then onto the vertical border
/// that it then lies beyond. A point on the canvas stays.
pub open spec fn pulled(x1: int, y1: int, x2: int, y2: int, w: int, h: int) -> (int, int) {
    let (xa, ya) = if y1 > h {
        (x1 + quot((x2 - x1) * (h - y1), y2 - y1), h)
    } else if y1 < 0 {
        (x1 + quot((x2 - x1) * (0 - y1), y2 - y1), 0int)
    } else {
        (x1, y1)
    };
    if xa > w {
        (w, ya + quot((y2 - ya) * (w - xa), x2 - xa))
    } else if xa < 0 {
        (0int, ya + quot((y2 - ya) * (0 - xa), x2 - xa))
    } else {
        (xa, ya)
    }
}

/// The segment that is left of the segment from `(x1, y1)` to `(x2, y2)` on
/// a canvas of `w` by `h`: the segment itself where both ends lie on the
/// canvas, nothing where neither does, and else the segment with the end
/// that lies off pulled onto the border, if that brings it onto the canvas.
pub open spec fn clip(x1: int, y1: int, x2: int, y2: int, w: int, h: int) -> Option<
    (int, int, int, int),
> {
    let off1 = outside(x1, y1, w, h);
    let off2 = outside(x2, y2, w, h);
    if !off1 && !off2 {
        Some((x1, y1, x2, y2))
    } else if off1 && off2 {
        None
    } else {
        let (a, b) = pulled(x1, y1, x2, y2, w, h);
        let (c, d) = pulled(x2, y2, a, b, w, h);
        if !outside(a, b, w, h) && !outside(c, d, w, h) {
            Some((a, b, c, d))
        } else {
            None
        }
    }
}

/// A share `b` of `c` of the length `a` lies between zero and `a`.
pub proof fn lemma_share(a: int, b: int, c: int)
    requires
        0 < b <= c,
    ensures
        a >= 0 ==> 0 <= tdiv(a * b, c) <= a,
        a < 0 ==> a <= tdiv(a * b, c) <= 0,
{
    if a >= 0 {
        assert(0 <= a * b <= a * c) by (nonlinear_arith)
            requires
                0 <= a,
                0 < b <= c,
        ;
        lemma_div_pos_is_pos(a * b, c);
        lemma_div_is_ordered(a * b, a * c, c);
        lemma_div_multiples_vanish(a, c);
        assert(a * c == c * a) by (nonlinear_arith);
    } else {
        assert(0 <= -(a * b) <= (-a) * c) by (nonlinear_arith)
            requires
                a < 0,
                0 < b <= c,
        ;
        lemma_div_pos_is_pos(-(a * b), c);
        lemma_div_is_ordered(-(a * b), (-a) * c, c);
        lemma_div_multiples_vanish(-a, c);
        assert((-a) * c == c * (-a)) by (nonlinear_arith);
        assert(a * b <= 0);
    }
}

/// The step along one axis that pulls a point onto a border that the other
/// end lies within: it leads toward the other end and not beyond it.
pub proof fn lemma_pull_step(a: int, from: int, border: int, to: int)
    requires
        (to <= border < from) || (from < border <= to),
    ensures
        a >= 0 ==> 0 <= quot(a * (border - from), to - from) <= a,
        a < 0 ==> a <= quot(a * (border - from), to - from) <= 0,
{
    if from < border {
        lemma_share(a, border - from, to - from);
    } else {
        assert(-(a * (border - from)) == a * (from - border)) by (nonlinear_arith);
        lemma_share(a, from - border, from - to);
    }
}

/// Pulls the point `(x1, y1)` along the segment to `(x2, y2)`, a point on
/// the canvas, onto the borders of the canvas.
#[verifier::rlimit(50)]
fn pull(x1: isize, y1: isize, x2: isize, y2: isize, w: isize, h: isize) -> (p: (isize, isize))
    requires
        !outside(x2 as int, y2 as int, w as int, h as int),
        in_limit(x1 as int),
        in_limit(y1 as int),
        w <= clip_limit(),
        h <= clip_limit(),
    ensures
        (p.0 as int, p.1 as int) == pulled(
            x1 as int,
            y1 as int,
            x2 as int,
            y2 as int,
            w as int,
            h as int,
        ),
        in_limit(p.0 as int),
        in_limit(p.1 as int),
        !outside(p.0 as int, p.1 as int, w as int, h as int),
{
    let mut xa: isize = x1;
    let mut ya: isize = y1;
    if y1 > h {
        proof {
            lemma_pull_step(x2 - x1, y1 as int, h as int, y2 as int);
            lemma_product_fits(x2 - x1, h - y1);
        }
        let t: i128 = quotient((x2 as i128 - x1 as i128) * (h as i128 - y1 as i128), y2 as i128 - y1 as i128);
        xa = (x1 as i128 + t) as isize;
        ya = h;
    } else if y1 < 0 {
        proof {
            lemma_pull_step(x2 - x1, y1 as int, 0, y2 as int);
            lemma_product_fits(x2 - x1, 0 - y1);
        }
        let t: i128 = quotient((x2 as i128 - x1 as i128) * (0 - y1 as i128), y2 as i128 - y1 as i128);
        xa = (x1 as i128 + t) as isize;
        ya = 0;
    }
    if xa > w {
        proof {
            lemma_pull_step(y2 - ya, xa as int, w as int, x2 as int);
            lemma_product_fits(y2 - ya, w - xa);
        }
        let t: i128 = quotient((y2 as i128 - ya as i128) * (w as i128 - xa as i128), x2 as i128 - xa as i128);
        ((w, (ya as i128 + t) as isize))
    } else if xa < 0 {
        proof {
            lemma_pull_step(y2 - ya, xa as int, 0, x2 as int);
            lemma_product_fits(y2 - ya, 0 - xa);
        }
        let t: i128 = quotient((y2 as i128 - ya as i128) * (0 - xa as i128), x2 as i128 - xa as i128);
        ((0, (ya as i128 + t) as isize))
    } else {
        ((xa, ya))
    }
}

/// The product of two differences of coordinates fits 128 bits.
pub proof fn lemma_product_fits(a: int, b: int)
    requires
        -0x8000_0000_0000_0000 <= a <= 0x8000_0000_0000_0000,
        -0x8000_0000_0000_0000 <= b <= 0x8000_0000_0000_0000,
    ensures
        -0x4000_0000_0000_0000_0000_0000_0000_0000 <= a * b
            <= 0x4000_0000_0000_0000_0000_0000_0000_0000,
{
    assert(-0x4000_0000_0000_0000_0000_0000_0000_0000 <= a * b
        <= 0x4000_0000_0000_0000_0000_0000_0000_0000) by (nonlinear_arith)
        requires
            -0x8000_0000_0000_0000 <= a <= 0x8000_0000_0000_0000,
            -0x8000_0000_0000_0000 <= b <= 0x8000_0000_0000_0000,
    ;
}

/// Clips the segment from `(x1, y1)` to `(x2, y2)` to the canvas of `w` by
/// `h` and returns what is left of it to draw, if anything is.
///
/// What comes back lies on the canvas, and a segment that lies on it comes
/// back as it is. Nothing comes back only where both ends lie off the
/// canvas.
pub fn clipped(x1: isize, y1: isize, x2: isize, y2: isize, w: isize, h: isize) -> (seg: Option<
    (isize, isize, isize, isize),
>)
    requires
        in_limit(x1 as int),
        in_limit(y1 as int),
        in_limit(x2 as int),
        in_limit(y2 as int),
        w <= clip_limit(),
        h <= clip_limit(),
    ensures
        match seg {
            Some((a, b, c, d)) => clip(
                x1 as int,
                y1 as int,
                x2 as int,
                y2 as int,
                w as int,
                h as int,
            ) == Some((a as int, b as int, c as int, d as int)) && !outside(
                a as int,
                b as int,
                w as int,
                h as int,
            ) && !outside(c as int, d as int, w as int, h as int),
            None => clip(x1 as int, y1 as int, x2 as int, y2 as int, w as int, h as int) is None,
        },
        seg is None <==> outside(x1 as int, y1 as int, w as int, h as int) && outside(
            x2 as int,
            y2 as int,
            w as int,
            h as int,
        ),
{
    let off1: bool = x1 < 0 || x1 > w || y1 < 0 || y1 > h;
    let off2: bool = x2 < 0 || x2 > w || y2 < 0 || y2 > h;
    if !off1 && !off2 {
        Some((x1, y1, x2, y2))
    } else if off1 && off2 {
        None
    } else {
        let (a, b) = if off1 {
            pull(x1, y1, x2, y2, w, h)
        } else {
            (x1, y1)
        };
        let (c, d) = if off2 {
            pull(x2, y2, a, b, w, h)
        } else {
            (x2, y2)
        };
        let q1: bool = a < 0 || a > w || b < 0 || b > h;
        let q2: bool = c < 0 || c > w || d < 0 || d > h;
        if !q1 && !q2 {
            Some((a, b, c, d))
        } else {
            None
        }
    }
}

} // verus!
