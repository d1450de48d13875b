//! What numbers, points and rectangles of any precision have in common.

use vstd::prelude::*;
use vstd::std_specs::cmp::{PartialOrdIs, PartialOrdSpec};
use vstd::std_specs::ops::SubSpec;

verus! {

/// A number of some precision.
pub trait AnyNum: Copy + Clone + Default + PartialEq + PartialOrd + core::ops::Add<
    Output = Self,
> + core::ops::Sub<Output = Self> {
    /// The greatest whole number less than or equal to the number.
    fn floor(&self) -> isize;

    /// The nearest whole number to the number.
    fn round(&self) -> isize;

    /// The least whole number greater than or equal to the number.
    fn ceil(&self) -> isize;

    /// The product of two numbers.
    fn mul(self, other: Self) -> Self;
}

/// A coordinate pair.
pub trait AnyPoint: Copy + Clone + Default + PartialEq + core::ops::Add<Output = Self> + core::ops::Sub<
    Output = Self,
> {
    type Num: AnyNum;

    /// The horizontal coordinate, in specifications.
    spec fn px(&self) -> Self::Num;

    /// The vertical coordinate, in specifications.
    spec fn py(&self) -> Self::Num;

    /// The horizontal coordinate.
    fn x(&self) -> (v: Self::Num)
        ensures
            v == self.px(),
    ;

    /// The vertical coordinate.
    fn y(&self) -> (v: Self::Num)
        ensures
            v == self.py(),
    ;

    /// The point scaled by `rhs`.
    fn mul(self, rhs: Self::Num) -> Self;

    /// The point divided by `rhs`.
    fn div(self, rhs: Self::Num) -> Self;
}

/// A rectangle: `min` is inside, `max` is just outside.
pub trait AnyRect: Copy + Clone + Default + PartialEq {
    type Num: AnyNum;

    type Point: AnyPoint<Num = Self::Num>;

    /// The inclusive bound, in specifications.
    spec fn lo(&self) -> Self::Point;

    /// The exclusive bound, in specifications.
    spec fn hi(&self) -> Self::Point;

    /// The inclusive bound.
    fn min(&self) -> (p: Self::Point)
        ensures
            p == self.lo(),
    ;

    /// The exclusive bound.
    fn max(&self) -> (p: Self::Point)
        ensures
            p == self.hi(),
    ;

    /// The rectangle moved by `rhs`.
    fn add(self, rhs: Self::Point) -> Self;

    /// The rectangle moved back by `rhs`.
    fn sub(self, rhs: Self::Point) -> Self;

    /// The width: the difference of the horizontal bounds, where the
    /// numbers can take it.
    fn dx(&self) -> (d: Self::Num)
        requires
            self.hi().px().sub_req(self.lo().px()),
        ensures
            Self::Num::obeys_sub_spec() ==> d == self.hi().px().sub_spec(self.lo().px()),
    {
        self.max().x() - self.min().x()
    }

    /// The height: the difference of the vertical bounds, where the numbers
    /// can take it.
    fn dy(&self) -> (d: Self::Num)
        requires
            self.hi().py().sub_req(self.lo().py()),
        ensures
            Self::Num::obeys_sub_spec() ==> d == self.hi().py().sub_spec(self.lo().py()),
    {
        self.max().y() - self.min().y()
    }

    /// Returns whether the rectangle contains no points.
    fn is_empty(&self) -> (b: bool) where Self::Num: Ord
        ensures
            Self::Num::obeys_partial_cmp_spec() ==> b == (self.lo().px().is_ge(&self.hi().px())
                || self.lo().py().is_ge(&self.hi().py())),
    {
        self.min().x() >= self.max().x() || self.min().y() >= self.max().y()
    }

    /// Returns whether `p` lies in the rectangle: at or after `min`, before
    /// `max`.
    fn contains_point(&self, p: &Self::Point) -> (b: bool) where Self::Num: Ord
        ensures
            Self::Num::obeys_partial_cmp_spec() ==> b == (self.lo().px().is_le(&p.px())
                && p.px().is_lt(&self.hi().px()) && self.lo().py().is_le(&p.py())
                && p.py().is_lt(&self.hi().py())),
    {
        self.min().x() <= p.x() && p.x() < self.max().x() && self.min().y() <= p.y() && p.y()
            < self.max().y()
    }

    /// Returns whether every point of the rectangle lies in `other`. An
    /// empty rectangle lies in any other.
    fn contains_rect(&self, other: &Self) -> (b: bool) where Self::Num: Ord
        ensures
            Self::Num::obeys_partial_cmp_spec() ==> b == (self.lo().px().is_ge(&self.hi().px())
                || self.lo().py().is_ge(&self.hi().py()) || (other.lo().px().is_le(
                &self.lo().px(),
            ) && self.hi().px().is_le(&other.hi().px()) && other.lo().py().is_le(&self.lo().py())
                && self.hi().py().is_le(&other.hi().py()))),
    {
        if self.is_empty() {
            true
        } else {
            // `max` is exclusive, so it need not lie in `other`.
            other.min().x() <= self.min().x() && self.max().x() <= other.max().x()
                && other.min().y() <= self.min().y() && self.max().y() <= other.max().y()
        }
    }

    /// Returns the largest rectangle contained by both, if they overlap.
    fn maybe_intersect(self, other: Self) -> Option<Self>;

    /// Returns the largest rectangle contained by both.
    fn intersect(self, other: Self) -> Self;

    /// Returns the smallest rectangle that contains both.
    fn union(self, other: Self) -> Self;
}

} // verus!
