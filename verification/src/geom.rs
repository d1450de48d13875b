//! Fixed-point numbers, points and rectangles, at two precisions.
//!
//! A number is kept as a machine integer that counts fractions of one: 64ths
//! in the 26.6 format, 4096ths in the 52.12 format.

pub mod shape;

pub use crate::geom::shape::{AnyNum, AnyPoint, AnyRect};
use vstd::prelude::*;
use crate::trunc::{lemma_quot_bound, quot, quotient, tdiv};

verus! {

/// A signed fixed-point number with 26 binary digits before the point and
/// 6 after it. The field counts fractions of `1 / 64`.
#[derive(Copy, Clone, PartialEq, Eq, PartialOrd, Ord)]
pub struct I26_6(pub i32);

impl Default for I26_6 {
    fn default() -> (r: Self)
        ensures
            r.0 == 0,
    {
        I26_6(0)
    }
}

impl I26_6 {
    /// The 32-bit number that `n` wraps to.
    pub open spec fn wrapped(n: int) -> int {
        if n > i32::MAX {
            n - 0x1_0000_0000
        } else if n < i32::MIN {
            n + 0x1_0000_0000
        } else {
            n
        }
    }

    /// The greatest whole number less than or equal to `self`, cut to the
    /// machine word where it is narrower.
    pub fn floor(&self) -> (r: isize)
        ensures
            r == (self.0 / 64) as isize,
    {
        let x: i32 = self.0;
        assert(x >> 6u32 == x / 64) by (bit_vector);
        (x >> 6u32) as isize
    }

    /// The nearest whole number to `self`, ties rounded up, cut to the
    /// machine word where it is narrower. The sum with one half wraps.
    pub fn round(&self) -> (r: isize)
        ensures
            r == (Self::wrapped(self.0 + 32) / 64) as isize,
    {
        let t: i32 = self.0.wrapping_add(32);
        assert(t >> 6u32 == t / 64) by (bit_vector);
        (t >> 6u32) as isize
    }

    /// The least whole number greater than or equal to `self`, cut to the
    /// machine word where it is narrower. The sum with the rounding term
    /// wraps.
    pub fn ceil(&self) -> (r: isize)
        ensures
            r == (Self::wrapped(self.0 + 64 - 1) / 64) as isize,
    {
        let t: i32 = self.0.wrapping_add(64).wrapping_sub(1);
        assert(t >> 6u32 == t / 64) by (bit_vector);
        (t >> 6u32) as isize
    }

    /// The product, rounded to the nearest fraction with ties rounded up,
    /// and cut to 32 bits.
    pub fn mul(self, other: Self) -> (r: Self)
        ensures
            r.0 == ((self.0 * other.0 + 32) / 64) as i32,
    {
        let x: i64 = self.0 as i64;
        let y: i64 = other.0 as i64;
        assert(-0x4000_0000_0000_0000 <= x * y <= 0x4000_0000_0000_0000) by (nonlinear_arith)
            requires
                -0x8000_0000 <= x <= 0x8000_0000,
                -0x8000_0000 <= y <= 0x8000_0000,
        ;
        let t: i64 = x * y + 32;
        assert(t >> 6u32 == t / 64) by (bit_vector);
        let value: i64 = t >> 6u32;
        I26_6(value as i32)
    }
}

impl From<i32> for I26_6 {
    /// The whole number `i` in fixed point: `i` shifted left, the digits
    /// that leave the word dropped.
    fn from(i: i32) -> (r: Self) {
        I26_6(i << 6u32)
    }
}

impl vstd::std_specs::convert::FromSpecImpl<i32> for I26_6 {
    open spec fn obeys_from_spec() -> bool {
        true
    }

    open spec fn from_spec(i: i32) -> Self {
        I26_6(i << 6u32)
    }
}

/// A whole number that leaves room for the fraction digits is `i * 64`
/// in fixed point.
pub proof fn lemma_i26_6_from_whole(i: i32)
    requires
        -0x200_0000 <= i < 0x200_0000,
    ensures
        (i << 6u32) == i * 64,
{
    assert(-0x200_0000 <= i < 0x200_0000 ==> (i << 6u32) == i * 64) by (bit_vector);
}

impl core::ops::Add for I26_6 {
    type Output = Self;

    fn add(self, other: Self) -> (r: Self) {
        I26_6(self.0 + other.0)
    }
}

impl vstd::std_specs::ops::AddSpecImpl for I26_6 {
    open spec fn obeys_add_spec() -> bool {
        true
    }

    open spec fn add_req(self, other: Self) -> bool {
        i32::MIN <= self.0 + other.0 <= i32::MAX
    }

    open spec fn add_spec(self, other: Self) -> Self {
        I26_6((self.0 + other.0) as i32)
    }
}

impl core::ops::Sub for I26_6 {
    type Output = Self;

    fn sub(self, other: Self) -> (r: Self) {
        I26_6(self.0 - other.0)
    }
}

impl vstd::std_specs::ops::SubSpecImpl for I26_6 {
    open spec fn obeys_sub_spec() -> bool {
        true
    }

    open spec fn sub_req(self, other: Self) -> bool {
        i32::MIN <= self.0 - other.0 <= i32::MAX
    }

    open spec fn sub_spec(self, other: Self) -> Self {
        I26_6((self.0 - other.0) as i32)
    }
}

/// A fixed-point coordinate pair.
#[derive(Copy, Clone, PartialEq, Eq)]
pub struct P26_6 {
    pub x: I26_6,
    pub y: I26_6,
}

impl Default for P26_6 {
    fn default() -> (r: Self)
        ensures
            r.x.0 == 0,
            r.y.0 == 0,
    {
        P26_6 { x: I26_6(0), y: I26_6(0) }
    }
}

impl P26_6 {
    /// Whether the point lies in `r`: the lower bounds count, the upper
    /// bounds do not.
    pub open spec fn lies_in(&self, r: &R26_6) -> bool {
        r.min.x.0 <= self.x.0 < r.max.x.0 && r.min.y.0 <= self.y.0 < r.max.y.0
    }

    /// Returns whether the point is in `r`.
    pub fn in_rect(&self, r: &R26_6) -> (b: bool)
        ensures
            b == self.lies_in(r),
    {
        r.min.x.0 <= self.x.0 && self.x.0 < r.max.x.0 && r.min.y.0 <= self.y.0 && self.y.0
            < r.max.y.0
    }
}

impl core::ops::Add for P26_6 {
    type Output = Self;

    fn add(self, other: Self) -> (r: Self) {
        Self { x: self.x + other.x, y: self.y + other.y }
    }
}

impl vstd::std_specs::ops::AddSpecImpl for P26_6 {
    open spec fn obeys_add_spec() -> bool {
        true
    }

    open spec fn add_req(self, other: Self) -> bool {
        &&& i32::MIN <= self.x.0 + other.x.0 <= i32::MAX
        &&& i32::MIN <= self.y.0 + other.y.0 <= i32::MAX
    }

    open spec fn add_spec(self, other: Self) -> Self {
        P26_6 {
            x: I26_6((self.x.0 + other.x.0) as i32),
            y: I26_6((self.y.0 + other.y.0) as i32),
        }
    }
}

impl core::ops::Sub for P26_6 {
    type Output = Self;

    fn sub(self, other: Self) -> (r: Self) {
        Self { x: self.x - other.x, y: self.y - other.y }
    }
}

impl vstd::std_specs::ops::SubSpecImpl for P26_6 {
    open spec fn obeys_sub_spec() -> bool {
        true
    }

    open spec fn sub_req(self, other: Self) -> bool {
        &&& i32::MIN <= self.x.0 - other.x.0 <= i32::MAX
        &&& i32::MIN <= self.y.0 - other.y.0 <= i32::MAX
    }

    open spec fn sub_spec(self, other: Self) -> Self {
        P26_6 {
            x: I26_6((self.x.0 - other.x.0) as i32),
            y: I26_6((self.y.0 - other.y.0) as i32),
        }
    }
}

impl core::ops::Mul<I26_6> for P26_6 {
    type Output = Self;

    /// Scales both coordinates by `k`; each product is rounded toward zero.
    fn mul(self, k: I26_6) -> (r: Self) {
        Self { x: I26_6(self.x.0 * k.0 / 64), y: I26_6(self.y.0 * k.0 / 64) }
    }
}

impl vstd::std_specs::ops::MulSpecImpl<I26_6> for P26_6 {
    open spec fn obeys_mul_spec() -> bool {
        true
    }

    open spec fn mul_req(self, k: I26_6) -> bool {
        &&& i32::MIN <= self.x.0 * k.0 <= i32::MAX
        &&& i32::MIN <= self.y.0 * k.0 <= i32::MAX
    }

    open spec fn mul_spec(self, k: I26_6) -> Self {
        P26_6 {
            x: I26_6(tdiv(self.x.0 * k.0, 64) as i32),
            y: I26_6(tdiv(self.y.0 * k.0, 64) as i32),
        }
    }
}

impl core::ops::Div<I26_6> for P26_6 {
    type Output = Self;

    /// Divides both coordinates by `k`; each quotient is rounded toward
    /// zero.
    fn div(self, k: I26_6) -> (r: Self) {
        proof {
            lemma_quot_bound(self.x.0 * 64, k.0 as int);
            lemma_quot_bound(self.y.0 * 64, k.0 as int);
        }
        let x: i128 = quotient((self.x.0 * 64) as i128, k.0 as i128);
        let y: i128 = quotient((self.y.0 * 64) as i128, k.0 as i128);
        Self { x: I26_6(x as i32), y: I26_6(y as i32) }
    }
}

impl vstd::std_specs::ops::DivSpecImpl<I26_6> for P26_6 {
    open spec fn obeys_div_spec() -> bool {
        true
    }

    open spec fn div_req(self, k: I26_6) -> bool {
        &&& k.0 != 0
        &&& i32::MIN <= self.x.0 * 64 <= i32::MAX
        &&& i32::MIN <= self.y.0 * 64 <= i32::MAX
        &&& k.0 == -1 ==> self.x.0 * 64 != i32::MIN && self.y.0 * 64 != i32::MIN
    }

    open spec fn div_spec(self, k: I26_6) -> Self {
        P26_6 {
            x: I26_6(quot(self.x.0 * 64, k.0 as int) as i32),
            y: I26_6(quot(self.y.0 * 64, k.0 as int) as i32),
        }
    }
}

/// A fixed-point coordinate rectangle. The `min` bound is inclusive and the
/// `max` bound is exclusive. It is well-formed if `min.x <= max.x` and
/// likewise for `y`.
#[derive(Copy, Clone, PartialEq, Eq)]
pub struct R26_6 {
    pub min: P26_6,
    pub max: P26_6,
}

impl Default for R26_6 {
    fn default() -> (r: Self)
        ensures
            r == R26_6::zero(),
    {
        R26_6 {
            min: P26_6 { x: I26_6(0), y: I26_6(0) },
            max: P26_6 { x: I26_6(0), y: I26_6(0) },
        }
    }
}

impl core::ops::Add<P26_6> for R26_6 {
    type Output = Self;

    /// The rectangle moved by `p`.
    fn add(self, p: P26_6) -> (r: Self) {
        Self { min: self.min + p, max: self.max + p }
    }
}

impl vstd::std_specs::ops::AddSpecImpl<P26_6> for R26_6 {
    open spec fn obeys_add_spec() -> bool {
        true
    }

    open spec fn add_req(self, p: P26_6) -> bool {
        &&& i32::MIN <= self.min.x.0 + p.x.0 <= i32::MAX
        &&& i32::MIN <= self.min.y.0 + p.y.0 <= i32::MAX
        &&& i32::MIN <= self.max.x.0 + p.x.0 <= i32::MAX
        &&& i32::MIN <= self.max.y.0 + p.y.0 <= i32::MAX
    }

    open spec fn add_spec(self, p: P26_6) -> Self {
        R26_6 {
            min: P26_6 {
                x: I26_6((self.min.x.0 + p.x.0) as i32),
                y: I26_6((self.min.y.0 + p.y.0) as i32),
            },
            max: P26_6 {
                x: I26_6((self.max.x.0 + p.x.0) as i32),
                y: I26_6((self.max.y.0 + p.y.0) as i32),
            },
        }
    }
}

impl core::ops::Sub<P26_6> for R26_6 {
    type Output = Self;

    /// The rectangle moved back by `p`.
    fn sub(self, p: P26_6) -> (r: Self) {
        Self { min: self.min - p, max: self.max - p }
    }
}

impl vstd::std_specs::ops::SubSpecImpl<P26_6> for R26_6 {
    open spec fn obeys_sub_spec() -> bool {
        true
    }

    open spec fn sub_req(self, p: P26_6) -> bool {
        &&& i32::MIN <= self.min.x.0 - p.x.0 <= i32::MAX
        &&& i32::MIN <= self.min.y.0 - p.y.0 <= i32::MAX
        &&& i32::MIN <= self.max.x.0 - p.x.0 <= i32::MAX
        &&& i32::MIN <= self.max.y.0 - p.y.0 <= i32::MAX
    }

    open spec fn sub_spec(self, p: P26_6) -> Self {
        R26_6 {
            min: P26_6 {
                x: I26_6((self.min.x.0 - p.x.0) as i32),
                y: I26_6((self.min.y.0 - p.y.0) as i32),
            },
            max: P26_6 {
                x: I26_6((self.max.x.0 - p.x.0) as i32),
                y: I26_6((self.max.y.0 - p.y.0) as i32),
            },
        }
    }
}

impl R26_6 {
    /// The rectangle whose four bounds are zero.
    pub open spec fn zero() -> Self {
        R26_6 {
            min: P26_6 { x: I26_6(0), y: I26_6(0) },
            max: P26_6 { x: I26_6(0), y: I26_6(0) },
        }
    }

    /// Whether the rectangle contains no points.
    pub open spec fn is_void(&self) -> bool {
        self.min.x.0 >= self.max.x.0 || self.min.y.0 >= self.max.y.0
    }

    /// The bounds that both rectangles keep: the greater lower bounds and
    /// the lesser upper bounds.
    pub open spec fn meet(self, s: Self) -> Self {
        R26_6 {
            min: P26_6 {
                x: if self.min.x.0 < s.min.x.0 { s.min.x } else { self.min.x },
                y: if self.min.y.0 < s.min.y.0 { s.min.y } else { self.min.y },
            },
            max: P26_6 {
                x: if self.max.x.0 > s.max.x.0 { s.max.x } else { self.max.x },
                y: if self.max.y.0 > s.max.y.0 { s.max.y } else { self.max.y },
            },
        }
    }

    /// The bounds that hold both rectangles: the lesser lower bounds and the
    /// greater upper bounds.
    pub open spec fn join(self, s: Self) -> Self {
        R26_6 {
            min: P26_6 {
                x: if self.min.x.0 > s.min.x.0 { s.min.x } else { self.min.x },
                y: if self.min.y.0 > s.min.y.0 { s.min.y } else { self.min.y },
            },
            max: P26_6 {
                x: if self.max.x.0 < s.max.x.0 { s.max.x } else { self.max.x },
                y: if self.max.y.0 < s.max.y.0 { s.max.y } else { self.max.y },
            },
        }
    }

    /// Whether every point of `self` is in `other`.
    pub open spec fn inside(&self, other: &Self) -> bool {
        self.is_void() || (other.min.x.0 <= self.min.x.0 && self.max.x.0 <= other.max.x.0
            && other.min.y.0 <= self.min.y.0 && self.max.y.0 <= other.max.y.0)
    }

    /// Returns whether the rectangle contains no points.
    pub fn is_empty(&self) -> (b: bool)
        ensures
            b == self.is_void(),
    {
        self.min.x.0 >= self.max.x.0 || self.min.y.0 >= self.max.y.0
    }

    /// Returns the largest rectangle contained by both `self` and `other`.
    /// If the two rectangles do not overlap then the zero rectangle is
    /// returned.
    pub fn intersect(self, other: Self) -> (r: Self)
        ensures
            r == if self.meet(other).is_void() {
                Self::zero()
            } else {
                self.meet(other)
            },
            r.is_void() || (r.inside(&self) && r.inside(&other)),
    {
        let mut r = self;
        let s = other;
        if r.min.x.0 < s.min.x.0 {
            r.min.x = s.min.x;
        }
        if r.min.y.0 < s.min.y.0 {
            r.min.y = s.min.y;
        }
        if r.max.x.0 > s.max.x.0 {
            r.max.x = s.max.x;
        }
        if r.max.y.0 > s.max.y.0 {
            r.max.y = s.max.y;
        }
        if r.is_empty() {
            R26_6 {
                min: P26_6 { x: I26_6(0), y: I26_6(0) },
                max: P26_6 { x: I26_6(0), y: I26_6(0) },
            }
        } else {
            r
        }
    }

    /// Returns the largest rectangle contained by both `self` and `other`,
    /// or nothing if the two rectangles do not overlap.
    pub fn maybe_intersect(self, other: Self) -> (r: Option<Self>)
        ensures
            r == if self.meet(other).is_void() {
                None
            } else {
                Some(self.meet(other))
            },
    {
        let mut r = self;
        let s = other;
        if r.min.x.0 < s.min.x.0 {
            r.min.x = s.min.x;
        }
        if r.min.y.0 < s.min.y.0 {
            r.min.y = s.min.y;
        }
        if r.max.x.0 > s.max.x.0 {
            r.max.x = s.max.x;
        }
        if r.max.y.0 > s.max.y.0 {
            r.max.y = s.max.y;
        }
        if r.is_empty() {
            None
        } else {
            Some(r)
        }
    }

    /// Returns the smallest rectangle that contains both `self` and `other`.
    /// An empty rectangle does not count.
    pub fn union(self, other: Self) -> (r: Self)
        ensures
            r == if self.is_void() {
                other
            } else if other.is_void() {
                self
            } else {
                self.join(other)
            },
            self.inside(&r),
            other.inside(&r),
    {
        let mut r = self;
        let s = other;
        if r.is_empty() {
            return s;
        }
        if s.is_empty() {
            return r;
        }
        if r.min.x.0 > s.min.x.0 {
            r.min.x = s.min.x;
        }
        if r.min.y.0 > s.min.y.0 {
            r.min.y = s.min.y;
        }
        if r.max.x.0 < s.max.x.0 {
            r.max.x = s.max.x;
        }
        if r.max.y.0 < s.max.y.0 {
            r.max.y = s.max.y;
        }
        r
    }

    /// Returns whether every point in `self` is in `other`.
    pub fn in_rect(&self, other: &Self) -> (b: bool)
        ensures
            b == self.inside(other),
    {
        if self.is_empty() {
            true
        } else {
            other.min.x.0 <= self.min.x.0 && self.max.x.0 <= other.max.x.0 && other.min.y.0
                <= self.min.y.0 && self.max.y.0 <= other.max.y.0
        }
    }
}

/// A signed fixed-point number with 52 binary digits before the point and
/// 12 after it. The field counts fractions of `1 / 4096`.
#[derive(Copy, Clone, PartialEq, Eq, PartialOrd, Ord)]
pub struct I52_12(pub i64);

impl Default for I52_12 {
    fn default() -> (r: Self)
        ensures
            r.0 == 0,
    {
        I52_12(0)
    }
}

impl I52_12 {
    /// The 64-bit number that `n` wraps to.
    pub open spec fn wrapped(n: int) -> int {
        if n > i64::MAX {
            n - 0x1_0000_0000_0000_0000
        } else if n < i64::MIN {
            n + 0x1_0000_0000_0000_0000
        } else {
            n
        }
    }

    /// The greatest whole number less than or equal to `self`, cut to the
    /// machine word where it is narrower.
    pub fn floor(&self) -> (r: isize)
        ensures
            r == (self.0 / 4096) as isize,
    {
        let x: i64 = self.0;
        assert(x >> 12u32 == x / 4096) by (bit_vector);
        (x >> 12u32) as isize
    }

    /// The nearest whole number to `self`, ties rounded up, cut to the
    /// machine word where it is narrower. The sum with one half wraps.
    pub fn round(&self) -> (r: isize)
        ensures
            r == (Self::wrapped(self.0 + 2048) / 4096) as isize,
    {
        let t: i64 = self.0.wrapping_add(2048);
        assert(t >> 12u32 == t / 4096) by (bit_vector);
        (t >> 12u32) as isize
    }

    /// The least whole number greater than or equal to `self`, cut to the
    /// machine word where it is narrower. The sum with the rounding term
    /// wraps.
    pub fn ceil(&self) -> (r: isize)
        ensures
            r == (Self::wrapped(self.0 + 4096 - 1) / 4096) as isize,
    {
        let t: i64 = self.0.wrapping_add(4096).wrapping_sub(1);
        assert(t >> 12u32 == t / 4096) by (bit_vector);
        (t >> 12u32) as isize
    }

    /// The product, rounded to the nearest fraction with ties rounded up,
    /// and cut to 64 bits.
    pub fn mul(self, other: Self) -> (r: Self)
        ensures
            r.0 == ((self.0 * other.0 + 2048) / 4096) as i64,
    {
        let x: i128 = self.0 as i128;
        let y: i128 = other.0 as i128;
        assert(-0x4000_0000_0000_0000_0000_0000_0000_0000 <= x * y <= 0x4000_0000_0000_0000_0000_0000_0000_0000) by (nonlinear_arith)
            requires
                -0x8000_0000_0000_0000 <= x <= 0x8000_0000_0000_0000,
                -0x8000_0000_0000_0000 <= y <= 0x8000_0000_0000_0000,
        ;
        let t: i128 = x * y + 2048;
        assert(t >> 12u32 == t / 4096) by (bit_vector);
        let value: i128 = t >> 12u32;
        I52_12(value as i64)
    }
}

impl From<i64> for I52_12 {
    /// The whole number `i` in fixed point: `i` shifted left, the digits
    /// that leave the word dropped.
    fn from(i: i64) -> (r: Self) {
        I52_12(i << 12u32)
    }
}

impl vstd::std_specs::convert::FromSpecImpl<i64> for I52_12 {
    open spec fn obeys_from_spec() -> bool {
        true
    }

    open spec fn from_spec(i: i64) -> Self {
        I52_12(i << 12u32)
    }
}

/// A whole number that leaves room for the fraction digits is `i * 4096`
/// in fixed point.
pub proof fn lemma_i52_12_from_whole(i: i64)
    requires
        -0x8_0000_0000_0000 <= i < 0x8_0000_0000_0000,
    ensures
        (i << 12u32) == i * 4096,
{
    assert(-0x8_0000_0000_0000 <= i < 0x8_0000_0000_0000 ==> (i << 12u32) == i * 4096) by (bit_vector);
}

impl core::ops::Add for I52_12 {
    type Output = Self;

    fn add(self, other: Self) -> (r: Self) {
        I52_12(self.0 + other.0)
    }
}

impl vstd::std_specs::ops::AddSpecImpl for I52_12 {
    open spec fn obeys_add_spec() -> bool {
        true
    }

    open spec fn add_req(self, other: Self) -> bool {
        i64::MIN <= self.0 + other.0 <= i64::MAX
    }

    open spec fn add_spec(self, other: Self) -> Self {
        I52_12((self.0 + other.0) as i64)
    }
}

impl core::ops::Sub for I52_12 {
    type Output = Self;

    fn sub(self, other: Self) -> (r: Self) {
        I52_12(self.0 - other.0)
    }
}

impl vstd::std_specs::ops::SubSpecImpl for I52_12 {
    open spec fn obeys_sub_spec() -> bool {
        true
    }

    open spec fn sub_req(self, other: Self) -> bool {
        i64::MIN <= self.0 - other.0 <= i64::MAX
    }

    open spec fn sub_spec(self, other: Self) -> Self {
        I52_12((self.0 - other.0) as i64)
    }
}

/// A fixed-point coordinate pair.
#[derive(Copy, Clone, PartialEq, Eq)]
pub struct P52_12 {
    pub x: I52_12,
    pub y: I52_12,
}

impl Default for P52_12 {
    fn default() -> (r: Self)
        ensures
            r.x.0 == 0,
            r.y.0 == 0,
    {
        P52_12 { x: I52_12(0), y: I52_12(0) }
    }
}

impl P52_12 {
    /// Whether the point lies in `r`: the lower bounds count, the upper
    /// bounds do not.
    pub open spec fn lies_in(&self, r: &R52_12) -> bool {
        r.min.x.0 <= self.x.0 < r.max.x.0 && r.min.y.0 <= self.y.0 < r.max.y.0
    }

    /// Returns whether the point is in `r`.
    pub fn in_rect(&self, r: &R52_12) -> (b: bool)
        ensures
            b == self.lies_in(r),
    {
        r.min.x.0 <= self.x.0 && self.x.0 < r.max.x.0 && r.min.y.0 <= self.y.0 && self.y.0
            < r.max.y.0
    }
}

impl core::ops::Add for P52_12 {
    type Output = Self;

    fn add(self, other: Self) -> (r: Self) {
        Self { x: self.x + other.x, y: self.y + other.y }
    }
}

impl vstd::std_specs::ops::AddSpecImpl for P52_12 {
    open spec fn obeys_add_spec() -> bool {
        true
    }

    open spec fn add_req(self, other: Self) -> bool {
        &&& i64::MIN <= self.x.0 + other.x.0 <= i64::MAX
        &&& i64::MIN <= self.y.0 + other.y.0 <= i64::MAX
    }

    open spec fn add_spec(self, other: Self) -> Self {
        P52_12 {
            x: I52_12((self.x.0 + other.x.0) as i64),
            y: I52_12((self.y.0 + other.y.0) as i64),
        }
    }
}

impl core::ops::Sub for P52_12 {
    type Output = Self;

    fn sub(self, other: Self) -> (r: Self) {
        Self { x: self.x - other.x, y: self.y - other.y }
    }
}

impl vstd::std_specs::ops::SubSpecImpl for P52_12 {
    open spec fn obeys_sub_spec() -> bool {
        true
    }

    open spec fn sub_req(self, other: Self) -> bool {
        &&& i64::MIN <= self.x.0 - other.x.0 <= i64::MAX
        &&& i64::MIN <= self.y.0 - other.y.0 <= i64::MAX
    }

    open spec fn sub_spec(self, other: Self) -> Self {
        P52_12 {
            x: I52_12((self.x.0 - other.x.0) as i64),
            y: I52_12((self.y.0 - other.y.0) as i64),
        }
    }
}

impl core::ops::Mul<I52_12> for P52_12 {
    type Output = Self;

    /// Scales both coordinates by `k`; each product is rounded toward zero.
    fn mul(self, k: I52_12) -> (r: Self) {
        Self { x: I52_12(self.x.0 * k.0 / 4096), y: I52_12(self.y.0 * k.0 / 4096) }
    }
}

impl vstd::std_specs::ops::MulSpecImpl<I52_12> for P52_12 {
    open spec fn obeys_mul_spec() -> bool {
        true
    }

    open spec fn mul_req(self, k: I52_12) -> bool {
        &&& i64::MIN <= self.x.0 * k.0 <= i64::MAX
        &&& i64::MIN <= self.y.0 * k.0 <= i64::MAX
    }

    open spec fn mul_spec(self, k: I52_12) -> Self {
        P52_12 {
            x: I52_12(tdiv(self.x.0 * k.0, 4096) as i64),
            y: I52_12(tdiv(self.y.0 * k.0, 4096) as i64),
        }
    }
}

impl core::ops::Div<I52_12> for P52_12 {
    type Output = Self;

    /// Divides both coordinates by `k`; each quotient is rounded toward
    /// zero.
    fn div(self, k: I52_12) -> (r: Self) {
        proof {
            lemma_quot_bound(self.x.0 * 4096, k.0 as int);
            lemma_quot_bound(self.y.0 * 4096, k.0 as int);
        }
        let x: i128 = quotient((self.x.0 * 4096) as i128, k.0 as i128);
        let y: i128 = quotient((self.y.0 * 4096) as i128, k.0 as i128);
        Self { x: I52_12(x as i64), y: I52_12(y as i64) }
    }
}

impl vstd::std_specs::ops::DivSpecImpl<I52_12> for P52_12 {
    open spec fn obeys_div_spec() -> bool {
        true
    }

    open spec fn div_req(self, k: I52_12) -> bool {
        &&& k.0 != 0
        &&& i64::MIN <= self.x.0 * 4096 <= i64::MAX
        &&& i64::MIN <= self.y.0 * 4096 <= i64::MAX
        &&& k.0 == -1 ==> self.x.0 * 4096 != i64::MIN && self.y.0 * 4096 != i64::MIN
    }

    open spec fn div_spec(self, k: I52_12) -> Self {
        P52_12 {
            x: I52_12(quot(self.x.0 * 4096, k.0 as int) as i64),
            y: I52_12(quot(self.y.0 * 4096, k.0 as int) as i64),
        }
    }
}

/// A fixed-point coordinate rectangle. The `min` bound is inclusive and the
/// `max` bound is exclusive. It is well-formed if `min.x <= max.x` and
/// likewise for `y`.
#[derive(Copy, Clone, PartialEq, Eq)]
pub struct R52_12 {
    pub min: P52_12,
    pub max: P52_12,
}

impl Default for R52_12 {
    fn default() -> (r: Self)
        ensures
            r == R52_12::zero(),
    {
        R52_12 {
            min: P52_12 { x: I52_12(0), y: I52_12(0) },
            max: P52_12 { x: I52_12(0), y: I52_12(0) },
        }
    }
}

impl core::ops::Add<P52_12> for R52_12 {
    type Output = Self;

    /// The rectangle moved by `p`.
    fn add(self, p: P52_12) -> (r: Self) {
        Self { min: self.min + p, max: self.max + p }
    }
}

impl vstd::std_specs::ops::AddSpecImpl<P52_12> for R52_12 {
    open spec fn obeys_add_spec() -> bool {
        true
    }

    open spec fn add_req(self, p: P52_12) -> bool {
        &&& i64::MIN <= self.min.x.0 + p.x.0 <= i64::MAX
        &&& i64::MIN <= self.min.y.0 + p.y.0 <= i64::MAX
        &&& i64::MIN <= self.max.x.0 + p.x.0 <= i64::MAX
        &&& i64::MIN <= self.max.y.0 + p.y.0 <= i64::MAX
    }

    open spec fn add_spec(self, p: P52_12) -> Self {
        R52_12 {
            min: P52_12 {
                x: I52_12((self.min.x.0 + p.x.0) as i64),
                y: I52_12((self.min.y.0 + p.y.0) as i64),
            },
            max: P52_12 {
                x: I52_12((self.max.x.0 + p.x.0) as i64),
                y: I52_12((self.max.y.0 + p.y.0) as i64),
            },
        }
    }
}

impl core::ops::Sub<P52_12> for R52_12 {
    type Output = Self;

    /// The rectangle moved back by `p`.
    fn sub(self, p: P52_12) -> (r: Self) {
        Self { min: self.min - p, max: self.max - p }
    }
}

impl vstd::std_specs::ops::SubSpecImpl<P52_12> for R52_12 {
    open spec fn obeys_sub_spec() -> bool {
        true
    }

    open spec fn sub_req(self, p: P52_12) -> bool {
        &&& i64::MIN <= self.min.x.0 - p.x.0 <= i64::MAX
        &&& i64::MIN <= self.min.y.0 - p.y.0 <= i64::MAX
        &&& i64::MIN <= self.max.x.0 - p.x.0 <= i64::MAX
        &&& i64::MIN <= self.max.y.0 - p.y.0 <= i64::MAX
    }

    open spec fn sub_spec(self, p: P52_12) -> Self {
        R52_12 {
            min: P52_12 {
                x: I52_12((self.min.x.0 - p.x.0) as i64),
                y: I52_12((self.min.y.0 - p.y.0) as i64),
            },
            max: P52_12 {
                x: I52_12((self.max.x.0 - p.x.0) as i64),
                y: I52_12((self.max.y.0 - p.y.0) as i64),
            },
        }
    }
}

impl R52_12 {
    /// The rectangle whose four bounds are zero.
    pub open spec fn zero() -> Self {
        R52_12 {
            min: P52_12 { x: I52_12(0), y: I52_12(0) },
            max: P52_12 { x: I52_12(0), y: I52_12(0) },
        }
    }

    /// Whether the rectangle contains no points.
    pub open spec fn is_void(&self) -> bool {
        self.min.x.0 >= self.max.x.0 || self.min.y.0 >= self.max.y.0
    }

    /// The bounds that both rectangles keep: the greater lower bounds and
    /// the lesser upper bounds.
    pub open spec fn meet(self, s: Self) -> Self {
        R52_12 {
            min: P52_12 {
                x: if self.min.x.0 < s.min.x.0 { s.min.x } else { self.min.x },
                y: if self.min.y.0 < s.min.y.0 { s.min.y } else { self.min.y },
            },
            max: P52_12 {
                x: if self.max.x.0 > s.max.x.0 { s.max.x } else { self.max.x },
                y: if self.max.y.0 > s.max.y.0 { s.max.y } else { self.max.y },
            },
        }
    }

    /// The bounds that hold both rectangles: the lesser lower bounds and the
    /// greater upper bounds.
    pub open spec fn join(self, s: Self) -> Self {
        R52_12 {
            min: P52_12 {
                x: if self.min.x.0 > s.min.x.0 { s.min.x } else { self.min.x },
                y: if self.min.y.0 > s.min.y.0 { s.min.y } else { self.min.y },
            },
            max: P52_12 {
                x: if self.max.x.0 < s.max.x.0 { s.max.x } else { self.max.x },
                y: if self.max.y.0 < s.max.y.0 { s.max.y } else { self.max.y },
            },
        }
    }

    /// Whether every point of `self` is in `other`.
    pub open spec fn inside(&self, other: &Self) -> bool {
        self.is_void() || (other.min.x.0 <= self.min.x.0 && self.max.x.0 <= other.max.x.0
            && other.min.y.0 <= self.min.y.0 && self.max.y.0 <= other.max.y.0)
    }

    /// Returns whether the rectangle contains no points.
    pub fn is_empty(&self) -> (b: bool)
        ensures
            b == self.is_void(),
    {
        self.min.x.0 >= self.max.x.0 || self.min.y.0 >= self.max.y.0
    }

    /// Returns the largest rectangle contained by both `self` and `other`.
    /// If the two rectangles do not overlap then the zero rectangle is
    /// returned.
    pub fn intersect(self, other: Self) -> (r: Self)
        ensures
            r == if self.meet(other).is_void() {
                Self::zero()
            } else {
                self.meet(other)
            },
            r.is_void() || (r.inside(&self) && r.inside(&other)),
    {
        let mut r = self;
        let s = other;
        if r.min.x.0 < s.min.x.0 {
            r.min.x = s.min.x;
        }
        if r.min.y.0 < s.min.y.0 {
            r.min.y = s.min.y;
        }
        if r.max.x.0 > s.max.x.0 {
            r.max.x = s.max.x;
        }
        if r.max.y.0 > s.max.y.0 {
            r.max.y = s.max.y;
        }
        if r.is_empty() {
            R52_12 {
                min: P52_12 { x: I52_12(0), y: I52_12(0) },
                max: P52_12 { x: I52_12(0), y: I52_12(0) },
            }
        } else {
            r
        }
    }

    /// Returns the largest rectangle contained by both `self` and `other`,
    /// or nothing if the two rectangles do not overlap.
    pub fn maybe_intersect(self, other: Self) -> (r: Option<Self>)
        ensures
            r == if self.meet(other).is_void() {
                None
            } else {
                Some(self.meet(other))
            },
    {
        let mut r = self;
        let s = other;
        if r.min.x.0 < s.min.x.0 {
            r.min.x = s.min.x;
        }
        if r.min.y.0 < s.min.y.0 {
            r.min.y = s.min.y;
        }
        if r.max.x.0 > s.max.x.0 {
            r.max.x = s.max.x;
        }
        if r.max.y.0 > s.max.y.0 {
            r.max.y = s.max.y;
        }
        if r.is_empty() {
            None
        } else {
            Some(r)
        }
    }

    /// Returns the smallest rectangle that contains both `self` and `other`.
    /// An empty rectangle does not count.
    pub fn union(self, other: Self) -> (r: Self)
        ensures
            r == if self.is_void() {
                other
            } else if other.is_void() {
                self
            } else {
                self.join(other)
            },
            self.inside(&r),
            other.inside(&r),
    {
        let mut r = self;
        let s = other;
        if r.is_empty() {
            return s;
        }
        if s.is_empty() {
            return r;
        }
        if r.min.x.0 > s.min.x.0 {
            r.min.x = s.min.x;
        }
        if r.min.y.0 > s.min.y.0 {
            r.min.y = s.min.y;
        }
        if r.max.x.0 < s.max.x.0 {
            r.max.x = s.max.x;
        }
        if r.max.y.0 < s.max.y.0 {
            r.max.y = s.max.y;
        }
        r
    }

    /// Returns whether every point in `self` is in `other`.
    pub fn in_rect(&self, other: &Self) -> (b: bool)
        ensures
            b == self.inside(other),
    {
        if self.is_empty() {
            true
        } else {
            other.min.x.0 <= self.min.x.0 && self.max.x.0 <= other.max.x.0 && other.min.y.0
                <= self.min.y.0 && self.max.y.0 <= other.max.y.0
        }
    }
}

} // verus!
