//! Fixed-point numbers, points and rectangles.

use kiss2d::geom::{AnyNum, AnyPoint, AnyRect, I26_6, I52_12, P26_6, P52_12, R26_6, R52_12};

fn point6(x: i32, y: i32) -> P26_6 {
    P26_6 { x: I26_6(x), y: I26_6(y) }
}

fn rect6(x0: i32, y0: i32, x1: i32, y1: i32) -> R26_6 {
    R26_6 { min: point6(x0, y0), max: point6(x1, y1) }
}

fn point12(x: i64, y: i64) -> P52_12 {
    P52_12 { x: I52_12(x), y: I52_12(y) }
}

fn rect12(x0: i64, y0: i64, x1: i64, y1: i64) -> R52_12 {
    R52_12 { min: point12(x0, y0), max: point12(x1, y1) }
}

#[test]
fn whole_parts_26_6() {
    // 1.5, -1.5, 1.25, 1.75
    assert_eq!(I26_6(96).floor(), 1);
    assert_eq!(I26_6(96).round(), 2);
    assert_eq!(I26_6(96).ceil(), 2);
    assert_eq!(I26_6(-96).floor(), -2);
    assert_eq!(I26_6(-96).round(), -1);
    assert_eq!(I26_6(-96).ceil(), -1);
    assert_eq!(I26_6(80).round(), 1);
    assert_eq!(I26_6(112).round(), 2);
    assert_eq!(I26_6(128).floor(), 2);
    assert_eq!(I26_6(128).ceil(), 2);
    assert_eq!(I26_6(129).ceil(), 3);
    // The rounding terms wrap.
    assert_eq!(I26_6(i32::MAX).ceil(), -(1 << 25));
    assert_eq!(I26_6(i32::MAX).round(), -(1 << 25));
    assert_eq!(I26_6(i32::MAX).floor(), (1 << 25) - 1);
}

#[test]
fn whole_parts_52_12() {
    assert_eq!(I52_12(6144).floor(), 1);
    assert_eq!(I52_12(6144).round(), 2);
    assert_eq!(I52_12(6144).ceil(), 2);
    assert_eq!(I52_12(-6144).floor(), -2);
    assert_eq!(I52_12(-6144).round(), -1);
    assert_eq!(I52_12(-6144).ceil(), -1);
    assert_eq!(I52_12(4097).ceil(), 2);
    assert_eq!(I52_12(6143).round(), 1);
}

#[test]
fn products() {
    // 1.5 * 2.5 = 3.75
    assert_eq!(I26_6(96).mul(I26_6(160)).0, 240);
    assert_eq!(I26_6(-96).mul(I26_6(160)).0, -240);
    assert_eq!(I26_6(64).mul(I26_6(64)).0, 64);
    // 1/64 * 1/2 is a tie and goes up; -1/64 * 1/2 goes up to zero.
    assert_eq!(I26_6(1).mul(I26_6(32)).0, 1);
    assert_eq!(I26_6(-1).mul(I26_6(32)).0, 0);
    assert_eq!(I26_6(1).mul(I26_6(31)).0, 0);
    assert_eq!(I52_12(6144).mul(I52_12(10240)).0, 15360);
    assert_eq!(I52_12(1).mul(I52_12(2048)).0, 1);
    assert_eq!(I52_12(1).mul(I52_12(2047)).0, 0);
    // The product is cut to the word.
    assert_eq!(I26_6(i32::MAX).mul(I26_6(i32::MAX)).0, ((i32::MAX as i64 * i32::MAX as i64 + 32) >> 6) as i32);
}

#[test]
fn from_whole_numbers() {
    assert_eq!(I26_6::from(3).0, 192);
    assert_eq!(I26_6::from(-3).0, -192);
    assert_eq!(I26_6::from(1 << 26).0, 0);
    assert_eq!(I52_12::from(3).0, 12288);
    assert_eq!(I52_12::from(-1).0, -4096);
}

#[test]
fn sums_and_differences() {
    assert_eq!((I26_6(5) + I26_6(7)).0, 12);
    assert_eq!((I26_6(5) - I26_6(7)).0, -2);
    assert_eq!((I52_12(5) + I52_12(7)).0, 12);
    assert_eq!((I52_12(5) - I52_12(7)).0, -2);
    let p = point6(1, 2) + point6(10, 20);
    assert_eq!((p.x.0, p.y.0), (11, 22));
    let p = point6(1, 2) - point6(10, 20);
    assert_eq!((p.x.0, p.y.0), (-9, -18));
    let p = point12(1, 2) + point12(10, 20);
    assert_eq!((p.x.0, p.y.0), (11, 22));
    let p = point12(1, 2) - point12(10, 20);
    assert_eq!((p.x.0, p.y.0), (-9, -18));
}

#[test]
fn points_scaled_and_divided() {
    // (1.5, -1.5) * 0.5, rounded toward zero.
    let p = point6(97, -97) * I26_6(32);
    assert_eq!((p.x.0, p.y.0), (48, -48));
    let p = point6(96, -96) / I26_6(128);
    assert_eq!((p.x.0, p.y.0), (48, -48));
    let p = point6(97, -97) / I26_6(-128);
    assert_eq!((p.x.0, p.y.0), (-48, 48));
    let p = point12(6145, -6145) * I52_12(2048);
    assert_eq!((p.x.0, p.y.0), (3072, -3072));
    let p = point12(6145, -6145) / I52_12(8192);
    assert_eq!((p.x.0, p.y.0), (3072, -3072));
}

#[test]
fn point_in_rect() {
    let r = rect6(0, 0, 64, 64);
    assert!(point6(0, 0).in_rect(&r));
    assert!(point6(63, 63).in_rect(&r));
    assert!(!point6(64, 0).in_rect(&r));
    assert!(!point6(0, 64).in_rect(&r));
    assert!(!point6(-1, 0).in_rect(&r));
    let r = rect12(0, 0, 64, 64);
    assert!(point12(63, 0).in_rect(&r));
    assert!(!point12(64, 0).in_rect(&r));
}

#[test]
fn rect_moved() {
    let r = rect6(0, 0, 10, 20) + point6(5, 6);
    assert_eq!((r.min.x.0, r.min.y.0, r.max.x.0, r.max.y.0), (5, 6, 15, 26));
    let r = rect6(0, 0, 10, 20) - point6(5, 6);
    assert_eq!((r.min.x.0, r.min.y.0, r.max.x.0, r.max.y.0), (-5, -6, 5, 14));
    let r = rect12(0, 0, 10, 20) + point12(5, 6);
    assert_eq!((r.min.x.0, r.min.y.0, r.max.x.0, r.max.y.0), (5, 6, 15, 26));
    let r = rect12(0, 0, 10, 20) - point12(5, 6);
    assert_eq!((r.min.x.0, r.min.y.0, r.max.x.0, r.max.y.0), (-5, -6, 5, 14));
}

#[test]
fn rect_empty() {
    assert!(rect6(0, 0, 0, 5).is_empty());
    assert!(rect6(0, 5, 5, 5).is_empty());
    assert!(rect6(3, 0, 2, 5).is_empty());
    assert!(!rect6(0, 0, 1, 1).is_empty());
    assert!(rect12(0, 0, 0, 5).is_empty());
    assert!(!rect12(0, 0, 1, 1).is_empty());
}

#[test]
fn rect_intersect() {
    let a = rect6(0, 0, 10, 10);
    let b = rect6(5, -5, 20, 7);
    assert!(a.intersect(b) == rect6(5, 0, 10, 7));
    assert!(b.intersect(a) == rect6(5, 0, 10, 7));
    assert!(a.maybe_intersect(b) == Some(rect6(5, 0, 10, 7)));
    let c = rect6(10, 0, 20, 10);
    assert!(a.intersect(c) == rect6(0, 0, 0, 0));
    assert!(a.maybe_intersect(c).is_none());
    assert!(a.intersect(R26_6::default()) == R26_6::default());
    let a = rect12(0, 0, 10, 10);
    let b = rect12(5, -5, 20, 7);
    assert!(a.intersect(b) == rect12(5, 0, 10, 7));
    assert!(a.maybe_intersect(rect12(10, 0, 20, 10)).is_none());
    assert!(a.intersect(rect12(10, 0, 20, 10)) == R52_12::default());
}

#[test]
fn rect_union() {
    let a = rect6(0, 0, 10, 10);
    let b = rect6(5, -5, 20, 7);
    assert!(a.union(b) == rect6(0, -5, 20, 10));
    assert!(b.union(a) == rect6(0, -5, 20, 10));
    // An empty rectangle does not count.
    let e = rect6(100, 100, 100, 200);
    assert!(a.union(e) == a);
    assert!(e.union(a) == a);
    let a = rect12(0, 0, 10, 10);
    assert!(a.union(rect12(5, -5, 20, 7)) == rect12(0, -5, 20, 10));
    assert!(rect12(7, 7, 7, 7).union(a) == a);
}

#[test]
fn rect_in_rect() {
    let a = rect6(0, 0, 10, 10);
    assert!(rect6(2, 2, 10, 10).in_rect(&a));
    assert!(a.in_rect(&a));
    assert!(!rect6(2, 2, 11, 10).in_rect(&a));
    assert!(!rect6(-1, 2, 5, 5).in_rect(&a));
    // An empty rectangle is in any other.
    assert!(rect6(50, 50, 40, 60).in_rect(&a));
    let a = rect12(0, 0, 10, 10);
    assert!(rect12(2, 2, 10, 10).in_rect(&a));
    assert!(!rect12(2, 2, 10, 11).in_rect(&a));
    assert!(rect12(50, 50, 40, 60).in_rect(&a));
}

#[test]
fn defaults_are_zero() {
    assert!(I26_6::default() == I26_6(0));
    assert!(P26_6::default() == point6(0, 0));
    assert!(R26_6::default() == rect6(0, 0, 0, 0));
    assert!(I52_12::default() == I52_12(0));
    assert!(P52_12::default() == point12(0, 0));
    assert!(R52_12::default() == rect12(0, 0, 0, 0));
    assert!(I26_6(1) < I26_6(2));
    assert!(I52_12(-1) < I52_12(0));
}

/// A whole number of pixels.
#[derive(Clone, Copy, Default, PartialEq, Eq, PartialOrd, Ord, Debug)]
struct Px(i32);

impl std::ops::Add for Px {
    type Output = Px;
    fn add(self, o: Px) -> Px {
        Px(self.0 + o.0)
    }
}

impl std::ops::Sub for Px {
    type Output = Px;
    fn sub(self, o: Px) -> Px {
        Px(self.0 - o.0)
    }
}

impl AnyNum for Px {
    fn floor(&self) -> isize {
        self.0 as isize
    }
    fn round(&self) -> isize {
        self.0 as isize
    }
    fn ceil(&self) -> isize {
        self.0 as isize
    }
    fn mul(self, other: Px) -> Px {
        Px(self.0 * other.0)
    }
}

#[derive(Clone, Copy, Default, PartialEq, Eq, Debug)]
struct At(Px, Px);

impl std::ops::Add for At {
    type Output = At;
    fn add(self, o: At) -> At {
        At(self.0 + o.0, self.1 + o.1)
    }
}

impl std::ops::Sub for At {
    type Output = At;
    fn sub(self, o: At) -> At {
        At(self.0 - o.0, self.1 - o.1)
    }
}

impl AnyPoint for At {
    type Num = Px;
    fn px(&self) -> Px {
        self.0
    }
    fn py(&self) -> Px {
        self.1
    }
    fn x(&self) -> Px {
        self.0
    }
    fn y(&self) -> Px {
        self.1
    }
    fn mul(self, k: Px) -> At {
        At(Px(self.0 .0 * k.0), Px(self.1 .0 * k.0))
    }
    fn div(self, k: Px) -> At {
        At(Px(self.0 .0 / k.0), Px(self.1 .0 / k.0))
    }
}

#[derive(Clone, Copy, Default, PartialEq, Eq, Debug)]
struct Frame(At, At);

impl AnyRect for Frame {
    type Num = Px;
    type Point = At;
    fn lo(&self) -> At {
        self.0
    }
    fn hi(&self) -> At {
        self.1
    }
    fn min(&self) -> At {
        self.0
    }
    fn max(&self) -> At {
        self.1
    }
    fn add(self, p: At) -> Frame {
        Frame(self.0 + p, self.1 + p)
    }
    fn sub(self, p: At) -> Frame {
        Frame(self.0 - p, self.1 - p)
    }
    fn maybe_intersect(self, other: Frame) -> Option<Frame> {
        let r = self.intersect(other);
        if r.is_empty() {
            None
        } else {
            Some(r)
        }
    }
    fn intersect(self, o: Frame) -> Frame {
        let lo = At(self.0 .0.max(o.0 .0), self.0 .1.max(o.0 .1));
        let hi = At(self.1 .0.min(o.1 .0), self.1 .1.min(o.1 .1));
        Frame(lo, hi)
    }
    fn union(self, o: Frame) -> Frame {
        let lo = At(self.0 .0.min(o.0 .0), self.0 .1.min(o.0 .1));
        let hi = At(self.1 .0.max(o.1 .0), self.1 .1.max(o.1 .1));
        Frame(lo, hi)
    }
}

fn frame(x0: i32, y0: i32, x1: i32, y1: i32) -> Frame {
    Frame(At(Px(x0), Px(y0)), At(Px(x1), Px(y1)))
}

#[test]
fn any_rect_sides() {
    let f = frame(2, 3, 10, 4);
    assert_eq!(f.dx(), Px(8));
    assert_eq!(f.dy(), Px(1));
    assert_eq!(frame(5, 5, 1, 9).dx(), Px(-4));
}

#[test]
fn any_rect_is_empty() {
    assert!(!frame(0, 0, 1, 1).is_empty());
    assert!(frame(0, 0, 0, 1).is_empty());
    assert!(frame(0, 1, 1, 1).is_empty());
    assert!(frame(2, 0, 1, 1).is_empty());
}

#[test]
fn any_rect_contains_point() {
    let f = frame(0, 0, 4, 3);
    assert!(f.contains_point(&At(Px(0), Px(0))));
    assert!(f.contains_point(&At(Px(3), Px(2))));
    assert!(!f.contains_point(&At(Px(4), Px(2))));
    assert!(!f.contains_point(&At(Px(3), Px(3))));
    assert!(!f.contains_point(&At(Px(-1), Px(0))));
    assert!(!f.contains_point(&At(Px(0), Px(-1))));
}

#[test]
fn any_rect_contains_rect() {
    let f = frame(0, 0, 4, 3);
    assert!(frame(1, 1, 4, 3).contains_rect(&f));
    assert!(f.contains_rect(&f));
    assert!(!frame(1, 1, 5, 3).contains_rect(&f));
    assert!(!frame(-1, 1, 3, 3).contains_rect(&f));
    assert!(!f.contains_rect(&frame(1, 1, 4, 3)));
    // An empty rectangle lies in any other.
    assert!(frame(9, 9, 9, 20).contains_rect(&f));
}
