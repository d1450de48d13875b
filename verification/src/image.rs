//! Integer points and rectangles, and a borrowed view over BGRA pixel bytes.

use vstd::prelude::*;

verus! {

/// A pixel position.
#[derive(Clone, Copy)]
pub struct Point {
    pub x: isize,
    pub y: isize,
}

/// A pixel rectangle: `min` is inside, `max` is just outside.
#[derive(Clone, Copy)]
pub struct Rectangle {
    pub min: Point,
    pub max: Point,
}

impl Rectangle {
    /// The width as a mathematical integer; negative when `max.x < min.x`.
    pub open spec fn width(&self) -> int {
        self.max.x - self.min.x
    }

    /// The height as a mathematical integer; negative when `max.y < min.y`.
    pub open spec fn height(&self) -> int {
        self.max.y - self.min.y
    }

    /// Whether the rectangle holds no point.
    pub open spec fn is_empty(&self) -> bool {
        self.min.x >= self.max.x || self.min.y >= self.max.y
    }

    /// Whether `(x, y)` lies inside: `min` inclusive, `max` exclusive.
    pub open spec fn contains(&self, x: int, y: int) -> bool {
        self.min.x <= x < self.max.x && self.min.y <= y < self.max.y
    }

    /// Whether every point of `self` lies in `outer`.
    pub open spec fn within(&self, outer: Rectangle) -> bool {
        self.is_empty() || (outer.min.x <= self.min.x && self.max.x <= outer.max.x
            && outer.min.y <= self.min.y && self.max.y <= outer.max.y)
    }

    /// The rectangle from the origin to `(w, h)`.
    pub fn from_size(w: isize, h: isize) -> (r: Self)
        ensures
            r.min.x == 0,
            r.min.y == 0,
            r.max.x == w,
            r.max.y == h,
    {
        Self { min: Point { x: 0, y: 0 }, max: Point { x: w, y: h } }
    }

    /// The width. The difference has to fit the machine integer.
    pub fn dx(&self) -> (d: isize)
        requires
            isize::MIN <= self.width() <= isize::MAX,
        ensures
            d == self.width(),
    {
        self.max.x - self.min.x
    }

    /// The height. The difference has to fit the machine integer.
    pub fn dy(&self) -> (d: isize)
        requires
            isize::MIN <= self.height() <= isize::MAX,
        ensures
            d == self.height(),
    {
        self.max.y - self.min.y
    }
}

/// Reports whether `p` is in `r`.
pub fn in_rect(p: &Point, r: &Rectangle) -> (inside: bool)
    ensures
        inside == r.contains(p.x as int, p.y as int),
{
    r.min.x <= p.x && p.x < r.max.x && r.min.y <= p.y && p.y < r.max.y
}

/// An image over borrowed bytes, four per pixel in the order blue, green,
/// red, alpha. The pixel at `(x, y)` starts at
/// `(y - rect.min.y) * stride + (x - rect.min.x) * 4`.
pub struct RGBA<'a> {
    /// The pixel bytes.
    pub pix: &'a mut [u8],
    /// The distance in bytes between vertically adjacent pixels.
    pub stride: isize,
    /// The bounds of the image.
    pub rect: Rectangle,
}

/// The byte offset of the pixel `(x, y)` in an image with the given bounds
/// and stride.
pub open spec fn offset_of(rect: Rectangle, stride: int, x: int, y: int) -> int {
    (y - rect.min.y) * stride + (x - rect.min.x) * 4
}

impl<'a> RGBA<'a> {
    /// The byte offset of the pixel `(x, y)`.
    pub open spec fn offset(&self, x: int, y: int) -> int {
        offset_of(self.rect, self.stride as int, x, y)
    }

    /// The pixel bytes as a sequence.
    pub open spec fn bytes(&self) -> Seq<u8> {
        self.pix@
    }

    /// The bytes cover the bounds: rows do not overlap and every pixel of
    /// `rect` has its four bytes inside `pix`.
    pub open spec fn wf(&self) -> bool {
        &&& 0 <= self.rect.width()
        &&& 0 <= self.rect.height()
        &&& 4 * self.rect.width() <= self.stride
        &&& self.stride * self.rect.height() <= self.bytes().len() <= isize::MAX
    }

    /// Every step of the offset computation for `(x, y)` fits the machine
    /// integer.
    pub open spec fn offset_fits(&self, x: int, y: int) -> bool {
        &&& isize::MIN <= y - self.rect.min.y <= isize::MAX
        &&& isize::MIN <= (y - self.rect.min.y) * self.stride <= isize::MAX
        &&& isize::MIN <= x - self.rect.min.x <= isize::MAX
        &&& isize::MIN <= (x - self.rect.min.x) * 4 <= isize::MAX
        &&& isize::MIN <= self.offset(x, y) <= isize::MAX
    }

    /// The four bytes of the pixel `(x, y)`, or zeros outside the bounds.
    pub open spec fn pixel(&self, x: int, y: int) -> Seq<u8> {
        if self.rect.contains(x, y) {
            self.bytes().subrange(self.offset(x, y), self.offset(x, y) + 4)
        } else {
            seq![0u8, 0u8, 0u8, 0u8]
        }
    }

    /// Clears `buf`, sizes it for `r` with every byte zero, and returns the
    /// packed image over it.
    pub fn new(buf: &'a mut Vec<u8>, r: Rectangle) -> (img: Self)
        requires
            0 <= r.width(),
            0 <= r.height() <= isize::MAX,
            4 * r.width() <= isize::MAX,
            4 * r.width() * r.height() <= isize::MAX,
        ensures
            img.rect == r,
            img.stride == 4 * r.width(),
            img.bytes() == Seq::new((4 * r.width() * r.height()) as nat, |i: int| 0u8),
            img.wf(),
            final(buf)@ == final(img.pix)@,
    {
        let w: isize = r.dx();
        let h: isize = r.dy();
        proof {
            lemma_area_bounds(w as int, h as int);
        }
        let n: usize = (4 * w * h) as usize;
        buf.clear();
        buf.resize(n, 0);
        assert(buf@ =~= Seq::new(n as nat, |i: int| 0u8));
        Self { pix: buf.as_mut_slice(), stride: 4 * w, rect: r }
    }

    /// Whether the bytes cover the bounds.
    pub fn is_wf(&self) -> (b: bool)
        ensures
            b == self.wf(),
    {
        if self.rect.max.x < self.rect.min.x || self.rect.max.y < self.rect.min.y
            || self.stride < 0 {
            return false;
        }
        let w: i128 = self.rect.max.x as i128 - self.rect.min.x as i128;
        let h: i128 = self.rect.max.y as i128 - self.rect.min.y as i128;
        let stride: i128 = self.stride as i128;
        let len: usize = self.pix.len();
        if len > isize::MAX as usize {
            return false;
        }
        assert(0 <= stride * h <= 0x7FFF_FFFF_FFFF_FFFF * 0xFFFF_FFFF_FFFF_FFFF) by (nonlinear_arith)
            requires
                0 <= stride <= 0x7FFF_FFFF_FFFF_FFFF,
                0 <= h <= 0xFFFF_FFFF_FFFF_FFFF,
        ;
        4 * w <= stride && stride * h <= len as i128
    }

    /// The bounds of the image.
    pub fn bounds(&self) -> (r: Rectangle)
        ensures
            r == self.rect,
    {
        self.rect
    }

    /// The index of the first byte of the pixel at `(x, y)`.
    pub fn pix_offset(&self, x: isize, y: isize) -> (i: isize)
        requires
            self.offset_fits(x as int, y as int),
        ensures
            i == self.offset(x as int, y as int),
    {
        (y - self.rect.min.y) * self.stride + (x - self.rect.min.x) * 4
    }

    /// The bytes of the pixel at `(x, y)`; zeros outside the bounds.
    pub fn at(&self, x: isize, y: isize) -> (c: [u8; 4])
        requires
            self.wf(),
        ensures
            c@ == self.pixel(x as int, y as int),
    {
        if !in_rect(&Point { x, y }, &self.rect) {
            let c: [u8; 4] = [0, 0, 0, 0];
            assert(c@ =~= seq![0u8, 0u8, 0u8, 0u8]);
            c
        } else {
            proof {
                lemma_offset_bounds(
                    self.rect,
                    self.stride as int,
                    self.bytes().len() as int,
                    x as int,
                    y as int,
                );
            }
            let i: usize = self.pix_offset(x, y) as usize;
            let c: [u8; 4] = [self.pix[i], self.pix[i + 1], self.pix[i + 2], self.pix[i + 3]];
            assert(c@ =~= self.pixel(x as int, y as int));
            c
        }
    }
}

/// With a non-negative width and height, `4 * w * h` bounds each partial
/// product.
pub proof fn lemma_area_bounds(w: int, h: int)
    requires
        0 <= w,
        0 <= h,
    ensures
        0 <= 4 * w * h,
        h > 0 ==> 4 * w <= 4 * w * h,
        h == 0 ==> 4 * w * h == 0,
{
    assert(0 <= 4 * w * h) by (nonlinear_arith)
        requires
            0 <= w,
            0 <= h,
    ;
    assert(h > 0 ==> 4 * w <= 4 * w * h) by (nonlinear_arith)
        requires
            0 <= w,
            0 <= h,
    ;
}

/// Inside the bounds of an image whose bytes cover them, every pixel has its
/// four bytes inside the buffer, row after row.
pub proof fn lemma_offset_bounds(rect: Rectangle, stride: int, len: int, x: int, y: int)
    requires
        0 <= rect.width(),
        0 <= rect.height(),
        4 * rect.width() <= stride,
        stride * rect.height() <= len,
        rect.contains(x, y),
    ensures
        0 <= y - rect.min.y < rect.height() <= len,
        0 <= (y - rect.min.y) * stride,
        (y - rect.min.y) * stride + stride <= len,
        0 <= (x - rect.min.x) * 4 <= stride - 4,
        0 <= offset_of(rect, stride, x, y),
        offset_of(rect, stride, x, y) + 4 <= len,
{
    let row = y - rect.min.y;
    let h = rect.height();
    assert(0 <= row * stride && row * stride + stride <= stride * h && h <= stride * h)
        by (nonlinear_arith)
        requires
            0 <= row < h,
            1 <= stride,
    ;
}

} // verus!
