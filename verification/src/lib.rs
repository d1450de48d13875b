//! A small 2-D drawing kit: a canvas of 32-bit pixels, an image view over
//! BGRA bytes, an anti-aliasing vector rasterizer with a uniform-colour
//! compositor, line clipping and fixed-point geometry.

pub mod geom;
pub mod image;
pub mod trunc;
pub mod vg;
pub mod wu;

use vstd::prelude::*;
use vstd::arithmetic::div_mod::{lemma_fundamental_div_mod, lemma_fundamental_div_mod_converse};

verus! {

/// A position on a canvas.
pub type Point = (isize, isize);

/// A frame of 32-bit pixels, row after row.
pub struct Canvas {
    buffer: Vec<u32>,
    size: (usize, usize),
}

impl Canvas {
    /// The pixels, row after row.
    pub closed spec fn pixels(&self) -> Seq<u32> {
        self.buffer@
    }

    /// The width in pixels.
    pub closed spec fn width(&self) -> int {
        self.size.0 as int
    }

    /// The height in pixels.
    pub closed spec fn height(&self) -> int {
        self.size.1 as int
    }

    /// There is a pixel for each position.
    pub open spec fn wf(&self) -> bool {
        &&& 0 <= self.width()
        &&& 0 <= self.height()
        &&& self.pixels().len() == self.width() * self.height() <= usize::MAX
    }

    /// The canvas has the size of `other`.
    pub open spec fn same_size(&self, other: &Self) -> bool {
        self.width() == other.width() && self.height() == other.height()
    }

    /// A canvas of the given size, every pixel zero.
    pub fn new(width: usize, height: usize) -> (c: Self)
        requires
            width * height <= usize::MAX,
        ensures
            c.wf(),
            c.width() == width,
            c.height() == height,
            c.pixels() == Seq::new((width * height) as nat, |i: int| 0u32),
    {
        let buffer: Vec<u32> = vec![0u32; width * height];
        assert(buffer@ =~= Seq::new((width * height) as nat, |i: int| 0u32));
        Self { buffer, size: (width, height) }
    }

    /// The pixels, read-only.
    pub fn buffer(&self) -> (b: &[u32])
        ensures
            b@ == self.pixels(),
    {
        self.buffer.as_slice()
    }

    /// The pixels, to read and to write.
    pub fn buffer_mut(&mut self) -> (b: &mut [u32])
        ensures
            b@ == old(self).pixels(),
            final(self).pixels() == final(b)@,
            final(self).same_size(old(self)),
    {
        self.buffer.as_mut_slice()
    }

    /// The width and the height.
    pub fn size(&self) -> (s: (usize, usize))
        ensures
            s.0 == self.width(),
            s.1 == self.height(),
    {
        self.size
    }

    /// Sets every pixel to zero.
    pub fn clear(&mut self)
        ensures
            final(self).same_size(old(self)),
            final(self).pixels() == Seq::new(old(self).pixels().len(), |i: int| 0u32),
    {
        self.fill(0);
    }

    /// Sets every pixel to `color`.
    pub fn fill(&mut self, color: u32)
        ensures
            final(self).same_size(old(self)),
            final(self).pixels() == Seq::new(old(self).pixels().len(), |i: int| color),
    {
        let n: usize = self.buffer.len();
        let mut i: usize = 0;
        while i < n
            invariant
                i <= n,
                n == self.buffer@.len(),
                self.size == old(self).size,
                forall|k: int| 0 <= k < i ==> self.buffer@[k] == color,
            decreases n - i,
        {
            self.buffer[i] = color;
            i = i + 1;
        }
        assert(self.buffer@ =~= Seq::new(old(self).pixels().len(), |i: int| color));
    }

    /// The place of the pixel `(x, y)` among the pixels, if it lies on the
    /// canvas.
    pub open spec fn place(&self, x: int, y: int) -> Option<int> {
        if 0 <= x < self.width() && 0 <= y < self.height() {
            Some(x + y * self.width())
        } else {
            None
        }
    }

    /// The index of the pixel `(x, y)`, if it lies on the canvas.
    pub fn index_of(&self, x: isize, y: isize) -> (i: Option<usize>)
        requires
            self.wf(),
        ensures
            match i {
                Some(i) => self.place(x as int, y as int) == Some(i as int) && i
                    < self.pixels().len(),
                None => self.place(x as int, y as int) is None,
            },
    {
        if x >= 0 && y >= 0 && (x as usize) < self.size.0 && (y as usize) < self.size.1 {
            proof {
                lemma_place_bounds(self.width(), self.height(), x as int, y as int);
            }
            Some(x as usize + y as usize * self.size.0)
        } else {
            None
        }
    }

    /// The pixel `(x, y)`, to read and to write.
    pub fn pixel_mut(&mut self, x: usize, y: usize) -> (p: &mut u32)
        requires
            old(self).wf(),
            x < old(self).width(),
            y < old(self).height(),
        ensures
            *p == old(self).pixels()[x + y * old(self).width()],
            final(self).pixels() == old(self).pixels().update(
                x + y * old(self).width(),
                *final(p),
            ),
            final(self).same_size(old(self)),
    {
        proof {
            lemma_place_bounds(self.width(), self.height(), x as int, y as int);
        }
        let idx: usize = x + y * self.size.0;
        &mut self.buffer[idx]
    }

    /// Sets the pixel `(x, y)` to `color`, if it lies on the canvas.
    pub fn pixel(&mut self, x: usize, y: usize, color: u32)
        requires
            old(self).wf(),
        ensures
            final(self).same_size(old(self)),
            final(self).pixels() == if x < old(self).width() && y < old(self).height() {
                old(self).pixels().update(x + y * old(self).width(), color)
            } else {
                old(self).pixels()
            },
    {
        if x < self.size.0 && y < self.size.1 {
            proof {
                lemma_place_bounds(self.width(), self.height(), x as int, y as int);
            }
            let idx: usize = x + y * self.size.0;
            self.buffer[idx] = color;
        }
    }

    /// The pixels after the row `y` was set to `color` from the column `x1`
    /// up to, not including, `x2`, as far as that lies on a canvas `w` wide
    /// and `h` high.
    pub open spec fn with_hline(pixels: Seq<u32>, w: int, h: int, x1: int, x2: int, y: int, color: u32) -> Seq<
        u32,
    > {
        let lo = if x1 < 0 { 0 } else { x1 };
        let hi = if x2 > w { w } else { x2 };
        Seq::new(
            pixels.len(),
            |k: int|
                if 0 <= y < h && y * w + lo <= k < y * w + hi {
                    color
                } else {
                    pixels[k]
                },
        )
    }

    /// Draws a horizontal line in the row `y` from the column `x1` up to,
    /// not including, `x2`, where that lies on the canvas.
    #[verifier::rlimit(50)]
    pub fn hline(&mut self, x1: isize, x2: isize, y: isize, color: u32)
        requires
            old(self).wf(),
        ensures
            final(self).same_size(old(self)),
            final(self).pixels() == Self::with_hline(
                old(self).pixels(),
                old(self).width(),
                old(self).height(),
                x1 as int,
                x2 as int,
                y as int,
                color,
            ),
    {
        let w: usize = self.size.0;
        let h: usize = self.size.1;
        let ghost before = self.buffer@;
        if y < 0 || y as usize >= h {
            assert(self.buffer@ =~= Self::with_hline(before, w as int, h as int, x1 as int, x2 as int, y as int, color));
            return ;
        }
        let lo: usize = if x1 < 0 { 0 } else { x1 as usize };
        let hi: usize = if x2 < 0 { 0 } else if x2 as usize > w { w } else { x2 as usize };
        proof {
            assert(0 <= y * w && y * w + w <= w * h) by (nonlinear_arith)
                requires
                    0 <= y < h,
                    0 <= w,
            ;
        }
        let row: usize = y as usize * w;
        let mut x: usize = lo;
        while x < hi
            invariant
                lo <= x,
                x <= hi || x == lo,
                hi <= w,
                row == y * w,
                row + w <= before.len() <= usize::MAX,
                self.buffer@.len() == before.len(),
                self.size == old(self).size,
                forall|k: int|
                    0 <= k < before.len() ==> self.buffer@[k] == if row + lo <= k < row + x {
                        color
                    } else {
                        before[k]
                    },
            decreases hi - x,
        {
            self.buffer[row + x] = color;
            x = x + 1;
        }
        assert(self.buffer@ =~= Self::with_hline(before, w as int, h as int, x1 as int, x2 as int, y as int, color));
    }

    /// The pixels after the column `x` was set to `color` from the row `y1`
    /// up to, not including, `y2`, as far as that lies on a canvas `w` wide
    /// and `h` high.
    pub open spec fn with_vline(pixels: Seq<u32>, w: int, h: int, x: int, y1: int, y2: int, color: u32) -> Seq<
        u32,
    > {
        let lo = if y1 < 0 { 0 } else { y1 };
        let hi = if y2 > h { h } else { y2 };
        Seq::new(
            pixels.len(),
            |k: int|
                if 0 <= x < w && k % w == x && lo <= k / w < hi {
                    color
                } else {
                    pixels[k]
                },
        )
    }

    /// Draws a vertical line in the column `x` from the row `y1` up to, not
    /// including, `y2`, where that lies on the canvas.
    #[verifier::rlimit(50)]
    pub fn vline(&mut self, x: isize, y1: isize, y2: isize, color: u32)
        requires
            old(self).wf(),
        ensures
            final(self).same_size(old(self)),
            final(self).pixels() == Self::with_vline(
                old(self).pixels(),
                old(self).width(),
                old(self).height(),
                x as int,
                y1 as int,
                y2 as int,
                color,
            ),
    {
        let w: usize = self.size.0;
        let h: usize = self.size.1;
        let ghost before = self.buffer@;
        if x < 0 || x as usize >= w {
            assert(self.buffer@ =~= Self::with_vline(before, w as int, h as int, x as int, y1 as int, y2 as int, color));
            return ;
        }
        let col: usize = x as usize;
        let lo: usize = if y1 < 0 { 0 } else { y1 as usize };
        let hi: usize = if y2 < 0 { 0 } else if y2 as usize > h { h } else { y2 as usize };
        let mut y: usize = lo;
        while y < hi
            invariant
                lo <= y,
                y <= hi || y == lo,
                hi <= h,
                col < w,
                col == x,
                before.len() == w * h <= usize::MAX,
                self.buffer@.len() == before.len(),
                self.size == old(self).size,
                forall|k: int|
                    0 <= k < before.len() ==> self.buffer@[k] == if k % (w as int) == col && lo
                        <= k / (w as int) < y {
                        color
                    } else {
                        before[k]
                    },
            decreases hi - y,
        {
            proof {
                lemma_place_bounds(w as int, h as int, col as int, y as int);
            }
            let ghost reached = self.buffer@;
            self.buffer[col + y * w] = color;
            proof {
                assert forall|k: int| 0 <= k < before.len() implies #[trigger] self.buffer@[k] == (if k
                    % (w as int) == col && lo <= k / (w as int) < y + 1 {
                    color
                } else {
                    before[k]
                }) by {
                    lemma_fundamental_div_mod(k, w as int);
                    assert((w as int) * (k / (w as int)) == (k / (w as int)) * w) by (nonlinear_arith);
                    if k == col + y * w {
                        lemma_fundamental_div_mod_converse(k, w as int, y as int, col as int);
                    } else {
                        assert(self.buffer@[k] == reached[k]);
                    }
                }
            }
            y = y + 1;
        }
        assert(self.buffer@ =~= Self::with_vline(before, w as int, h as int, x as int, y1 as int, y2 as int, color));
    }

    /// The segments that join the points in their order, and the last point
    /// to the first if the curve is `looped`.
    pub open spec fn joined(pts: Seq<Point>, looped: bool) -> Seq<(Point, Point)> {
        if pts.len() == 0 {
            Seq::empty()
        } else {
            let open = Seq::new((pts.len() - 1) as nat, |i: int| (pts[i], pts[i + 1]));
            if looped {
                open.push((pts[pts.len() - 1], pts[0]))
            } else {
                open
            }
        }
    }

    /// The segments of a curve through the points, to be drawn one by one.
    pub fn curve(pts: &Vec<Point>, looped: bool) -> (segments: Vec<(Point, Point)>)
        ensures
            segments@ == Self::joined(pts@, looped),
    {
        let mut segments: Vec<(Point, Point)> = Vec::new();
        if pts.len() == 0 {
            return segments;
        }
        let first: Point = pts[0];
        let mut base: Point = first;
        let mut i: usize = 1;
        while i < pts.len()
            invariant
                1 <= i <= pts.len(),
                base == pts@[i - 1],
                first == pts@[0],
                segments@ == Seq::new((i - 1) as nat, |k: int| (pts@[k], pts@[k + 1])),
            decreases pts.len() - i,
        {
            let p: Point = pts[i];
            segments.push((base, p));
            assert(segments@ =~= Seq::new(i as nat, |k: int| (pts@[k], pts@[k + 1])));
            base = p;
            i = i + 1;
        }
        if looped {
            segments.push((base, first));
        }
        segments
    }
}

/// A position on a canvas has its pixel within the pixels of the canvas.
pub proof fn lemma_place_bounds(w: int, h: int, x: int, y: int)
    requires
        0 <= x < w,
        0 <= y < h,
    ensures
        0 <= y * w,
        0 <= x + y * w < w * h,
{
    assert(0 <= y * w && y * w + w <= w * h) by (nonlinear_arith)
        requires
            0 <= y < h,
            0 <= w,
    ;
}

} // verus!
