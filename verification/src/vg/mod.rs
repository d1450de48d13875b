//! A 2-D vector graphics rasterizer: path segments add signed area deltas
//! to a buffer of 32-bit cells, the deltas are integrated into a 16-bit
//! coverage mask, and the mask blends a uniform colour into an image.

pub mod area;
pub mod paths;
pub mod raster_fixed;
pub mod slide;
pub mod vector;

use vstd::prelude::*;

verus! {

/// The Porter-Duff operator used by a draw.
#[derive(Clone, Copy)]
pub enum Op {
    Over,
    Src,
}

/// A 2-D vector graphics rasterizer.
///
/// The pen and the start of the current sub-path are kept as the bit
/// patterns of single-precision numbers, which this crate carries and never
/// computes with.
pub struct Rasterizer {
    buf: SimdVec,
    use_fpm: bool,
    size: [usize; 2],
    first: [u32; 2],
    pen: [u32; 2],
    /// The operator of the next draw.
    pub draw_op: Op,
}

/// A zero-initialised buffer of 32-bit cells whose length is a multiple of
/// four.
pub struct SimdVec {
    v: Vec<u32>,
}

/// The number of cells that hold `len` values in groups of four.
pub open spec fn padded(len: int) -> int {
    4 * (len / 4 + if len % 4 != 0 { 1int } else { 0int })
}

/// `len` cells, all zero.
pub open spec fn zeros(len: int) -> Seq<u32> {
    Seq::new(len as nat, |i: int| 0u32)
}

impl View for SimdVec {
    type V = Seq<u32>;

    closed spec fn view(&self) -> Seq<u32> {
        self.v@
    }
}

impl SimdVec {
    /// A buffer of `padded(len)` zero cells.
    pub fn new(len: usize) -> (s: Self)
        requires
            len + 3 <= usize::MAX,
        ensures
            s@ == zeros(padded(len as int)),
    {
        let groups: usize = len / 4 + if len % 4 != 0 { 1 } else { 0 };
        let v: Vec<u32> = vec![0u32; groups * 4];
        assert(v@ =~= zeros(padded(len as int)));
        Self { v }
    }

    /// Empties the buffer and refills it with `padded(len)` zero cells.
    pub fn recycle(&mut self, len: usize)
        requires
            len + 3 <= usize::MAX,
        ensures
            final(self)@ == zeros(padded(len as int)),
    {
        self.v.clear();
        let groups: usize = len / 4 + if len % 4 != 0 { 1 } else { 0 };
        self.v.resize(groups * 4, 0u32);
        assert(self.v@ =~= zeros(padded(len as int)));
    }

    /// The number of cells.
    pub fn len(&self) -> (n: usize)
        ensures
            n == self@.len(),
    {
        self.v.len()
    }

    /// The cells, read-only.
    pub fn as_slice_u32(&self) -> (s: &[u32])
        ensures
            s@ == self@,
    {
        self.v.as_slice()
    }

    /// The cell at `i`.
    pub fn get(&self, i: usize) -> (c: u32)
        requires
            i < self@.len(),
        ensures
            c == self@[i as int],
    {
        self.v[i]
    }

    /// Overwrites the cell at `i`.
    pub fn set(&mut self, i: usize, c: u32)
        requires
            i < old(self)@.len(),
        ensures
            final(self)@ == old(self)@.update(i as int, c),
    {
        self.v[i] = c;
    }
}

/// Limits a column to the closed range from zero to `width`:
/// `max(0, min(i, width))`.
pub open spec fn clamped(i: int, width: int) -> int {
    if i < 0 {
        0
    } else if i < width {
        i
    } else {
        width
    }
}

/// Limits `i` to the closed range from zero to `width`.
pub fn clamp(i: i32, width: i32) -> (r: usize)
    requires
        0 <= width,
    ensures
        r == clamped(i as int, width as int),
{
    if i < 0 {
        return 0;
    }
    if i < width {
        return i as usize;
    }
    width as usize
}

} // verus!
