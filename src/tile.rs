//! Spectrogram tiles: row-major grids of per-pixel values.

use vstd::prelude::*;
use crate::grid::{lemma_cell_index, lemma_next_row};

verus! {

/// A row-major grid of values, `width` cells per row; the height is the
/// number of whole rows the cells make.
pub struct SpectrogramTile<T> {
    pub width: u32,
    pixels: Vec<T>,
}

impl<T: Copy> SpectrogramTile<T> {
    /// The cells, row after row.
    pub closed spec fn cells(&self) -> Seq<T> {
        self.pixels@
    }

    /// Number of cells per row.
    pub closed spec fn cols(&self) -> int {
        self.width as int
    }

    /// Number of whole rows.
    pub open spec fn rows(&self) -> int {
        self.cells().len() as int / self.cols()
    }

    /// A tile `width` cells wide and `height` rows high, every cell `fill`.
    pub fn new(width: u32, height: u32, fill: T) -> (r: Self)
        requires
            width * height <= usize::MAX,
        ensures
            r.cols() == width,
            r.cells() == Seq::new((width * height) as nat, |i: int| fill),
    {
        let n = width as usize * height as usize;
        let mut pixels: Vec<T> = Vec::new();
        let mut i: usize = 0;
        while i < n
            invariant
                i <= n,
                pixels@ == Seq::new(i as nat, |k: int| fill),
            decreases n - i,
        {
            pixels.push(fill);
            i = i + 1;
            assert(pixels@ =~= Seq::new(i as nat, |k: int| fill));
        }
        SpectrogramTile { width, pixels }
    }

    /// Number of whole rows.
    pub fn height(&self) -> (r: u32)
        requires
            self.cols() > 0,
        ensures
            r == self.rows() as u32,
    {
        (self.pixels.len() / self.width as usize) as u32
    }

    /// The cells, row after row, borrowed.
    pub fn as_slice(&self) -> (r: &[T])
        ensures
            r@ == self.cells(),
    {
        self.pixels.as_slice()
    }

    /// The cells, row after row.
    pub fn into_inner(self) -> (r: Vec<T>)
        ensures
            r@ == self.cells(),
    {
        self.pixels
    }

    /// A tile over the given cells, `width` cells per row.
    pub fn from_inner(width: u32, pixels: Vec<T>) -> (r: Self)
        ensures
            r.cols() == width,
            r.cells() == pixels@,
    {
        SpectrogramTile { width, pixels }
    }

    /// The value of cell `(x, y)`.
    pub fn pixel(&self, x: u32, y: u32) -> (r: T)
        requires
            x < self.cols(),
            y < self.rows(),
        ensures
            r == self.cells()[y * self.cols() + x],
    {
        proof {
            lemma_cell_index(self.width as int, self.rows(), x as int, y as int);
            self.lemma_rows_fit();
        }
        let n = self.pixels.len();
        assert(y * self.width + x < n);
        self.pixels[y as usize * self.width as usize + x as usize]
    }

    /// Sets cell `(x, y)` to `val`.
    pub fn set_pixel(&mut self, x: u32, y: u32, val: T)
        requires
            x < old(self).cols(),
            y < old(self).rows(),
        ensures
            final(self).cols() == old(self).cols(),
            final(self).cells() == old(self).cells().update(y * old(self).cols() + x, val),
    {
        proof {
            lemma_cell_index(self.width as int, self.rows(), x as int, y as int);
            self.lemma_rows_fit();
        }
        let n = self.pixels.len();
        assert(y * self.width + x < n);
        let i = y as usize * self.width as usize + x as usize;
        self.pixels.set(i, val);
    }

    /// Sets every cell of column `x` to `val`.
    pub fn set_column(&mut self, x: u32, val: T)
        requires
            x < old(self).cols(),
            old(self).rows() <= u32::MAX,
        ensures
            final(self).cols() == old(self).cols(),
            final(self).cells().len() == old(self).cells().len(),
            forall|k: int|
                0 <= k < old(self).cells().len() ==> #[trigger] final(self).cells()[k] == if (k
                    % old(self).cols() == x && (k / old(self).cols())
                    < old(self).rows()) {
                    val
                } else {
                    old(self).cells()[k]
                },
    {
        let h = self.height();
        let ghost w = self.width as int;
        let ghost rows = self.rows();
        let ghost before = self.cells();
        proof {
            self.lemma_rows_fit();
        }
        let mut y: u32 = 0;
        while y < h
            invariant
                self.width == w,
                self.cols() == w,
                w > 0,
                x < w,
                rows == before.len() as int / w,
                rows * w <= before.len(),
                h == rows,
                y <= h,
                self.cells().len() == before.len(),
                forall|k: int|
                    0 <= k < before.len() ==> #[trigger] self.cells()[k] == if (k % w == x && (k
                        / w) < y) {
                        val
                    } else {
                        before[k]
                    },
            decreases h - y,
        {
            proof {
                lemma_cell_index(w, rows, x as int, y as int);
                assert forall|k: int|
                    0 <= k < before.len() && #[trigger] (k % w) == x && k / w == y implies k == y
                        * w + x by {
                    vstd::arithmetic::div_mod::lemma_fundamental_div_mod(k, w);
                    assert(w * (k / w) == (k / w) * w) by (nonlinear_arith);
                }
            }
            self.set_pixel(x, y, val);
            y = y + 1;
        }
    }

    /// Every whole row lies inside the cells.
    proof fn lemma_rows_fit(&self)
        requires
            self.cols() > 0,
        ensures
            self.rows() * self.cols() <= self.cells().len(),
            self.cols() * self.rows() <= self.cells().len(),
    {
        vstd::arithmetic::div_mod::lemma_fundamental_div_mod(
            self.cells().len() as int,
            self.width as int,
        );
        assert(self.rows() * self.cols() == self.cols() * self.rows()) by (nonlinear_arith);
    }
}

} // verus!
