//! Index logic of spectrogram rendering, and the choice of resolution level.
//!
//! Rendering one column reads the sample under the column, takes a windowed
//! transform there and looks each pixel row up in the resulting spectrum by
//! a frequency bucket index. The transform and the levels are numeric work
//! left to the caller; what is decided here is which columns need a
//! transform, which rows have a value, and where each value goes. A
//! `SpectrogramPass` runs those decisions column by column and asks its
//! caller for the transform whenever a column needs one.

use vstd::prelude::*;
use crate::tile::SpectrogramTile;

verus! {

/// The sample index that a column reads, if it lies inside a buffer of
/// `len` samples; `None` marks a column before the start or past the end.
pub fn column_sample(sample: isize, len: usize) -> (r: Option<usize>)
    ensures
        r == if 0 <= sample < len {
            Some(sample as usize)
        } else {
            None::<usize>
        },
{
    if sample < 0 || sample as usize >= len {
        None
    } else {
        Some(sample as usize)
    }
}

/// The value of a row whose frequency bucket is `bucket`: the level of that
/// spectrum bin, or `floor` when the bucket is past the spectrum.
pub open spec fn bin_level<T>(bucket: usize, levels: Seq<T>, floor: T) -> T {
    if bucket < levels.len() {
        levels[bucket as int]
    } else {
        floor
    }
}

/// Writes column `x` of the tile from a spectrum: row `y` gets the level of
/// bin `buckets[y]`, or `floor` when that bin is past the end of `levels`.
pub fn fill_column<T: Copy>(
    tile: &mut SpectrogramTile<T>,
    x: u32,
    buckets: &[usize],
    levels: &[T],
    floor: T,
)
    requires
        x < old(tile).cols(),
        old(tile).rows() <= buckets@.len(),
        old(tile).rows() <= u32::MAX,
    ensures
        final(tile).cols() == old(tile).cols(),
        final(tile).cells().len() == old(tile).cells().len(),
        forall|k: int|
            0 <= k < old(tile).cells().len() ==> #[trigger] final(tile).cells()[k] == if (k
                % old(tile).cols() == x && (k / old(tile).cols()) < old(tile).rows()) {
                bin_level(buckets@[k / old(tile).cols()], levels@, floor)
            } else {
                old(tile).cells()[k]
            },
{
    let h = tile.height();
    let ghost w = tile.cols();
    let ghost rows = tile.rows();
    let ghost before = tile.cells();
    proof {
        vstd::arithmetic::div_mod::lemma_fundamental_div_mod(before.len() as int, w);
        assert(w * rows == rows * w) by (nonlinear_arith);
    }
    let mut y: u32 = 0;
    while y < h
        invariant
            tile.cols() == w,
            w > 0,
            x < w,
            rows == before.len() as int / w,
            w * rows <= before.len(),
            h == rows,
            rows <= buckets@.len(),
            y <= h,
            tile.cells().len() == before.len(),
            forall|k: int|
                0 <= k < before.len() ==> #[trigger] tile.cells()[k] == if (k % w == x && (k / w)
                    < y) {
                    bin_level(buckets@[k / w], levels@, floor)
                } else {
                    before[k]
                },
        decreases h - y,
    {
        let bucket = buckets[y as usize];
        let value = if bucket < levels.len() {
            levels[bucket]
        } else {
            floor
        };
        proof {
            crate::grid::lemma_cell_index(w, rows, x as int, y as int);
            assert forall|k: int|
                0 <= k < before.len() && #[trigger] (k % w) == x && k / w == y implies k == y * w
                    + x by {
                vstd::arithmetic::div_mod::lemma_fundamental_div_mod(k, w);
                assert(w * (k / w) == (k / w) * w) by (nonlinear_arith);
            }
        }
        tile.set_pixel(x, y, value);
        y = y + 1;
    }
}

/// The three resolution levels of a preprocessed buffer.
#[derive(Clone, Copy, Debug, PartialEq, Eq, Structural)]
pub enum Resolution {
    /// The buffer as given.
    Full,
    /// Half the sample rate.
    Half,
    /// A quarter of the sample rate.
    Quarter,
}

impl Resolution {
    /// How many times lower the level's sample rate is than the full one.
    pub open spec fn spec_divisor(self) -> usize {
        match self {
            Resolution::Full => 1,
            Resolution::Half => 2,
            Resolution::Quarter => 4,
        }
    }

    /// How many times lower the level's sample rate is than the full one.
    pub fn divisor(self) -> (r: usize)
        ensures
            r == self.spec_divisor(),
    {
        match self {
            Resolution::Full => 1,
            Resolution::Half => 2,
            Resolution::Quarter => 4,
        }
    }

    /// Transform size used at this level for a full-rate window of
    /// `full_size` samples: the same stretch of time at the lower rate.
    pub fn window_size(self, full_size: usize) -> (r: usize)
        ensures
            r == full_size / self.spec_divisor(),
    {
        full_size / self.divisor()
    }
}

/// The level chosen for a required sample rate.
pub open spec fn spec_select(needed: u32, half_rate: u32, quarter_rate: u32) -> Resolution {
    if needed <= quarter_rate {
        Resolution::Quarter
    } else if needed <= half_rate {
        Resolution::Half
    } else {
        Resolution::Full
    }
}

/// Chooses the cheapest level whose sample rate reaches `needed`: quarter
/// rate, then half rate, else the full buffer. A rate equal to the
/// requirement is enough. The rates are order keys of the single-precision
/// values (see `sample_key`), which compare as the rates do.
pub fn select_resolution(needed: u32, half_rate: u32, quarter_rate: u32) -> (r: Resolution)
    ensures
        r == spec_select(needed, half_rate, quarter_rate),
{
    if needed <= quarter_rate {
        Resolution::Quarter
    } else if needed <= half_rate {
        Resolution::Half
    } else {
        Resolution::Full
    }
}

/// What a spectrogram pass asks of its caller next.
#[derive(Clone, Copy, Debug, PartialEq, Eq, Structural)]
pub enum PassStep {
    /// Take the transform around this sample and hand its levels to
    /// `SpectrogramPass::supply`.
    Transform(usize),
    /// Every column is written.
    Done,
}

/// One rendering pass over a spectrogram tile, column by column.
///
/// Each column reads the sample `columns[x]`; a column whose sample lies
/// outside the buffer is filled with `floor`, any other one waits for the
/// spectrum levels taken around its sample, and row `y` then reads the level
/// of bin `buckets[y]` (see `bin_level`).
pub struct SpectrogramPass<T> {
    tile: SpectrogramTile<T>,
    buckets: Vec<usize>,
    columns: Vec<isize>,
    sample_len: usize,
    floor: T,
    next: u32,
}

/// Whether column sample `sample` lies inside a buffer of `len` samples.
pub open spec fn in_buffer(sample: isize, len: usize) -> bool {
    0 <= sample < len
}

impl<T: Copy> SpectrogramPass<T> {
    /// The tile as written so far.
    pub closed spec fn tile(&self) -> SpectrogramTile<T> {
        self.tile
    }

    /// Frequency bucket of each row.
    pub closed spec fn buckets(&self) -> Seq<usize> {
        self.buckets@
    }

    /// Sample index of each column.
    pub closed spec fn columns(&self) -> Seq<isize> {
        self.columns@
    }

    /// Number of samples in the buffer.
    pub closed spec fn sample_len(&self) -> usize {
        self.sample_len
    }

    /// Value of cells that have no level.
    pub closed spec fn floor(&self) -> T {
        self.floor
    }

    /// First column not written yet.
    pub closed spec fn next(&self) -> int {
        self.next as int
    }

    /// Tile, rows and columns fit one another.
    pub open spec fn wf(&self) -> bool {
        &&& self.tile().cols() == self.columns().len()
        &&& self.tile().cols() > 0
        &&& self.columns().len() <= u32::MAX
        &&& self.tile().rows() == self.buckets().len()
        &&& self.buckets().len() <= u32::MAX
        &&& 0 <= self.next() <= self.columns().len()
    }

    /// The next column waits for spectrum levels.
    pub open spec fn pending(&self) -> bool {
        &&& self.next() < self.columns().len()
        &&& in_buffer(self.columns()[self.next()], self.sample_len())
    }

    /// A pass over a tile `columns.len()` wide and `buckets.len()` high, all
    /// cells `floor` to begin with.
    pub fn new(buckets: Vec<usize>, columns: Vec<isize>, sample_len: usize, floor: T) -> (r: Self)
        requires
            0 < columns@.len() <= u32::MAX,
            buckets@.len() <= u32::MAX,
            columns@.len() * buckets@.len() <= usize::MAX,
        ensures
            r.wf(),
            r.next() == 0,
            r.buckets() == buckets@,
            r.columns() == columns@,
            r.sample_len() == sample_len,
            r.floor() == floor,
            r.tile().cells() == Seq::new(
                (columns@.len() * buckets@.len()) as nat,
                |i: int| floor,
            ),
    {
        let width = columns.len() as u32;
        let height = buckets.len() as u32;
        let tile = SpectrogramTile::new(width, height, floor);
        proof {
            vstd::arithmetic::div_mod::lemma_fundamental_div_mod_converse(
                width * height,
                width as int,
                height as int,
                0,
            );
            assert(height * width == width * height) by (nonlinear_arith);
        }
        SpectrogramPass { tile, buckets, columns, sample_len, floor, next: 0 }
    }

    /// Fills every column from the next one up to the first whose sample is
    /// inside the buffer with `floor`, and asks for the transform at that
    /// column's sample; `Done` when no such column is left.
    pub fn advance(&mut self) -> (r: PassStep)
        requires
            old(self).wf(),
        ensures
            final(self).wf(),
            final(self).buckets() == old(self).buckets(),
            final(self).columns() == old(self).columns(),
            final(self).sample_len() == old(self).sample_len(),
            final(self).floor() == old(self).floor(),
            final(self).tile().cols() == old(self).tile().cols(),
            old(self).next() <= final(self).next(),
            forall|x: int|
                old(self).next() <= x < final(self).next() ==> !in_buffer(
                    #[trigger] old(self).columns()[x],
                    old(self).sample_len(),
                ),
            r == PassStep::Done <==> final(self).next() == old(self).columns().len(),
            r != PassStep::Done ==> final(self).pending() && r == PassStep::Transform(
                old(self).columns()[final(self).next()] as usize,
            ),
            final(self).tile().cells().len() == old(self).tile().cells().len(),
            forall|k: int|
                0 <= k < old(self).tile().cells().len() ==> #[trigger] final(self).tile().cells()[k]
                    == if (old(self).next() <= k % old(self).tile().cols() < final(self).next() && (k
                    / old(self).tile().cols()) < old(self).tile().rows()) {
                    old(self).floor()
                } else {
                    old(self).tile().cells()[k]
                },
    {
        let ghost start = self.next as int;
        let ghost before = self.tile.cells();
        let ghost w = self.tile.cols();
        let width = self.columns.len();
        while (self.next as usize) < width
            invariant
                self.wf(),
                width == self.columns().len(),
                self.buckets() == old(self).buckets(),
                self.columns() == old(self).columns(),
                self.sample_len() == old(self).sample_len(),
                self.floor() == old(self).floor(),
                self.tile().cols() == w,
                w == old(self).tile().cols(),
                before == old(self).tile().cells(),
                start == old(self).next(),
                start <= self.next(),
                forall|x: int|
                    start <= x < self.next() ==> !in_buffer(
                        #[trigger] self.columns()[x],
                        self.sample_len(),
                    ),
                self.tile().cells().len() == before.len(),
                forall|k: int|
                    0 <= k < before.len() ==> #[trigger] self.tile().cells()[k] == if (start <= k
                        % w < self.next() && (k / w) < old(self).tile().rows()) {
                        self.floor()
                    } else {
                        before[k]
                    },
            decreases width - self.next as usize,
        {
            let x = self.next;
            match column_sample(self.columns[x as usize], self.sample_len) {
                Some(sample) => {
                    return PassStep::Transform(sample);
                },
                None => {
                    self.tile.set_column(x, self.floor);
                    self.next = x + 1;
                },
            }
        }
        PassStep::Done
    }

    /// Writes the pending column from the levels of the transform at its
    /// sample: row `y` gets the level of bin `buckets[y]`, or `floor` past
    /// the end of `levels`. The column after it becomes the next one.
    pub fn supply(&mut self, levels: &[T])
        requires
            old(self).wf(),
            old(self).pending(),
        ensures
            final(self).wf(),
            final(self).buckets() == old(self).buckets(),
            final(self).columns() == old(self).columns(),
            final(self).sample_len() == old(self).sample_len(),
            final(self).floor() == old(self).floor(),
            final(self).tile().cols() == old(self).tile().cols(),
            final(self).next() == old(self).next() + 1,
            final(self).tile().cells().len() == old(self).tile().cells().len(),
            forall|k: int|
                0 <= k < old(self).tile().cells().len() ==> #[trigger] final(self).tile().cells()[k]
                    == if (k % old(self).tile().cols() == old(self).next() && (k
                    / old(self).tile().cols()) < old(self).tile().rows()) {
                    bin_level(
                        old(self).buckets()[k / old(self).tile().cols()],
                        levels@,
                        old(self).floor(),
                    )
                } else {
                    old(self).tile().cells()[k]
                },
    {
        let x = self.next;
        fill_column(&mut self.tile, x, self.buckets.as_slice(), levels, self.floor);
        self.next = x + 1;
    }

    /// The tile, once the pass is over.
    pub fn finish(self) -> (r: SpectrogramTile<T>)
        ensures
            r == self.tile(),
    {
        self.tile
    }
}

} // verus!
