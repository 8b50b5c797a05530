//! Min/max aggregation of samples for waveform plots.
//!
//! Samples are handled as order keys (see `sample_key`): unsigned integers
//! that sort as the samples do. A renderer keeps the keys of a buffer and a
//! pyramid of one `(min, max)` pair per chunk of `CHUNK_SIZE` keys, so that a
//! zoomed-out column reads a few chunk pairs instead of every sample.

use vstd::prelude::*;
use itertools::Itertools;
use crate::grid::{lemma_cell_index, lemma_next_row};
use crate::pixels::{byte_of, cast_to_bytes, in_byte_order};

verus! {

/// Number of samples summarised by one chunk pair.
pub const CHUNK_SIZE: usize = 128;

/// Pixel value of a painted waveform cell (opaque white).
pub const PAINTED: u32 = 0xffff_ffff;

/// Pixel value of an unpainted waveform cell (transparent).
pub const BACKGROUND: u32 = 0;

/// `lo` and `hi` are the least and the greatest element of `s`.
pub open spec fn is_min_max(s: Seq<u32>, lo: u32, hi: u32) -> bool {
    &&& s.contains(lo)
    &&& s.contains(hi)
    &&& forall|i: int| 0 <= i < s.len() ==> lo <= #[trigger] s[i] <= hi
}

/// Union of two optional `(min, max)` spans.
pub open spec fn join(a: Option<(u32, u32)>, b: Option<(u32, u32)>) -> Option<(u32, u32)> {
    match (a, b) {
        (None, _) => b,
        (_, None) => a,
        (Some((l1, h1)), Some((l2, h2))) => Some(
            (if l1 <= l2 { l1 } else { l2 }, if h1 >= h2 { h1 } else { h2 }),
        ),
    }
}

/// The least and the greatest key of `s`, or `None` when `s` is empty.
pub open spec fn span_of(s: Seq<u32>) -> Option<(u32, u32)>
    decreases s.len(),
{
    if s.len() == 0 {
        None
    } else {
        join(span_of(s.drop_last()), Some((s.last(), s.last())))
    }
}

/// The union of a sequence of `(min, max)` pairs, or `None` when it is empty.
pub open spec fn chunks_span(c: Seq<(u32, u32)>) -> Option<(u32, u32)>
    decreases c.len(),
{
    if c.len() == 0 {
        None
    } else {
        join(chunks_span(c.drop_last()), Some(c.last()))
    }
}

/// Number of chunks over `n` samples: the full ones and a shorter last one.
pub open spec fn chunk_count(n: int) -> int {
    (n + CHUNK_SIZE - 1) / CHUNK_SIZE as int
}

/// End (exclusive) of chunk `c` over `n` samples.
pub open spec fn chunk_end(n: int, c: int) -> int {
    if (c + 1) * CHUNK_SIZE <= n {
        (c + 1) * CHUNK_SIZE
    } else {
        n
    }
}

/// The keys that chunk `c` covers.
pub open spec fn chunk_keys(keys: Seq<u32>, c: int) -> Seq<u32> {
    keys.subrange(c * CHUNK_SIZE, chunk_end(keys.len() as int, c))
}

/// `chunks` is the pyramid of `keys`: one pair per chunk, each the span of
/// that chunk's keys.
pub open spec fn is_pyramid(keys: Seq<u32>, chunks: Seq<(u32, u32)>) -> bool {
    &&& chunks.len() == chunk_count(keys.len() as int)
    &&& forall|c: int| 0 <= c < chunks.len() ==> Some(#[trigger] chunks[c]) == span_of(chunk_keys(keys, c))
}

/// Lower end of an inclusive index range clamped into `0..max`.
pub open spec fn clamp_lo(start: int, max: int) -> int {
    if start < max - 1 {
        start
    } else {
        max - 1
    }
}

/// Upper end of an inclusive index range clamped into `clamp_lo(start, max)..max`.
pub open spec fn clamp_hi(start: int, end: int, max: int) -> int {
    let lo = clamp_lo(start, max);
    if end < lo {
        lo
    } else if end > max - 1 {
        max - 1
    } else {
        end
    }
}

/// Clamps the inclusive range `start..=end` into `0..max`: the start is
/// moved down to at most `max - 1`, the end into `[start, max - 1]`. The
/// result is never empty.
pub fn clamp_range(start: usize, end: usize, max: usize) -> (r: (usize, usize))
    requires
        max > 0,
    ensures
        r.0 == clamp_lo(start as int, max as int),
        r.1 == clamp_hi(start as int, end as int, max as int),
        r.0 <= r.1 < max,
{
    let lo = if start < max - 1 {
        start
    } else {
        max - 1
    };
    let hi = if end < lo {
        lo
    } else if end > max - 1 {
        max - 1
    } else {
        end
    };
    (lo, hi)
}

/// Relies on itertools' `Itertools::minmax` followed by
/// `MinMaxResult::into_option`: `None` for no items, otherwise the least and
/// the greatest item.
#[verifier::external_body]
fn minmax_keys(keys: &[u32]) -> (r: Option<(u32, u32)>)
    ensures
        r is None <==> keys@.len() == 0,
        r matches Some((lo, hi)) ==> is_min_max(keys@, lo, hi),
{
    keys.iter().copied().minmax().into_option()
}

/// A span has the least and the greatest element of a non-empty sequence.
pub proof fn lemma_span_is_min_max(s: Seq<u32>)
    ensures
        s.len() == 0 ==> span_of(s) is None,
        s.len() > 0 ==> (span_of(s) matches Some((lo, hi)) && is_min_max(s, lo, hi)),
    decreases s.len(),
{
    if s.len() > 0 {
        let t = s.drop_last();
        lemma_span_is_min_max(t);
        assert(s[s.len() - 1] == s.last());
        if t.len() > 0 {
            let (l1, h1) = span_of(t).unwrap();
            let i1 = choose|i: int| 0 <= i < t.len() && t[i] == l1;
            let j1 = choose|i: int| 0 <= i < t.len() && t[i] == h1;
            assert(s[i1] == t[i1]);
            assert(s[j1] == t[j1]);
            let (lo, hi) = span_of(s).unwrap();
            assert forall|i: int| 0 <= i < s.len() implies lo <= #[trigger] s[i] <= hi by {
                if i < t.len() {
                    assert(s[i] == t[i]);
                }
            }
        }
    }
}

/// The least and the greatest element are unique: any pair that has that
/// property is the span.
pub proof fn lemma_min_max_is_span(s: Seq<u32>, lo: u32, hi: u32)
    requires
        is_min_max(s, lo, hi),
    ensures
        span_of(s) == Some((lo, hi)),
{
    lemma_span_is_min_max(s);
    let (l, h) = span_of(s).unwrap();
    let il = choose|i: int| 0 <= i < s.len() && s[i] == lo;
    let jl = choose|i: int| 0 <= i < s.len() && s[i] == l;
    let ih = choose|i: int| 0 <= i < s.len() && s[i] == hi;
    let jh = choose|i: int| 0 <= i < s.len() && s[i] == h;
    assert(l <= s[il] && lo <= s[jl]);
    assert(s[ih] <= h && s[jh] <= hi);
}

/// The span of two sequences put together is the union of their spans.
pub proof fn lemma_span_concat(s1: Seq<u32>, s2: Seq<u32>)
    ensures
        span_of(s1 + s2) == join(span_of(s1), span_of(s2)),
    decreases s2.len(),
{
    if s2.len() == 0 {
        assert(s1 + s2 =~= s1);
    } else {
        let t2 = s2.drop_last();
        lemma_span_concat(s1, t2);
        assert((s1 + s2).drop_last() =~= s1 + t2);
        assert((s1 + s2).last() == s2.last());
    }
}

/// The union of the `(min, max)` pairs in `pairs`, or `None` when there are
/// none.
pub fn aggregate_minmax(pairs: &[(u32, u32)]) -> (r: Option<(u32, u32)>)
    ensures
        r == chunks_span(pairs@),
{
    if pairs.len() == 0 {
        return None;
    }
    let mut lo = pairs[0].0;
    let mut hi = pairs[0].1;
    let mut i: usize = 1;
    assert(pairs@.subrange(0, 1).drop_last() =~= pairs@.subrange(0, 0));
    assert(chunks_span(pairs@.subrange(0, 0)) == None::<(u32, u32)>);
    assert(pairs@.subrange(0, 1).last() == pairs@[0]);
    while i < pairs.len()
        invariant
            1 <= i <= pairs@.len(),
            chunks_span(pairs@.subrange(0, i as int)) == Some((lo, hi)),
        decreases pairs@.len() - i,
    {
        let (clo, chi) = pairs[i];
        if clo < lo {
            lo = clo;
        }
        if chi > hi {
            hi = chi;
        }
        assert(pairs@.subrange(0, i + 1).drop_last() =~= pairs@.subrange(0, i as int));
        i = i + 1;
    }
    assert(pairs@.subrange(0, pairs@.len() as int) =~= pairs@);
    Some((lo, hi))
}

/// One `(min, max)` pair per chunk of `CHUNK_SIZE` keys, the last chunk
/// holding what remains.
fn build_pyramid(keys: &[u32]) -> (r: Vec<(u32, u32)>)
    ensures
        is_pyramid(keys@, r@),
        keys@.len() <= usize::MAX,
{
    let n = keys.len();
    let mut chunks: Vec<(u32, u32)> = Vec::new();
    let mut start: usize = 0;
    while start < n
        invariant
            n == keys@.len(),
            start <= n,
            start == n || start == chunks@.len() * CHUNK_SIZE,
            chunks@.len() == chunk_count(start as int),
            forall|c: int|
                0 <= c < chunks@.len() ==> Some(#[trigger] chunks@[c]) == span_of(
                    chunk_keys(keys@, c),
                ),
        decreases n - start,
    {
        let end = if n - start >= CHUNK_SIZE {
            start + CHUNK_SIZE
        } else {
            n
        };
        let chunk = &keys[start..end];
        let c = chunks.len();
        assert(chunk@ =~= chunk_keys(keys@, c as int));
        let pair = minmax_keys(chunk);
        match pair {
            Some((lo, hi)) => {
                proof {
                    lemma_min_max_is_span(chunk@, lo, hi);
                }
                chunks.push((lo, hi));
            },
            None => {},
        }
        start = end;
    }
    chunks
}

/// A waveform renderer over the order keys of one audio buffer, with the
/// buffer's chunk pyramid.
pub struct WaveformRenderer {
    keys: Vec<u32>,
    chunks: Vec<(u32, u32)>,
}

/// Span of the samples, or of the chunks, that one pixel column covers.
///
/// `range` is the inclusive index range that the column maps to; it is
/// clamped into the keys (zoomed in) or into the chunks (zoomed out).
pub open spec fn column_span(
    keys: Seq<u32>,
    chunks: Seq<(u32, u32)>,
    zoomed_out: bool,
    range: (usize, usize),
) -> Option<(u32, u32)> {
    if zoomed_out {
        let lo = clamp_lo(range.0 as int, chunks.len() as int);
        let hi = clamp_hi(range.0 as int, range.1 as int, chunks.len() as int);
        chunks_span(chunks.subrange(lo, hi + 1))
    } else {
        let lo = clamp_lo(range.0 as int, keys.len() as int);
        let hi = clamp_hi(range.0 as int, range.1 as int, keys.len() as int);
        span_of(keys.subrange(lo, hi + 1))
    }
}

impl WaveformRenderer {
    /// The order keys of the samples, in order.
    pub closed spec fn keys(&self) -> Seq<u32> {
        self.keys@
    }

    /// The chunk pyramid.
    pub closed spec fn chunks(&self) -> Seq<(u32, u32)> {
        self.chunks@
    }

    /// At least two samples, and the pyramid is the one of the samples.
    pub open spec fn wf(&self) -> bool {
        &&& 2 <= self.keys().len() <= usize::MAX
        &&& is_pyramid(self.keys(), self.chunks())
    }

    /// Builds the renderer and its chunk pyramid over the order keys of a
    /// buffer of at least two samples.
    pub fn new(keys: Vec<u32>) -> (r: Self)
        requires
            keys@.len() >= 2,
        ensures
            r.wf(),
            r.keys() == keys@,
    {
        let chunks = build_pyramid(keys.as_slice());
        WaveformRenderer { keys, chunks }
    }

    /// For each pixel column, the span of the samples it covers: the union
    /// of the chunk pairs in its clamped chunk range when `zoomed_out`, the
    /// least and greatest key in its clamped sample range otherwise.
    pub fn column_spans(&self, zoomed_out: bool, ranges: &Vec<(usize, usize)>) -> (r: Vec<
        Option<(u32, u32)>,
    >)
        requires
            self.wf(),
        ensures
            r@.len() == ranges@.len(),
            forall|x: int|
                0 <= x < r@.len() ==> #[trigger] r@[x] == column_span(
                    self.keys(),
                    self.chunks(),
                    zoomed_out,
                    ranges@[x],
                ),
    {
        let mut spans: Vec<Option<(u32, u32)>> = Vec::new();
        let mut x: usize = 0;
        while x < ranges.len()
            invariant
                self.wf(),
                x <= ranges@.len(),
                spans@.len() == x,
                forall|k: int|
                    0 <= k < x ==> #[trigger] spans@[k] == column_span(
                        self.keys(),
                        self.chunks(),
                        zoomed_out,
                        ranges@[k],
                    ),
            decreases ranges@.len() - x,
        {
            let (start, end) = ranges[x];
            let span = if zoomed_out {
                let (lo, hi) = clamp_range(start, end, self.chunks.len());
                aggregate_minmax(&self.chunks.as_slice()[lo..hi + 1])
            } else {
                let (lo, hi) = clamp_range(start, end, self.keys.len());
                let r = minmax_keys(&self.keys.as_slice()[lo..hi + 1]);
                proof {
                    let s = self.keys@.subrange(lo as int, hi + 1);
                    lemma_span_is_min_max(s);
                    if let Some((l, h)) = r {
                        lemma_min_max_is_span(s, l, h);
                    }
                }
                r
            };
            spans.push(span);
            x = x + 1;
        }
        spans
    }
}

/// Whether row `y` of a column with vertical span `span` is painted: the
/// span is clamped into `0..height` as an inclusive range.
pub open spec fn painted(span: Option<(usize, usize)>, y: int, height: int) -> bool {
    match span {
        None => false,
        Some((y0, y1)) => clamp_lo(y0 as int, height) <= y <= clamp_hi(
            y0 as int,
            y1 as int,
            height,
        ),
    }
}

/// Pixels of a waveform plot `width` columns wide and `height` rows high,
/// row-major: the cell of column `x`, row `y` is `PAINTED` when row `y` lies
/// in the clamped span of column `x`, else `BACKGROUND`.
pub fn paint_columns(width: u32, height: u32, spans: &Vec<Option<(usize, usize)>>) -> (r: Vec<u32>)
    requires
        height > 1,
        spans@.len() == width,
        width * height <= usize::MAX,
    ensures
        r@.len() == width * height,
        forall|k: int|
            0 <= k < r@.len() ==> #[trigger] r@[k] == if painted(
                spans@[k % width as int],
                k / width as int,
                height as int,
            ) {
                PAINTED
            } else {
                BACKGROUND
            },
{
    let w = width as usize;
    let h = height as usize;
    let mut pixels: Vec<u32> = Vec::new();
    let mut y: usize = 0;
    while y < h
        invariant
            w == width,
            h == height,
            h > 1,
            spans@.len() == w,
            w * h <= usize::MAX,
            y <= h,
            pixels@.len() == y * w,
            forall|k: int|
                0 <= k < pixels@.len() ==> #[trigger] pixels@[k] == if painted(
                    spans@[k % w as int],
                    k / w as int,
                    h as int,
                ) {
                    PAINTED
                } else {
                    BACKGROUND
                },
        decreases h - y,
    {
        let mut x: usize = 0;
        while x < w
            invariant
                w == width,
                h == height,
                h > 1,
                spans@.len() == w,
                y < h,
                x <= w,
                pixels@.len() == y * w + x,
                forall|k: int|
                    0 <= k < pixels@.len() ==> #[trigger] pixels@[k] == if painted(
                        spans@[k % w as int],
                        k / w as int,
                        h as int,
                    ) {
                        PAINTED
                    } else {
                        BACKGROUND
                    },
            decreases w - x,
        {
            proof {
                lemma_cell_index(w as int, h as int, x as int, y as int);
            }
            let on = match spans[x] {
                None => false,
                Some((y0, y1)) => {
                    let (lo, hi) = clamp_range(y0, y1, h);
                    lo <= y && y <= hi
                },
            };
            pixels.push(
                if on {
                    PAINTED
                } else {
                    BACKGROUND
                },
            );
            x = x + 1;
        }
        proof {
            lemma_next_row(w as int, y as int);
        }
        y = y + 1;
    }
    assert(y * w == w * h) by (nonlinear_arith)
        requires
            y == h,
    ;
    pixels
}

/// Chunk `b` of a pyramid over `n` samples starts before the end of the
/// samples, and every chunk before it is full.
proof fn lemma_chunk_bounds(n: int, b: int)
    requires
        0 <= b < chunk_count(n),
    ensures
        b * CHUNK_SIZE < n,
        b * CHUNK_SIZE < chunk_end(n, b) <= n,
{
    assert(b * 128 < n) by (nonlinear_arith)
        requires
            0 <= b < (n + 127) / 128,
    ;
}

/// The chunk pairs `a..=b` of a pyramid summarise exactly the samples that
/// those chunks cover, from `a * CHUNK_SIZE` to the end of chunk `b`.
pub proof fn lemma_chunk_range_span(keys: Seq<u32>, chunks: Seq<(u32, u32)>, a: int, b: int)
    requires
        is_pyramid(keys, chunks),
        0 <= a <= b < chunks.len(),
    ensures
        chunks_span(chunks.subrange(a, b + 1)) == span_of(
            keys.subrange(a * CHUNK_SIZE, chunk_end(keys.len() as int, b)),
        ),
    decreases b - a,
{
    let n = keys.len() as int;
    lemma_chunk_bounds(n, b);
    lemma_chunk_bounds(n, a);
    assert(Some(chunks[b]) == span_of(chunk_keys(keys, b)));
    assert(chunks.subrange(a, b + 1).last() == chunks[b]);
    if b == a {
        assert(chunks.subrange(a, b + 1).drop_last() =~= chunks.subrange(a, a));
        assert(chunks_span(chunks.subrange(a, a)) == None::<(u32, u32)>);
    } else {
        lemma_chunk_range_span(keys, chunks, a, b - 1);
        assert(chunks.subrange(a, b + 1).drop_last() =~= chunks.subrange(a, b));
        assert(chunk_end(n, b - 1) == b * CHUNK_SIZE);
        assert(keys.subrange(a * CHUNK_SIZE, chunk_end(n, b)) =~= keys.subrange(
            a * CHUNK_SIZE,
            b * CHUNK_SIZE,
        ) + chunk_keys(keys, b));
        lemma_span_concat(keys.subrange(a * CHUNK_SIZE, b * CHUNK_SIZE), chunk_keys(keys, b));
    }
}

/// The zoomed-out path agrees with the zoomed-in one: the span that a column
/// gets from its clamped chunk range is the span that the zoomed-in path
/// gives for the samples those chunks cover.
pub proof fn lemma_zoom_paths_agree(r: WaveformRenderer, start: usize, end: usize)
    requires
        r.wf(),
    ensures
        ({
            let n = r.chunks().len() as int;
            let a = clamp_lo(start as int, n);
            let b = clamp_hi(start as int, end as int, n);
            let first = a * CHUNK_SIZE;
            let last = chunk_end(r.keys().len() as int, b) - 1;
            column_span(r.keys(), r.chunks(), true, (start, end)) == column_span(
                r.keys(),
                r.chunks(),
                false,
                (first as usize, last as usize),
            ) && column_span(r.keys(), r.chunks(), true, (start, end)) == span_of(
                r.keys().subrange(first, last + 1),
            )
        }),
{
    let keys = r.keys();
    let chunks = r.chunks();
    let n = chunks.len() as int;
    assert(n > 0) by {
        assert(chunk_count(keys.len() as int) > 0);
    }
    let a = clamp_lo(start as int, n);
    let b = clamp_hi(start as int, end as int, n);
    lemma_chunk_bounds(keys.len() as int, a);
    lemma_chunk_bounds(keys.len() as int, b);
    lemma_chunk_range_span(keys, chunks, a, b);
    let first = a * CHUNK_SIZE;
    let last = chunk_end(keys.len() as int, b) - 1;
    assert(first <= last < keys.len());
    assert(clamp_lo(first, keys.len() as int) == first);
    assert(clamp_hi(first, last, keys.len() as int) == last);
}

/// The waveform plot of `paint_columns` as image bytes: four bytes per
/// cell, all `0xff` for a painted cell and all `0` for the background.
pub fn paint_columns_bytes(width: u32, height: u32, spans: &Vec<Option<(usize, usize)>>) -> (r: Vec<
    u8,
>)
    requires
        height > 1,
        spans@.len() == width,
        width * height <= usize::MAX,
    ensures
        r@.len() == 4 * (width * height),
        forall|k: int, j: int|
            0 <= k < width * height && 0 <= j < 4 ==> #[trigger] r@[4 * k + j] == if painted(
                spans@[k % width as int],
                k / width as int,
                height as int,
            ) {
                0xffu8
            } else {
                0u8
            },
{
    let pixels = paint_columns(width, height, spans);
    let bytes = cast_to_bytes(pixels.as_slice());
    proof {
        let p = pixels@;
        let b = bytes@;
        assert forall|k: int, j: int| 0 <= k < p.len() && 0 <= j < 4 implies #[trigger] b[4 * k
            + j] == if p[k] == PAINTED {
            0xffu8
        } else {
            0u8
        } by {
            assert(p[k] == PAINTED || p[k] == BACKGROUND);
            assert(byte_of(p[k], j) == byte_of(p[k], 3 - j));
            if in_byte_order(p, b, true) {
                assert(b[4 * k + j] == byte_of(p[k], j));
            } else {
                assert(b[4 * k + (3 - (3 - j))] == byte_of(p[k], 3 - j));
            }
        }
    }
    bytes
}

} // verus!
