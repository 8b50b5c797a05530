//! Sizes and bin selection for downsampling by spectral truncation.
//!
//! A buffer of `n` samples is transformed once at the next power of two at or
//! above `n`. A lower-rate copy keeps the low `1/d` of the spectrum (with the
//! Nyquist bin cleared), is transformed back at `1/d` of the size, and is cut
//! or padded to `ceil((n + 1) / d)` samples.

use vstd::prelude::*;
use vstd::arithmetic::power2::{pow2, lemma_pow2_unfold, lemma_pow2_pos};

verus! {

/// `p` is a power of two.
pub open spec fn is_power_of_two(p: int) -> bool {
    exists|e: nat| pow2(e) == p
}

/// The smallest power of two that is at least `n`: the transform size for a
/// buffer of `n` samples.
pub fn fft_size_for(n: usize) -> (r: usize)
    requires
        n <= usize::MAX / 2 + 1,
    ensures
        is_power_of_two(r as int),
        n <= r,
        r == 1 || r / 2 < n,
{
    let mut p: usize = 1;
    let ghost mut e: nat = 0;
    proof {
        assert(pow2(0) == 1) by {
            vstd::arithmetic::power2::lemma2_to64();
        }
    }
    while p < n
        invariant
            n <= usize::MAX / 2 + 1,
            pow2(e) == p,
            p >= 1,
            p == 1 || p / 2 < n,
        decreases usize::MAX - p,
    {
        proof {
            lemma_pow2_unfold(e + 1);
        }
        p = p * 2;
        proof {
            e = e + 1;
        }
    }
    p
}

/// Number of bins kept for a copy at `1/divisor` of the rate, out of a
/// spectrum of `spectrum_len` bins: the bins strictly below the new Nyquist
/// frequency.
pub open spec fn spec_band_len(spectrum_len: int, divisor: int) -> int {
    (spectrum_len - 1) / divisor
}

/// Input of the inverse transform for a copy at `1/divisor` of the rate: the
/// low `(spectrum.len() - 1) / divisor` bins of `spectrum`, then one `zero`
/// bin in place of the new Nyquist bin.
pub fn low_band<T: Copy>(spectrum: &[T], divisor: usize, zero: T) -> (r: Vec<T>)
    requires
        spectrum@.len() >= 1,
        divisor > 0,
    ensures
        r@ == spectrum@.subrange(0, spec_band_len(spectrum@.len() as int, divisor as int)).push(
            zero,
        ),
{
    let bins = (spectrum.len() - 1) / divisor;
    let mut band: Vec<T> = Vec::new();
    let mut i: usize = 0;
    while i < bins
        invariant
            bins == spec_band_len(spectrum@.len() as int, divisor as int),
            bins <= spectrum@.len(),
            i <= bins,
            band@ == spectrum@.subrange(0, i as int),
        decreases bins - i,
    {
        band.push(spectrum[i]);
        i = i + 1;
        assert(band@ =~= spectrum@.subrange(0, i as int));
    }
    band.push(zero);
    band
}

/// Length of the copy at `1/divisor` of the rate of a buffer of `n`
/// samples: `ceil((n + 1) / divisor)`.
pub open spec fn spec_downsampled_len(n: int, divisor: int) -> int {
    (n + divisor) / divisor
}

/// Length of the copy at `1/divisor` of the rate of a buffer of `n`
/// samples, `ceil((n + 1) / divisor)`.
pub fn downsampled_len(n: usize, divisor: usize) -> (r: usize)
    requires
        divisor > 0,
        n + divisor <= usize::MAX,
    ensures
        r == spec_downsampled_len(n as int, divisor as int),
        (r - 1) * divisor < n + 1 <= r * divisor,
{
    let r = (n + divisor) / divisor;
    proof {
        let (ri, di, ni) = (r as int, divisor as int, n as int);
        assert((ri - 1) * di < ni + 1 <= ri * di) by (nonlinear_arith)
            requires
                di > 0,
                ri == (ni + di) / di,
                ni >= 0,
        ;
    }
    r
}

/// The first `out_len` values of `values`, padded with `zero` where
/// `values` is shorter.
pub fn fit_len<T: Copy>(values: &[T], out_len: usize, zero: T) -> (r: Vec<T>)
    ensures
        r@.len() == out_len,
        forall|i: int|
            0 <= i < out_len ==> #[trigger] r@[i] == if i < values@.len() {
                values@[i]
            } else {
                zero
            },
{
    let mut out: Vec<T> = Vec::new();
    let mut i: usize = 0;
    while i < out_len
        invariant
            i <= out_len,
            out@.len() == i,
            forall|k: int|
                0 <= k < i ==> #[trigger] out@[k] == if k < values@.len() {
                    values@[k]
                } else {
                    zero
                },
        decreases out_len - i,
    {
        if i < values.len() {
            out.push(values[i]);
        } else {
            out.push(zero);
        }
        i = i + 1;
    }
    out
}

/// The lower-rate copy of a buffer of `n` samples, from the output of its
/// inverse transform: `ceil((n + 1) / divisor)` samples, the transform's
/// output first and `zero` past its end.
pub fn fit_downsampled<T: Copy>(values: &[T], n: usize, divisor: usize, zero: T) -> (r: Vec<T>)
    requires
        divisor > 0,
        n + divisor <= usize::MAX,
    ensures
        (r@.len() - 1) * divisor < n + 1 <= r@.len() * divisor,
        forall|i: int|
            0 <= i < r@.len() ==> #[trigger] r@[i] == if i < values@.len() {
                values@[i]
            } else {
                zero
            },
{
    fit_len(values, downsampled_len(n, divisor), zero)
}

} // verus!
