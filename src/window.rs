//! Windows of samples taken around a centre index.

use vstd::prelude::*;

verus! {

/// The sample that position `i` of a window of length `len` centred on
/// `center` reads: `data[center - len/2 + i]` when that index lies inside the
/// data, `zero` otherwise.
pub open spec fn window_sample<T>(center: int, data: Seq<T>, len: int, zero: T, i: int) -> T {
    let j = center - len / 2 + i;
    if 0 <= j < data.len() {
        data[j]
    } else {
        zero
    }
}

/// The whole window of length `len` centred on `center`, padded with `zero`
/// wherever it reaches past either end of the data.
pub open spec fn centered_window<T>(center: int, data: Seq<T>, len: int, zero: T) -> Seq<T> {
    Seq::new(len as nat, |i: int| window_sample(center, data, len, zero, i))
}

/// Fills `window_out` with the samples of `data` around `center`: position
/// `i` receives `data[center - len/2 + i]`, and positions that fall before
/// the start or past the end of `data` receive `zero`.
///
/// The output keeps its length; the overlap with the data is copied verbatim
/// and everything else is exactly `zero`.
pub fn copy_centered_window<T: Copy>(center: usize, data: &[T], window_out: &mut [T], zero: T)
    requires
        center < data@.len(),
    ensures
        final(window_out)@.len() == old(window_out)@.len(),
        final(window_out)@ == centered_window(
            center as int,
            data@,
            old(window_out)@.len() as int,
            zero,
        ),
{
    let len = window_out.len();
    let half = len / 2;
    let data_len = data.len();
    let mut i: usize = 0;
    while i < len
        invariant
            i <= len,
            half == len / 2,
            data_len == data@.len(),
            center < data_len,
            window_out@.len() == len,
            len == old(window_out)@.len(),
            forall|k: int|
                0 <= k < i ==> #[trigger] window_out@[k] == window_sample(
                    center as int,
                    data@,
                    len as int,
                    zero,
                    k,
                ),
        decreases len - i,
    {
        let value = if center >= half {
            // window starts inside the data
            let start = center - half;
            if i < data_len - start {
                data[start + i]
            } else {
                zero
            }
        } else {
            // window starts before the data
            let lead = half - center;
            if i >= lead && i - lead < data_len {
                data[i - lead]
            } else {
                zero
            }
        };
        window_out[i] = value;
        i = i + 1;
    }
    assert(window_out@ =~= centered_window(center as int, data@, len as int, zero));
}

} // verus!
