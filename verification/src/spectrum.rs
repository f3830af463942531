//! Shapes of the short-time spectrum: zero-padding frames to the FFT length
//! and keeping the leading columns of a matrix.

use vstd::prelude::*;
use crate::dct::is_matrix;

verus! {

/// Number of non-negative frequency bins of an `nfft`-point transform of a
/// real signal: `nfft / 2 + 1`.
pub open spec fn bin_count_spec(nfft: nat) -> nat {
    nfft / 2 + 1
}

/// Number of non-negative frequency bins of an `nfft`-point transform.
pub fn bin_count(nfft: usize) -> (bins: usize)
    ensures
        bins == bin_count_spec(nfft as nat),
        bins >= 1,
        2 * (bins - 1) <= nfft <= 2 * (bins - 1) + 1,
{
    nfft / 2 + 1
}

/// Pads every row of a `rows x cols` matrix with `zero` up to `nfft` entries.
pub fn zero_pad_rows<T: Copy>(frames: &Vec<Vec<T>>, cols: usize, nfft: usize, zero: T) -> (padded:
    Vec<Vec<T>>)
    requires
        is_matrix(frames@, cols as nat),
        frames@.len() > 0 ==> cols <= nfft,
    ensures
        padded@.len() == frames@.len(),
        is_matrix(padded@, nfft as nat),
        forall|i: int, j: int|
            0 <= i < frames@.len() && 0 <= j < nfft ==> #[trigger] padded@[i]@[j] == if j < cols {
                frames@[i]@[j]
            } else {
                zero
            },
{
    let rows = frames.len();
    let mut padded: Vec<Vec<T>> = Vec::new();
    let mut i: usize = 0;
    while i < rows
        invariant
            i <= rows,
            rows == frames@.len(),
            rows > 0 ==> cols <= nfft,
            is_matrix(frames@, cols as nat),
            padded@.len() == i,
            is_matrix(padded@, nfft as nat),
            forall|a: int, j: int|
                0 <= a < i && 0 <= j < nfft ==> #[trigger] padded@[a]@[j] == if j < cols {
                    frames@[a]@[j]
                } else {
                    zero
                },
        decreases rows - i,
    {
        let mut row: Vec<T> = Vec::new();
        let mut j: usize = 0;
        assert(frames@[i as int]@.len() == cols);
        while j < nfft
            invariant
                j <= nfft,
                i < rows,
                rows == frames@.len(),
                cols <= nfft,
                frames@[i as int]@.len() == cols,
                row@.len() == j,
                forall|b: int|
                    0 <= b < j ==> #[trigger] row@[b] == if b < cols {
                        frames@[i as int]@[b]
                    } else {
                        zero
                    },
            decreases nfft - j,
        {
            if j < cols {
                row.push(frames[i][j]);
            } else {
                row.push(zero);
            }
            j = j + 1;
        }
        padded.push(row);
        i = i + 1;
    }
    padded
}

/// Keeps the first `k` columns of a `rows x cols` matrix.
pub fn take_columns<T: Copy>(m: &Vec<Vec<T>>, cols: usize, k: usize) -> (out: Vec<Vec<T>>)
    requires
        is_matrix(m@, cols as nat),
        k <= cols,
    ensures
        out@.len() == m@.len(),
        is_matrix(out@, k as nat),
        forall|i: int| 0 <= i < m@.len() ==> #[trigger] out@[i]@ == m@[i]@.take(k as int),
{
    let rows = m.len();
    let mut out: Vec<Vec<T>> = Vec::new();
    let mut i: usize = 0;
    while i < rows
        invariant
            i <= rows,
            rows == m@.len(),
            k <= cols,
            is_matrix(m@, cols as nat),
            out@.len() == i,
            is_matrix(out@, k as nat),
            forall|a: int| 0 <= a < i ==> #[trigger] out@[a]@ == m@[a]@.take(k as int),
        decreases rows - i,
    {
        let mut row: Vec<T> = Vec::new();
        let mut j: usize = 0;
        assert(m@[i as int]@.len() == cols);
        while j < k
            invariant
                j <= k,
                k <= cols,
                i < rows,
                rows == m@.len(),
                m@[i as int]@.len() == cols,
                row@ == m@[i as int]@.take(j as int),
            decreases k - j,
        {
            row.push(m[i][j]);
            j = j + 1;
            assert(row@ =~= m@[i as int]@.take(j as int));
        }
        out.push(row);
        i = i + 1;
    }
    out
}


/// The bins run from 0 up to the Nyquist bin `nfft / 2` with no cap: twice
/// the highest bin index is `nfft` or `nfft - 1`, and a transform twice as
/// long has twice as many bins, less one.
pub proof fn lemma_bin_count_reaches_nyquist(nfft: nat)
    ensures
        bin_count_spec(nfft) >= 1,
        2 * (bin_count_spec(nfft) - 1) <= nfft <= 2 * (bin_count_spec(nfft) - 1) + 1,
        bin_count_spec(2 * nfft) == 2 * bin_count_spec(nfft) - 1 || bin_count_spec(2 * nfft) == 2
            * bin_count_spec(nfft),
        nfft % 2 == 0 ==> bin_count_spec(2 * nfft) == 2 * bin_count_spec(nfft) - 1,
        bin_count_spec(nfft + 2) == bin_count_spec(nfft) + 1,
{
}

} // verus!
