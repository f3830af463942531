//! Index logic of medium-time processing: the zero-padded window of the
//! medium-time power and the channel window of spectral weight smoothing.

use vstd::prelude::*;
use crate::dct::is_matrix;

verus! {

/// Row `r` of the matrix `x` padded with `m` rows of `zero` above and below.
pub open spec fn padded_row<T>(x: Seq<Vec<T>>, m: int, r: int, c: int, zero: T) -> T {
    if m <= r < x.len() + m {
        x[r - m]@[c]
    } else {
        zero
    }
}

/// Pads a `rows x cols` matrix with `m` rows of `zero` above and `m` below,
/// so that the window `padded[i .. i + 2m]` of `2m + 1` rows is centred on
/// row `i` of the input.
pub fn pad_rows<T: Copy>(x: &Vec<Vec<T>>, cols: usize, m: usize, zero: T) -> (padded: Vec<Vec<T>>)
    requires
        is_matrix(x@, cols as nat),
        x@.len() + 2 * m <= usize::MAX,
    ensures
        padded@.len() == x@.len() + 2 * m,
        is_matrix(padded@, cols as nat),
        forall|r: int, c: int|
            0 <= r < padded@.len() && 0 <= c < cols ==> #[trigger] padded@[r]@[c] == padded_row(
                x@,
                m as int,
                r,
                c,
                zero,
            ),
        forall|i: int, c: int|
            0 <= i < x@.len() && 0 <= c < cols ==> #[trigger] padded@[i + m]@[c] == x@[i]@[c],
        forall|r: int, c: int|
            0 <= r < padded@.len() && 0 <= c < cols && (r < m || r >= x@.len() + m)
                ==> #[trigger] padded@[r]@[c] == zero,
{
    let rows = x.len();
    let total = rows + 2 * m;
    let mut padded: Vec<Vec<T>> = Vec::new();
    let mut r: usize = 0;
    while r < total
        invariant
            r <= total,
            total == rows + 2 * m,
            rows == x@.len(),
            is_matrix(x@, cols as nat),
            padded@.len() == r,
            is_matrix(padded@, cols as nat),
            forall|a: int, c: int|
                0 <= a < r && 0 <= c < cols ==> #[trigger] padded@[a]@[c] == padded_row(
                    x@,
                    m as int,
                    a,
                    c,
                    zero,
                ),
        decreases total - r,
    {
        let mut row: Vec<T> = Vec::new();
        let inside = m <= r && r - m < rows;
        if inside {
            assert(x@[r - m]@.len() == cols);
        }
        let mut c: usize = 0;
        while c < cols
            invariant
                c <= cols,
                r < total,
                total == rows + 2 * m,
                rows == x@.len(),
                inside == (m <= r && r - m < rows),
                inside ==> x@[r - m]@.len() == cols,
                row@.len() == c,
                forall|b: int|
                    0 <= b < c ==> #[trigger] row@[b] == padded_row(x@, m as int, r as int, b, zero),
            decreases cols - c,
        {
            if inside {
                row.push(x[r - m][c]);
            } else {
                row.push(zero);
            }
            c = c + 1;
        }
        padded.push(row);
        r = r + 1;
    }
    padded
}

/// The window of the medium-time power centred on row `i` (padded rows
/// `i ..= i + 2m`) reads input row `i + k - m` where that row exists and
/// `zero` elsewhere: it spans input rows `max(0, i - m) ..= min(rows - 1, i + m)`.
pub proof fn lemma_window_reads_neighbours<T>(x: Seq<Vec<T>>, m: int, i: int, k: int, c: int, zero: T)
    requires
        m >= 0,
        0 <= i < x.len(),
        0 <= k <= 2 * m,
    ensures
        padded_row(x, m, i + k, c, zero) == if 0 <= i + k - m < x.len() {
            x[i + k - m]@[c]
        } else {
            zero
        },
{
}

/// Number of rows averaged by the medium-time power: `2m + 1`.
pub fn window_length(m: usize) -> (len: usize)
    requires
        2 * m + 1 <= usize::MAX,
    ensures
        len == 2 * m + 1,
{
    2 * m + 1
}

/// The channels that weight smoothing averages for channel `l`: channels
/// `lo .. hi` (end excluded), that is `max(l - n, 0) ..= min(l + n, n_filts - 1)`,
/// and their number, the divisor of the average (zero when the range is empty).
pub open spec fn smoothing_bounds(l: int, n: int, n_filts: int) -> (int, int, int) {
    let lo = if l >= n {
        l - n
    } else {
        0
    };
    let hi = if l + n + 1 <= n_filts {
        l + n + 1
    } else {
        n_filts
    };
    (lo, hi, if lo < hi {
        hi - lo
    } else {
        0
    })
}

/// Channel range `lo .. hi` (end excluded) and number of channels averaged
/// by weight smoothing for channel `l`, with `n` channels on each side, out
/// of `n_filts` channels.
pub fn smoothing_window(l: usize, n: usize, n_filts: usize) -> (w: (usize, usize, usize))
    requires
        l + n < usize::MAX,
    ensures
        (w.0 as int, w.1 as int, w.2 as int) == smoothing_bounds(l as int, n as int, n_filts as int),
{
    let lo = if l >= n {
        l - n
    } else {
        0
    };
    let hi = if l + n + 1 <= n_filts {
        l + n + 1
    } else {
        n_filts
    };
    let count = if lo < hi {
        hi - lo
    } else {
        0
    };
    (lo, hi, count)
}

/// For a channel `l < n_filts`, weight smoothing averages exactly the
/// channels within distance `n` of `l` that exist: the range holds channel
/// `l`, lies inside the channels, runs from `max(l - n, 0)` to
/// `min(l + n, n_filts - 1)` inclusive, and the divisor is the number of
/// channels in it, between one and `2n + 1`.
pub proof fn lemma_smoothing_window_average(l: int, n: int, n_filts: int)
    requires
        0 <= l < n_filts,
        0 <= n,
    ensures
        ({
            let (lo, hi, count) = smoothing_bounds(l, n, n_filts);
            &&& 0 <= lo <= l < hi <= n_filts
            &&& lo == (if l >= n {
                l - n
            } else {
                0
            })
            &&& hi - 1 == (if l + n <= n_filts - 1 {
                l + n
            } else {
                n_filts - 1
            })
            &&& count == hi - lo
            &&& 1 <= count <= 2 * n + 1
        }),
{
}

} // verus!
