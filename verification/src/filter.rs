//! Tap counts of the rational (IIR/FIR) filter
//! `a[0] y[i] = sum_j b[j] x[i - j] - sum_{j >= 1} a[j] y[i - j]`.

use vstd::prelude::*;

verus! {

/// For output sample `i`, the number of feed-forward taps `min(nb, i + 1)`
/// (terms `b[j] * x[i - j]`) and of feedback taps `min(na, i)` (terms
/// `a[j + 1] * y[i - 1 - j]`), where `na` counts the feedback coefficients
/// after `a[0]`.
pub open spec fn filter_taps_spec(i: int, nb: int, na: int) -> (int, int) {
    (if nb <= i + 1 {
        nb
    } else {
        i + 1
    }, if na <= i {
        na
    } else {
        i
    })
}

/// Tap counts of output sample `i` of a filter with `nb` feed-forward and
/// `na` feedback coefficients (after `a[0]`).
pub fn filter_taps(i: usize, nb: usize, na: usize) -> (taps: (usize, usize))
    requires
        i < usize::MAX,
    ensures
        (taps.0 as int, taps.1 as int) == filter_taps_spec(i as int, nb as int, na as int),
        taps.0 <= nb && taps.0 <= i + 1 && (taps.0 == nb || taps.0 == i + 1),
        taps.1 <= na && taps.1 <= i && (taps.1 == na || taps.1 == i),
{
    let b_len = if nb <= i + 1 {
        nb
    } else {
        i + 1
    };
    let a_len = if na <= i {
        na
    } else {
        i
    };
    (b_len, a_len)
}

/// The taps of output `i` read only samples at or before `i` and outputs
/// strictly before `i`, never before the start of the signal, and use no
/// coefficient past the end of either list.
pub proof fn lemma_filter_taps_in_range(i: int, nb: int, na: int, j: int)
    requires
        0 <= i,
        0 <= nb,
        0 <= na,
        0 <= j,
    ensures
        j < filter_taps_spec(i, nb, na).0 ==> j < nb && 0 <= i - j <= i,
        j < filter_taps_spec(i, nb, na).1 ==> j < na && 0 <= i - 1 - j < i,
{
}


/// The feed-forward tap count is `min(nb, i + 1)` and the feedback tap count
/// is `min(na, i)`: each depends only on its own coefficient list, so a
/// longer or shorter numerator never changes how many feedback terms are
/// used (and the other way round); once `i >= na` every feedback coefficient
/// `a[1..=na]` is used, once `i + 1 >= nb` every `b[j]` is.
pub proof fn lemma_filter_taps_are_minima(i: int, nb: int, na: int, nb2: int, na2: int)
    requires
        0 <= i,
        0 <= nb,
        0 <= na,
        0 <= nb2,
        0 <= na2,
    ensures
        filter_taps_spec(i, nb, na).0 <= nb,
        filter_taps_spec(i, nb, na).0 <= i + 1,
        filter_taps_spec(i, nb, na).0 == nb || filter_taps_spec(i, nb, na).0 == i + 1,
        filter_taps_spec(i, nb, na).1 <= na,
        filter_taps_spec(i, nb, na).1 <= i,
        filter_taps_spec(i, nb, na).1 == na || filter_taps_spec(i, nb, na).1 == i,
        filter_taps_spec(i, nb, na).1 == filter_taps_spec(i, nb2, na).1,
        filter_taps_spec(i, nb, na).0 == filter_taps_spec(i, nb, na2).0,
        i >= na ==> filter_taps_spec(i, nb, na).1 == na,
        i + 1 >= nb ==> filter_taps_spec(i, nb, na).0 == nb,
{
}

} // verus!
