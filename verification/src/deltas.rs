//! Integer structure of the delta (time-derivative) coefficients: the
//! normalising constant and the edge-replicated neighbour frames.
//!
//! `delta[f] = (sum_{k=1..h} k * (ceps[next(f, k)] - ceps[prev(f, k)])) / norm(h)`
//! with `h = win / 2`.

use vstd::prelude::*;

verus! {

/// `sum_{k=1..h} k^2`.
pub open spec fn sum_of_squares(h: nat) -> nat
    decreases h,
{
    if h == 0 {
        0
    } else {
        sum_of_squares((h - 1) as nat) + h * h
    }
}

/// The normalising constant of the delta coefficients: `2 * sum_{k=1..h} k^2`.
pub open spec fn delta_norm_spec(h: nat) -> nat {
    2 * sum_of_squares(h)
}

/// Computes `2 * sum_{k=1..h} k^2`. Each `k * k` is a `usize` product, so
/// `h * h` must fit a `usize`.
pub fn delta_norm(h: usize) -> (norm: u128)
    requires
        h * h <= usize::MAX,
    ensures
        norm == delta_norm_spec(h as nat),
{
    assert(h <= 0x1_0000_0000) by (nonlinear_arith)
        requires
            h * h <= usize::MAX,
            usize::MAX <= 0xffff_ffff_ffff_ffffu64,
    ;
    let mut sum: u128 = 0;
    let mut k: usize = 0;
    while k < h
        invariant
            k <= h,
            h <= 0x1_0000_0000,
            h * h <= usize::MAX,
            sum == sum_of_squares(k as nat),
            sum <= k * k * k,
        decreases h - k,
    {
        k = k + 1;
        assert(k * k <= h * h) by (nonlinear_arith)
            requires
                k <= h,
        ;
        let sq: usize = k * k;
        assert(sum + sq <= k * k * k) by (nonlinear_arith)
            requires
                sum <= (k - 1) * (k - 1) * (k - 1),
                sq == k * k,
                k >= 1,
        ;
        assert(k * k * k <= 0x1_0000_0000 * 0x1_0000_0000 * 0x1_0000_0000) by (nonlinear_arith)
            requires
                k <= 0x1_0000_0000,
        ;
        sum = sum + sq as u128;
    }
    assert(h * h * h <= 0x1_0000_0000 * 0x1_0000_0000 * 0x1_0000_0000) by (nonlinear_arith)
        requires
            h <= 0x1_0000_0000,
    ;
    2 * sum
}

/// The normalising constant has the closed form `h (h + 1) (2h + 1) / 3`.
pub proof fn lemma_delta_norm_closed_form(h: nat)
    ensures
        3 * delta_norm_spec(h) == h * (h + 1) * (2 * h + 1),
        delta_norm_spec(h) == h * (h + 1) * (2 * h + 1) / 3,
{
    lemma_sum_of_squares(h);
    let p = h * (h + 1) * (2 * h + 1);
    assert(p / 3 == delta_norm_spec(h)) by (nonlinear_arith)
        requires
            3 * delta_norm_spec(h) == p,
    ;
}

proof fn lemma_sum_of_squares(h: nat)
    ensures
        6 * sum_of_squares(h) == h * (h + 1) * (2 * h + 1),
    decreases h,
{
    if h == 0 {
        assert(sum_of_squares(0) == 0);
    } else {
        lemma_sum_of_squares((h - 1) as nat);
        assert(6 * sum_of_squares(h) == h * (h + 1) * (2 * h + 1)) by (nonlinear_arith)
            requires
                6 * sum_of_squares((h - 1) as nat) == (h - 1) * h * (2 * h - 1),
                sum_of_squares(h) == sum_of_squares((h - 1) as nat) + h * h,
        ;
    }
}


/// The frame `k` before frame `f`, clamped to the first frame.
pub open spec fn prev_frame(f: int, k: int) -> int {
    if f >= k {
        f - k
    } else {
        0
    }
}

/// The frame `k` after frame `f`, clamped to the last of `n` frames.
pub open spec fn next_frame(n: int, f: int, k: int) -> int {
    if f + k <= n - 1 {
        f + k
    } else {
        n - 1
    }
}

/// The pair of frames `(prev, next)` whose difference, weighted by `k`, frame
/// `f` of `n_frames` receives: `k` frames away on each side, the edge frames
/// standing in for frames past either end.
pub fn neighbour_frames(n_frames: usize, f: usize, k: usize) -> (r: (usize, usize))
    requires
        n_frames > 0,
        f + k <= usize::MAX,
    ensures
        r.0 == prev_frame(f as int, k as int),
        r.1 == next_frame(n_frames as int, f as int, k as int),
        f < n_frames ==> r.0 <= f <= r.1 < n_frames,
        f >= k ==> r.0 == f - k,
        f < k ==> r.0 == 0,
        f + k <= n_frames - 1 ==> r.1 == f + k,
        f + k > n_frames - 1 ==> r.1 == n_frames - 1,
{
    let prev = if f >= k {
        f - k
    } else {
        0
    };
    let next = if f + k <= n_frames - 1 {
        f + k
    } else {
        n_frames - 1
    };
    (prev, next)
}

/// `sum_{k=1..h} k * (next(f, k) - prev(f, k))`: the numerator of the delta of
/// frame `f` when every coefficient of frame `g` equals `g` (a linear ramp).
pub open spec fn ramp_numerator(n: int, f: int, h: nat) -> int
    decreases h,
{
    if h == 0 {
        0
    } else {
        ramp_numerator(n, f, (h - 1) as nat) + h * (next_frame(n, f, h as int) - prev_frame(
            f,
            h as int,
        ))
    }
}

/// Away from the edges (`h <= f` and `f + h < n`), the delta of a linear ramp
/// is exactly one: its numerator equals the normalising constant.
pub proof fn lemma_ramp_delta_is_one(n: int, f: int, h: nat)
    requires
        h <= f,
        f + h < n,
    ensures
        ramp_numerator(n, f, h) == delta_norm_spec(h),
    decreases h,
{
    if h > 0 {
        lemma_ramp_delta_is_one(n, f, (h - 1) as nat);
        assert(next_frame(n, f, h as int) - prev_frame(f, h as int) == 2 * h);
        assert(h * (2 * h) == 2 * (h * h)) by (nonlinear_arith);
    }
}


/// Edge replication: the neighbour `k` frames later is frame `f + k` where
/// that frame exists and the last frame `n - 1` where it does not, so it is
/// the nearest existing frame to `f + k`; likewise the neighbour `k` frames
/// earlier is `f - k`, or the first frame. Between them they span `2k` frames
/// exactly when both exist.
pub proof fn lemma_neighbours_replicate_edges(n: int, f: int, k: int)
    requires
        n > 0,
        0 <= f < n,
        0 <= k,
    ensures
        f + k > n - 1 ==> next_frame(n, f, k) == n - 1,
        f + k <= n - 1 ==> next_frame(n, f, k) == f + k,
        0 <= next_frame(n, f, k) <= n - 1,
        next_frame(n, f, k) <= f + k,
        forall|g: int| 0 <= g < n ==> #[trigger] (f + k - g) * (f + k - g) >= (f + k - next_frame(
            n,
            f,
            k,
        )) * (f + k - next_frame(n, f, k)),
        f - k < 0 ==> prev_frame(f, k) == 0,
        f - k >= 0 ==> prev_frame(f, k) == f - k,
        0 <= prev_frame(f, k) <= f,
        (f - k >= 0 && f + k <= n - 1) <==> next_frame(n, f, k) - prev_frame(f, k) == 2 * k,
{
    let nx = next_frame(n, f, k);
    assert forall|g: int| 0 <= g < n implies #[trigger] (f + k - g) * (f + k - g) >= (f + k - nx)
        * (f + k - nx) by {
        if f + k <= n - 1 {
            assert(f + k - nx == 0);
            assert((f + k - g) * (f + k - g) >= 0) by (nonlinear_arith);
            assert((f + k - nx) * (f + k - nx) == 0);
        } else {
            assert((f + k - g) * (f + k - g) >= (f + k - nx) * (f + k - nx)) by (nonlinear_arith)
                requires
                    nx == n - 1,
                    g <= n - 1,
                    f + k > n - 1,
            ;
        }
    }
}

} // verus!
