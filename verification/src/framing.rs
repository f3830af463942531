//! Splitting a signal into overlapping frames.

use vstd::prelude::*;
use vstd::arithmetic::div_mod::*;
use vstd::arithmetic::mul::*;

verus! {

/// Number of frames of length `flen`, `hop` samples apart, cut from a signal of
/// `len` samples: `ceil((len - flen + hop) / hop)`. The count is one when
/// `len - flen + hop` is negative, zero when it is zero, and has no finite
/// value when it is positive and `hop` is zero.
pub open spec fn frame_count_spec(len: int, flen: int, hop: int) -> Option<int> {
    let num = len + hop - flen;
    if num < 0 {
        Some(1)
    } else if num == 0 {
        Some(0)
    } else if hop == 0 {
        None
    } else {
        Some((num + hop - 1) / hop)
    }
}

/// The frame count as a `u32`, or nothing where it has no finite value or
/// exceeds `u32::MAX`.
pub open spec fn frame_count_u32(len: int, flen: int, hop: int) -> Option<u32> {
    match frame_count_spec(len, flen, hop) {
        Some(n) => if n <= u32::MAX {
            Some(n as u32)
        } else {
            None
        },
        None => None,
    }
}

/// Counts the frames of a signal of `signal_len` samples; `None` where the
/// count has no finite value or does not fit a `u32`.
pub fn frame_count(signal_len: usize, frame_len: u32, frame_hop: u32) -> (r: Option<u32>)
    ensures
        r == frame_count_u32(signal_len as int, frame_len as int, frame_hop as int),
        signal_len + frame_hop < frame_len ==> r == Some(1u32),
        signal_len + frame_hop == frame_len ==> r == Some(0u32),
        signal_len + frame_hop > frame_len && frame_hop == 0 ==> r is None,
        r is Some && signal_len + frame_hop > frame_len ==> ((r->0 - 1) * frame_hop < signal_len
            + frame_hop - frame_len <= r->0 * frame_hop),
{
    proof {
        if signal_len + frame_hop > frame_len && frame_hop > 0 {
            lemma_frame_count_is_ceiling(signal_len as int, frame_len as int, frame_hop as int);
        }
    }
    let total: u128 = signal_len as u128 + frame_hop as u128;
    let flen: u128 = frame_len as u128;
    if total < flen {
        Some(1)
    } else if total == flen {
        Some(0)
    } else if frame_hop == 0 {
        None
    } else {
        let hop: u128 = frame_hop as u128;
        let n: u128 = (total - flen + hop - 1) / hop;
        if n > 0xffff_ffffu128 {
            None
        } else {
            Some(n as u32)
        }
    }
}

/// Sample `c` of frame `r`: the signal's sample `r * hop + c` where there is
/// one, `fill` past the end of the signal.
pub open spec fn frame_sample<T>(signal: Seq<T>, hop: int, r: int, c: int, fill: T) -> T {
    if r * hop + c < signal.len() {
        signal[r * hop + c]
    } else {
        fill
    }
}

/// Cuts `n_frames` frames of `frame_len` samples, `frame_hop` samples apart,
/// from `signal`; a frame that runs past the end of the signal is completed
/// with `fill`.
pub fn frame_signal<T: Copy>(
    signal: &[T],
    frame_len: usize,
    frame_hop: usize,
    n_frames: usize,
    fill: T,
) -> (frames: Vec<Vec<T>>)
    requires
        n_frames * frame_hop <= usize::MAX,
        n_frames > 0 ==> (n_frames - 1) * frame_hop + frame_len <= usize::MAX,
    ensures
        frames@.len() == n_frames,
        forall|r: int| 0 <= r < n_frames ==> (#[trigger] frames@[r])@.len() == frame_len,
        forall|r: int, c: int|
            0 <= r < n_frames && 0 <= c < frame_len ==> #[trigger] frames@[r]@[c] == frame_sample(
                signal@,
                frame_hop as int,
                r,
                c,
                fill,
            ),
        forall|r: int, c: int|
            0 <= r < n_frames && 0 <= c < frame_len && r * frame_hop + c < signal@.len()
                ==> #[trigger] frames@[r]@[c] == signal@[r * frame_hop + c],
        forall|r: int, c: int|
            0 <= r < n_frames && 0 <= c < frame_len && r * frame_hop + c >= signal@.len()
                ==> #[trigger] frames@[r]@[c] == fill,
{
    let len = signal.len();
    let mut frames: Vec<Vec<T>> = Vec::new();
    let mut start: usize = 0;
    let mut row: usize = 0;
    while row < n_frames
        invariant
            row <= n_frames,
            len == signal@.len(),
            start == row * frame_hop,
            n_frames * frame_hop <= usize::MAX,
            n_frames > 0 ==> (n_frames - 1) * frame_hop + frame_len <= usize::MAX,
            frames@.len() == row,
            forall|r: int| 0 <= r < row ==> (#[trigger] frames@[r])@.len() == frame_len,
            forall|r: int, c: int|
                0 <= r < row && 0 <= c < frame_len ==> #[trigger] frames@[r]@[c] == frame_sample(
                    signal@,
                    frame_hop as int,
                    r,
                    c,
                    fill,
                ),
        decreases n_frames - row,
    {
        proof {
            lemma_mul_inequality(row as int, n_frames as int - 1, frame_hop as int);
            lemma_mul_inequality(row as int + 1, n_frames as int, frame_hop as int);
            lemma_mul_is_distributive_add_other_way(frame_hop as int, row as int, 1);
        }
        let mut frame: Vec<T> = Vec::new();
        let mut col: usize = 0;
        while col < frame_len
            invariant
                col <= frame_len,
                len == signal@.len(),
                start == row * frame_hop,
                start + frame_len <= usize::MAX,
                frame@.len() == col,
                forall|c: int|
                    0 <= c < col ==> #[trigger] frame@[c] == frame_sample(
                        signal@,
                        frame_hop as int,
                        row as int,
                        c,
                        fill,
                    ),
            decreases frame_len - col,
        {
            if start + col < len {
                frame.push(signal[start + col]);
            } else {
                frame.push(fill);
            }
            col = col + 1;
        }
        frames.push(frame);
        start = start + frame_hop;
        row = row + 1;
    }
    frames
}

/// Every sample of the signal lies in at least one frame when the frames do
/// not leave gaps (`0 < hop <= flen`) and the frame count is not zero.
pub proof fn lemma_frames_cover_signal(len: int, flen: int, hop: int, i: int)
    requires
        0 < hop <= flen,
        0 <= i < len,
        len + hop != flen,
    ensures
        frame_count_spec(len, flen, hop) is Some,
        exists|r: int|
            0 <= r < frame_count_spec(len, flen, hop)->0 && #[trigger] (r * hop) <= i < r * hop
                + flen,
{
    let num = len + hop - flen;
    if num < 0 {
        assert(0 * hop <= i < 0 * hop + flen);
    } else {
        let n = (num + hop - 1) / hop;
        lemma_fundamental_div_mod(num + hop - 1, hop);
        lemma_mod_bound(num + hop - 1, hop);
        lemma_fundamental_div_mod(i, hop);
        lemma_mod_bound(i, hop);
        let q = i / hop;
        assert(n * hop >= num) by (nonlinear_arith)
            requires
                num + hop - 1 == hop * n + (num + hop - 1) % hop,
                (num + hop - 1) % hop < hop,
        ;
        assert(n >= 1) by (nonlinear_arith)
            requires
                n * hop >= num,
                num > 0,
                hop > 0,
        ;
        if q < n {
            assert(q * hop <= i < q * hop + flen) by (nonlinear_arith)
                requires
                    i == hop * q + i % hop,
                    0 <= i % hop < hop,
                    hop <= flen,
            ;
        } else {
            let r = n - 1;
            assert(r * hop <= i) by (nonlinear_arith)
                requires
                    r < q,
                    hop > 0,
                    i == hop * q + i % hop,
                    0 <= i % hop,
            ;
            assert(i < r * hop + flen) by (nonlinear_arith)
                requires
                    r == n - 1,
                    n * hop >= num,
                    num == len + hop - flen,
                    i < len,
            ;
        }
    }
}


/// A positive frame count is the ceiling of `(len - flen + hop) / hop`: the
/// last frame starts before the end of the signal's frame positions and one
/// frame fewer would not reach it.
pub proof fn lemma_frame_count_is_ceiling(len: int, flen: int, hop: int)
    requires
        hop > 0,
        len + hop - flen > 0,
    ensures
        frame_count_spec(len, flen, hop) is Some,
        (frame_count_spec(len, flen, hop)->0 - 1) * hop < len + hop - flen,
        len + hop - flen <= frame_count_spec(len, flen, hop)->0 * hop,
        frame_count_spec(len, flen, hop)->0 >= 1,
{
    let num = len + hop - flen;
    let n = (num + hop - 1) / hop;
    lemma_fundamental_div_mod(num + hop - 1, hop);
    lemma_mod_bound(num + hop - 1, hop);
    assert(n * hop >= num && (n - 1) * hop < num) by (nonlinear_arith)
        requires
            num + hop - 1 == hop * n + (num + hop - 1) % hop,
            0 <= (num + hop - 1) % hop < hop,
    ;
    assert(n >= 1) by (nonlinear_arith)
        requires
            n * hop >= num,
            num > 0,
            hop > 0,
    ;
}

/// Sample `c` of frame `r` is the signal's sample `r * hop + c` wherever that
/// index lies inside the signal, however long the signal; the frames past it
/// hold `fill`. Frame `r + 1` is frame `r` shifted by `hop` samples.
pub proof fn lemma_frame_sample_reads_signal<T>(signal: Seq<T>, hop: int, r: int, c: int, fill: T)
    requires
        0 <= hop,
        0 <= r,
        0 <= c,
    ensures
        r * hop + c < signal.len() ==> frame_sample(signal, hop, r, c, fill) == signal[r * hop + c],
        r * hop + c >= signal.len() ==> frame_sample(signal, hop, r, c, fill) == fill,
        frame_sample(signal, hop, r + 1, c, fill) == frame_sample(signal, hop, r, c + hop, fill),
{
    assert((r + 1) * hop + c == r * hop + (c + hop)) by (nonlinear_arith);
}

} // verus!
