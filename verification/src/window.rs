//! Window functions applied to each frame.

use vstd::prelude::*;

verus! {

/// The window that each frame is multiplied by.
#[derive(Debug, Clone, Copy, PartialEq, Eq, Structural)]
pub enum WindowType {
    /// Every coefficient is zero.
    Zero,
    /// `0.5 * (1 - cos(2 pi i / (n - 1)))`.
    Hann,
    /// `0.54 - 0.46 * cos(2 pi i / (n - 1))`.
    Hamming,
    /// `0.42 - 0.5 * cos(x) + 0.08 * cos(2x)` with `x = 2 pi i / (n - 1)`.
    Blackman,
}

} // verus!
