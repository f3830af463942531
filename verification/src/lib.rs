//! Index, shape and data-movement logic of Power-Normalized Cepstral
//! Coefficient (PNCC) feature extraction.
//!
//! The arithmetic on samples is floating point and lives in the companion
//! application crate; what is here decides which samples go where, how
//! frames and windows are laid out, and which integer constants the
//! transforms use, and is verified.

pub mod dct;
pub mod filter;
pub mod deltas;
pub mod framing;
pub mod medium_time;
pub mod spectrum;
pub mod window;

use vstd::prelude::*;

verus! {

/// Number of cepstral coefficients kept by default.
pub const PNCC_NUM_CEPS: usize = 13;

} // verus!
