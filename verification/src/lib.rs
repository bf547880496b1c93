//! Spectral analysis bookkeeping for audio visualisation: a rolling sample
//! buffer, a partition of a frequency range into bands, and the assignment of
//! transform bins to those bands.
//!
//! Every single-precision quantity (a sample, a frequency, a signal strength)
//! is carried as its IEEE 754 bit pattern in a `u32`. Ordering decisions are
//! made on those patterns; arithmetic on the values they stand for is left to
//! the caller.

pub mod bits;
pub mod error;
pub mod sample;
pub mod window;
pub mod buckets;
pub mod analyzer;
