//! Constants that tune the estimation pipeline.
//!
//! Grey levels, spectral magnitudes and frequencies are whole numbers of
//! millionths throughout the crate: a grey level of 12.5 is `12_500_000`,
//! and two hertz are `2_000_000`.

use vstd::prelude::*;

verus! {

/// One grey level, one hertz and one unit of spectral magnitude, in the
/// millionths in which this crate counts them.
pub const MICRO: u64 = 1_000_000;

/// Side of the pixel square whose brightness a single oscillator tracks.
pub const VIEW_SIZE: u32 = 2;

/// An analyzer publishes its current estimate once per this many milliseconds.
pub const REPORT_FREQUENCY_AFTER_MS: usize = 250;

/// Sample buffers are cut back to one window once per this many milliseconds.
pub const TRUNCATE_STATE_AFTER_MS: usize = 2000;

/// A spectral peak counts only if its magnitude, in millionths, is above this.
pub const MAGNITUDE_THRESHOLD: u64 = 5_000_000;

/// An oscillator whose running deviation, in millionths of a grey level, is
/// below this is taken to see noise only.
pub const MIN_DEVIATION: u64 = 10_000_000;

/// The brightest sample, in millionths of a grey level.
pub const MAX_LEVEL: u64 = 255_000_000;

/// Slower oscillations than this, in millionths of a hertz, are of no
/// interest.
pub const LOWEST_FREQUENCY_OF_INTEREST: u64 = 800_000;

/// Faster oscillations than this, in millionths of a hertz, are of no
/// interest.
pub const HIGHEST_FREQUENCY_OF_INTEREST: u64 = 4_000_000;

/// An analyzer names a frequency only if more than this share of the
/// oscillators that named a bin agree on it: the numerator of the share.
pub const MIN_AGREEMENT_NUMERATOR: u64 = 1;

/// The denominator of that share.
pub const MIN_AGREEMENT_DENOMINATOR: u64 = 2;

/// There is one oscillator for this many pixels of a frame.
pub const PIXELS_PER_OSCILLATOR: u64 = 25;

/// The largest frame rate and the largest window that an analyzer takes; the
/// arithmetic has room for no more.
pub const LARGEST_SETTING: usize = 0x3fff_ffff;

} // verus!
