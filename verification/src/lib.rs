//! Latency percentile tracking and budget gates.
//!
//! The crate has two halves:
//!
//! 1. **Runtime tracking** ([`tracker`]): a fixed-capacity, lock-free-append
//!    sliding window of `f64` samples, held as their IEEE-754 bit patterns,
//!    with nearest-rank `P50`/`P99`/`P99.9`/max reads.
//! 2. **Budget gating** ([`report`]): the decision and rendering rules of the
//!    PASS/FAIL budget table that CI enforces.
//!
//! Samples cross the library boundary as `u64` bit patterns
//! (`f64::to_bits` / `f64::from_bits`); every ordering the library uses is
//! the IEEE-754 total order of `f64::total_cmp`, stated over those bits.

pub mod padding;
pub mod sample_bits;
pub mod sorting;
pub mod quantile;
pub mod ring;
pub mod tracker;
pub mod render;
pub mod report;

pub use padding::CachePadded;
pub use quantile::nearest_rank;
pub use tracker::PercentileTracker;
