//! Frame timing for a loop-driven program: measures the time between loop
//! iterations, keeps a bounded history of recent frame times for smoothed
//! statistics, and hands out fixed-size simulation steps from an accumulator
//! of unspent time.
//!
//! Durations are counted in nanoseconds as `u64` values.

pub mod history;
pub mod timer;
