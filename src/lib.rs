//! A time-decayed bandwidth estimator.
//!
//! Rates are bytes per second held with 32 bits of fraction (scaled by
//! `DECAY_ONE`), elapsed time is counted in nanoseconds, and the decay
//! factor `2^-t` is a fixed-point fraction of `DECAY_ONE`.
pub mod clock;
pub mod decay;
pub mod estimator;
pub mod rate;

pub use estimator::BwEstimate;
