//! Exponential moving average (EMA) over a stream of numeric samples.
//!
//! The accumulator warms up on a simple moving average until it has seen
//! `smoothing_length` samples, then switches to the exponential recurrence
//! with `alpha = 2 / (smoothing_length + 1)`.  Samples and averages are
//! exact rational numbers, so every contract states the arithmetic exactly.

pub mod accumulator;
pub mod laws;
pub mod rational;

pub use accumulator::Ema;
pub use accumulator::EmaError;
pub use rational::QRat;
pub use rational::Rat;
