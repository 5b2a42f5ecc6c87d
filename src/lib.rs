//! Generation of uniform random sample sequences, their text rendering and
//! their element-wise totals.
//!
//! A sample is held in fixed point: the integer `k` with `k < SAMPLE_BOUND`
//! stands for the value `k / 2^52`, which lies in `[0, 1)`. This is the grid
//! on which a uniform `f64` over `[0, 1)` is drawn, so every value is exact.
pub mod text;
pub mod total;
pub mod unit;
