//! A fixed-point Adam optimizer, a small two-stage regression network for
//! cart-pole transition data, and the training-loop decision rules around
//! them. All arithmetic is exact fixed-point arithmetic over `i64` raw
//! values with six decimal places, so every computation here is fully
//! specified and machine-checked.

pub mod adam;
pub mod error;
pub mod fixed;
pub mod model;
pub mod train;
