//! Built-in functions.

pub mod math;
