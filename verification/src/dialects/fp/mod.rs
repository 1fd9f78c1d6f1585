//! The `fp` dialect: floating-point operations that say what they promise.
pub mod bits;
pub mod contract;
pub mod round;
pub mod round_syntax;
