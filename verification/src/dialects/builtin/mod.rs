//! The `builtin` dialect.
pub mod arith;
pub mod call;
pub mod calls_round_trip;
pub mod control;
pub mod declare;
pub mod float;
pub mod fn_type;
pub mod func_op;
pub mod global;
pub mod round_trip;
pub mod syntax;
pub mod tuple;
