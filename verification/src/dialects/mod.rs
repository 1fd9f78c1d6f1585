//! The dialects: what their operations are made of, how they are written, and
//! what is checked of them.
pub mod builtin;
pub mod cfg;
pub mod check_laws;
pub mod checks;
pub mod definitions;
pub mod fp;
pub mod func;
pub mod print;
pub mod ptr;
pub mod registry;
pub mod scf;
pub mod state;
pub mod vector;
