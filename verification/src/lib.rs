//! Core data structures and checks of the TIR compiler infrastructure.
pub mod access;
pub mod attributes;
pub mod backend;
pub mod binding;
pub mod binding_laws;
pub mod block;
pub mod builder;
pub mod context;
pub mod dependency;
pub mod dialects;
pub mod error;
pub mod form;
pub mod forks;
pub mod graph;
pub mod ids;
pub mod interfaces;
pub mod interp;
pub mod ir;
pub mod ir_formatter;
pub mod journal;
pub mod layout;
pub mod levels;
pub mod lists;
pub mod lives;
pub mod memstats;
pub mod op_tree;
pub mod operation;
pub mod overlay;
pub mod parse;
pub mod schema;
pub mod meaning;
pub mod sem;
pub mod seqs;
pub mod text;
pub mod tree;
pub mod ty;
pub mod verify;
