//! The backend: register classes, machine IR and register allocation.
pub mod abi;
pub mod allocation_laws;
pub mod classes;
pub mod close;
pub mod closing_laws;
pub mod frame;
pub mod regalloc;
pub mod registers;
pub mod tables;
pub mod verify;
pub mod instructions;
pub mod shuffle_order;
pub mod spill;
pub mod spill_laws;
pub mod target;
pub mod lower;
pub mod machine_laws;
pub mod listing;
pub mod allocas;
pub mod finish;
pub mod stack_args;
pub mod stack_laws;
pub mod pass;
