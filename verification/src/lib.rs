//! A minimal register-based bytecode interpreter, verified.
//!
//! A program is a flat block of signed integer words. The interpreter owns
//! a fixed-size memory image of those words, a fixed register file, an
//! append-only pool of string constants, and a table of named function
//! bodies. `run` drives the fetch-decode-execute loop, bounded by an
//! explicit step budget; its contract states the result exactly, as an
//! iteration of a small-step machine over interpreter states.

pub mod fault;
pub mod laws;
pub mod machine;
pub mod model;
pub mod vm;

pub use fault::ExecutionFault;
pub use fault::OutputItem;
pub use fault::Report;
pub use fault::RunOutcome;
pub use vm::VM;
pub use vm::FnEntry;
