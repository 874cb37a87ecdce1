//! Register and stack-slot allocation for a single-pass x86-64 code generator.
//!
//! The [`machine::Machine`] hands out a home (a register or a slot below the
//! frame pointer) for every WebAssembly value, local and temporary, and writes
//! the function prologue and epilogue through an [`emitter::Emitter`].
//! Every function here carries a contract over the mathematical model in
//! [`model`], and Verus proves each body against it.

pub mod bits;
pub mod emitter;
pub mod frame;
pub mod history;
pub mod laws;
pub mod location;
pub mod locations;
pub mod machine;
pub mod model;
pub mod registers;
pub mod stack_pointer;
