//! Core of a stackful-coroutine execution runtime.
//!
//! Computations suspend and resume using their native call stacks instead of
//! heap-allocated state machines. The crate covers the task/context
//! suspension protocol, the pool of reusable fibers, and interrupt-safe
//! composite stream operations built from single-shot I/O primitives.

pub mod coroutines;
pub mod error;
pub mod fiber;
pub mod impls;
pub mod io;
