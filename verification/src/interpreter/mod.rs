//! The Neander virtual machine.
pub mod interpreter;

pub use interpreter::Interpreter;
