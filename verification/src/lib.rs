//! A small stack-based language execution engine in the PostScript style.
//!
//! The engine reads a token stream, maintains an operand stack and a stack of
//! nested name-binding frames, and evaluates executable names either as
//! built-in primitives or as user-defined procedures, with a configurable
//! choice between dynamic and lexical name resolution.

pub mod builtin;
pub mod dict;
pub mod error;
pub mod exec;
pub mod laws;
pub mod scope;
pub mod semantics;
pub mod tokenizer;
pub mod stack;
pub mod value;

pub use error::PsError;
pub use exec::Interpreter;
pub use scope::ScopeMode;
