//! An interpreter for a small reverse-Polish stack language.
//!
//! Tokens either push numeric literals or combine previously pushed values
//! into deferred arithmetic expression trees.  A direction modifier (`<` or
//! `>`) selects which end of the working stack an operation acts on.  A
//! lightweight `name:body:` syntax defines textual macros, and the reserved
//! name `for` replays a body a stack-supplied number of times.

pub mod errors;
pub mod instruction;
pub mod interp;
pub mod laws;
pub mod semantics;
pub mod textops;

pub use errors::ErrorKind;
pub use errors::Frame;
pub use errors::RunError;
pub use instruction::ArithErr;
pub use instruction::EsianolopInstruction;
pub use interp::Esianolop;
