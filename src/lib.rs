//! FalconCore: a small scripting language front end and execution engine.
//!
//! Source text flows one way through four verified stages: the lexer turns
//! characters into tokens, the parser turns tokens into statements, the
//! compiler turns statements into bytecode and the virtual machine runs the
//! bytecode, collecting what `print` writes.

pub mod compiler;
pub mod highlight;
pub mod lexer;
pub mod network;
pub mod parser;
pub mod pipeline;
pub mod text;
pub mod vm;
