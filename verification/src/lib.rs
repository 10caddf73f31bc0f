//! A compiler from a Brainfuck-derived source dialect to the URCL target
//! instruction set.
//!
//! The pipeline has four stages: a lexer that turns bytes into tokens and
//! three side queues (loop repetition counts, numeric literals, port names),
//! a loop unroller, a run-length coalescer, and a code generator that emits
//! the target text.  Every stage is specified by a spec-level model and the
//! executable code is proved to follow it.

pub mod codegen;
pub mod laws;
pub mod lexer;
pub mod optimize;
pub mod numfmt;
pub mod pipeline;
pub mod tokens;

pub use pipeline::compile;
pub use tokens::CompileError;
pub use tokens::OptiToken;
pub use tokens::Token;
pub use tokens::TokenHandler;
pub use tokens::TokenType;
