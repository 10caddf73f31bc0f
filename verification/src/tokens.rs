//! Token vocabulary shared by every stage of the pipeline.
//!
//! A token is a discriminant plus two integers: the identifier of the loop it
//! belongs to and the nesting depth at which it was produced.  Weighted tokens
//! pair a token with a run-length magnitude; they are produced by the
//! run-length coalescer and consumed by the code generator.

use vstd::prelude::*;

verus! {

/// Discriminant of a lexed token.  `SkipNext` is inserted by the loop
/// unroller; `StartNumber` and `Extra` are internal sentinels that never
/// reach the emitted token stream.
#[derive(Clone, Copy, PartialEq, Eq, Structural, Debug)]
pub enum TokenType {
    Add,
    Subtract,
    OpenLoop,
    EndLoop,
    Number,
    Output,
    Input,
    LoopCounter,
    Push,
    Pop,
    SkipNext,
    StartNumber,
    Extra,
}

/// A token: discriminant plus loop identifier and nesting depth.
#[derive(Clone, Copy, PartialEq, Eq, Structural, Debug)]
pub struct Token {
    pub token_type: TokenType,
    pub loop_id: i64,
    pub loop_layer: i64,
}

/// A token together with the number of consecutive occurrences it stands for.
#[derive(Clone, Copy, PartialEq, Eq, Structural, Debug)]
pub struct OptiToken {
    pub og_token: Token,
    pub repeated: u8,
}

/// Lexer mode: how the next input byte is interpreted.
#[derive(Clone, Copy, PartialEq, Eq, Structural, Debug)]
pub enum TokenHandler {
    Normal,
    QuestionMark,
    ParseString,
    FromString,
}

/// A fatal condition that aborts a compilation with no partial output.
#[derive(Clone, Copy, PartialEq, Eq, Structural, Debug)]
pub enum CompileError {
    /// A loop-close byte was read with no loop open.
    UnbalancedClose,
    /// The repetition-count queue ran out at a loop-open token.
    RepetitionQueueUnderflow,
    /// A loop-end token arrived with no loop-open token before it.
    LoopStackUnderflow,
    /// The port-name queue ran out at an input or output token.
    PortQueueUnderflow,
}

/// Repetition-count sentinel: the loop has no statically known bound.
pub const INFINITE_LOOP: u16 = 256;

/// Repetition-count sentinel: the bound is taken from the working cell at run
/// time (conditional loop open).
pub const CONDITIONAL_LOOP: u16 = 257;

/// The additive tokens: the ones the run-length coalescer merges.
pub open spec fn is_additive(t: TokenType) -> bool {
    t == TokenType::Add || t == TokenType::Subtract
}

/// The placeholder token that state machines start from.
pub open spec fn extra_token() -> Token {
    Token { token_type: TokenType::Extra, loop_id: 0, loop_layer: 0 }
}

} // verus!
