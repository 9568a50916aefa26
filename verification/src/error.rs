//! The parser's error taxonomy.
//!
//! Every failure is a structural mismatch between the input and the grammar;
//! an error carries the rule that failed and the byte offset at which the
//! failing construct was attempted.

use vstd::prelude::*;

verus! {

/// The grammar rule whose mismatch caused a parse to fail.
#[derive(Clone, Copy, Debug, PartialEq, Eq, Structural)]
pub enum PgnErrorKind {
    /// A mandatory header tag-pair line is missing, misnamed, or malformed
    /// at its expected position.
    MandatoryTag,
    /// The `Result` tag's value is not one of the four recognized literals.
    ResultLiteral,
    /// Neither a move token nor a termination marker matches at the current
    /// position of the movetext.
    MoveGrammar,
    /// A multi-game parse found zero complete games.
    GameCount,
}

/// A structural parse error: the failing rule and the byte offset, into the
/// original input, of the construct that failed to match.
#[derive(Clone, Copy, Debug, PartialEq, Eq, Structural)]
pub struct PgnError {
    pub kind: PgnErrorKind,
    pub pos: usize,
}

/// The mathematical form of a parse error, used by the specification-level
/// grammar model.
pub ghost struct ErrSpec {
    pub kind: PgnErrorKind,
    pub pos: int,
}

} // verus!
