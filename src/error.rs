use vstd::prelude::*;

verus! {

/// What went wrong. Lexical, syntactic and runtime problems share one
/// taxonomy so that a caller can collect them from every stage alike.
#[derive(Clone, Copy, Debug, PartialEq, Eq, Structural)]
pub enum ErrorKind {
    UnexpectedCharacter,
    UnterminatedString,
    NumberTooLarge,
    ExpectIdentifier,
    ExpectSemicolon,
    ExpectLeftParen,
    ExpectRightParen,
    ExpectRightBrace,
    ExpectExpression,
    InvalidAssignmentTarget,
    OperandMustBeNumber,
    OperandsMustBeNumbers,
    OperandsMustBeNumbersOrStrings,
    UndefinedVariable,
    NumberOutOfRange,
    DivisionByZero,
    BudgetExhausted,
}

/// A problem found in a program, with the line it was found on.
#[derive(Clone, Copy, Debug, PartialEq, Eq, Structural)]
pub struct LoxError {
    pub line: usize,
    pub kind: ErrorKind,
}

/// Builds the report of a problem of the given kind on the given line.
pub fn error(line: usize, kind: ErrorKind) -> (r: LoxError)
    ensures
        r.line == line,
        r.kind == kind,
{
    LoxError { line, kind }
}

} // verus!
