use vstd::prelude::*;

use crate::syntax::span::Span;

verus! {

/// What the grammar asked for at the place where the text stopped matching.
#[derive(Clone, Copy, Debug, PartialEq, Eq, Structural)]
pub enum SyntaxErrorKind {
    /// A block must open with `{`.
    ExpectedOpenBrace,
    /// The text ended inside a block.
    ExpectedCloseBrace,
    /// A parenthesized expression must close with `)`.
    ExpectedCloseParen,
    /// An integer, a name, `(`, `{` or `-` must start an expression.
    ExpectedExpression,
    /// `let` and `:` must be followed by a name.
    ExpectedIdentifier,
    /// The name of a binding must be followed by `=`, after its type if it has one.
    ExpectedEquals,
    /// A statement must end with `;` unless `}` follows it.
    ExpectedSemicolon,
    /// Nothing but white space may follow the closing brace of the program.
    ExpectedEndOfInput,
    /// An integer literal must fit in 32 bits with a sign.
    IntegerOverflow,
    /// An item of a file must start with `fn`.
    ExpectedFn,
    /// The name of a function must be followed by `(`.
    ExpectedOpenParen,
    /// The name of a parameter must be followed by `:`.
    ExpectedColon,
}

/// A violation of the grammar: what was expected, and the span of what was
/// found instead.
#[derive(Clone, Copy, Debug, PartialEq, Eq, Structural)]
pub struct SyntaxError {
    pub kind: SyntaxErrorKind,
    pub span: Span,
}

/// What a rule of the grammar yields at a position: the value that it read
/// and the position after it, or the violation that it met.
pub type Parsed<T> = Result<(T, int), SyntaxError>;

impl SyntaxErrorKind {
    /// The reason in words.
    pub open spec fn reason_text(self) -> Seq<char> {
        match self {
            SyntaxErrorKind::ExpectedOpenBrace => "expected `{`"@,
            SyntaxErrorKind::ExpectedCloseBrace => "expected a statement or `}`"@,
            SyntaxErrorKind::ExpectedCloseParen => "expected `)`"@,
            SyntaxErrorKind::ExpectedExpression => "expected an expression"@,
            SyntaxErrorKind::ExpectedIdentifier => "expected an identifier"@,
            SyntaxErrorKind::ExpectedEquals => "expected `=`"@,
            SyntaxErrorKind::ExpectedSemicolon => "expected `;` or `}`"@,
            SyntaxErrorKind::ExpectedEndOfInput => "expected end of input"@,
            SyntaxErrorKind::IntegerOverflow => "integer literal does not fit in 32 bits"@,
            SyntaxErrorKind::ExpectedFn => "expected `fn`"@,
            SyntaxErrorKind::ExpectedOpenParen => "expected `(`"@,
            SyntaxErrorKind::ExpectedColon => "expected `:`"@,
        }
    }

    /// The reason in words.
    pub fn reason(&self) -> (text: &'static str)
        ensures
            text@ == self.reason_text(),
    {
        match self {
            SyntaxErrorKind::ExpectedOpenBrace => "expected `{`",
            SyntaxErrorKind::ExpectedCloseBrace => "expected a statement or `}`",
            SyntaxErrorKind::ExpectedCloseParen => "expected `)`",
            SyntaxErrorKind::ExpectedExpression => "expected an expression",
            SyntaxErrorKind::ExpectedIdentifier => "expected an identifier",
            SyntaxErrorKind::ExpectedEquals => "expected `=`",
            SyntaxErrorKind::ExpectedSemicolon => "expected `;` or `}`",
            SyntaxErrorKind::ExpectedEndOfInput => "expected end of input",
            SyntaxErrorKind::IntegerOverflow => "integer literal does not fit in 32 bits",
            SyntaxErrorKind::ExpectedFn => "expected `fn`",
            SyntaxErrorKind::ExpectedOpenParen => "expected `(`",
            SyntaxErrorKind::ExpectedColon => "expected `:`",
        }
    }
}

impl SyntaxError {
    /// The reason in words.
    pub fn reason(&self) -> (text: &'static str)
        ensures
            text@ == self.kind.reason_text(),
    {
        self.kind.reason()
    }
}

} // verus!
