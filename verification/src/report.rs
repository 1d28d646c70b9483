//! Diagnostics: what the front end hands to whoever shows an error to the
//! user. A diagnostic is a message, the span that it is about and, where
//! there is one, a hint.

use vstd::prelude::*;
use vstd::string::StringExecFns;

use crate::parser::error::SyntaxError;
use crate::syntax::span::Span;

verus! {

/// What went wrong.
#[derive(Clone, Copy, Debug, PartialEq, Eq, Structural)]
pub enum DiagnosticKind {
    /// The text does not match the grammar.
    Syntax,
    /// A variable is used that no visible scope declares.
    UndeclaredVariable,
    /// The initializer of a binding holds a block.
    BlockInLet,
    /// A block stands where a value is needed.
    BlockInExpression,
    /// A function is declared.
    FunctionDeclaration,
    /// A function is called.
    FunctionCall,
}

/// A diagnostic, ready to be shown against the source text.
#[derive(Debug, PartialEq, Eq)]
pub struct Diagnostic {
    pub kind: DiagnosticKind,
    pub message: String,
    pub span: Span,
    pub help: Option<String>,
}

/// The mathematical model of a [`Diagnostic`].
pub struct DiagnosticModel {
    pub kind: DiagnosticKind,
    pub message: Seq<char>,
    pub span: Span,
    pub help: Option<Seq<char>>,
}

impl View for Diagnostic {
    type V = DiagnosticModel;

    open spec fn view(&self) -> DiagnosticModel {
        DiagnosticModel {
            kind: self.kind,
            message: self.message@,
            span: self.span,
            help: match self.help {
                Some(help) => Some(help@),
                None => None,
            },
        }
    }
}

/// The diagnostic for a use of the variable `name` at `span`, which no
/// visible scope declares.
pub open spec fn undeclared(name: Seq<char>, span: Span) -> DiagnosticModel {
    DiagnosticModel {
        kind: DiagnosticKind::UndeclaredVariable,
        message: "Variable `"@ + name + "` was not declared"@,
        span,
        help: Some("Use `let "@ + name + " = …;`"@),
    }
}

/// The message for a construct that the front end reads and cannot lower yet.
pub open spec fn unsupported_message(kind: DiagnosticKind) -> Seq<char> {
    match kind {
        DiagnosticKind::BlockInLet => "unsupported: a block inside the initializer of a `let`"@,
        DiagnosticKind::BlockInExpression => "unsupported: a block used as a value"@,
        DiagnosticKind::FunctionDeclaration => "unsupported: function declarations"@,
        DiagnosticKind::FunctionCall => "unsupported: function calls"@,
        DiagnosticKind::Syntax => "syntax error"@,
        DiagnosticKind::UndeclaredVariable => "undeclared variable"@,
    }
}

/// The diagnostic for a construct of kind `kind` at `span` that cannot be
/// lowered yet.
pub open spec fn unsupported_at(kind: DiagnosticKind, span: Span) -> DiagnosticModel {
    DiagnosticModel { kind, message: unsupported_message(kind), span, help: None }
}

/// The diagnostic for a violation of the grammar.
pub open spec fn syntax(err: SyntaxError) -> DiagnosticModel {
    DiagnosticModel {
        kind: DiagnosticKind::Syntax,
        message: err.kind.reason_text(),
        span: err.span,
        help: None,
    }
}

/// Reports a use of the variable `name` at `span`, which no visible scope
/// declares, with a hint at how to declare it.
pub fn undeclared_variable(name: &str, span: &Span) -> (d: Diagnostic)
    ensures
        d@ == undeclared(name@, *span),
{
    let mut message = String::new();
    message.append("Variable `");
    message.append(name);
    message.append("` was not declared");
    let mut help = String::new();
    help.append("Use `let ");
    help.append(name);
    help.append(" = …;`");
    proof {
        assert(message@ =~= "Variable `"@ + name@ + "` was not declared"@);
        assert(help@ =~= "Use `let "@ + name@ + " = …;`"@);
    }
    Diagnostic { kind: DiagnosticKind::UndeclaredVariable, message, span: *span, help: Some(help) }
}

/// Reports a construct of kind `kind` at `span` that cannot be lowered yet.
pub fn unsupported(kind: DiagnosticKind, span: Span) -> (d: Diagnostic)
    ensures
        d@ == unsupported_at(kind, span),
{
    let text = match kind {
        DiagnosticKind::BlockInLet => "unsupported: a block inside the initializer of a `let`",
        DiagnosticKind::BlockInExpression => "unsupported: a block used as a value",
        DiagnosticKind::FunctionDeclaration => "unsupported: function declarations",
        DiagnosticKind::FunctionCall => "unsupported: function calls",
        DiagnosticKind::Syntax => "syntax error",
        DiagnosticKind::UndeclaredVariable => "undeclared variable",
    };
    Diagnostic { kind, message: String::from_str(text), span, help: None }
}

/// Reports a violation of the grammar: its reason, at its span.
pub fn parse_err(err: SyntaxError) -> (d: Diagnostic)
    ensures
        d@ == syntax(err),
{
    Diagnostic {
        kind: DiagnosticKind::Syntax,
        message: String::from_str(err.reason()),
        span: err.span,
        help: None,
    }
}

} // verus!
