//! The grammar, as functions from the bytes of the text and a position to
//! what stands there.
//!
//! ```text
//! program := block end-of-input
//! block   := '{' stmt* '}'
//! stmt    := (let | expr) (';' | before '}')
//! let     := 'let' ident (':' ident)? '=' expr
//! expr    := sum
//! sum     := product (('+' | '-') product)*
//! product := unary (('*' | '/') unary)*
//! unary   := '-'* atom
//! atom    := block | integer | '(' expr ')' | ident
//! ident   := [A-Za-z_][A-Za-z0-9_]*
//! integer := [0-9]+
//! ```
//!
//! White space may stand before every token and before the end of the input.
//! A statement that starts with the keyword `let` is a binding. The first
//! violation ends the parse.

use vstd::prelude::*;

use crate::parser::error::{Parsed, SyntaxError, SyntaxErrorKind};
use crate::parser::lexical::{
    ascii_text, char_len, digits_len, digits_value, ident_len, is_digit, is_ident_start,
    keyword_at, let_keyword, token_start, CLOSE_BRACE, CLOSE_PAREN, COLON, EQUALS, MINUS,
    OPEN_BRACE, OPEN_PAREN, PLUS, SEMICOLON, SLASH, STAR,
};
use crate::syntax::block::BlockModel;
use crate::syntax::expr::ExprModel;
use crate::syntax::let_stmt::LetModel;
use crate::syntax::span::Span;
use crate::syntax::stmt::StmtModel;

verus! {

/// The span `[start, end)`.
pub open spec fn span(start: int, end: int) -> Span {
    Span { start: start as usize, end: end as usize }
}

/// The violation `kind`, found at the character that starts at `at`.
#[verifier::opaque]
pub open spec fn violation(kind: SyntaxErrorKind, s: Seq<u8>, at: int) -> SyntaxError {
    SyntaxError { kind, span: span(at, at + char_len(s, at)) }
}

/// True when the byte `b` stands at `i`.
pub open spec fn byte_at(s: Seq<u8>, i: int, b: u8) -> bool {
    0 <= i < s.len() && s[i] == b
}

/// True when `next` is a position of the text at or after `from`. Every rule
/// ends at such a position, as [`crate::parser::shape`] proves; asking for it
/// where a rule goes on after another makes the recursion well founded.
pub open spec fn ahead(s: Seq<u8>, from: int, next: int) -> bool {
    from <= next <= s.len()
}

/// The name that the bytes from `start` to `end` spell.
#[verifier::opaque]
pub open spec fn name_at(s: Seq<u8>, start: int, end: int) -> Seq<char> {
    ascii_text(s.subrange(start, end))
}

/// `integer`, at the digit at `i`: the literal, which must fit in 32 bits
/// with a sign.
pub open spec fn integer_at(s: Seq<u8>, i: int) -> Parsed<ExprModel> {
    let end = i + digits_len(s, i);
    let value = digits_value(s.subrange(i, end));
    if value <= i32::MAX {
        Ok((ExprModel::Int(value as int), end))
    } else {
        Err(SyntaxError { kind: SyntaxErrorKind::IntegerOverflow, span: span(i, end) })
    }
}

/// `atom`, after white space.
pub open spec fn atom_at(s: Seq<u8>, i: int) -> Parsed<ExprModel>
    decreases s.len() - i, 3int,
{
    let at = token_start(s, i);
    if !(0 <= at < s.len()) {
        Err(violation(SyntaxErrorKind::ExpectedExpression, s, at))
    } else if s[at] == OPEN_BRACE {
        match block_at(s, at) {
            Ok((inner, next)) => Ok((ExprModel::Block(inner), next)),
            Err(e) => Err(e),
        }
    } else if is_digit(s[at]) {
        integer_at(s, at)
    } else if s[at] == OPEN_PAREN {
        match expr_at(s, at + 1) {
            Ok((inner, next)) => {
                let close = token_start(s, next);
                if byte_at(s, close, CLOSE_PAREN) {
                    Ok((ExprModel::Parens(Box::new(inner)), close + 1))
                } else {
                    Err(violation(SyntaxErrorKind::ExpectedCloseParen, s, close))
                }
            },
            Err(e) => Err(e),
        }
    } else if is_ident_start(s[at]) {
        let end = at + ident_len(s, at);
        Ok((ExprModel::Var { name: name_at(s, at, end), name_span: span(at, end) }, end))
    } else {
        Err(violation(SyntaxErrorKind::ExpectedExpression, s, at))
    }
}

/// `unary`, after white space: every `-` negates what follows it.
pub open spec fn unary_at(s: Seq<u8>, i: int) -> Parsed<ExprModel>
    decreases s.len() - i, 4int,
{
    let at = token_start(s, i);
    if byte_at(s, at, MINUS) {
        match unary_at(s, at + 1) {
            Ok((inner, next)) => Ok((ExprModel::Neg(Box::new(inner)), next)),
            Err(e) => Err(e),
        }
    } else {
        atom_at(s, i)
    }
}

/// What follows the first operand of a `product`: with `lhs` read so far,
/// every `*` or `/` takes the next `unary` as its right operand.
pub open spec fn product_rest(s: Seq<u8>, lhs: ExprModel, i: int) -> Parsed<ExprModel>
    decreases s.len() - i, 5int,
{
    let at = token_start(s, i);
    if byte_at(s, at, STAR) || byte_at(s, at, SLASH) {
        match unary_at(s, at + 1) {
            Ok((rhs, next)) => {
                if ahead(s, at + 1, next) {
                    let joined = if s[at] == STAR {
                        ExprModel::Mul(Box::new(lhs), Box::new(rhs))
                    } else {
                        ExprModel::Div(Box::new(lhs), Box::new(rhs))
                    };
                    product_rest(s, joined, next)
                } else {
                    arbitrary()
                }
            },
            Err(e) => Err(e),
        }
    } else {
        Ok((lhs, i))
    }
}

/// `product`: left-associative `*` and `/`.
pub open spec fn product_at(s: Seq<u8>, i: int) -> Parsed<ExprModel>
    decreases s.len() - i, 6int,
{
    match unary_at(s, i) {
        Ok((lhs, next)) => {
            if ahead(s, i, next) {
                product_rest(s, lhs, next)
            } else {
                arbitrary()
            }
        },
        Err(e) => Err(e),
    }
}

/// What follows the first operand of a `sum`: with `lhs` read so far, every
/// `+` or `-` takes the next `product` as its right operand.
pub open spec fn sum_rest(s: Seq<u8>, lhs: ExprModel, i: int) -> Parsed<ExprModel>
    decreases s.len() - i, 7int,
{
    let at = token_start(s, i);
    if byte_at(s, at, PLUS) || byte_at(s, at, MINUS) {
        match product_at(s, at + 1) {
            Ok((rhs, next)) => {
                if ahead(s, at + 1, next) {
                    let joined = if s[at] == PLUS {
                        ExprModel::Add(Box::new(lhs), Box::new(rhs))
                    } else {
                        ExprModel::Sub(Box::new(lhs), Box::new(rhs))
                    };
                    sum_rest(s, joined, next)
                } else {
                    arbitrary()
                }
            },
            Err(e) => Err(e),
        }
    } else {
        Ok((lhs, i))
    }
}

/// `sum`: left-associative `+` and `-`.
pub open spec fn sum_at(s: Seq<u8>, i: int) -> Parsed<ExprModel>
    decreases s.len() - i, 8int,
{
    match product_at(s, i) {
        Ok((lhs, next)) => {
            if ahead(s, i, next) {
                sum_rest(s, lhs, next)
            } else {
                arbitrary()
            }
        },
        Err(e) => Err(e),
    }
}

/// `expr`.
pub open spec fn expr_at(s: Seq<u8>, i: int) -> Parsed<ExprModel>
    decreases s.len() - i, 9int,
{
    sum_at(s, i)
}

/// `ident`, after white space: the name and its span.
pub open spec fn ident_at(s: Seq<u8>, i: int) -> Parsed<Seq<char>> {
    let at = token_start(s, i);
    if 0 <= at < s.len() && is_ident_start(s[at]) {
        let end = at + ident_len(s, at);
        Ok((name_at(s, at, end), end))
    } else {
        Err(violation(SyntaxErrorKind::ExpectedIdentifier, s, at))
    }
}

/// The type annotation of a binding, after its name: `:` and a name, or
/// nothing.
pub open spec fn annotation(s: Seq<u8>, i: int) -> Parsed<Option<Seq<char>>> {
    let at = token_start(s, i);
    if byte_at(s, at, COLON) {
        match ident_at(s, at + 1) {
            Ok((ty, next)) => Ok((Some(ty), next)),
            Err(e) => Err(e),
        }
    } else {
        Ok((None, i))
    }
}

/// `let`, at the keyword at `i`.
pub open spec fn let_at(s: Seq<u8>, i: int) -> Parsed<LetModel>
    decreases s.len() - i, 10int,
{
    match ident_at(s, i + 3) {
        Ok((name, after_name)) => match annotation(s, after_name) {
            Ok((ty, after_ty)) => {
                let eq = token_start(s, after_ty);
                if byte_at(s, eq, EQUALS) {
                    match expr_at(s, eq + 1) {
                        Ok((rhs, next)) => Ok((LetModel { name, ty, rhs }, next)),
                        Err(e) => Err(e),
                    }
                } else {
                    Err(violation(SyntaxErrorKind::ExpectedEquals, s, eq))
                }
            },
            Err(e) => Err(e),
        },
        Err(e) => Err(e),
    }
}

/// `let | expr`, at the token at `i`: a binding where the keyword `let`
/// stands there, else an expression.
pub open spec fn stmt_at(s: Seq<u8>, i: int) -> Parsed<StmtModel>
    decreases s.len() - i, 11int,
{
    if keyword_at(s, i, let_keyword()) {
        match let_at(s, i) {
            Ok((binding, next)) => Ok((StmtModel::Let(binding), next)),
            Err(e) => Err(e),
        }
    } else {
        match expr_at(s, i) {
            Ok((value, next)) => Ok((StmtModel::Expr(value), next)),
            Err(e) => Err(e),
        }
    }
}

/// `stmt* '}'`, with the statements `done` read so far: the statements of
/// the block and the position after its closing brace.
pub open spec fn stmts_at(s: Seq<u8>, done: Seq<StmtModel>, i: int) -> Parsed<Seq<StmtModel>>
    decreases s.len() - i, 12int,
{
    let at = token_start(s, i);
    if !(0 <= at < s.len()) {
        Err(violation(SyntaxErrorKind::ExpectedCloseBrace, s, at))
    } else if s[at] == CLOSE_BRACE {
        Ok((done, at + 1))
    } else {
        match stmt_at(s, at) {
            Ok((next_stmt, next)) => {
                if ahead(s, at, next) {
                    let end = token_start(s, next);
                    if byte_at(s, end, SEMICOLON) {
                        stmts_at(s, done.push(next_stmt), end + 1)
                    } else if byte_at(s, end, CLOSE_BRACE) {
                        Ok((done.push(next_stmt), end + 1))
                    } else {
                        Err(violation(SyntaxErrorKind::ExpectedSemicolon, s, end))
                    }
                } else {
                    arbitrary()
                }
            },
            Err(e) => Err(e),
        }
    }
}

/// `block`, after white space.
pub open spec fn block_at(s: Seq<u8>, i: int) -> Parsed<BlockModel>
    decreases s.len() - i, 2int,
{
    let at = token_start(s, i);
    if byte_at(s, at, OPEN_BRACE) {
        match stmts_at(s, Seq::empty(), at + 1) {
            Ok((body, next)) => Ok((BlockModel { stmts: body, span: span(at, next) }, next)),
            Err(e) => Err(e),
        }
    } else {
        Err(violation(SyntaxErrorKind::ExpectedOpenBrace, s, at))
    }
}

/// `program`: the block that the whole text spells, or the first violation of
/// the grammar.
pub open spec fn program(s: Seq<u8>) -> Result<BlockModel, SyntaxError> {
    match block_at(s, 0) {
        Ok((top, next)) => {
            let end = token_start(s, next);
            if end >= s.len() {
                Ok(top)
            } else {
                Err(violation(SyntaxErrorKind::ExpectedEndOfInput, s, end))
            }
        },
        Err(e) => Err(e),
    }
}

} // verus!
