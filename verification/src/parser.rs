//! The parser: from source text to a syntax tree, or to the violation of the
//! grammar that it met.
//!
//! [`grammar`] states what every rule yields at every position of every text.
//! The functions here compute it: each one is proved to return what its rule
//! of the grammar yields where it is called.

pub mod error;
pub mod grammar;
pub mod items;
pub mod lexer;
pub mod lexical;
pub mod shape;
pub mod unicode;

pub use error::{Parsed, SyntaxError, SyntaxErrorKind};

use vstd::prelude::*;
use vstd::string::StringSliceAdditionalSpecFns;

use crate::parser::lexer::{
    digit, found, ident_start, lemma_ident_len_bounds, scan_ident, skip_whitespace, slice,
};
use crate::parser::lexical::{
    ascii_text, digits_len, digits_value, ident_len, is_digit, is_ident_continue,
    is_ident_start, keyword_at, let_keyword, token_start, CLOSE_BRACE, CLOSE_PAREN, COLON,
    COMMA, EQUALS, GREATER, MINUS, OPEN_BRACE, OPEN_PAREN, PLUS, SEMICOLON, SLASH, STAR, ZERO,
};
use crate::syntax::block::{models, Block};
use crate::syntax::expr::Expr;
use crate::syntax::file::{item_models, File};
use crate::syntax::function::{arg_models, Arg, ArgModel, Fn};
use crate::syntax::ident::{is_ident_continue_char, Ident};
use crate::syntax::item::{Item, ItemModel};
use crate::syntax::let_stmt::Let;
use crate::syntax::span::Span;
use crate::syntax::stmt::{Stmt, StmtModel};

verus! {

/// True when `r` is what the rule yields: the same value, in its model, and
/// the same next position, or the same violation.
pub open spec fn agrees<T: View>(r: Result<(T, usize), SyntaxError>, rule: Parsed<T::V>) -> bool {
    match r {
        Ok((value, next)) => rule == Ok::<(T::V, int), SyntaxError>((value@, next as int)),
        Err(e) => rule == Err::<(T::V, int), SyntaxError>(e),
    }
}

/// True when `r` ends at a position of the text at or after `from`, or holds a
/// violation whose span lies in the text.
pub open spec fn in_text<T>(r: Result<(T, usize), SyntaxError>, s: Seq<u8>, from: int) -> bool {
    match r {
        Ok((_, next)) => from <= next <= s.len(),
        Err(e) => e.span.within(s.len()),
    }
}

/// Looks for the byte `b` after the white space at `i`: the position after
/// it, or the position where something else stands.
pub fn token(bytes: &[u8], i: usize, b: u8) -> (r: Result<usize, usize>)
    requires
        i <= bytes@.len(),
    ensures
        match r {
            Ok(next) => {
                &&& grammar::byte_at(bytes@, token_start(bytes@, i as int), b)
                &&& next == token_start(bytes@, i as int) + 1
                &&& i < next <= bytes@.len()
            },
            Err(at) => {
                &&& !grammar::byte_at(bytes@, token_start(bytes@, i as int), b)
                &&& at == token_start(bytes@, i as int)
                &&& i <= at <= bytes@.len()
            },
        },
{
    let at = skip_whitespace(bytes, i);
    if at < bytes.len() && bytes[at] == b {
        Ok(at + 1)
    } else {
        Err(at)
    }
}

/// `integer`, at the digit at `at`.
pub fn integer<'a>(src: &'a str, at: usize) -> (r: Result<(Expr<'a>, usize), SyntaxError>)
    requires
        at < src.spec_bytes().len(),
        is_digit(src.spec_bytes()[at as int]),
    ensures
        agrees(r, grammar::integer_at(src.spec_bytes(), at as int)),
        in_text(r, src.spec_bytes(), at + 1),
{
    let bytes = src.as_bytes();
    let ghost s = bytes@;
    let mut value: u64 = 0;
    let mut overflow = false;
    let mut end = at;
    proof {
        assert(s.subrange(at as int, at as int) =~= Seq::<u8>::empty());
    }
    while end < bytes.len() && digit(bytes[end])
        invariant
            s == bytes@,
            at <= end <= s.len(),
            end + digits_len(s, end as int) == at + digits_len(s, at as int),
            value <= i32::MAX,
            !overflow ==> value == digits_value(s.subrange(at as int, end as int)),
            overflow ==> digits_value(s.subrange(at as int, end as int)) > i32::MAX,
        decreases s.len() - end,
    {
        let d = (bytes[end] - ZERO) as u64;
        proof {
            let longer = s.subrange(at as int, end + 1);
            assert(longer.drop_last() =~= s.subrange(at as int, end as int));
            assert(longer.last() == s[end as int]);
        }
        if !overflow {
            value = value * 10 + d;
            if value > i32::MAX as u64 {
                overflow = true;
                value = 0;
            }
        }
        end = end + 1;
    }
    if overflow {
        Err(SyntaxError { kind: SyntaxErrorKind::IntegerOverflow, span: Span::new(at, end) })
    } else {
        Ok((Expr::Int(value as i32), end))
    }
}

/// `ident`, after white space.
pub fn ident<'a>(src: &'a str, i: usize) -> (r: Result<(Ident<'a>, usize), SyntaxError>)
    requires
        i <= src.spec_bytes().len(),
    ensures
        agrees(r, grammar::ident_at(src.spec_bytes(), i as int)),
        in_text(r, src.spec_bytes(), i as int),
{
    let bytes = src.as_bytes();
    let at = skip_whitespace(bytes, i);
    if at < bytes.len() && ident_start(bytes[at]) {
        let end = scan_ident(bytes, at);
        let name = name(src, at, end);
        Ok((name, end))
    } else {
        Err(found(SyntaxErrorKind::ExpectedIdentifier, bytes, at))
    }
}

/// The identifier that stands from `at` to `end`.
fn name<'a>(src: &'a str, at: usize, end: usize) -> (id: Ident<'a>)
    requires
        at < src.spec_bytes().len(),
        is_ident_start(src.spec_bytes()[at as int]),
        end == at + ident_len(src.spec_bytes(), at as int),
    ensures
        id@ == grammar::name_at(src.spec_bytes(), at as int, end as int),
{
    reveal(grammar::name_at);
    proof {
        lemma_ident_len_bounds(src.spec_bytes(), at as int);
    }
    let text = slice(src, at, end);
    proof {
        let part = src.spec_bytes().subrange(at as int, end as int);
        assert(text@ == ascii_text(part));
        assert forall|k: int| 0 <= k < text@.len() implies is_ident_continue_char(
            #[trigger] text@[k],
        ) by {
            assert(is_ident_continue(src.spec_bytes()[at + k]));
            assert(part[k] == src.spec_bytes()[at + k]);
        }
        assert(part[0] == src.spec_bytes()[at as int]);
    }
    Ident::new(text)
}

/// `atom`, after white space.
#[verifier::rlimit(30)]
pub fn atom<'a>(src: &'a str, i: usize) -> (r: Result<(Expr<'a>, usize), SyntaxError>)
    requires
        i <= src.spec_bytes().len(),
    ensures
        agrees(r, grammar::atom_at(src.spec_bytes(), i as int)),
        in_text(r, src.spec_bytes(), i as int),
    decreases src.spec_bytes().len() - i, 3int,
{
    let bytes = src.as_bytes();
    let at = skip_whitespace(bytes, i);
    if at >= bytes.len() {
        return Err(found(SyntaxErrorKind::ExpectedExpression, bytes, at));
    }
    let b = bytes[at];
    if b == OPEN_BRACE {
        match block(src, at) {
            Ok((inner, next)) => Ok((Expr::Block(inner), next)),
            Err(e) => Err(e),
        }
    } else if digit(b) {
        integer(src, at)
    } else if b == OPEN_PAREN {
        let (inner, next) = match expr(src, at + 1) {
            Ok(read) => read,
            Err(e) => { return Err(e); },
        };
        match token(bytes, next, CLOSE_PAREN) {
            Ok(after) => Ok((Expr::Parens(Box::new(inner)), after)),
            Err(close) => Err(found(SyntaxErrorKind::ExpectedCloseParen, bytes, close)),
        }
    } else if ident_start(b) {
        let end = scan_ident(bytes, at);
        let name = name(src, at, end);
        Ok((Expr::Var { name, name_span: Span::new(at, end) }, end))
    } else {
        Err(found(SyntaxErrorKind::ExpectedExpression, bytes, at))
    }
}

/// `unary`, after white space.
pub fn unary<'a>(src: &'a str, i: usize) -> (r: Result<(Expr<'a>, usize), SyntaxError>)
    requires
        i <= src.spec_bytes().len(),
    ensures
        agrees(r, grammar::unary_at(src.spec_bytes(), i as int)),
        in_text(r, src.spec_bytes(), i as int),
    decreases src.spec_bytes().len() - i, 4int,
{
    let bytes = src.as_bytes();
    match token(bytes, i, MINUS) {
        Ok(after) => match unary(src, after) {
            Ok((inner, next)) => Ok((Expr::Neg(Box::new(inner)), next)),
            Err(e) => Err(e),
        },
        Err(_) => atom(src, i),
    }
}

/// `product`: a `unary`, and every `*` or `/` with the `unary` after it.
#[verifier::rlimit(30)]
pub fn product<'a>(src: &'a str, i: usize) -> (r: Result<(Expr<'a>, usize), SyntaxError>)
    requires
        i <= src.spec_bytes().len(),
    ensures
        agrees(r, grammar::product_at(src.spec_bytes(), i as int)),
        in_text(r, src.spec_bytes(), i as int),
    decreases src.spec_bytes().len() - i, 6int,
{
    let bytes = src.as_bytes();
    let ghost s = src.spec_bytes();
    let (mut lhs, mut next) = match unary(src, i) {
        Ok(read) => read,
        Err(e) => { return Err(e); },
    };
    loop
        invariant
            s == src.spec_bytes(),
            s == bytes@,
            i <= next <= s.len(),
            grammar::product_rest(s, lhs@, next as int) == grammar::product_at(s, i as int),
        decreases s.len() - next,
    {
        let at = skip_whitespace(bytes, next);
        if at < bytes.len() && (bytes[at] == STAR || bytes[at] == SLASH) {
            let times = bytes[at] == STAR;
            let (rhs, after) = match unary(src, at + 1) {
                Ok(read) => read,
                Err(e) => { return Err(e); },
            };
            lhs = if times {
                Expr::Mul(Box::new(lhs), Box::new(rhs))
            } else {
                Expr::Div(Box::new(lhs), Box::new(rhs))
            };
            next = after;
        } else {
            return Ok((lhs, next));
        }
    }
}

/// `sum`: a `product`, and every `+` or `-` with the `product` after it.
#[verifier::rlimit(30)]
pub fn sum<'a>(src: &'a str, i: usize) -> (r: Result<(Expr<'a>, usize), SyntaxError>)
    requires
        i <= src.spec_bytes().len(),
    ensures
        agrees(r, grammar::sum_at(src.spec_bytes(), i as int)),
        in_text(r, src.spec_bytes(), i as int),
    decreases src.spec_bytes().len() - i, 8int,
{
    let bytes = src.as_bytes();
    let ghost s = src.spec_bytes();
    let (mut lhs, mut next) = match product(src, i) {
        Ok(read) => read,
        Err(e) => { return Err(e); },
    };
    loop
        invariant
            s == src.spec_bytes(),
            s == bytes@,
            i <= next <= s.len(),
            grammar::sum_rest(s, lhs@, next as int) == grammar::sum_at(s, i as int),
        decreases s.len() - next,
    {
        let at = skip_whitespace(bytes, next);
        if at < bytes.len() && (bytes[at] == PLUS || bytes[at] == MINUS) {
            let plus = bytes[at] == PLUS;
            let (rhs, after) = match product(src, at + 1) {
                Ok(read) => read,
                Err(e) => { return Err(e); },
            };
            lhs = if plus {
                Expr::Add(Box::new(lhs), Box::new(rhs))
            } else {
                Expr::Sub(Box::new(lhs), Box::new(rhs))
            };
            next = after;
        } else {
            return Ok((lhs, next));
        }
    }
}

/// `expr`, after white space: sums of products of negated atoms.
pub fn expr<'a>(src: &'a str, i: usize) -> (r: Result<(Expr<'a>, usize), SyntaxError>)
    requires
        i <= src.spec_bytes().len(),
    ensures
        agrees(r, grammar::expr_at(src.spec_bytes(), i as int)),
        in_text(r, src.spec_bytes(), i as int),
    decreases src.spec_bytes().len() - i, 9int,
{
    sum(src, i)
}

/// Tells whether the keyword `let` stands at `at`.
pub fn at_let(bytes: &[u8], at: usize) -> (yes: bool)
    requires
        at <= bytes@.len(),
    ensures
        yes == keyword_at(bytes@, at as int, let_keyword()),
        yes ==> at + 3 <= bytes@.len(),
{
    reveal(keyword_at);
    if bytes.len() - at < 3 {
        return false;
    }
    let spelled = bytes[at] == 0x6c && bytes[at + 1] == 0x65 && bytes[at + 2] == 0x74;
    let end = scan_ident(bytes, at);
    proof {
        let word = bytes@.subrange(at as int, at + 3);
        if spelled {
            assert(word =~= let_keyword());
        } else {
            assert(word[0] == bytes@[at as int]);
            assert(word[1] == bytes@[at + 1]);
            assert(word[2] == bytes@[at + 2]);
        }
    }
    spelled && end - at == 3
}

/// True when `r` is what the rule of the type annotation yields.
pub open spec fn annotated<'a>(
    r: Result<(Option<Ident<'a>>, usize), SyntaxError>,
    rule: Parsed<Option<Seq<char>>>,
) -> bool {
    match r {
        Ok((Some(ty), next)) => rule == Ok::<_, SyntaxError>((Some(ty@), next as int)),
        Ok((None, next)) => rule == Ok::<_, SyntaxError>((None::<Seq<char>>, next as int)),
        Err(e) => rule == Err::<(Option<Seq<char>>, int), _>(e),
    }
}

/// The type annotation of a binding, after its name.
pub fn annotation<'a>(src: &'a str, i: usize) -> (r: Result<
    (Option<Ident<'a>>, usize),
    SyntaxError,
>)
    requires
        i <= src.spec_bytes().len(),
    ensures
        annotated(r, grammar::annotation(src.spec_bytes(), i as int)),
        in_text(r, src.spec_bytes(), i as int),
{
    match token(src.as_bytes(), i, COLON) {
        Ok(after_colon) => match ident(src, after_colon) {
            Ok((ty, next)) => Ok((Some(ty), next)),
            Err(e) => Err(e),
        },
        Err(_) => Ok((None, i)),
    }
}

/// `let`, at the keyword at `at`.
#[verifier::rlimit(30)]
pub fn stmt_let<'a>(src: &'a str, at: usize) -> (r: Result<(Let<'a>, usize), SyntaxError>)
    requires
        at + 3 <= src.spec_bytes().len(),
        keyword_at(src.spec_bytes(), at as int, let_keyword()),
    ensures
        agrees(r, grammar::let_at(src.spec_bytes(), at as int)),
        in_text(r, src.spec_bytes(), at as int),
    decreases src.spec_bytes().len() - at, 10int,
{
    let bytes = src.as_bytes();
    assert(at + 3 <= bytes.len());
    let (name, after_name) = match ident(src, at + 3) {
        Ok(read) => read,
        Err(e) => { return Err(e); },
    };
    let (ty, after_ty) = match annotation(src, after_name) {
        Ok(read) => read,
        Err(e) => { return Err(e); },
    };
    let after_eq = match token(bytes, after_ty, EQUALS) {
        Ok(next) => next,
        Err(eq) => { return Err(found(SyntaxErrorKind::ExpectedEquals, bytes, eq)); },
    };
    match expr(src, after_eq) {
        Ok((rhs, next)) => Ok((Let { name, ty, rhs }, next)),
        Err(e) => Err(e),
    }
}

/// `let | expr`, at the token at `at`.
pub fn stmt<'a>(src: &'a str, at: usize) -> (r: Result<(Stmt<'a>, usize), SyntaxError>)
    requires
        at <= src.spec_bytes().len(),
    ensures
        agrees(r, grammar::stmt_at(src.spec_bytes(), at as int)),
        in_text(r, src.spec_bytes(), at as int),
    decreases src.spec_bytes().len() - at, 11int,
{
    if at_let(src.as_bytes(), at) {
        match stmt_let(src, at) {
            Ok((binding, next)) => Ok((Stmt::Let(binding), next)),
            Err(e) => Err(e),
        }
    } else {
        match expr(src, at) {
            Ok((value, next)) => Ok((Stmt::Expr(value), next)),
            Err(e) => Err(e),
        }
    }
}

/// `block`, after white space: the statements between `{` and `}`.
#[verifier::rlimit(30)]
pub fn block<'a>(src: &'a str, i: usize) -> (r: Result<(Block<'a>, usize), SyntaxError>)
    requires
        i <= src.spec_bytes().len(),
    ensures
        agrees(r, grammar::block_at(src.spec_bytes(), i as int)),
        in_text(r, src.spec_bytes(), i as int),
    decreases src.spec_bytes().len() - i, 2int,
{
    let bytes = src.as_bytes();
    let ghost s = src.spec_bytes();
    let open = skip_whitespace(bytes, i);
    if !(open < bytes.len() && bytes[open] == OPEN_BRACE) {
        return Err(found(SyntaxErrorKind::ExpectedOpenBrace, bytes, open));
    }
    let mut done: Vec<Stmt<'a>> = Vec::new();
    let mut next = open + 1;
    proof {
        assert(models(done@) =~= Seq::<StmtModel>::empty());
    }
    loop
        invariant
            s == src.spec_bytes(),
            s == bytes@,
            i <= open < next <= s.len(),
            grammar::stmts_at(s, models(done@), next as int) == grammar::stmts_at(
                s,
                Seq::empty(),
                open + 1,
            ),
            grammar::byte_at(s, token_start(s, i as int), OPEN_BRACE),
            open == token_start(s, i as int),
        decreases s.len() - next,
    {
        let at = skip_whitespace(bytes, next);
        if at >= bytes.len() {
            return Err(found(SyntaxErrorKind::ExpectedCloseBrace, bytes, at));
        }
        if bytes[at] == CLOSE_BRACE {
            let closed = Block { stmts: done, span: Span::new(open, at + 1) };
            proof {
                assert(closed@.stmts =~= models(closed.stmts@));
            }
            return Ok((closed, at + 1));
        }
        let (read, after) = match stmt(src, at) {
            Ok(read) => read,
            Err(e) => { return Err(e); },
        };
        let ghost before = models(done@);
        done.push(read);
        proof {
            assert(models(done@) =~= before.push(read@));
        }
        let end = skip_whitespace(bytes, after);
        if end < bytes.len() && bytes[end] == SEMICOLON {
            next = end + 1;
        } else if end < bytes.len() && bytes[end] == CLOSE_BRACE {
            let closed = Block { stmts: done, span: Span::new(open, end + 1) };
            proof {
                assert(closed@.stmts =~= models(closed.stmts@));
            }
            return Ok((closed, end + 1));
        } else {
            return Err(found(SyntaxErrorKind::ExpectedSemicolon, bytes, end));
        }
    }
}

/// The type of a parameter or of a result: a name.
pub fn ty<'a>(src: &'a str, i: usize) -> (r: Result<(Ident<'a>, usize), SyntaxError>)
    requires
        i <= src.spec_bytes().len(),
    ensures
        agrees(r, grammar::ident_at(src.spec_bytes(), i as int)),
        in_text(r, src.spec_bytes(), i as int),
{
    ident(src, i)
}

/// `arg`, after white space: a name, `:` and a type.
pub fn arg<'a>(src: &'a str, i: usize) -> (r: Result<(Arg<'a>, usize), SyntaxError>)
    requires
        i <= src.spec_bytes().len(),
    ensures
        agrees(r, items::arg_at(src.spec_bytes(), i as int)),
        in_text(r, src.spec_bytes(), i as int),
{
    let bytes = src.as_bytes();
    let (name, after_name) = match ident(src, i) {
        Ok(read) => read,
        Err(e) => { return Err(e); },
    };
    let after_colon = match token(bytes, after_name, COLON) {
        Ok(next) => next,
        Err(colon) => { return Err(found(SyntaxErrorKind::ExpectedColon, bytes, colon)); },
    };
    match ty(src, after_colon) {
        Ok((ty, next)) => Ok((Arg { name, ty }, next)),
        Err(e) => Err(e),
    }
}

/// The parameters after `(`, up to `)` and past it.
#[verifier::rlimit(30)]
pub fn args<'a>(src: &'a str, i: usize) -> (r: Result<(Vec<Arg<'a>>, usize), SyntaxError>)
    requires
        i <= src.spec_bytes().len(),
    ensures
        match r {
            Ok((read, next)) => items::args_at(src.spec_bytes(), Seq::empty(), i as int) == Ok::<
                _,
                SyntaxError,
            >((arg_models(read@), next as int)),
            Err(e) => items::args_at(src.spec_bytes(), Seq::empty(), i as int) == Err::<
                (Seq<ArgModel>, int),
                _,
            >(e),
        },
        in_text(r, src.spec_bytes(), i as int),
{
    let bytes = src.as_bytes();
    let ghost s = src.spec_bytes();
    let mut done: Vec<Arg<'a>> = Vec::new();
    let mut next = i;
    proof {
        assert(arg_models(done@) =~= Seq::<ArgModel>::empty());
    }
    loop
        invariant
            s == src.spec_bytes(),
            s == bytes@,
            i <= next <= s.len(),
            items::args_at(s, arg_models(done@), next as int) == items::args_at(
                s,
                Seq::empty(),
                i as int,
            ),
        decreases s.len() - next,
    {
        match token(bytes, next, CLOSE_PAREN) {
            Ok(after) => {
                return Ok((done, after));
            },
            Err(_) => {},
        }
        let (read, after) = match arg(src, next) {
            Ok(read) => read,
            Err(e) => { return Err(e); },
        };
        let ghost before = arg_models(done@);
        done.push(read);
        proof {
            assert(arg_models(done@) =~= before.push(read@));
        }
        let end = skip_whitespace(bytes, after);
        if end < bytes.len() && bytes[end] == COMMA {
            next = end + 1;
        } else if end < bytes.len() && bytes[end] == CLOSE_PAREN {
            return Ok((done, end + 1));
        } else {
            return Err(found(SyntaxErrorKind::ExpectedCloseParen, bytes, end));
        }
    }
}

/// The return type after the parameters: `->` and a type, or nothing.
pub fn return_type<'a>(src: &'a str, i: usize) -> (r: Result<
    (Option<Ident<'a>>, usize),
    SyntaxError,
>)
    requires
        i <= src.spec_bytes().len(),
    ensures
        annotated(r, items::return_type_at(src.spec_bytes(), i as int)),
        in_text(r, src.spec_bytes(), i as int),
{
    let bytes = src.as_bytes();
    let at = skip_whitespace(bytes, i);
    if bytes.len() - at >= 2 && bytes[at] == MINUS && bytes[at + 1] == GREATER {
        match ty(src, at + 2) {
            Ok((ty, next)) => Ok((Some(ty), next)),
            Err(e) => Err(e),
        }
    } else {
        Ok((None, i))
    }
}

/// `fn`, after white space: a function declaration.
#[verifier::rlimit(30)]
pub fn function<'a>(src: &'a str, i: usize) -> (r: Result<(Fn<'a>, usize), SyntaxError>)
    requires
        i <= src.spec_bytes().len(),
    ensures
        agrees(r, items::fn_at(src.spec_bytes(), i as int)),
        in_text(r, src.spec_bytes(), i as int),
        r matches Ok((_, next)) ==> i < next,
{
    let bytes = src.as_bytes();
    let at = skip_whitespace(bytes, i);
    if !(bytes.len() - at >= 2 && bytes[at] == 0x66 && bytes[at + 1] == 0x6e) {
        return Err(found(SyntaxErrorKind::ExpectedFn, bytes, at));
    }
    let (name, after_name) = match ident(src, at + 2) {
        Ok(read) => read,
        Err(e) => { return Err(e); },
    };
    let after_open = match token(bytes, after_name, OPEN_PAREN) {
        Ok(next) => next,
        Err(open) => { return Err(found(SyntaxErrorKind::ExpectedOpenParen, bytes, open)); },
    };
    let (args, after_args) = match args(src, after_open) {
        Ok(read) => read,
        Err(e) => { return Err(e); },
    };
    let (return_type, after_type) = match return_type(src, after_args) {
        Ok(read) => read,
        Err(e) => { return Err(e); },
    };
    match block(src, after_type) {
        Ok((body, next)) => Ok((Fn { name, args, return_type, body }, next)),
        Err(e) => Err(e),
    }
}

/// `item`, after white space.
pub fn item<'a>(src: &'a str, i: usize) -> (r: Result<(Item<'a>, usize), SyntaxError>)
    requires
        i <= src.spec_bytes().len(),
    ensures
        agrees(r, items::item_at(src.spec_bytes(), i as int)),
        in_text(r, src.spec_bytes(), i as int),
        r matches Ok((_, next)) ==> i < next,
{
    match function(src, i) {
        Ok((function, next)) => Ok((Item::Fn(function), next)),
        Err(e) => Err(e),
    }
}

/// Parses a whole file: function declarations, with nothing but white space
/// around them.
///
/// The result is the file that [`items::file_of`] reads from the bytes of
/// `input`, or the one violation of the grammar that it meets first, whose
/// span lies in the text.
#[verifier::rlimit(30)]
pub fn file<'a>(input: &'a str) -> (r: Result<File<'a>, Vec<SyntaxError>>)
    ensures
        match r {
            Ok(read) => items::file_of(input.spec_bytes()) == Ok::<_, SyntaxError>(read@),
            Err(errors) => {
                &&& errors@.len() == 1
                &&& items::file_of(input.spec_bytes()) is Err
                &&& items::file_of(input.spec_bytes())->Err_0 == errors@[0]
                &&& errors@[0].span.within(input.spec_bytes().len())
            },
        },
{
    let bytes = input.as_bytes();
    let ghost s = input.spec_bytes();
    let mut done: Vec<Item<'a>> = Vec::new();
    let mut next: usize = 0;
    proof {
        assert(item_models(done@) =~= Seq::<ItemModel>::empty());
    }
    loop
        invariant
            s == input.spec_bytes(),
            s == bytes@,
            next <= s.len(),
            items::items_at(s, item_models(done@), next as int) == items::items_at(
                s,
                Seq::empty(),
                0,
            ),
        decreases s.len() - next,
    {
        let at = skip_whitespace(bytes, next);
        if at >= bytes.len() {
            return Ok(File { items: done });
        }
        match item(input, next) {
            Ok((read, after)) => {
                let ghost before = item_models(done@);
                done.push(read);
                proof {
                    assert(item_models(done@) =~= before.push(read@));
                }
                next = after;
            },
            Err(e) => {
                let mut errors = Vec::new();
                errors.push(e);
                return Err(errors);
            },
        }
    }
}

/// Parses a whole program: a block, with nothing but white space around it.
///
/// The result is the block that [`grammar::program`] reads from the bytes of
/// `input`, or the one violation of the grammar that it meets first, whose
/// span lies in the text. The block is tidy: its spans lie in the text, where
/// the text of their nodes stands, and its names are identifiers.
pub fn parse<'a>(input: &'a str) -> (r: Result<Block<'a>, Vec<SyntaxError>>)
    ensures
        match r {
            Ok(top) => {
                &&& grammar::program(input.spec_bytes()) == Ok::<_, SyntaxError>(top@)
                &&& top@.tidy(grammar::span(0, input.spec_bytes().len() as int))
            },
            Err(errors) => {
                &&& errors@.len() == 1
                &&& grammar::program(input.spec_bytes()) is Err
                &&& grammar::program(input.spec_bytes())->Err_0 == errors@[0]
                &&& errors@[0].span.within(input.spec_bytes().len())
            },
        },
{
    let bytes = input.as_bytes();
    proof {
        assert(bytes@.len() <= usize::MAX) by {
            assert(bytes.len() == bytes@.len());
        }
        shape::lemma_program_shape(input.spec_bytes());
    }
    let failure = match block(input, 0) {
        Ok((top, next)) => {
            let end = skip_whitespace(bytes, next);
            if end >= bytes.len() {
                return Ok(top);
            }
            found(SyntaxErrorKind::ExpectedEndOfInput, bytes, end)
        },
        Err(e) => e,
    };
    let mut errors = Vec::new();
    errors.push(failure);
    Err(errors)
}

} // verus!
