//! What every parse yields: it ends inside the text, after where it started,
//! and its tree is tidy: names are identifiers and spans lie where the text
//! of their nodes stands.

use vstd::prelude::*;

use crate::parser::grammar::{
    annotation, atom_at, block_at, expr_at, ident_at, let_at, name_at, product_at, product_rest,
    program, span, stmt_at, stmts_at, sum_at, sum_rest, unary_at,
};
use crate::parser::lexer::{
    lemma_digits_len_bounds, lemma_ident_len_bounds, lemma_token_start_bounds,
};
use crate::parser::lexical::{
    ascii_text, ident_len, is_digit, is_ident_continue, is_ident_start, keyword_at, let_keyword,
    token_start, CLOSE_BRACE, MINUS, OPEN_BRACE, OPEN_PAREN, PLUS, SEMICOLON, SLASH, STAR,
};
use crate::syntax::expr::ExprModel;
use crate::syntax::ident::{is_ident_continue_char, is_identifier};
use crate::syntax::span::Span;
use crate::syntax::stmt::StmtModel;

verus! {

/// True when `outer` covers the text from `from` to `next`.
pub open spec fn covers(outer: Span, from: int, next: int) -> bool {
    outer.start <= from && next <= outer.end
}

/// The bytes of an identifier spell an identifier.
pub proof fn lemma_name_is_identifier(s: Seq<u8>, at: int)
    requires
        0 <= at < s.len(),
        is_ident_start(s[at]),
    ensures
        is_identifier(name_at(s, at, at + ident_len(s, at))),
        at < at + ident_len(s, at) <= s.len(),
{
    reveal(name_at);
    lemma_ident_len_bounds(s, at);
    let end = at + ident_len(s, at);
    let part = s.subrange(at, end);
    let text = ascii_text(part);
    assert forall|k: int| 0 <= k < text.len() implies is_ident_continue_char(#[trigger] text[k]) by {
        assert(is_ident_continue(s[at + k]));
        assert(part[k] == s[at + k]);
    }
    assert(part[0] == s[at]);
}

/// `ident` ends inside the text and yields an identifier.
pub proof fn lemma_ident_shape(s: Seq<u8>, i: int)
    requires
        0 <= i <= s.len(),
    ensures
        ident_at(s, i) matches Ok((name, next)) ==> i < next <= s.len() && is_identifier(name),
{
    lemma_token_start_bounds(s, i);
    let at = token_start(s, i);
    if at < s.len() && is_ident_start(s[at]) {
        lemma_name_is_identifier(s, at);
    }
}

/// `atom` ends inside the text, after at least one byte, and yields a tidy
/// expression.
#[verifier::rlimit(30)]
pub proof fn lemma_atom_shape(s: Seq<u8>, i: int, outer: Span)
    requires
        0 <= i <= s.len() <= usize::MAX,
    ensures
        atom_at(s, i) matches Ok((value, next)) ==> i < next <= s.len() && (covers(outer, i, next)
            ==> value.tidy(outer)),
    decreases s.len() - i, 3int,
{
    lemma_token_start_bounds(s, i);
    let at = token_start(s, i);
    if at < s.len() {
        if s[at] == OPEN_BRACE {
            lemma_block_shape(s, at, outer);
        } else if is_digit(s[at]) {
            lemma_digits_len_bounds(s, at);
        } else if s[at] == OPEN_PAREN {
            lemma_expr_shape(s, at + 1, outer);
            if let Ok((_, next)) = expr_at(s, at + 1) {
                lemma_token_start_bounds(s, next);
            }
        } else if is_ident_start(s[at]) {
            lemma_name_is_identifier(s, at);
        }
    }
}

/// `unary` ends inside the text, after at least one byte, and yields a tidy
/// expression.
pub proof fn lemma_unary_shape(s: Seq<u8>, i: int, outer: Span)
    requires
        0 <= i <= s.len() <= usize::MAX,
    ensures
        unary_at(s, i) matches Ok((value, next)) ==> i < next <= s.len() && (covers(outer, i, next)
            ==> value.tidy(outer)),
    decreases s.len() - i, 4int,
{
    lemma_token_start_bounds(s, i);
    let at = token_start(s, i);
    if at < s.len() && s[at] == MINUS {
        lemma_unary_shape(s, at + 1, outer);
    } else {
        lemma_atom_shape(s, i, outer);
    }
}

/// What follows the first operand of a `product` ends inside the text and
/// keeps the expression tidy.
pub proof fn lemma_product_rest_shape(s: Seq<u8>, lhs: ExprModel, i: int, outer: Span)
    requires
        0 <= i <= s.len() <= usize::MAX,
    ensures
        product_rest(s, lhs, i) matches Ok((value, next)) ==> i <= next <= s.len() && (lhs.tidy(
            outer,
        ) && covers(outer, i, next) ==> value.tidy(outer)),
    decreases s.len() - i, 5int,
{
    lemma_token_start_bounds(s, i);
    let at = token_start(s, i);
    if at < s.len() && (s[at] == STAR || s[at]
        == SLASH) {
        lemma_unary_shape(s, at + 1, outer);
        if let Ok((rhs, next)) = unary_at(s, at + 1) {
            let joined = if s[at] == STAR {
                ExprModel::Mul(Box::new(lhs), Box::new(rhs))
            } else {
                ExprModel::Div(Box::new(lhs), Box::new(rhs))
            };
            lemma_product_rest_shape(s, joined, next, outer);
        }
    }
}

/// `product` ends inside the text, after at least one byte, and yields a
/// tidy expression.
pub proof fn lemma_product_shape(s: Seq<u8>, i: int, outer: Span)
    requires
        0 <= i <= s.len() <= usize::MAX,
    ensures
        product_at(s, i) matches Ok((value, next)) ==> i < next <= s.len() && (covers(
            outer,
            i,
            next,
        ) ==> value.tidy(outer)),
    decreases s.len() - i, 6int,
{
    lemma_unary_shape(s, i, outer);
    if let Ok((lhs, next)) = unary_at(s, i) {
        lemma_product_rest_shape(s, lhs, next, outer);
    }
}

/// What follows the first operand of a `sum` ends inside the text and keeps
/// the expression tidy.
pub proof fn lemma_sum_rest_shape(s: Seq<u8>, lhs: ExprModel, i: int, outer: Span)
    requires
        0 <= i <= s.len() <= usize::MAX,
    ensures
        sum_rest(s, lhs, i) matches Ok((value, next)) ==> i <= next <= s.len() && (lhs.tidy(outer)
            && covers(outer, i, next) ==> value.tidy(outer)),
    decreases s.len() - i, 7int,
{
    lemma_token_start_bounds(s, i);
    let at = token_start(s, i);
    if at < s.len() && (s[at] == PLUS || s[at]
        == MINUS) {
        lemma_product_shape(s, at + 1, outer);
        if let Ok((rhs, next)) = product_at(s, at + 1) {
            let joined = if s[at] == PLUS {
                ExprModel::Add(Box::new(lhs), Box::new(rhs))
            } else {
                ExprModel::Sub(Box::new(lhs), Box::new(rhs))
            };
            lemma_sum_rest_shape(s, joined, next, outer);
        }
    }
}

/// `sum` ends inside the text, after at least one byte, and yields a tidy
/// expression.
pub proof fn lemma_sum_shape(s: Seq<u8>, i: int, outer: Span)
    requires
        0 <= i <= s.len() <= usize::MAX,
    ensures
        sum_at(s, i) matches Ok((value, next)) ==> i < next <= s.len() && (covers(outer, i, next)
            ==> value.tidy(outer)),
    decreases s.len() - i, 8int,
{
    lemma_product_shape(s, i, outer);
    if let Ok((lhs, next)) = product_at(s, i) {
        lemma_sum_rest_shape(s, lhs, next, outer);
    }
}

/// `expr` ends inside the text, after at least one byte, and yields a tidy
/// expression.
pub proof fn lemma_expr_shape(s: Seq<u8>, i: int, outer: Span)
    requires
        0 <= i <= s.len() <= usize::MAX,
    ensures
        expr_at(s, i) matches Ok((value, next)) ==> i < next <= s.len() && (covers(outer, i, next)
            ==> value.tidy(outer)),
    decreases s.len() - i, 9int,
{
    lemma_sum_shape(s, i, outer);
}

/// `let` ends inside the text and yields a tidy binding.
#[verifier::rlimit(30)]
pub proof fn lemma_let_shape(s: Seq<u8>, i: int, outer: Span)
    requires
        0 <= i,
        i + 3 <= s.len() <= usize::MAX,
    ensures
        let_at(s, i) matches Ok((binding, next)) ==> i < next <= s.len() && (covers(outer, i, next)
            ==> binding.tidy(outer)),
    decreases s.len() - i, 10int,
{
    lemma_ident_shape(s, i + 3);
    if let Ok((name, after_name)) = ident_at(s, i + 3) {
        lemma_token_start_bounds(s, after_name);
        let colon = token_start(s, after_name);
        if colon < s.len() {
            lemma_ident_shape(s, colon + 1);
        }
        if let Ok((ty, after_ty)) = annotation(s, after_name) {
            lemma_token_start_bounds(s, after_ty);
            let eq = token_start(s, after_ty);
            if eq < s.len() {
                lemma_expr_shape(s, eq + 1, outer);
            }
        }
    }
}

/// `let | expr` ends inside the text, after at least one byte, and yields a
/// tidy statement.
pub proof fn lemma_stmt_shape(s: Seq<u8>, i: int, outer: Span)
    requires
        0 <= i <= s.len() <= usize::MAX,
    ensures
        stmt_at(s, i) matches Ok((value, next)) ==> i < next <= s.len() && (covers(outer, i, next)
            ==> value.tidy(outer)),
    decreases s.len() - i, 11int,
{
    if keyword_at(s, i, let_keyword()) {
        reveal(keyword_at);
        lemma_let_shape(s, i, outer);
    } else {
        lemma_expr_shape(s, i, outer);
    }
}

/// `stmt* '}'` ends inside the text, after at least one byte, keeps the
/// statements read so far and adds tidy ones.
#[verifier::rlimit(30)]
pub proof fn lemma_stmts_shape(s: Seq<u8>, done: Seq<StmtModel>, i: int, outer: Span)
    requires
        0 <= i <= s.len() <= usize::MAX,
    ensures
        stmts_at(s, done, i) matches Ok((all, next)) ==> {
            &&& i < next <= s.len()
            &&& all.len() >= done.len()
            &&& all.take(done.len() as int) == done
            &&& covers(outer, i, next) ==> forall|k: int|
                done.len() <= k < all.len() ==> (#[trigger] all[k]).tidy(outer)
        },
    decreases s.len() - i, 12int,
{
    lemma_token_start_bounds(s, i);
    let at = token_start(s, i);
    if at < s.len() {
        if s[at] == CLOSE_BRACE {
            assert(done.take(done.len() as int) =~= done);
        } else {
            lemma_stmt_shape(s, at, outer);
            if let Ok((read, next)) = stmt_at(s, at) {
                lemma_token_start_bounds(s, next);
                let end = token_start(s, next);
                let more = done.push(read);
                if end < s.len() && s[end] == SEMICOLON {
                    lemma_stmts_shape(s, more, end + 1, outer);
                    if let Ok((all, last)) = stmts_at(s, more, end + 1) {
                        assert(all.take(done.len() as int) =~= all.take(more.len() as int).take(
                            done.len() as int,
                        ));
                        assert(all.take(done.len() as int) =~= done);
                        assert(all[done.len() as int] == all.take(more.len() as int)[done.len() as int]);
                    }
                } else if end < s.len() && s[end] == CLOSE_BRACE {
                    assert(more.take(done.len() as int) =~= done);
                }
            }
        }
    }
}

/// `block` ends inside the text, after at least one byte, and yields a tidy
/// block, whose span runs from its opening brace to the end of the parse.
#[verifier::rlimit(30)]
pub proof fn lemma_block_shape(s: Seq<u8>, i: int, outer: Span)
    requires
        0 <= i <= s.len() <= usize::MAX,
    ensures
        block_at(s, i) matches Ok((value, next)) ==> {
            &&& i < next <= s.len()
            &&& value.span == span(token_start(s, i), next)
            &&& covers(outer, i, next) ==> value.tidy(outer)
        },
    decreases s.len() - i, 2int,
{
    lemma_token_start_bounds(s, i);
    let at = token_start(s, i);
    if at < s.len() && s[at] == OPEN_BRACE {
        if let Ok((body, next)) = stmts_at(s, Seq::empty(), at + 1) {
            lemma_stmts_shape(s, Seq::empty(), at + 1, span(at, next));
        }
    }
}

/// Every program that parses is tidy inside the text: all spans lie in the
/// text, every block holds what stands between its braces, and every name is
/// an identifier.
pub proof fn lemma_program_shape(s: Seq<u8>)
    requires
        s.len() <= usize::MAX,
    ensures
        program(s) matches Ok(top) ==> top.tidy(span(0, s.len() as int)),
{
    lemma_block_shape(s, 0, span(0, s.len() as int));
}

} // verus!
