//! The whole front end: from source text to target text, or to the
//! diagnostics of the first stage that fails.

use vstd::prelude::*;
use vstd::string::StringSliceAdditionalSpecFns;

use crate::js;
use crate::js::block::write_block;
use crate::js::layout::{block_text, deeper, expr_text, stmt_text, stmts_text};
use crate::parser::grammar::{
    ahead, atom_at, block_at, byte_at, expr_at, integer_at, product_at, product_rest, program,
    span, stmt_at, stmts_at, sum_at, sum_rest, unary_at,
};
use crate::parser::lexer::{
    lemma_canonical_numeral, lemma_digits_run, lemma_token_starts_after,
    lemma_token_starts_here,
};
use crate::parser::lexical::{
    ascii_text, digits_value, is_digit, keyword_at, let_keyword, token_start, CLOSE_BRACE,
    OPEN_BRACE, SEMICOLON, ZERO,
};
use crate::parser::error::SyntaxError;
use crate::parser::parse;
use crate::syntax::block::BlockModel;
use crate::syntax::expr::ExprModel;
use crate::syntax::stmt::StmtModel;
use crate::text::decimal;
use crate::trans::lowering::{lower_stmt, lower_stmts};
use crate::trans::scopes::ScopeModel;
use crate::report::{parse_err, syntax, Diagnostic, DiagnosticModel};
use crate::syntax::span::Span;
use crate::trans::lowering::lower_block;
use crate::trans::scopes::empty_scope;
use crate::trans::Trans;

verus! {

/// The target text of the program that the bytes `s` spell: the program is
/// read, lowered in the scope of its top-level block and laid out at the left
/// margin. A stage that fails ends the run with its diagnostic.
pub open spec fn compiled(s: Seq<u8>) -> Result<Seq<char>, Seq<DiagnosticModel>> {
    match program(s) {
        Err(e) => Err(seq![syntax(e)]),
        Ok(top) => match lower_block(top, seq![empty_scope(span(0, s.len() as int))]).0 {
            Err(d) => Err(seq![d]),
            Ok(lowered) => Ok(block_text(lowered, Seq::empty())),
        },
    }
}

/// The models of the diagnostics, in their order.
pub open spec fn reports(diagnostics: Seq<Diagnostic>) -> Seq<DiagnosticModel> {
    Seq::new(diagnostics.len(), |i: int| diagnostics[i]@)
}

/// Compiles a program: parses `input`, lowers the tree and renders the
/// result. On failure it returns the diagnostics of the stage that failed,
/// and no text.
pub fn compile(input: &str) -> (r: Result<String, Vec<Diagnostic>>)
    ensures
        match r {
            Ok(text) => compiled(input.spec_bytes()) == Ok::<_, Seq<DiagnosticModel>>(text@),
            Err(diagnostics) => compiled(input.spec_bytes()) == Err::<Seq<char>, _>(
                reports(diagnostics@),
            ),
        },
{
    let top = match parse(input) {
        Ok(top) => top,
        Err(errors) => {
            let mut diagnostics: Vec<Diagnostic> = Vec::new();
            diagnostics.push(parse_err(errors[0]));
            proof {
                assert(reports(diagnostics@) =~= seq![syntax(errors@[0])]);
            }
            return Err(diagnostics);
        },
    };
    let mut trans = Trans::new(Span::new(0, input.len()));
    match trans.trans_block(&top) {
        Ok(lowered) => {
            let mut text = String::new();
            write_block(&lowered, "", &mut text);
            proof {
                reveal_strlit("");
                assert(""@ =~= Seq::<char>::empty());
                assert(text@ =~= block_text(lowered@, Seq::empty()));
            }
            Ok(text)
        },
        Err(d) => {
            let mut diagnostics: Vec<Diagnostic> = Vec::new();
            proof {
                assert(reports(diagnostics@.push(d)) =~= seq![d@]);
            }
            diagnostics.push(d);
            Err(diagnostics)
        },
    }
}

/// The bytes of the program `{ N; }`, where `digits` spells `N`.
pub open spec fn integer_program(digits: Seq<u8>) -> Seq<u8> {
    seq![OPEN_BRACE, 0x20u8] + digits + seq![SEMICOLON, 0x20u8, CLOSE_BRACE]
}

/// An integer literal that a semicolon follows is read as an expression, and
/// as a statement, that ends before the semicolon.
#[verifier::rlimit(30)]
proof fn lemma_literal_statement(s: Seq<u8>, at: int, n: int)
    requires
        0 <= at,
        0 < n,
        at + n < s.len(),
        forall|k: int| at <= k < at + n ==> is_digit(#[trigger] s[k]),
        s[at + n] == SEMICOLON,
        digits_value(s.subrange(at, at + n)) <= i32::MAX,
    ensures
        stmt_at(s, at) == Ok::<_, SyntaxError>(
            (
                StmtModel::Expr(ExprModel::Int(digits_value(s.subrange(at, at + n)) as int)),
                at + n,
            ),
        ),
{
    let literal = ExprModel::Int(digits_value(s.subrange(at, at + n)) as int);
    assert(is_digit(s[at]));
    lemma_token_starts_here(s, at);
    lemma_token_starts_here(s, at + n);
    lemma_digits_run(s, at, n as nat);
    assert(atom_at(s, at) == Ok::<_, SyntaxError>((literal, at + n))) by {
        assert(integer_at(s, at) == Ok::<_, SyntaxError>(
            (literal, at + n),
        ));
    }
    assert(unary_at(s, at) == atom_at(s, at));
    assert(product_at(s, at) == Ok::<_, SyntaxError>((literal, at + n))) by {
        assert(product_rest(s, literal, at + n) == Ok::<_, SyntaxError>(
            (literal, at + n),
        ));
        assert(ahead(s, at, at + n));
    }
    assert(sum_at(s, at) == Ok::<_, SyntaxError>((literal, at + n))) by {
        assert(sum_rest(s, literal, at + n) == Ok::<_, SyntaxError>(
            (literal, at + n),
        ));
        assert(ahead(s, at, at + n));
    }
    assert(expr_at(s, at) == sum_at(s, at));
    assert(!keyword_at(s, at, let_keyword())) by {
        reveal(keyword_at);
        if at + 3 <= s.len() {
            assert(s.subrange(at, at + 3)[0] == s[at]);
            assert(let_keyword()[0] == 0x6c);
        }
    }
}

/// The program `{ N; }` is read as the single statement `N`, for every
/// integer literal `N` that fits in 32 bits with a sign.
#[verifier::rlimit(30)]
pub proof fn lemma_integer_program_parses(digits: Seq<u8>)
    requires
        digits.len() > 0,
        forall|k: int| 0 <= k < digits.len() ==> is_digit(#[trigger] digits[k]),
        digits_value(digits) <= i32::MAX,
    ensures
        program(integer_program(digits)) == Ok::<_, SyntaxError>(
            BlockModel {
                stmts: seq![StmtModel::Expr(ExprModel::Int(digits_value(digits) as int))],
                span: span(0, (digits.len() + 5) as int),
            },
        ),
{
    let s = integer_program(digits);
    let n = digits.len() as int;
    let only = StmtModel::Expr(ExprModel::Int(digits_value(digits) as int));
    assert(s.len() == n + 5);
    assert(s[0] == OPEN_BRACE && s[1] == 0x20 && s[n + 2] == SEMICOLON && s[n + 3] == 0x20 && s[n
        + 4] == CLOSE_BRACE);
    assert forall|k: int| 2 <= k < 2 + n implies is_digit(#[trigger] s[k]) by {
        assert(s[k] == digits[k - 2]);
    }
    assert(s.subrange(2, 2 + n) =~= digits);
    lemma_literal_statement(s, 2, n);
    assert(token_start(s, 0) == 0 && token_start(s, 1) == 2 && token_start(s, n + 2) == n + 2
        && token_start(s, n + 3) == n + 4 && token_start(s, n + 5) == n + 5) by {
        assert(is_digit(s[2]));
        lemma_token_starts_here(s, 0);
        lemma_token_starts_after(s, 1, 1);
        lemma_token_starts_here(s, 2);
        lemma_token_starts_here(s, n + 2);
        lemma_token_starts_after(s, n + 3, 1);
        lemma_token_starts_here(s, n + 4);
        lemma_token_starts_here(s, n + 5);
    }
    assert(stmts_at(s, seq![only], n + 3) == Ok::<_, SyntaxError>(
        (seq![only], n + 5),
    ));
    assert(stmts_at(s, Seq::empty(), 1) == stmts_at(s, seq![only], n + 3)) by {
        assert(Seq::<StmtModel>::empty().push(only) =~= seq![only]);
        assert(byte_at(s, n + 2, SEMICOLON));
        assert(ahead(s, 2, n + 2));
    }
    assert(block_at(s, 0) == Ok::<_, SyntaxError>(
        (BlockModel { stmts: seq![only], span: span(0, n + 5) }, n + 5),
    ));
}

/// A block whose one statement is the literal `value` is lowered to a block
/// whose one statement is the number `value`.
#[verifier::rlimit(30)]
proof fn lemma_literal_block_lowers(value: int, span: Span, scopes: Seq<ScopeModel>)
    ensures
        lower_block(
            BlockModel { stmts: seq![StmtModel::Expr(ExprModel::Int(value))], span },
            scopes,
        ).0 == Ok::<_, DiagnosticModel>(
            js::BlockModel { stmts: seq![js::StmtModel::Expr(js::ExprModel::Number(value))] },
        ),
{
    let only = StmtModel::Expr(ExprModel::Int(value));
    let stmts = seq![only];
    let lowered = js::StmtModel::Expr(js::ExprModel::Number(value));
    assert(stmts.first() == only);
    assert(stmts.drop_first() =~= Seq::<StmtModel>::empty());
    assert(lower_stmt(only, scopes) == (Ok::<_, DiagnosticModel>(lowered), scopes));
    assert(Seq::<js::StmtModel>::empty().push(lowered) =~= seq![lowered]);
    assert(lower_stmts(Seq::empty(), seq![lowered], scopes) == (
        Ok::<_, DiagnosticModel>(seq![lowered]),
        scopes,
    ));
    assert(lower_stmts(stmts, Seq::empty(), scopes) == (
        Ok::<_, DiagnosticModel>(seq![lowered]),
        scopes,
    ));
}

/// The text of a block whose one statement is the number `value`, which is
/// not negative.
#[verifier::rlimit(30)]
proof fn lemma_literal_block_text(value: nat)
    ensures
        block_text(
            js::BlockModel { stmts: seq![js::StmtModel::Expr(js::ExprModel::Number(value as int))] },
            Seq::empty(),
        ) == "{\n"@ + "    "@ + decimal(value) + ";\n"@ + "}\n"@,
{
    let lowered = js::StmtModel::Expr(js::ExprModel::Number(value as int));
    let margin = deeper(Seq::<char>::empty());
    assert(margin =~= "    "@);
    assert(expr_text(js::ExprModel::Number(value as int)) == decimal(value));
    assert(stmt_text(lowered, margin) == margin + decimal(value) + ";\n"@);
    assert(seq![lowered].drop_last() =~= Seq::<js::StmtModel>::empty());
    assert(seq![lowered].last() == lowered);
    assert(stmts_text(Seq::empty(), margin) =~= Seq::<char>::empty());
    assert(stmts_text(seq![lowered], margin) =~= "    "@ + decimal(value) + ";\n"@);
    assert(block_text(js::BlockModel { stmts: seq![lowered] }, Seq::empty()) =~= "{\n"@ + "    "@
        + decimal(value) + ";\n"@ + "}\n"@);
}

/// Parsing and rendering the program `{ N; }` reproduces `N`, for every
/// integer literal `N` that fits in 32 bits with a sign: the target text
/// holds the one statement `N;`, with the number that `N` spells written in
/// base ten, and where `N` has no leading zero these are the digits of `N`
/// themselves.
pub proof fn lemma_integer_literal_round_trip(digits: Seq<u8>)
    requires
        digits.len() > 0,
        forall|k: int| 0 <= k < digits.len() ==> is_digit(#[trigger] digits[k]),
        digits_value(digits) <= i32::MAX,
    ensures
        compiled(integer_program(digits)) == Ok::<_, Seq<DiagnosticModel>>(
            "{\n"@ + "    "@ + decimal(digits_value(digits)) + ";\n"@ + "}\n"@,
        ),
        digits.len() == 1 || digits[0] != ZERO ==> decimal(digits_value(digits)) == ascii_text(
            digits,
        ),
{
    let s = integer_program(digits);
    let value = digits_value(digits);
    lemma_integer_program_parses(digits);
    lemma_literal_block_lowers(
        value as int,
        span(0, (digits.len() + 5) as int),
        seq![empty_scope(span(0, s.len() as int))],
    );
    lemma_literal_block_text(value);
    if digits.len() == 1 || digits[0] != ZERO {
        lemma_canonical_numeral(digits);
    }
}

} // verus!
