use jester_script::parser;
use jester_script::parser::{SyntaxError, SyntaxErrorKind};
use jester_script::syntax::{Arg, Block, Expr, File, Fn, Ident, Item, Span, Stmt};

fn file_error(input: &str) -> SyntaxError {
    let errors = parser::file(input).unwrap_err();
    assert_eq!(errors.len(), 1);
    errors[0]
}

#[test]
fn file_of_function_declarations() {
    let read = parser::file("fn main() { 1; }\nfn add(a: int, b: int,) -> int { a + b }").unwrap();
    assert_eq!(
        read,
        File {
            items: vec![
                Item::Fn(Fn {
                    name: Ident::new("main"),
                    args: vec![],
                    return_type: None,
                    body: Block { stmts: vec![Stmt::Expr(Expr::Int(1))], span: Span::new(10, 16) },
                }),
                Item::Fn(Fn {
                    name: Ident::new("add"),
                    args: vec![
                        Arg { name: Ident::new("a"), ty: Ident::new("int") },
                        Arg { name: Ident::new("b"), ty: Ident::new("int") },
                    ],
                    return_type: Some(Ident::new("int")),
                    body: Block {
                        stmts: vec![Stmt::Expr(Expr::Add(
                            Box::new(Expr::Var {
                                name: Ident::new("a"),
                                name_span: Span::new(50, 51)
                            }),
                            Box::new(Expr::Var {
                                name: Ident::new("b"),
                                name_span: Span::new(54, 55)
                            }),
                        ))],
                        span: Span::new(48, 57),
                    },
                }),
            ],
        }
    );
}

#[test]
fn empty_file_has_no_items() {
    assert_eq!(parser::file("").unwrap(), File { items: vec![] });
    assert_eq!(parser::file(" \n\t").unwrap(), File { items: vec![] });
}

#[test]
fn fn_is_matched_letter_by_letter() {
    let read = parser::file("fnmain(){}").unwrap();
    match &read.items[0] {
        Item::Fn(function) => assert_eq!(function.name.as_str(), "main"),
    }
}

#[test]
fn file_violations_carry_kind_and_span() {
    let error = |kind, start, end| SyntaxError { kind, span: Span::new(start, end) };
    assert_eq!(file_error("x"), error(SyntaxErrorKind::ExpectedFn, 0, 1));
    assert_eq!(file_error("f"), error(SyntaxErrorKind::ExpectedFn, 0, 1));
    assert_eq!(file_error("fn f(){} {"), error(SyntaxErrorKind::ExpectedFn, 9, 10));
    assert_eq!(file_error("fn (){}"), error(SyntaxErrorKind::ExpectedIdentifier, 3, 4));
    assert_eq!(file_error("fn f {}"), error(SyntaxErrorKind::ExpectedOpenParen, 5, 6));
    assert_eq!(file_error("fn f(a) {}"), error(SyntaxErrorKind::ExpectedColon, 6, 7));
    assert_eq!(file_error("fn f(a: ) {}"), error(SyntaxErrorKind::ExpectedIdentifier, 8, 9));
    assert_eq!(file_error("fn f(a: t b: t) {}"), error(SyntaxErrorKind::ExpectedCloseParen, 10, 11));
    assert_eq!(file_error("fn f(,) {}"), error(SyntaxErrorKind::ExpectedIdentifier, 5, 6));
    assert_eq!(file_error("fn f(a: t,,) {}"), error(SyntaxErrorKind::ExpectedIdentifier, 10, 11));
    assert_eq!(file_error("fn f() -> {}"), error(SyntaxErrorKind::ExpectedIdentifier, 10, 11));
    assert_eq!(file_error("fn f() - {}"), error(SyntaxErrorKind::ExpectedOpenBrace, 7, 8));
    assert_eq!(file_error("fn f()"), error(SyntaxErrorKind::ExpectedOpenBrace, 6, 6));
    assert_eq!(file_error("fn f() { 1 2 }"), error(SyntaxErrorKind::ExpectedSemicolon, 11, 12));
}
