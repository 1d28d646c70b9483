use jester_script::parser::{parse, SyntaxError, SyntaxErrorKind};
use jester_script::syntax::{Block, Expr, Ident, Let, Span, Stmt};

fn lit(n: i32) -> Box<Expr<'static>> {
    Box::new(Expr::Int(n))
}

fn var(name: &'static str, start: usize) -> Expr<'static> {
    Expr::Var { name: Ident::new(name), name_span: Span::new(start, start + name.len()) }
}

fn only_stmt<'a>(input: &'a str) -> Stmt<'a> {
    let mut top = parse(input).unwrap();
    assert_eq!(top.stmts.len(), 1);
    top.stmts.pop().unwrap()
}

fn only_error(input: &str) -> SyntaxError {
    let errors = parse(input).unwrap_err();
    assert_eq!(errors.len(), 1);
    errors[0]
}

fn error(kind: SyntaxErrorKind, start: usize, end: usize) -> SyntaxError {
    SyntaxError { kind, span: Span::new(start, end) }
}

#[test]
fn product_binds_tighter_than_sum() {
    let top = parse("{ 1 + 2 * 3; }").unwrap();
    assert_eq!(
        top,
        Block {
            stmts: vec![Stmt::Expr(Expr::Add(lit(1), Box::new(Expr::Mul(lit(2), lit(3)))))],
            span: Span::new(0, 14),
        }
    );
    assert_eq!(
        only_stmt("{ 2 * 3 + 1 }"),
        Stmt::Expr(Expr::Add(Box::new(Expr::Mul(lit(2), lit(3))), lit(1)))
    );
}

#[test]
fn parentheses_keep_their_grouping() {
    assert_eq!(
        only_stmt("{ (1 + 2) * 3; }"),
        Stmt::Expr(Expr::Mul(Box::new(Expr::Parens(Box::new(Expr::Add(lit(1), lit(2))))), lit(3)))
    );
}

#[test]
fn binary_operators_associate_to_the_left() {
    assert_eq!(
        only_stmt("{ 1 - 2 - 3; }"),
        Stmt::Expr(Expr::Sub(Box::new(Expr::Sub(lit(1), lit(2))), lit(3)))
    );
    assert_eq!(
        only_stmt("{ 8 / 4 / 2 }"),
        Stmt::Expr(Expr::Div(Box::new(Expr::Div(lit(8), lit(4))), lit(2)))
    );
    assert_eq!(
        only_stmt("{ 1 + 2 - 3 + 4 }"),
        Stmt::Expr(Expr::Add(
            Box::new(Expr::Sub(Box::new(Expr::Add(lit(1), lit(2))), lit(3))),
            lit(4)
        ))
    );
}

#[test]
fn negation_applies_from_right_to_left() {
    assert_eq!(only_stmt("{ --5; }"), Stmt::Expr(Expr::Neg(Box::new(Expr::Neg(lit(5))))));
    assert_eq!(
        only_stmt("{ -x * 2 }"),
        Stmt::Expr(Expr::Mul(Box::new(Expr::Neg(Box::new(var("x", 3)))), lit(2)))
    );
    assert_eq!(
        only_stmt("{ 1 - -2 }"),
        Stmt::Expr(Expr::Sub(lit(1), Box::new(Expr::Neg(lit(2)))))
    );
    assert_eq!(only_stmt("{ 1--2 }"), Stmt::Expr(Expr::Sub(lit(1), Box::new(Expr::Neg(lit(2))))));
}

#[test]
fn variable_carries_the_span_of_its_name() {
    assert_eq!(only_stmt("{ x; }"), Stmt::Expr(var("x", 2)));
    assert_eq!(only_stmt("{\n  some_name1 }"), Stmt::Expr(var("some_name1", 4)));
    assert_eq!(only_stmt("{ _ }"), Stmt::Expr(var("_", 2)));
}

#[test]
fn let_binding_with_and_without_type() {
    let top = parse("{ let x: int = 1; let y = x }").unwrap();
    assert_eq!(
        top.stmts,
        vec![
            Stmt::Let(Let { name: Ident::new("x"), ty: Some(Ident::new("int")), rhs: Expr::Int(1) }),
            Stmt::Let(Let { name: Ident::new("y"), ty: None, rhs: var("x", 26) }),
        ]
    );
    assert_eq!(top.span, Span::new(0, 29));
}

#[test]
fn let_is_a_keyword_only_at_the_start_of_a_statement() {
    assert_eq!(only_stmt("{ letx; }"), Stmt::Expr(var("letx", 2)));
    assert_eq!(only_stmt("{ let_; }"), Stmt::Expr(var("let_", 2)));
    assert_eq!(only_error("{ let; }"), error(SyntaxErrorKind::ExpectedIdentifier, 5, 6));
    assert_eq!(only_error("{ let + 1; }"), error(SyntaxErrorKind::ExpectedIdentifier, 6, 7));
    assert_eq!(
        only_stmt("{ 1 + let; }"),
        Stmt::Expr(Expr::Add(lit(1), Box::new(var("let", 6))))
    );
    assert_eq!(
        only_stmt("{ let let = 1; }"),
        Stmt::Let(Let { name: Ident::new("let"), ty: None, rhs: Expr::Int(1) })
    );
}

#[test]
fn last_semicolon_of_a_block_is_optional() {
    assert_eq!(parse("{ 1; 2 }").unwrap().stmts, parse("{ 1; 2; }").unwrap().stmts);
    assert_eq!(parse("{ let x = 1 }").unwrap().stmts, parse("{ let x = 1; }").unwrap().stmts);
    assert_eq!(parse("{}").unwrap(), Block { stmts: vec![], span: Span::new(0, 2) });
    assert_eq!(parse(" { } ").unwrap(), Block { stmts: vec![], span: Span::new(1, 4) });
}

#[test]
fn nested_block_is_an_expression_with_its_own_span() {
    let top = parse("{ { let y = 1; }; y; }").unwrap();
    assert_eq!(
        top,
        Block {
            stmts: vec![
                Stmt::Expr(Expr::Block(Block {
                    stmts: vec![Stmt::Let(Let {
                        name: Ident::new("y"),
                        ty: None,
                        rhs: Expr::Int(1)
                    })],
                    span: Span::new(2, 16),
                })),
                Stmt::Expr(var("y", 18)),
            ],
            span: Span::new(0, 22),
        }
    );
}

#[test]
fn block_statement_needs_its_semicolon() {
    assert_eq!(
        only_error("{ { let y = 1; } y; }"),
        error(SyntaxErrorKind::ExpectedSemicolon, 17, 18)
    );
    assert!(parse("{ { let y = 1; } }").is_ok());
}

#[test]
fn white_space_is_skipped_between_tokens() {
    let plain = parse("{let x:t=(1+2)*-y;x}").unwrap();
    let spaced = parse(" {\tlet\nx :\rt = ( 1 + 2 ) * - y ; x } \n").unwrap();
    assert_eq!(plain.stmts.len(), 2);
    assert_eq!(spaced.stmts.len(), 2);
    let wide = parse("\u{00A0}{\u{2003}1\u{3000};\u{0085}\u{1680}\u{2028}\u{205F}}\u{202F}").unwrap();
    assert_eq!(wide.stmts, vec![Stmt::Expr(Expr::Int(1))]);
    assert_eq!(wide.span, Span::new(2, 23));
    assert_eq!(only_error("{ 1\u{200B}; }"), error(SyntaxErrorKind::ExpectedSemicolon, 3, 6));
}

#[test]
fn integer_literal_must_fit_in_32_bits() {
    assert_eq!(only_stmt("{ 2147483647; }"), Stmt::Expr(Expr::Int(i32::MAX)));
    assert_eq!(only_error("{ 2147483648; }"), error(SyntaxErrorKind::IntegerOverflow, 2, 12));
    assert_eq!(
        only_error("{ 99999999999999999999999999999999; }"),
        error(SyntaxErrorKind::IntegerOverflow, 2, 34)
    );
    assert_eq!(only_stmt("{ 0; }"), Stmt::Expr(Expr::Int(0)));
    assert_eq!(only_stmt("{ 007; }"), Stmt::Expr(Expr::Int(7)));
    assert_eq!(
        only_stmt("{ -2147483647 }"),
        Stmt::Expr(Expr::Neg(Box::new(Expr::Int(i32::MAX))))
    );
}

#[test]
fn violations_carry_kind_and_span() {
    assert_eq!(only_error(""), error(SyntaxErrorKind::ExpectedOpenBrace, 0, 0));
    assert_eq!(only_error("1"), error(SyntaxErrorKind::ExpectedOpenBrace, 0, 1));
    assert_eq!(only_error("  x"), error(SyntaxErrorKind::ExpectedOpenBrace, 2, 3));
    assert_eq!(only_error("{"), error(SyntaxErrorKind::ExpectedCloseBrace, 1, 1));
    assert_eq!(only_error("{ 1; "), error(SyntaxErrorKind::ExpectedCloseBrace, 5, 5));
    assert_eq!(only_error("{ 1 "), error(SyntaxErrorKind::ExpectedSemicolon, 4, 4));
    assert_eq!(only_error("{ 1 2 }"), error(SyntaxErrorKind::ExpectedSemicolon, 4, 5));
    assert_eq!(only_error("{ 12abc }"), error(SyntaxErrorKind::ExpectedSemicolon, 4, 5));
    assert_eq!(only_error("{ (1 ; }"), error(SyntaxErrorKind::ExpectedCloseParen, 5, 6));
    assert_eq!(only_error("{ (1"), error(SyntaxErrorKind::ExpectedCloseParen, 4, 4));
    assert_eq!(only_error("{ + }"), error(SyntaxErrorKind::ExpectedExpression, 2, 3));
    assert_eq!(only_error("{ ; }"), error(SyntaxErrorKind::ExpectedExpression, 2, 3));
    assert_eq!(only_error("{ 1 +; }"), error(SyntaxErrorKind::ExpectedExpression, 5, 6));
    assert_eq!(only_error("{ 1 * "), error(SyntaxErrorKind::ExpectedExpression, 6, 6));
    assert_eq!(only_error("{ - }"), error(SyntaxErrorKind::ExpectedExpression, 4, 5));
    assert_eq!(only_error("{ () }"), error(SyntaxErrorKind::ExpectedExpression, 3, 4));
    assert_eq!(only_error("{ let = 1; }"), error(SyntaxErrorKind::ExpectedIdentifier, 6, 7));
    assert_eq!(only_error("{ let 1 = 1; }"), error(SyntaxErrorKind::ExpectedIdentifier, 6, 7));
    assert_eq!(only_error("{ let x: = 1; }"), error(SyntaxErrorKind::ExpectedIdentifier, 9, 10));
    assert_eq!(only_error("{ let x 1; }"), error(SyntaxErrorKind::ExpectedEquals, 8, 9));
    assert_eq!(only_error("{ let x: t; }"), error(SyntaxErrorKind::ExpectedEquals, 10, 11));
    assert_eq!(only_error("{ let x = ; }"), error(SyntaxErrorKind::ExpectedExpression, 10, 11));
    assert_eq!(only_error("{ 1; } x"), error(SyntaxErrorKind::ExpectedEndOfInput, 7, 8));
    assert_eq!(only_error("{ } { }"), error(SyntaxErrorKind::ExpectedEndOfInput, 4, 5));
}

#[test]
fn violation_at_a_wide_character_covers_the_character() {
    assert_eq!(only_error("{ \u{e9}; }"), error(SyntaxErrorKind::ExpectedExpression, 2, 4));
    assert_eq!(only_error("{ \u{20ac} }"), error(SyntaxErrorKind::ExpectedExpression, 2, 5));
    assert_eq!(only_error("{ 1 \u{1F600} }"), error(SyntaxErrorKind::ExpectedSemicolon, 4, 8));
    assert_eq!(only_error("{ x\u{e9} }"), error(SyntaxErrorKind::ExpectedSemicolon, 3, 5));
}

#[test]
fn every_violation_has_its_reason() {
    assert_eq!(only_error("").reason(), "expected `{`");
    assert_eq!(only_error("{").reason(), "expected a statement or `}`");
    assert_eq!(only_error("{ (1 }").reason(), "expected `)`");
    assert_eq!(only_error("{ + }").reason(), "expected an expression");
    assert_eq!(only_error("{ let 1 }").reason(), "expected an identifier");
    assert_eq!(only_error("{ let x }").reason(), "expected `=`");
    assert_eq!(only_error("{ 1 2 }").reason(), "expected `;` or `}`");
    assert_eq!(only_error("{ } }").reason(), "expected end of input");
    assert_eq!(
        only_error("{ 4294967296 }").reason(),
        "integer literal does not fit in 32 bits"
    );
    assert_eq!(SyntaxErrorKind::ExpectedFn.reason(), "expected `fn`");
    assert_eq!(SyntaxErrorKind::ExpectedOpenParen.reason(), "expected `(`");
    assert_eq!(SyntaxErrorKind::ExpectedColon.reason(), "expected `:`");
}

#[test]
fn identifier_is_a_slice_of_the_source() {
    let input = String::from("{ let first = 1; first }");
    let top = parse(&input).unwrap();
    match &top.stmts[0] {
        Stmt::Let(binding) => {
            assert_eq!(binding.name.as_str(), "first");
            assert_eq!(binding.name.as_str().as_ptr(), input[6..].as_ptr());
        }
        other => panic!("not a binding: {:?}", other),
    }
    assert_eq!(Ident::new("abc_9").as_str(), "abc_9");
    assert_eq!(&*Ident::new("abc_9"), "abc_9");
    assert_eq!(Ident::new("_x").len(), 2);
}

#[test]
fn contains_block_looks_inside_every_operand() {
    assert!(!Expr::Int(1).contains_block());
    assert!(!var("x", 0).contains_block());
    let block = || Expr::Block(Block { stmts: vec![], span: Span::new(0, 2) });
    assert!(block().contains_block());
    assert!(Expr::Parens(Box::new(block())).contains_block());
    assert!(Expr::Neg(Box::new(block())).contains_block());
    assert!(Expr::Add(lit(1), Box::new(block())).contains_block());
    assert!(Expr::Sub(Box::new(block()), lit(1)).contains_block());
    assert!(Expr::Mul(lit(1), Box::new(Expr::Neg(Box::new(block())))).contains_block());
    assert!(!Expr::Div(lit(1), lit(2)).contains_block());
    assert!(Expr::Call("f".to_string(), vec![Expr::Int(1), block()]).contains_block());
    assert!(!Expr::Call("f".to_string(), vec![Expr::Int(1), Expr::Int(2)]).contains_block());
    assert!(!Expr::Call("f".to_string(), vec![]).contains_block());
    let function = |body: Expr<'static>, then: Expr<'static>| Expr::Fn {
        name: "f",
        args: vec!["a".to_string()],
        body: Box::new(body),
        then: Box::new(then),
    };
    assert!(function(block(), Expr::Int(1)).contains_block());
    assert!(function(Expr::Int(1), block()).contains_block());
    assert!(!function(Expr::Int(1), Expr::Int(2)).contains_block());
    assert_eq!(*Expr::Int(3).boxed(), Expr::Int(3));
}

#[test]
fn span_has_start_end_and_length() {
    let span = Span::new(3, 8);
    assert_eq!((span.start, span.end), (3, 8));
    assert_eq!(span.len(), 5);
    assert_eq!(Span::new(4, 4).len(), 0);
    assert_eq!(Span::new(9, 2).len(), 0);
}
