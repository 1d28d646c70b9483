use std::borrow::Cow;

use jester_script::js;
use jester_script::parser::parse;
use jester_script::report::{parse_err, undeclared_variable, unsupported, Diagnostic, DiagnosticKind};
use jester_script::syntax::{Block, Expr, Ident, Let, Span, Stmt};
use jester_script::trans::{Scope, Trans};

fn lower(input: &str) -> Result<js::Block<'static>, Diagnostic> {
    let text: &'static str = Box::leak(input.to_string().into_boxed_str());
    let top: &'static Block<'static> = Box::leak(Box::new(parse(text).unwrap()));
    Trans::new(Span::new(0, text.len())).trans_block(top)
}

fn number(n: i64) -> Box<js::Expr<'static>> {
    Box::new(js::Expr::Number(n))
}

fn name(text: &'static str) -> js::Expr<'static> {
    js::Expr::Var(Cow::Borrowed(text))
}

fn binding(target: &'static str, rhs: js::Expr<'static>) -> js::Stmt<'static> {
    js::Stmt::Let(js::Let { name: Cow::Borrowed(target), rhs: Box::new(rhs) })
}

#[test]
fn operators_are_lowered_one_to_one() {
    assert_eq!(
        lower("{ 1 + 2 * 3; (4 - 5) / -6 }").unwrap(),
        js::Block {
            stmts: vec![
                js::Stmt::Expr(js::Expr::Add(
                    number(1),
                    Box::new(js::Expr::Mul(number(2), number(3)))
                )),
                js::Stmt::Expr(js::Expr::Div(
                    Box::new(js::Expr::Parens(Box::new(js::Expr::Sub(number(4), number(5))))),
                    Box::new(js::Expr::Neg(number(6))),
                )),
            ],
        }
    );
}

#[test]
fn second_declaration_shadows_the_first() {
    assert_eq!(
        lower("{ let x = 1; let x = 2; x; }").unwrap().stmts,
        vec![
            binding("x", js::Expr::Number(1)),
            binding("x__2", js::Expr::Number(2)),
            js::Stmt::Expr(name("x__2")),
        ]
    );
}

#[test]
fn suffixes_count_up_from_two() {
    assert_eq!(
        lower("{ let x = 1; let x = x; let x = x; let x = x; x }").unwrap().stmts,
        vec![
            binding("x", js::Expr::Number(1)),
            binding("x__2", name("x")),
            binding("x__3", name("x__2")),
            binding("x__4", name("x__3")),
            js::Stmt::Expr(name("x__4")),
        ]
    );
}

#[test]
fn suffix_skips_a_name_that_is_taken() {
    assert_eq!(
        lower("{ let x__2 = 0; let x = 1; let x = 2; x; x__2 }").unwrap().stmts,
        vec![
            binding("x__2", js::Expr::Number(0)),
            binding("x", js::Expr::Number(1)),
            binding("x__3", js::Expr::Number(2)),
            js::Stmt::Expr(name("x__3")),
            js::Stmt::Expr(name("x__2")),
        ]
    );
}

#[test]
fn many_declarations_of_one_name_stay_distinct() {
    let mut scope = Scope::new(Span::new(0, 0));
    let mut targets = Vec::new();
    for _ in 0..12 {
        targets.push(scope.declare_variable("v").into_owned());
    }
    assert_eq!(
        targets,
        vec![
            "v", "v__2", "v__3", "v__4", "v__5", "v__6", "v__7", "v__8", "v__9", "v__10",
            "v__11", "v__12"
        ]
    );
    assert!(scope.has_js_variable("v__10"));
    assert!(!scope.has_js_variable("v__13"));
    assert_eq!(scope.lookup_variable("v"), Some("v__12"));
    assert_eq!(scope.lookup_variable("v__2"), None);
    assert_eq!(scope.span(), Span::new(0, 0));
}

#[test]
fn unchecked_declaration_takes_the_name_as_given() {
    let mut scope = Scope::new(Span::new(1, 9));
    scope.declare_variable_unchecked("a", "b");
    assert!(scope.has_js_variable("b"));
    assert!(!scope.has_js_variable("a"));
    assert_eq!(scope.lookup_variable("a"), Some("b"));
    assert_eq!(scope.declare_variable("b"), "b__2");
    assert_eq!(scope.declare_variable("a"), "a");
    assert_eq!(scope.lookup_variable("a"), Some("a"));
}

#[test]
fn inner_scope_shadows_and_is_discarded() {
    assert_eq!(
        lower("{ let x = 1; { let x = 2; x; }; x; }").unwrap().stmts,
        vec![
            binding("x", js::Expr::Number(1)),
            js::Stmt::Block(js::Block {
                stmts: vec![binding("x", js::Expr::Number(2)), js::Stmt::Expr(name("x"))],
            }),
            js::Stmt::Expr(name("x")),
        ]
    );
    assert_eq!(
        lower("{ let x = 1; let x = 2; { x; let y = x; y } }").unwrap().stmts,
        vec![
            binding("x", js::Expr::Number(1)),
            binding("x__2", js::Expr::Number(2)),
            js::Stmt::Block(js::Block {
                stmts: vec![
                    js::Stmt::Expr(name("x__2")),
                    binding("y", name("x__2")),
                    js::Stmt::Expr(name("y")),
                ],
            }),
        ]
    );
}

#[test]
fn declaration_of_an_inner_block_does_not_escape() {
    let d = lower("{ { let y = 1; }; y; }").unwrap_err();
    assert_eq!(d.kind, DiagnosticKind::UndeclaredVariable);
    assert_eq!(d.span, Span::new(18, 19));
    assert_eq!(d.message, "Variable `y` was not declared");
}

#[test]
fn declaration_of_an_inner_block_does_not_escape_in_a_tree() {
    let inner = Block {
        stmts: vec![Stmt::Let(Let { name: Ident::new("y"), ty: None, rhs: Expr::Int(1) })],
        span: Span::new(2, 16),
    };
    let top = Block {
        stmts: vec![
            Stmt::Expr(Expr::Block(inner)),
            Stmt::Expr(Expr::Var { name: Ident::new("y"), name_span: Span::new(17, 18) }),
        ],
        span: Span::new(0, 21),
    };
    let mut trans = Trans::new(Span::new(0, 21));
    let d = trans.trans_block(&top).unwrap_err();
    assert_eq!(d.kind, DiagnosticKind::UndeclaredVariable);
    assert_eq!(d.span, Span::new(17, 18));
    assert_eq!(trans.resolve_variable("y"), None);
}

#[test]
fn top_level_declarations_stay_after_lowering() {
    let text = "{ let a = 1; let a = 2; { let b = 3; } }";
    let top = parse(text).unwrap();
    let mut trans = Trans::new(Span::new(0, text.len()));
    assert!(trans.trans_block(&top).is_ok());
    assert_eq!(trans.resolve_variable("a"), Some("a__2"));
    assert_eq!(trans.resolve_variable("b"), None);
    assert_eq!(trans.declare_variable("a"), "a__3");
}

#[test]
fn undeclared_variable_is_reported_at_its_reference() {
    let d = lower("{ x; }").unwrap_err();
    assert_eq!(
        d,
        Diagnostic {
            kind: DiagnosticKind::UndeclaredVariable,
            message: "Variable `x` was not declared".to_string(),
            span: Span::new(2, 3),
            help: Some("Use `let x = \u{2026};`".to_string()),
        }
    );
    let d = lower("{ let a = 1; a + (long_name * 2) }").unwrap_err();
    assert_eq!(d.span, Span::new(18, 27));
    assert_eq!(d.message, "Variable `long_name` was not declared");
}

#[test]
fn first_undeclared_variable_from_the_left_wins() {
    assert_eq!(lower("{ a + b; }").unwrap_err().span, Span::new(2, 3));
    assert_eq!(lower("{ let b = 1; a * b - c; }").unwrap_err().span, Span::new(13, 14));
    assert_eq!(lower("{ let a = 1; (a - b) / c; }").unwrap_err().span, Span::new(18, 19));
    assert_eq!(lower("{ 1; p; q }").unwrap_err().span, Span::new(5, 6));
}

#[test]
fn initializer_does_not_see_its_own_binding() {
    let d = lower("{ let x = x; }").unwrap_err();
    assert_eq!(d.kind, DiagnosticKind::UndeclaredVariable);
    assert_eq!(d.span, Span::new(10, 11));
    assert_eq!(
        lower("{ let x = 1; let x = x + 1; x }").unwrap().stmts,
        vec![
            binding("x", js::Expr::Number(1)),
            binding("x__2", js::Expr::Add(Box::new(name("x")), number(1))),
            js::Stmt::Expr(name("x__2")),
        ]
    );
}

#[test]
fn type_annotation_is_kept_and_ignored() {
    assert_eq!(
        lower("{ let x: whatever = 1; x }").unwrap().stmts,
        vec![binding("x", js::Expr::Number(1)), js::Stmt::Expr(name("x"))]
    );
}

#[test]
fn block_in_an_initializer_is_unsupported() {
    let d = lower("{ let x = { 1 }; }").unwrap_err();
    assert_eq!(
        d,
        Diagnostic {
            kind: DiagnosticKind::BlockInLet,
            message: "unsupported: a block inside the initializer of a `let`".to_string(),
            span: Span::new(0, 18),
            help: None,
        }
    );
    let d = lower("{ { let x = undeclared + { 1 }; } }").unwrap_err();
    assert_eq!(d.kind, DiagnosticKind::BlockInLet);
    assert_eq!(d.span, Span::new(2, 33));
}

#[test]
fn block_used_as_a_value_is_unsupported() {
    let d = lower("{ 1 + { 2 }; }").unwrap_err();
    assert_eq!(
        d,
        Diagnostic {
            kind: DiagnosticKind::BlockInExpression,
            message: "unsupported: a block used as a value".to_string(),
            span: Span::new(6, 11),
            help: None,
        }
    );
    assert_eq!(lower("{ ({ 2 }) }").unwrap_err().kind, DiagnosticKind::BlockInExpression);
    assert_eq!(lower("{ -{ 2 } }").unwrap_err().kind, DiagnosticKind::BlockInExpression);
    assert_eq!(lower("{ x + { 2 } }").unwrap_err().kind, DiagnosticKind::UndeclaredVariable);
}

#[test]
fn calls_and_functions_are_unsupported() {
    let trans = Trans::new(Span::new(3, 30));
    let call = Expr::Call("f".to_string(), vec![Expr::Int(1)]);
    assert_eq!(
        trans.trans_expr(&call).unwrap_err(),
        Diagnostic {
            kind: DiagnosticKind::FunctionCall,
            message: "unsupported: function calls".to_string(),
            span: Span::new(3, 30),
            help: None,
        }
    );
    let function = Expr::Fn {
        name: "f",
        args: vec![],
        body: Box::new(Expr::Int(1)),
        then: Box::new(Expr::Int(2)),
    };
    assert_eq!(
        trans.trans_expr(&function).unwrap_err(),
        Diagnostic {
            kind: DiagnosticKind::FunctionDeclaration,
            message: "unsupported: function declarations".to_string(),
            span: Span::new(3, 30),
            help: None,
        }
    );
    let sum = Expr::Add(Box::new(Expr::Int(1)), Box::new(call));
    assert_eq!(trans.trans_expr(&sum).unwrap_err().kind, DiagnosticKind::FunctionCall);
}

#[test]
fn scope_of_a_failed_block_is_gone() {
    let text = "{ let a = 1; { let b = 2; c; }; b }";
    let top = parse(text).unwrap();
    let mut trans = Trans::new(Span::new(0, text.len()));
    let d = trans.trans_block(&top).unwrap_err();
    assert_eq!(d.message, "Variable `c` was not declared");
    assert_eq!(trans.resolve_variable("a"), Some("a"));
    assert_eq!(trans.resolve_variable("b"), None);
    let call = Expr::Call("f".to_string(), vec![]);
    assert_eq!(trans.trans_expr(&call).unwrap_err().span, Span::new(0, text.len()));
}

#[test]
fn statement_by_statement_lowering_keeps_the_scopes() {
    let mut trans = Trans::new(Span::new(0, 0));
    assert_eq!(trans.resolve_variable("x"), None);
    assert_eq!(trans.declare_variable("x"), "x");
    assert_eq!(trans.declare_variable("x"), "x__2");
    assert_eq!(trans.resolve_variable("x"), Some("x__2"));
    let binding_y = Let { name: Ident::new("y"), ty: None, rhs: Expr::Int(7) };
    assert_eq!(
        trans.trans_let(&binding_y).unwrap(),
        js::Let { name: Cow::Borrowed("y"), rhs: number(7) }
    );
    let use_y = Stmt::Expr(Expr::Var { name: Ident::new("y"), name_span: Span::new(0, 1) });
    assert_eq!(trans.trans_stmt(&use_y).unwrap(), js::Stmt::Expr(name("y")));
    let failing = Let {
        name: Ident::new("z"),
        ty: None,
        rhs: Expr::Var { name: Ident::new("nope"), name_span: Span::new(4, 8) },
    };
    assert_eq!(trans.trans_let(&failing).unwrap_err().span, Span::new(4, 8));
    assert_eq!(trans.resolve_variable("z"), None);
    let stmts = vec![
        Stmt::Let(Let { name: Ident::new("y"), ty: None, rhs: Expr::Int(8) }),
        Stmt::Expr(Expr::Var { name: Ident::new("y"), name_span: Span::new(0, 1) }),
    ];
    assert_eq!(
        trans.trans_stmts(&stmts).unwrap(),
        vec![binding("y__2", js::Expr::Number(8)), js::Stmt::Expr(name("y__2"))]
    );
}

#[test]
fn lowering_the_target_program_again_changes_nothing() {
    let first = jester_script::compile("{ let x = 1; let x = x + 1; let x__2 = 3; x - x__2 }");
    let text = first.unwrap();
    assert_eq!(
        text,
        "{\n    let x = 1;\n    let x__2 = x + 1;\n    let x__2__2 = 3;\n    x__2 - x__2__2;\n}\n"
    );
    assert_eq!(jester_script::compile(&text).unwrap(), text);
}

#[test]
fn reports_hold_message_span_and_help() {
    let d = undeclared_variable("total", &Span::new(4, 9));
    assert_eq!(d.kind, DiagnosticKind::UndeclaredVariable);
    assert_eq!(d.message, "Variable `total` was not declared");
    assert_eq!(d.span, Span::new(4, 9));
    assert_eq!(d.help.as_deref(), Some("Use `let total = \u{2026};`"));
    let d = unsupported(DiagnosticKind::FunctionCall, Span::new(1, 2));
    assert_eq!((d.kind, d.span, d.help), (DiagnosticKind::FunctionCall, Span::new(1, 2), None));
    let errors = parse("{ 1 2 }").unwrap_err();
    let d = parse_err(errors[0]);
    assert_eq!(
        d,
        Diagnostic {
            kind: DiagnosticKind::Syntax,
            message: "expected `;` or `}`".to_string(),
            span: Span::new(4, 5),
            help: None,
        }
    );
}
