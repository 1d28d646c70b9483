use std::borrow::Cow;

use jester_script::js::{Block, Display, Expr, File, Fn, Let, Stmt};
use jester_script::text::{same, write_decimal, write_signed_decimal};

fn num(n: i64) -> Box<Expr<'static>> {
    Box::new(Expr::Number(n))
}

fn named(text: &'static str) -> Box<Expr<'static>> {
    Box::new(Expr::Var(Cow::Borrowed(text)))
}

#[test]
fn negated_negation_is_parenthesized() {
    assert_eq!(Expr::Neg(Box::new(Expr::Neg(num(5)))).to_string(), "-(-5)");
    assert_eq!(
        Expr::Neg(Box::new(Expr::Neg(Box::new(Expr::Neg(named("x")))))).to_string(),
        "-(-(-x))"
    );
    assert_eq!(Expr::Neg(num(5)).to_string(), "-5");
    assert_eq!(Expr::Neg(Box::new(Expr::Parens(Box::new(Expr::Neg(num(5)))))).to_string(), "-(-5)");
    assert_eq!(Expr::Sub(num(1), Box::new(Expr::Neg(num(2)))).to_string(), "1 - -2");
}

#[test]
fn binary_operators_have_a_space_on_each_side() {
    assert_eq!(Expr::Add(num(1), Box::new(Expr::Mul(num(2), num(3)))).to_string(), "1 + 2 * 3");
    assert_eq!(
        Expr::Mul(Box::new(Expr::Parens(Box::new(Expr::Add(num(1), num(2))))), num(3)).to_string(),
        "(1 + 2) * 3"
    );
    assert_eq!(Expr::Div(named("a"), Box::new(Expr::Sub(named("b"), named("c")))).to_string(), "a / b - c");
    assert_eq!(Expr::Var(Cow::Owned("x__2".to_string())).to_string(), "x__2");
}

#[test]
fn numbers_are_written_in_base_ten() {
    assert_eq!(Expr::Number(0).to_string(), "0");
    assert_eq!(Expr::Number(7).to_string(), "7");
    assert_eq!(Expr::Number(10).to_string(), "10");
    assert_eq!(Expr::Number(2147483647).to_string(), "2147483647");
    assert_eq!(Expr::Number(-1).to_string(), "-1");
    assert_eq!(Expr::Number(i64::MAX).to_string(), "9223372036854775807");
    assert_eq!(Expr::Number(i64::MIN).to_string(), "-9223372036854775808");
    let mut text = String::from("n=");
    write_decimal(u128::MAX, &mut text);
    assert_eq!(text, "n=340282366920938463463374607431768211455");
    let mut text = String::new();
    write_decimal(1000, &mut text);
    write_signed_decimal(-1000, &mut text);
    write_signed_decimal(909, &mut text);
    assert_eq!(text, "1000-1000909");
}

#[test]
fn slices_with_the_same_text_are_the_same() {
    assert!(same("", ""));
    assert!(same("abc", "abc"));
    assert!(same("\u{e9}t\u{e9}", &String::from("\u{e9}t\u{e9}")));
    assert!(!same("abc", "abd"));
    assert!(!same("abc", "ab"));
    assert!(!same("", "a"));
    assert!(!same("x__2", "x__3"));
}

#[test]
fn display_starts_at_the_left_margin() {
    let value = Expr::Number(1);
    let shown = Display::new(&value);
    assert_eq!(shown.indent, 0);
    assert!(std::ptr::eq(shown.value, &value));
    let mut text = String::from("|");
    shown.write_indent(&mut text);
    assert_eq!(text, "|");
}

#[test]
fn display_indents_by_four_spaces_a_level() {
    let value = Expr::Number(1);
    let other = Expr::Number(2);
    let one = Display::new(&value).with_indented(&other);
    assert_eq!(one.indent, 1);
    assert!(std::ptr::eq(one.value, &other));
    let two = one.with_indented(&value);
    assert_eq!(two.indent, 2);
    let same_level = two.with(&other);
    assert_eq!(same_level.indent, 2);
    assert!(std::ptr::eq(same_level.value, &other));
    let mut text = String::from("a");
    one.write_indent(&mut text);
    text.push('b');
    two.write_indent(&mut text);
    text.push('c');
    assert_eq!(text, "a    b        c");
    let mut text = String::new();
    same_level.fmt(&mut text);
    assert_eq!(text, "        2");
}

#[test]
fn statements_end_their_lines() {
    let binding = Let { name: Cow::Borrowed("x"), rhs: Box::new(Expr::Add(num(1), num(2))) };
    let mut text = String::new();
    Display::new(&binding).fmt(&mut text);
    assert_eq!(text, "let x = 1 + 2;\n");
    let mut text = String::new();
    Display::new(&binding).with_indented(&binding).fmt(&mut text);
    assert_eq!(text, "    let x = 1 + 2;\n");
    assert_eq!(Stmt::Let(binding).to_string(), "let x = 1 + 2;\n");
    let stmt = Stmt::Expr(Expr::Mul(named("x"), num(2)));
    assert_eq!(stmt.to_string(), "x * 2;\n");
    let mut text = String::from(">");
    Display::new(&stmt).with_indented(&stmt).with_indented(&stmt).fmt(&mut text);
    assert_eq!(text, ">        x * 2;\n");
}

#[test]
fn blocks_indent_their_statements() {
    let inner = Block { stmts: vec![Stmt::Expr(Expr::Number(2))] };
    let empty = Block { stmts: vec![] };
    let outer = Block {
        stmts: vec![
            Stmt::Let(Let { name: Cow::Borrowed("x"), rhs: num(1) }),
            Stmt::Block(inner),
            Stmt::Block(empty),
            Stmt::Expr(Expr::Var(Cow::Borrowed("x"))),
        ],
    };
    let mut text = String::new();
    Display::new(&outer).fmt(&mut text);
    assert_eq!(text, "{\n    let x = 1;\n    {\n        2;\n    }\n    {\n    }\n    x;\n}\n");
    let mut text = String::new();
    Display::new(&outer).with_indented(&outer).fmt(&mut text);
    assert_eq!(
        text,
        "    {\n        let x = 1;\n        {\n            2;\n        }\n        {\n        }\n        x;\n    }\n"
    );
    assert_eq!(Stmt::Block(Block { stmts: vec![] }).to_string(), "{\n}\n");
}

#[test]
fn functions_list_their_parameters() {
    let body = || Block { stmts: vec![Stmt::Expr(Expr::Add(named("a"), named("b")))] };
    let two = Fn { name: "add", args: vec!["a", "b"], body: body() };
    let mut text = String::new();
    Display::new(&two).fmt(&mut text);
    assert_eq!(text, "function add(a, b)\n{\n    a + b;\n}\n");
    let none = Fn { name: "f", args: vec![], body: Block { stmts: vec![] } };
    assert_eq!(Stmt::Fn(none).to_string(), "function f()\n{\n}\n");
    let three = Fn { name: "g", args: vec!["x", "y", "z"], body: Block { stmts: vec![] } };
    let mut text = String::new();
    Display::new(&three).with_indented(&three).fmt(&mut text);
    assert_eq!(text, "    function g(x, y, z)\n    {\n    }\n");
    let one = Fn { name: "h", args: vec!["only"], body: body() };
    assert_eq!(Stmt::Fn(one).to_string(), "function h(only)\n{\n    a + b;\n}\n");
}

#[test]
fn files_hold_statements_at_their_level() {
    let file = File {
        stmts: vec![
            Stmt::Fn(Fn { name: "f", args: vec![], body: Block { stmts: vec![] } }),
            Stmt::Expr(Expr::Number(1)),
        ],
    };
    let mut text = String::new();
    Display::new(&file).fmt(&mut text);
    assert_eq!(text, "function f()\n{\n}\n1;\n");
    let mut text = String::new();
    Display::new(&file).with_indented(&file).fmt(&mut text);
    assert_eq!(text, "    function f()\n    {\n    }\n    1;\n");
    let mut text = String::from("x");
    Display::new(&File { stmts: vec![] }).fmt(&mut text);
    assert_eq!(text, "x");
    assert_eq!(*Expr::Number(4).boxed(), Expr::Number(4));
}
