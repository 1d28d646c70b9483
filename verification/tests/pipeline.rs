use jester_script::compile;
use jester_script::js::Display;
use jester_script::parser::parse;
use jester_script::report::{Diagnostic, DiagnosticKind};
use jester_script::syntax::Span;
use jester_script::trans::Trans;

fn by_stages(input: &str) -> Result<String, String> {
    let top = match parse(input) {
        Ok(top) => top,
        Err(errors) => return Err(format!("syntax: {}", errors[0].reason())),
    };
    let mut trans = Trans::new(Span::new(0, input.len()));
    let lowered = match trans.trans_block(&top) {
        Ok(lowered) => lowered,
        Err(d) => return Err(d.message),
    };
    let mut text = String::new();
    Display::new(&lowered).fmt(&mut text);
    Ok(text)
}

#[test]
fn end_to_end() {
    assert_eq!(by_stages("{ 1 + 2 * 3; }"), Ok("{\n    1 + 2 * 3;\n}\n".to_string()));
    assert_eq!(by_stages("{ (1 + 2) * 3; }"), Ok("{\n    (1 + 2) * 3;\n}\n".to_string()));
    assert_eq!(
        by_stages("{ let x = 1; let x = 2; x; }"),
        Ok("{\n    let x = 1;\n    let x__2 = 2;\n    x__2;\n}\n".to_string())
    );
    assert_eq!(by_stages("{ --5; }"), Ok("{\n    -(-5);\n}\n".to_string()));
    assert_eq!(by_stages("{ x; }"), Err("Variable `x` was not declared".to_string()));
    assert_eq!(by_stages("{ x "), Err("syntax: expected `;` or `}`".to_string()));
}

#[test]
fn integer_literal_comes_out_as_it_went_in() {
    for literal in ["0", "1", "9", "10", "42", "1000000", "2147483646", "2147483647"] {
        let program = format!("{{ {}; }}", literal);
        assert_eq!(compile(&program).unwrap(), format!("{{\n    {};\n}}\n", literal));
    }
    assert_eq!(compile("{ 007; }").unwrap(), "{\n    7;\n}\n");
    assert_eq!(compile("{ 000; }").unwrap(), "{\n    0;\n}\n");
}

#[test]
fn compile_renders_the_lowered_program() {
    assert_eq!(compile("{}").unwrap(), "{\n}\n");
    assert_eq!(
        compile("{ let a = 2; { let b = a * a; b - 1 }; let a = a / 2; -a }").unwrap(),
        "{\n    let a = 2;\n    {\n        let b = a * a;\n        b - 1;\n    }\n    let a__2 = a / 2;\n    -a__2;\n}\n"
    );
    assert_eq!(compile("{ ---1 }").unwrap(), "{\n    -(-(-1));\n}\n");
    assert_eq!(compile("{ -(-1) }").unwrap(), "{\n    -(-1);\n}\n");
}

#[test]
fn compile_stops_at_the_first_failing_stage() {
    assert_eq!(
        compile("{ y; ").unwrap_err(),
        vec![Diagnostic {
            kind: DiagnosticKind::Syntax,
            message: "expected a statement or `}`".to_string(),
            span: Span::new(5, 5),
            help: None,
        }]
    );
    let diagnostics = compile("{ y; }").unwrap_err();
    assert_eq!(diagnostics.len(), 1);
    assert_eq!(diagnostics[0].kind, DiagnosticKind::UndeclaredVariable);
    assert_eq!(diagnostics[0].span, Span::new(2, 3));
    let diagnostics = compile("{ let x = { 1 } }").unwrap_err();
    assert_eq!(diagnostics[0].kind, DiagnosticKind::BlockInLet);
}

#[test]
fn rendered_program_parses_again() {
    let text = compile("{ let x = 1; let x = (x + 2) * -x; --x }").unwrap();
    assert_eq!(text, "{\n    let x = 1;\n    let x__2 = (x + 2) * -x;\n    -(-x__2);\n}\n");
    assert_eq!(compile(&text).unwrap(), text);
}
