use rlox::compiler::{compile, render_diagnostic, Diagnostic};
use rlox::vm::{Interpretation, InterpretResult, render_runtime_error, VM};

/// Compile and run a source text on a fresh VM: the printed lines as
/// strings, or the compile/runtime failure.
enum Outcome {
    Printed(Vec<String>),
    CompileFailed(Vec<String>),
    RuntimeFailed(Vec<String>, String),
}

fn run_source(src: &str) -> Outcome {
    let mut vm = VM::new();
    let (chunk, diagnostics) = compile(src.as_bytes(), &mut vm);
    match chunk {
        None => Outcome::CompileFailed(rendered_diagnostics(&diagnostics)),
        Some(chunk) => {
            let Interpretation { result, output, fault } = vm.interpret(chunk);
            let lines = output
                .into_iter()
                .map(|l| String::from_utf8(l).unwrap())
                .collect::<Vec<_>>();
            match result {
                InterpretResult::Success => Outcome::Printed(lines),
                InterpretResult::RuntimeError => {
                    let text = match fault {
                        Some(f) => String::from_utf8(render_runtime_error(&f)).unwrap(),
                        None => String::new(),
                    };
                    Outcome::RuntimeFailed(lines, text)
                }
                InterpretResult::CompileError => unreachable!(),
            }
        }
    }
}

fn rendered_diagnostics(diagnostics: &[Diagnostic]) -> Vec<String> {
    diagnostics
        .iter()
        .map(|d| String::from_utf8(render_diagnostic(d)).unwrap())
        .collect()
}

fn expect_printed(src: &str) -> Vec<String> {
    match run_source(src) {
        Outcome::Printed(lines) => lines,
        Outcome::CompileFailed(d) => panic!("compile failed: {:?}", d),
        Outcome::RuntimeFailed(_, e) => panic!("runtime failed: {}", e),
    }
}

#[test]
fn arithmetic_precedence() {
    assert_eq!(expect_printed("print 1 + 2 * 3;"), vec!["7"]);
}

#[test]
fn string_concatenation() {
    assert_eq!(expect_printed("print \"a\" + \"b\" + \"c\";"), vec!["abc"]);
}

#[test]
fn local_shadows_global() {
    assert_eq!(
        expect_printed("var a = 1; { var a = 2; print a; } print a;"),
        vec!["2", "1"]
    );
}

#[test]
fn unary_operators_and_truthiness() {
    assert_eq!(
        expect_printed("var x = 1; print -x; print !nil; print !!0;"),
        vec!["-1", "true", "true"]
    );
}

#[test]
fn cross_type_equality_is_false() {
    assert_eq!(expect_printed("print 1 == \"1\";"), vec!["false"]);
}

#[test]
fn undefined_global_read_fails() {
    match run_source("print y;") {
        Outcome::RuntimeFailed(lines, text) => {
            assert!(lines.is_empty());
            assert!(text.contains("Undefined variable 'y'."), "{}", text);
            assert!(text.contains("[line 1] in script"), "{}", text);
        }
        _ => panic!("expected a runtime error"),
    }
}

#[test]
fn undefined_global_assignment_fails() {
    match run_source("y = 1;") {
        Outcome::RuntimeFailed(_, text) => {
            assert!(text.contains("Undefined variable 'y'."), "{}", text);
        }
        _ => panic!("expected a runtime error"),
    }
}

#[test]
fn mixed_addition_fails() {
    match run_source("print 1 + \"a\";") {
        Outcome::RuntimeFailed(_, text) => {
            assert!(
                text.contains("Operands must be two numbers or two strings."),
                "{}",
                text
            );
        }
        _ => panic!("expected a runtime error"),
    }
}

#[test]
fn negating_a_string_fails() {
    match run_source("print -\"a\";") {
        Outcome::RuntimeFailed(_, text) => {
            assert!(text.contains("Operand must be a number."), "{}", text);
        }
        _ => panic!("expected a runtime error"),
    }
}

#[test]
fn comparing_strings_fails() {
    match run_source("print 1 < \"a\";") {
        Outcome::RuntimeFailed(_, text) => {
            assert!(text.contains("Operands must be numbers."), "{}", text);
        }
        _ => panic!("expected a runtime error"),
    }
}

#[test]
fn local_read_in_own_initializer_is_rejected() {
    match run_source("{ var a = a; }") {
        Outcome::CompileFailed(diagnostics) => {
            assert!(
                diagnostics
                    .iter()
                    .any(|d| d.contains("Can't read local variable in its own initializer.")),
                "{:?}",
                diagnostics
            );
        }
        _ => panic!("expected a compile error"),
    }
}

#[test]
fn top_level_self_reference_defines_from_global_lookup() {
    // At the top level `var a = a;` is not a compile error: the
    // initializer reads the (undefined) global, which fails at runtime.
    match run_source("var a = a;") {
        Outcome::RuntimeFailed(_, text) => {
            assert!(text.contains("Undefined variable 'a'."), "{}", text);
        }
        _ => panic!("expected a runtime error"),
    }
}

#[test]
fn invalid_assignment_target_is_rejected() {
    match run_source("var a = 1; var b = 2; a + b = 3;") {
        Outcome::CompileFailed(diagnostics) => {
            assert!(
                diagnostics.iter().any(|d| d.contains("Invalid assignment target.")),
                "{:?}",
                diagnostics
            );
        }
        _ => panic!("expected a compile error"),
    }
}

#[test]
fn unterminated_string_is_rejected() {
    match run_source("print \"abc;") {
        Outcome::CompileFailed(diagnostics) => {
            assert!(
                diagnostics.iter().any(|d| d.contains("Unterminated string.")),
                "{:?}",
                diagnostics
            );
        }
        _ => panic!("expected a compile error"),
    }
}

#[test]
fn unexpected_character_is_rejected() {
    match run_source("print 1 @ 2;") {
        Outcome::CompileFailed(diagnostics) => {
            assert!(
                diagnostics.iter().any(|d| d.contains("Unexpected character.")),
                "{:?}",
                diagnostics
            );
        }
        _ => panic!("expected a compile error"),
    }
}

#[test]
fn missing_semicolon_reports_location() {
    match run_source("print 1") {
        Outcome::CompileFailed(diagnostics) => {
            assert!(
                diagnostics
                    .iter()
                    .any(|d| d.contains("[line 1] Error at end: Expect ';' after value.")),
                "{:?}",
                diagnostics
            );
        }
        _ => panic!("expected a compile error"),
    }
}

#[test]
fn duplicate_local_is_rejected() {
    match run_source("{ var a = 1; var a = 2; }") {
        Outcome::CompileFailed(diagnostics) => {
            assert!(
                diagnostics
                    .iter()
                    .any(|d| d.contains("Already a variable with this name in this scope.")),
                "{:?}",
                diagnostics
            );
        }
        _ => panic!("expected a compile error"),
    }
}

#[test]
fn empty_source_compiles_and_runs() {
    assert_eq!(expect_printed(""), Vec::<String>::new());
}

#[test]
fn comments_and_whitespace_are_skipped() {
    assert_eq!(
        expect_printed("// a comment\nprint 1; // trailing\n"),
        vec!["1"]
    );
}

#[test]
fn fractional_arithmetic() {
    assert_eq!(expect_printed("print 1 / 2;"), vec!["0.5"]);
    assert_eq!(expect_printed("print 10 - 4; print 8 / 2;"), vec!["6", "4"]);
    assert_eq!(expect_printed("print 1.5 + 2.25;"), vec!["3.75"]);
    assert_eq!(expect_printed("print 1.1;"), vec!["1.1"]);
    assert_eq!(expect_printed("print 10000;"), vec!["10000"]);
    assert_eq!(expect_printed("print 0.0001;"), vec!["0.0001"]);
}

#[test]
fn large_integers_print_in_plain_digits() {
    assert_eq!(
        expect_printed("print 100000000000000000;"),
        vec!["100000000000000000"]
    );
    assert_eq!(
        expect_printed("print 100000000000000000 * 10;"),
        vec!["1000000000000000000"]
    );
}

#[test]
fn division_by_zero_follows_ieee() {
    assert_eq!(expect_printed("print 1 / 0;"), vec!["inf"]);
    assert_eq!(expect_printed("print 0 - 1 / 0;"), vec!["-inf"]);
    assert_eq!(expect_printed("print 0 / 0;"), vec!["NaN"]);
}

#[test]
fn comparisons_and_composites() {
    assert_eq!(
        expect_printed("print 1 < 2; print 2 <= 2; print 1 > 2; print 2 >= 3; print 1 != 2;"),
        vec!["true", "true", "false", "false", "true"]
    );
}

#[test]
fn grouping_overrides_precedence() {
    assert_eq!(expect_printed("print (1 + 2) * 3;"), vec!["9"]);
}

#[test]
fn assignment_is_an_expression() {
    assert_eq!(
        expect_printed("var a = 1; print a = 2; print a;"),
        vec!["2", "2"]
    );
}

#[test]
fn locals_in_nested_scopes() {
    assert_eq!(
        expect_printed("{ var a = 1; { var b = 2; print a + b; } print a; }"),
        vec!["3", "1"]
    );
}

#[test]
fn string_equality_is_by_content() {
    assert_eq!(
        expect_printed("print \"ab\" == \"a\" + \"b\"; print \"ab\" == \"ac\";"),
        vec!["true", "false"]
    );
}

#[test]
fn too_many_locals_is_rejected() {
    let mut src = String::from("{\n");
    for i in 0..257 {
        src.push_str(&format!("var x{} = 0;\n", i));
    }
    src.push_str("}\n");
    match run_source(&src) {
        Outcome::CompileFailed(diagnostics) => {
            assert!(
                diagnostics
                    .iter()
                    .any(|d| d.contains("Too many local variables in function.")),
                "{:?}",
                diagnostics
            );
        }
        _ => panic!("expected a compile error"),
    }
}

#[test]
fn too_many_constants_is_rejected() {
    let mut src = String::from("print 0");
    for i in 1..300 {
        src.push_str(&format!(" + {}", i));
    }
    src.push(';');
    match run_source(&src) {
        Outcome::CompileFailed(diagnostics) => {
            assert!(
                diagnostics
                    .iter()
                    .any(|d| d.contains("Too many constants in one chunk.")),
                "{:?}",
                diagnostics
            );
        }
        _ => panic!("expected a compile error"),
    }
}

#[test]
fn deeply_nested_grouping_compiles() {
    let mut src = String::new();
    for _ in 0..200 {
        src.push('(');
    }
    src.push('1');
    for _ in 0..200 {
        src.push(')');
    }
    let src = format!("print {};", src);
    assert_eq!(expect_printed(&src), vec!["1"]);
}
