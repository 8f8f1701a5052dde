//! The JavaScript back-end: `compile` as the driver calls it, and the
//! emitted shapes of each construct.

#[test]
fn emits_let_and_expression() {
    let (js, imports) = tonic::compile("let x = 1 + 2 * 3; println(x);").unwrap();
    assert_eq!(js, "let x = 1 + 2 * 3;\nprintln(x);\n");
    assert!(imports.is_empty());
}

#[test]
fn emits_function_and_return() {
    let (js, _) = tonic::compile("fn square(n) { return n * n; }").unwrap();
    assert_eq!(js, "function square(n) {\nreturn n * n;\n}\n");
}

#[test]
fn emits_if_else_and_strict_equality() {
    let (js, _) = tonic::compile("if a == 1 { b(); } else { c(); }").unwrap();
    assert_eq!(js, "if (a === 1) {\nb();\n} else {\nc();\n}\n");
}

#[test]
fn emits_while_break_continue() {
    let (js, _) = tonic::compile("while x != 0 { break; continue; }").unwrap();
    assert_eq!(js, "while (x !== 0) {\nbreak;\ncontinue;\n}\n");
}

#[test]
fn emits_arrays_index_and_member() {
    let (js, _) = tonic::compile("let a = [1, 2]; a[0] = a.length;").unwrap();
    assert_eq!(js, "let a = [1, 2];\na[0] = a.length;\n");
}

#[test]
fn emits_append_as_length_index() {
    let (js, _) = tonic::compile("a[] = 30;").unwrap();
    assert_eq!(js, "a[a.length] = 30;\n");
}

#[test]
fn emits_closures_as_arrows() {
    let (js, _) = tonic::compile("let f = fn (x) => x + 1;").unwrap();
    assert_eq!(js, "let f = (x) => {\nreturn x + 1;\n};\n");
}

#[test]
fn emits_prefix_minus() {
    let (js, _) = tonic::compile("let x = -5;").unwrap();
    assert_eq!(js, "let x = -5;\n");
}

#[test]
fn collects_imports_in_source_order_and_hoists() {
    let (js, imports) =
        tonic::compile("let a = 1; use \"@std/fs\"; fn f() { return a; } use \"./util\";")
            .unwrap();
    assert_eq!(imports, vec!["@std/fs".to_string(), "./util".to_string()]);
    // Hoisted: the function declaration precedes the binding; the `use`
    // declarations emit nothing.
    assert_eq!(js, "function f() {\nreturn a;\n}\nlet a = 1;\n");
}

#[test]
fn compile_reports_parse_errors() {
    let err = tonic::compile("let = 1;").unwrap_err();
    assert!(matches!(
        err.err,
        tonic::parser::ParserErrorType::ExpectedIdentifier
    ));
}

#[test]
fn emission_is_deterministic() {
    let a = tonic::compile("fn f(n) { return n; } let x = f(1);").unwrap();
    let b = tonic::compile("fn f(n) { return n; } let x = f(1);").unwrap();
    assert_eq!(a, b);
}
