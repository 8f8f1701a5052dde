//! End-to-end runs: source through the lexer, parser, passes, compiler
//! and the stack machine, with a host `println` collecting output lines.

use tonic::ast::Statement;
use tonic::compiler::Compiler;
use tonic::value::Value;
use tonic::vm::{RunOutcome, VM};

/// Render a value the way the host prints it.
fn render_value(v: &Value) -> String {
    match v {
        Value::String(s) => s.clone(),
        Value::Number(n) => n.to_string(),
        Value::Bool(b) => b.to_string(),
        Value::Null => "null".to_string(),
        Value::Array(_) => "array".to_string(),
        Value::Function(_) => "function".to_string(),
    }
}

/// Parse, hoist, compile and run a program; collect `println` lines.
fn run_source(source: &str) -> Vec<String> {
    let prog: Vec<Statement> = tonic::parser::parse(source).expect("program should parse");
    let mut ast = prog;
    tonic::passes::pass(&mut ast);
    let mut compiler = Compiler::new(ast);
    let (code, scopes) = compiler.build().expect("program should compile");
    let mut vm = VM::new(code, scopes);
    vm.add_function(String::from("println"));
    let mut lines: Vec<String> = Vec::new();
    loop {
        match vm.run(1_000_000).expect("program should run") {
            RunOutcome::Halted => break,
            RunOutcome::HostCall(name, args) => {
                assert_eq!(name, "println");
                // Arguments arrive in pop order: reverse of source order.
                for a in args.iter().rev() {
                    lines.push(render_value(a));
                }
                vm.resume(Value::Null);
            },
            RunOutcome::OutOfFuel => panic!("program ran too long"),
        }
    }
    lines
}

#[test]
fn arithmetic_precedence() {
    assert_eq!(run_source("let x = 1 + 2 * 3; println(x);"), vec!["7"]);
}

#[test]
fn function_call() {
    assert_eq!(
        run_source("fn square(n) { return n * n; } println(square(4));"),
        vec!["16"]
    );
}

#[test]
fn while_loop_counts() {
    assert_eq!(
        run_source("let i = 0; while i < 3 { println(i); i = i + 1; }"),
        vec!["0", "1", "2"]
    );
}

#[test]
fn if_else_takes_then() {
    assert_eq!(
        run_source("if 2 > 1 { println(\"a\"); } else { println(\"b\"); }"),
        vec!["a"]
    );
}

#[test]
fn array_append_and_index() {
    assert_eq!(
        run_source("let a = [10, 20]; a[] = 30; println(a[0] + a[2]);"),
        vec!["40"]
    );
}

#[test]
fn recursive_fibonacci() {
    assert_eq!(
        run_source(
            "fn fib(n) { if n < 2 { return n; } return fib(n-1) + fib(n-2); } println(fib(10));"
        ),
        vec!["55"]
    );
}

#[test]
fn arrays_alias_on_assignment() {
    // Two variables referring to the same array observe each other's
    // mutations: a copy of the value shares the underlying sequence.
    assert_eq!(
        run_source("let a = [0, 5]; let b = a; b[0] = 1; println(a[0]);"),
        vec!["1"]
    );
}

#[test]
fn array_mutation_inside_function() {
    // An array passed as an argument aliases the caller's array.
    assert_eq!(
        run_source("fn bump(x) { x[0] = 9; return null; } let a = [1]; bump(a); println(a[0]);"),
        vec!["9"]
    );
}

#[test]
fn functions_are_global_across_frames() {
    // A top-level function is callable from any frame, here from inside
    // another function's body.
    assert_eq!(
        run_source("fn f() { return 3; } fn g() { return f() + 1; } println(g());"),
        vec!["4"]
    );
}

#[test]
fn functions_hoisted_before_use() {
    // The hoisting pass moves the declaration ahead of the call site.
    assert_eq!(run_source("println(twice(5)); fn twice(n) { return n * 2; }"), vec!["10"]);
}

#[test]
fn string_concat_and_repeat() {
    assert_eq!(
        run_source("println(\"ab\" + \"cd\"); println(\"ab\" * 3); println(\"n=\" + 4);"),
        vec!["abcd", "ababab", "n=4"]
    );
}

#[test]
fn mixed_equality_by_rendering() {
    assert_eq!(
        run_source("if \"12\" == 12 { println(\"same\"); } else { println(\"differ\"); }"),
        vec!["same"]
    );
}

#[test]
fn break_and_continue() {
    assert_eq!(
        run_source(
            "let i = 0; while i < 10 { i = i + 1; if i == 2 { continue; } if i > 3 { break; } println(i); }"
        ),
        vec!["1", "3"]
    );
}

#[test]
fn division_truncates_toward_zero() {
    assert_eq!(run_source("println(7 / 2); println(0 - 7 / 2);"), vec!["3", "-3"]);
}

#[test]
fn division_by_zero_is_fatal() {
    let prog = tonic::parser::parse("println(1 / 0);").unwrap();
    let mut compiler = Compiler::new(prog);
    let (code, scopes) = compiler.build().unwrap();
    let mut vm = VM::new(code, scopes);
    vm.add_function(String::from("println"));
    assert!(matches!(
        vm.run(1000),
        Err(tonic::vm::RuntimeError::InvalidOperands)
    ));
}

#[test]
fn unknown_identifier_is_fatal() {
    let prog = tonic::parser::parse("let x = nope;").unwrap();
    let mut compiler = Compiler::new(prog);
    let (code, scopes) = compiler.build().unwrap();
    let mut vm = VM::new(code, scopes);
    assert!(matches!(
        vm.run(1000),
        Err(tonic::vm::RuntimeError::UnknownIdentifier)
    ));
}

#[test]
fn calling_a_number_is_fatal() {
    let prog = tonic::parser::parse("let x = 1; x();").unwrap();
    let mut compiler = Compiler::new(prog);
    let (code, scopes) = compiler.build().unwrap();
    let mut vm = VM::new(code, scopes);
    assert!(matches!(vm.run(1000), Err(tonic::vm::RuntimeError::NotCallable)));
}

#[test]
fn out_of_bounds_index_is_fatal() {
    let prog = tonic::parser::parse("let a = [1]; println(a[5]);").unwrap();
    let mut compiler = Compiler::new(prog);
    let (code, scopes) = compiler.build().unwrap();
    let mut vm = VM::new(code, scopes);
    vm.add_function(String::from("println"));
    assert!(matches!(
        vm.run(1000),
        Err(tonic::vm::RuntimeError::InvalidArrayAccess)
    ));
}

#[test]
fn builds_are_identical() {
    // Compilation is a pure function of the AST: two builds of equal
    // programs produce byte-identical code and scopes.
    let src = "fn f(n) { return n + 1; } let x = f(1); while x < 9 { x = x + 1; }";
    let p1 = tonic::parser::parse(src).unwrap();
    let p2 = tonic::parser::parse(src).unwrap();
    let (c1, s1) = Compiler::new(p1).build().unwrap();
    let (c2, s2) = Compiler::new(p2).build().unwrap();
    assert_eq!(format!("{:?}", c1), format!("{:?}", c2));
    assert_eq!(format!("{:?}", s1), format!("{:?}", s2));
}

#[test]
fn scopes_are_well_formed() {
    // Each function scope is a non-empty range ending in a Return, and
    // every jump target lies within the code.
    let src = "fn f(n) { return n; } fn g() { } let x = f(2); while x > 0 { x = x - 1; }";
    let prog = tonic::parser::parse(src).unwrap();
    let (code, scopes) = Compiler::new(prog).build().unwrap();
    assert!(tonic::compiler::check_build(&code, &scopes));
    assert_eq!(scopes[0].start, 0);
    assert_eq!(scopes[0].end, code.len());
    for s in scopes.iter().skip(1) {
        assert!(s.start < s.end && s.end <= code.len());
        assert!(matches!(code[s.end - 1], tonic::code::Code::Return));
    }
    for c in code.iter() {
        match c {
            tonic::code::Code::Jump(t) => assert!(*t <= code.len()),
            tonic::code::Code::JumpFalse(t) => assert!(*t <= code.len()),
            tonic::code::Code::JumpIfElse(t, f) => {
                assert!(*t <= code.len() && *f <= code.len())
            },
            tonic::code::Code::Label(_, t) => assert!(*t <= code.len()),
            _ => {},
        }
    }
}

#[test]
fn break_outside_loop_is_a_compile_error() {
    // The parser already rejects a bare `break`; the compiler rejects one
    // that reaches it without an enclosing loop frame.
    let prog = vec![Statement::Break];
    let mut compiler = Compiler::new(prog);
    assert!(matches!(
        compiler.build(),
        Err(tonic::compiler::CompileError::InvalidBreakableScope)
    ));
}
