use jarona::ast::{BinaryOp, Program};
use jarona::interpreter::{Halt, Interpreter, Knowledge, Query};
use jarona::lexer::Lexer;
use jarona::parser::{ParseError, Parser};
use jarona::value::{number_eq, number_neg, values_eq, Value};

fn parse(source: &str) -> Program {
    let mut lexer = Lexer::new(source);
    let tokens = lexer.tokenize().unwrap();
    let mut parser = Parser::new(tokens);
    parser.parse_program().unwrap()
}

fn answer(query: &Query) -> u64 {
    match query {
        Query::Literal(text) => text.parse::<f64>().unwrap().to_bits(),
        Query::Arithmetic(op, a, b) => {
            let (x, y) = (f64::from_bits(*a), f64::from_bits(*b));
            let r = match op {
                BinaryOp::Add => x + y,
                BinaryOp::Subtract => x - y,
                BinaryOp::Multiply => x * y,
                BinaryOp::Divide => x / y,
                BinaryOp::Modulo => x % y,
                BinaryOp::Equal => panic!("equality is no arithmetic"),
            };
            r.to_bits()
        },
    }
}

/// Runs `source` with the files `files`, answering each question until the
/// run needs nothing more; returns what it printed and how it ended.
fn run_with(source: &str, files: &[(&str, &str)], depth: usize) -> (Vec<Value>, Result<(), Halt>) {
    let program = parse(source);
    let mut knowledge = Knowledge::new();
    loop {
        let mut interpreter = Interpreter::new();
        let result = interpreter.run(&program, &knowledge, depth);
        match result {
            Err(Halt::NeedFile(path)) => {
                let text = match files.iter().find(|(name, _)| *name == path) {
                    Some((_, text)) => Ok(text.to_string()),
                    None => Err(format!("could not read `{path}`: not found")),
                };
                knowledge.add_file(path, text);
            },
            Err(Halt::NeedNumber(query)) => {
                let bits = answer(&query);
                knowledge.add_number(query, bits);
            },
            other => {
                let output = interpreter.output().iter().map(|v| v.copy()).collect();
                return (output, other);
            },
        }
    }
}

fn run(source: &str) -> (Vec<Value>, Result<(), Halt>) {
    run_with(source, &[], 64)
}

fn num(v: &Value) -> f64 {
    match v {
        Value::Number(bits) => f64::from_bits(*bits),
        other => panic!("expected a number, got {other:?}"),
    }
}

fn text(v: &Value) -> &str {
    match v {
        Value::String(s) => s.as_str(),
        other => panic!("expected a string, got {other:?}"),
    }
}

fn boolean(v: &Value) -> bool {
    match v {
        Value::Boolean(b) => *b,
        other => panic!("expected a boolean, got {other:?}"),
    }
}

fn error(result: Result<(), Halt>) -> String {
    match result {
        Err(Halt::Error(message)) => message,
        other => panic!("expected an error, got {other:?}"),
    }
}

#[test]
fn prints_arithmetic() {
    let (out, result) = run("print(1 + 2 * 3); print(7 % 4); print(1 / 4); print(2 - 5);");
    assert!(result.is_ok());
    let values: Vec<f64> = out.iter().map(num).collect();
    assert_eq!(values, vec![7.0, 3.0, 0.25, -3.0]);
}

#[test]
fn reads_back_a_variable_after_setting_it() {
    let (out, result) = run("var x = 5; var y = 1; x = x * 2; print(x); print(y);");
    assert!(result.is_ok());
    assert_eq!(num(&out[0]), 10.0);
    assert_eq!(num(&out[1]), 1.0);
}

#[test]
fn prints_strings_booleans_arrays_and_null() {
    let (out, result) = run("print(\"hi\"); print(false); print([1 \"a\"]); void z() { } print(z());");
    assert!(result.is_ok());
    assert_eq!(text(&out[0]), "hi");
    assert!(!boolean(&out[1]));
    match &out[2] {
        Value::Array(items) => {
            assert_eq!(items.len(), 2);
            assert_eq!(num(&items[0]), 1.0);
            assert_eq!(text(&items[1]), "a");
        },
        other => panic!("unexpected {other:?}"),
    }
    assert!(matches!(out[3], Value::Null));
}

#[test]
fn runs_the_branch_that_the_condition_picks() {
    let (out, result) = run("var a = 3; if a == 3 { print(\"yes\"); } else { print(\"no\"); } if a == 4 { print(1); }");
    assert!(result.is_ok());
    assert_eq!(out.len(), 1);
    assert_eq!(text(&out[0]), "yes");
    let (out, _) = run("if false { print(1); } else { print(2); }");
    assert_eq!(num(&out[0]), 2.0);
}

#[test]
fn a_condition_must_be_a_boolean() {
    let (_, result) = run("if 1 { print(1); }");
    assert_eq!(error(result), "if condition must be a boolean");
}

#[test]
fn calls_functions() {
    let (out, result) = run("void add(a b) { return a + b; } print(add(1 2)); void nothing() { print(9); } print(nothing());");
    assert!(result.is_ok());
    assert_eq!(num(&out[0]), 3.0);
    assert_eq!(num(&out[1]), 9.0);
    assert!(matches!(out[2], Value::Null));
}

#[test]
fn parameters_stay_set_after_a_call() {
    let (out, result) = run("void f(a) { return a; } f(4); print(a);");
    assert!(result.is_ok());
    assert_eq!(num(&out[0]), 4.0);
}

#[test]
fn reports_calls_that_do_not_fit() {
    let (_, result) = run("void add(a b) { return a + b; } add(1);");
    assert_eq!(error(result), "function `add` expected 2 arguments, got 1");
    let (_, result) = run("missing(1);");
    assert_eq!(error(result), "undefined function `missing`");
    let (_, result) = run("print(y);");
    assert_eq!(error(result), "undefined variable `y`");
}

#[test]
fn builds_structs_and_reads_fields() {
    let (out, result) = run("struct P { x; y; } var p = P(1 \"b\"); print(p.x); print(p.y); print(p == P(1 \"b\"));");
    assert!(result.is_ok());
    assert_eq!(num(&out[0]), 1.0);
    assert_eq!(text(&out[1]), "b");
    assert!(boolean(&out[2]));
}

#[test]
fn reports_struct_misuse() {
    let (_, result) = run("struct P { x; y; } var p = P(1);");
    assert_eq!(error(result), "struct `P` expected 2 fields, got 1");
    let (_, result) = run("struct P { x; } var p = P(1); print(p.z);");
    assert_eq!(error(result), "struct `P` has no field `z`");
    let (_, result) = run("var n = 1; print(n.x);");
    assert_eq!(error(result), "cannot access field `x` on non-struct value");
}

#[test]
fn compares_values() {
    let (out, result) = run("print(1 == 1); print(\"a\" == \"b\"); print([1 2] == [1 2]); print(1 == \"1\"); print(true == true);");
    assert!(result.is_ok());
    let values: Vec<bool> = out.iter().map(boolean).collect();
    assert_eq!(values, vec![true, false, true, false, true]);
}

#[test]
fn nan_equals_nothing_and_zeros_are_equal() {
    let (out, result) = run("var n = 0 / 0; print(n == n); print(0 == -0);");
    assert!(result.is_ok());
    assert!(!boolean(&out[0]));
    assert!(boolean(&out[1]));
    let nan = f64::NAN.to_bits();
    assert!(!number_eq(nan, nan));
    assert!(number_eq(0.0f64.to_bits(), (-0.0f64).to_bits()));
    assert!(number_eq(2.5f64.to_bits(), 2.5f64.to_bits()));
}

#[test]
fn negation_twice_gives_the_number_back() {
    let (out, result) = run("print(-5); print(--5); print(+5);");
    assert!(result.is_ok());
    assert_eq!(num(&out[0]), -5.0);
    assert_eq!(num(&out[1]), 5.0);
    assert_eq!(num(&out[2]), 5.0);
    let bits = 3.25f64.to_bits();
    assert_eq!(number_neg(number_neg(bits)), bits);
    assert_eq!(f64::from_bits(number_neg(bits)), -3.25);
}

#[test]
fn reports_invalid_operations() {
    let (_, result) = run("print(\"a\" + 1);");
    assert_eq!(error(result), "invalid binary operation");
    let (_, result) = run("print(-\"a\");");
    assert_eq!(error(result), "invalid unary operation");
}

#[test]
fn keeps_what_was_printed_before_an_error() {
    let (out, result) = run("print(1); print(2); print(y); print(3);");
    assert_eq!(out.len(), 2);
    assert_eq!(num(&out[1]), 2.0);
    assert_eq!(error(result), "undefined variable `y`");
}

#[test]
fn imports_run_a_file() {
    let files = [("lib.j", "var z = 7; print(\"in lib\");")];
    let (out, result) = run_with("var r = import(\"lib.j\"); print(z); print(r);", &files, 64);
    assert!(result.is_ok());
    assert_eq!(text(&out[0]), "in lib");
    assert_eq!(num(&out[1]), 7.0);
    assert!(matches!(out[2], Value::Null));
}

#[test]
fn import_str_reads_a_file() {
    let files = [("a.txt", "hello\nworld")];
    let (out, result) = run_with("print(import$str(\"a.txt\"));", &files, 64);
    assert!(result.is_ok());
    assert_eq!(text(&out[0]), "hello\nworld");
}

#[test]
fn declare_takes_definitions() {
    let files = [("d.j", "var w = 2; void f() { return w + 1; } struct S { a; }")];
    let (out, result) = run_with("declare \"d.j\"; print(f()); print(S(5).a);", &files, 64);
    assert!(result.is_ok());
    assert_eq!(num(&out[0]), 3.0);
    assert_eq!(num(&out[1]), 5.0);
}

#[test]
fn declare_refuses_other_statements() {
    let files = [("d.j", "var w = 2; print(w);")];
    let (_, result) = run_with("declare \"d.j\";", &files, 64);
    assert_eq!(error(result), "cannot declare this statement from `d.j`");
}

#[test]
fn reports_files_that_cannot_be_read() {
    let (_, result) = run("import(\"nowhere.j\");");
    assert_eq!(error(result), "could not read `nowhere.j`: not found");
    let (_, result) = run("print(import$str(\"nowhere.txt\"));");
    assert_eq!(error(result), "could not read `nowhere.txt`: not found");
}

#[test]
fn reports_errors_in_imported_files() {
    let files = [("bad.j", "var = 1;"), ("odd.j", "x @")];
    let (_, result) = run_with("import(\"bad.j\");", &files, 64);
    match result {
        Err(Halt::Syntax(ParseError::Syntax { message, token })) => {
            assert_eq!(message, "expected identifier after `var`");
            assert_eq!(token.pos, 6);
        },
        other => panic!("unexpected {other:?}"),
    }
    let (_, result) = run_with("import(\"odd.j\");", &files, 64);
    assert_eq!(error(result), "unexpected character `@` at 2");
}

#[test]
fn paths_must_be_strings() {
    let (_, result) = run("import(1);");
    assert_eq!(error(result), "import path must be a string");
    let (_, result) = run("import$str(true);");
    assert_eq!(error(result), "import$str path must be a string");
}

#[test]
fn stops_recursion_that_goes_too_deep() {
    let (_, result) = run_with("void f() { return f(); } f();", &[], 10);
    assert!(matches!(result, Err(Halt::TooDeep)));
    let (out, result) = run_with("void g(n) { if n == 0 { return 0; } return g(n - 1); } print(g(3));", &[], 10);
    assert!(result.is_ok());
    assert_eq!(num(&out[0]), 0.0);
}

#[test]
fn a_run_asks_for_what_it_does_not_know() {
    let program = parse("print(1.5);");
    let knowledge = Knowledge::new();
    let mut interpreter = Interpreter::new();
    match interpreter.run(&program, &knowledge, 8) {
        Err(Halt::NeedNumber(Query::Literal(t))) => assert_eq!(t, "1.5"),
        other => panic!("unexpected {other:?}"),
    }
    assert!(interpreter.output().is_empty());
    let program = parse("import(\"x\");");
    let mut interpreter = Interpreter::new();
    match interpreter.run(&program, &knowledge, 8) {
        Err(Halt::NeedFile(p)) => assert_eq!(p, "x"),
        other => panic!("unexpected {other:?}"),
    }
}

#[test]
fn copies_are_equal_values() {
    let v = Value::Struct {
        name: "P".to_string(),
        fields: vec![("a".to_string(), Value::Array(vec![Value::Number(1.0f64.to_bits()), Value::Null]))],
    };
    let w = v.copy();
    assert!(values_eq(&v, &w));
    assert!(!values_eq(&v, &Value::Null));
}

#[test]
fn more_knowledge_changes_nothing_in_a_finished_run() {
    let program = parse("var a = 1.5 * 2; print(a); print(import$str(\"f\"));");
    let mut knowledge = Knowledge::new();
    let first = loop {
        let mut interpreter = Interpreter::new();
        match interpreter.run(&program, &knowledge, 8) {
            Err(Halt::NeedFile(path)) => knowledge.add_file(path, Ok("text".to_string())),
            Err(Halt::NeedNumber(query)) => {
                let bits = answer(&query);
                knowledge.add_number(query, bits);
            },
            other => {
                assert!(other.is_ok());
                break interpreter.output().iter().map(|v| v.copy()).collect::<Vec<Value>>();
            },
        }
    };
    knowledge.add_file("f".to_string(), Ok("other text".to_string()));
    knowledge.add_file("g".to_string(), Err("could not read `g`".to_string()));
    knowledge.add_number(Query::Literal("1.5".to_string()), 7.0f64.to_bits());
    let mut interpreter = Interpreter::new();
    assert!(interpreter.run(&program, &knowledge, 8).is_ok());
    let second = interpreter.output();
    assert_eq!(first.len(), 2);
    assert_eq!(second.len(), 2);
    for (a, b) in first.iter().zip(second.iter()) {
        assert!(values_eq(a, b));
    }
    assert_eq!(num(&second[0]), 3.0);
    assert_eq!(text(&second[1]), "text");
}
