use jarona::ast::{BinaryOp, Expr, Program, Stmt, UnaryOp};
use jarona::lexer::Lexer;
use jarona::parser::{ParseError, Parser};
use jarona::token::TokenKind;

fn parse(source: &str) -> Result<Program, ParseError> {
    let mut lexer = Lexer::new(source);
    let tokens = lexer.tokenize().unwrap();
    let mut parser = Parser::new(tokens);
    parser.parse_program()
}

fn syntax_error(source: &str) -> (String, TokenKind, usize) {
    match parse(source) {
        Err(ParseError::Syntax { message, token }) => (message, token.kind, token.pos),
        other => panic!("expected a syntax error, got {other:?}"),
    }
}

fn number(e: &Expr) -> &str {
    match e {
        Expr::Number(text) => text.as_str(),
        other => panic!("expected a number, got {other:?}"),
    }
}

#[test]
fn parses_precedence_of_operators() {
    let program = parse("var x = 1 + 2 * 3;").unwrap();
    assert_eq!(program.statements.len(), 1);
    match &program.statements[0] {
        Stmt::Var { name, value: Expr::Binary { left, op: BinaryOp::Add, right } } => {
            assert_eq!(name, "x");
            assert_eq!(number(left), "1");
            match &**right {
                Expr::Binary { left, op: BinaryOp::Multiply, right } => {
                    assert_eq!(number(left), "2");
                    assert_eq!(number(right), "3");
                },
                other => panic!("unexpected {other:?}"),
            }
        },
        other => panic!("unexpected {other:?}"),
    }
}

#[test]
fn parses_left_associative_subtraction_and_comparison() {
    let program = parse("print(5 - 2 - 1 == 2);").unwrap();
    match &program.statements[0] {
        Stmt::Print(Expr::Binary { left, op: BinaryOp::Equal, right }) => {
            assert_eq!(number(right), "2");
            match &**left {
                Expr::Binary { left: inner, op: BinaryOp::Subtract, right: one } => {
                    assert_eq!(number(one), "1");
                    assert!(matches!(&**inner, Expr::Binary { op: BinaryOp::Subtract, .. }));
                },
                other => panic!("unexpected {other:?}"),
            }
        },
        other => panic!("unexpected {other:?}"),
    }
}

#[test]
fn parses_unary_operators() {
    let program = parse("print(-+4);").unwrap();
    match &program.statements[0] {
        Stmt::Print(Expr::Unary { op: UnaryOp::Negate, expr }) => {
            assert!(matches!(&**expr, Expr::Unary { op: UnaryOp::Plus, .. }));
        },
        other => panic!("unexpected {other:?}"),
    }
}

#[test]
fn parses_assignment_and_expression_statements() {
    let program = parse("x = 3; f(1 2); p.name;").unwrap();
    assert!(matches!(&program.statements[0], Stmt::Assign { name, .. } if name == "x"));
    match &program.statements[1] {
        Stmt::Expr(Expr::Call { name, args }) => {
            assert_eq!(name, "f");
            assert_eq!(args.len(), 2);
        },
        other => panic!("unexpected {other:?}"),
    }
    match &program.statements[2] {
        Stmt::Expr(Expr::Field { object, name }) => {
            assert_eq!(name, "name");
            assert!(matches!(&**object, Expr::Variable(v) if v == "p"));
        },
        other => panic!("unexpected {other:?}"),
    }
}

#[test]
fn parses_if_void_struct_and_return() {
    let source = "struct P { x; y; } void f(a b) { if a == b { return a; } else { print(b); } } var s = [1 \"t\" true];";
    let program = parse(source).unwrap();
    assert_eq!(program.statements.len(), 3);
    match &program.statements[0] {
        Stmt::Struct { name, fields } => {
            assert_eq!(name, "P");
            assert_eq!(fields, &vec!["x".to_string(), "y".to_string()]);
        },
        other => panic!("unexpected {other:?}"),
    }
    match &program.statements[1] {
        Stmt::Void { name, params, body } => {
            assert_eq!(name, "f");
            assert_eq!(params, &vec!["a".to_string(), "b".to_string()]);
            assert_eq!(body.len(), 1);
            match &body[0] {
                Stmt::If { body, else_body: Some(else_body), .. } => {
                    assert!(matches!(&body[0], Stmt::Return(Expr::Variable(v)) if v == "a"));
                    assert!(matches!(&else_body[0], Stmt::Print(_)));
                },
                other => panic!("unexpected {other:?}"),
            }
        },
        other => panic!("unexpected {other:?}"),
    }
    match &program.statements[2] {
        Stmt::Var { value: Expr::Array(items), .. } => {
            assert_eq!(items.len(), 3);
            assert!(matches!(&items[1], Expr::String(s) if s == "t"));
            assert!(matches!(&items[2], Expr::Boolean(true)));
        },
        other => panic!("unexpected {other:?}"),
    }
}

#[test]
fn parses_imports_and_declarations() {
    let program = parse("import(\"a\"); var t = import$str(\"b\"); declare \"c\";").unwrap();
    assert!(matches!(&program.statements[0], Stmt::Expr(Expr::Import(p)) if matches!(&**p, Expr::String(s) if s == "a")));
    assert!(matches!(&program.statements[1], Stmt::Var { value: Expr::ImportStr(_), .. }));
    assert!(matches!(&program.statements[2], Stmt::Expr(Expr::Declare(p)) if matches!(&**p, Expr::String(s) if s == "c")));
}

#[test]
fn empty_program_has_no_statements() {
    assert_eq!(parse("").unwrap().statements.len(), 0);
    assert_eq!(parse("// nothing\n").unwrap().statements.len(), 0);
}

#[test]
fn reports_a_missing_identifier_after_var() {
    let (message, kind, pos) = syntax_error("var = 1;");
    assert_eq!(message, "expected identifier after `var`");
    assert_eq!(kind, TokenKind::Number("1".to_string()));
    assert_eq!(pos, 6);
}

#[test]
fn reports_a_missing_semicolon_at_the_end() {
    let (message, kind, pos) = syntax_error("print(1)");
    assert_eq!(message, "expected `;` after print statement");
    assert_eq!(kind, TokenKind::Eof);
    assert_eq!(pos, 8);
}

#[test]
fn reports_a_call_of_a_non_name() {
    let (message, kind, _) = syntax_error("1(2);");
    assert_eq!(message, "only functions can be called");
    assert_eq!(kind, TokenKind::Number("2".to_string()));
}

#[test]
fn reports_a_missing_expression() {
    let (message, kind, pos) = syntax_error("var x = ;");
    assert_eq!(message, "expected expression");
    assert_eq!(kind, TokenKind::Eof);
    assert_eq!(pos, 9);
}

#[test]
fn reports_an_unclosed_array() {
    let (message, kind, _) = syntax_error("var a = [1 2");
    assert_eq!(message, "expected `]` after array");
    assert_eq!(kind, TokenKind::Eof);
}

#[test]
fn reports_a_declare_without_a_string() {
    let (message, _, _) = syntax_error("declare x;");
    assert_eq!(message, "expected string after `declare`");
}

#[test]
fn an_open_parenthesis_at_the_end_nests_without_end() {
    assert!(matches!(parse("print("), Err(ParseError::EndlessNesting)));
    assert!(matches!(parse("var x = ("), Err(ParseError::EndlessNesting)));
}
