use jarona::lexer::{is_ident_continue, is_ident_start, Lexer};
use jarona::token::{token_kind_matches, Token, TokenKind};

fn lex(source: &str) -> Result<Vec<Token>, String> {
    let mut lexer = Lexer::new(source);
    lexer.tokenize()
}

fn kinds(tokens: &[Token]) -> Vec<TokenKind> {
    tokens.iter().map(|t| t.kind.clone()).collect()
}

#[test]
fn tokenizes_a_declaration() {
    let tokens = lex("var x = 12.5;").unwrap();
    assert_eq!(
        kinds(&tokens),
        vec![
            TokenKind::Var,
            TokenKind::Ident("x".to_string()),
            TokenKind::Equal,
            TokenKind::Number("12.5".to_string()),
            TokenKind::Semicolon,
            TokenKind::Eof,
        ]
    );
    let positions: Vec<usize> = tokens.iter().map(|t| t.pos).collect();
    assert_eq!(positions, vec![0, 4, 6, 8, 12, 13]);
    let lexemes: Vec<&str> = tokens.iter().map(|t| t.lexeme.as_str()).collect();
    assert_eq!(lexemes, vec!["var", "x", "=", "12.5", ";", ""]);
}

#[test]
fn tokenizes_keywords_and_operators() {
    let tokens = lex("import$str import run$r enum struct void declare return if else true false print").unwrap();
    assert_eq!(
        kinds(&tokens),
        vec![
            TokenKind::ImportStr,
            TokenKind::Import,
            TokenKind::Run,
            TokenKind::Enum,
            TokenKind::Struct,
            TokenKind::Void,
            TokenKind::Declare,
            TokenKind::Return,
            TokenKind::If,
            TokenKind::Else,
            TokenKind::True,
            TokenKind::False,
            TokenKind::Print,
            TokenKind::Eof,
        ]
    );
    let tokens = lex("+-*/%= == ( ) [ ] { } :: ; .").unwrap();
    assert_eq!(
        kinds(&tokens),
        vec![
            TokenKind::Plus,
            TokenKind::Minus,
            TokenKind::Star,
            TokenKind::Slash,
            TokenKind::Percent,
            TokenKind::Equal,
            TokenKind::EqualEqual,
            TokenKind::LParen,
            TokenKind::RParen,
            TokenKind::LBracket,
            TokenKind::RBracket,
            TokenKind::LBrace,
            TokenKind::RBrace,
            TokenKind::DoubleColon,
            TokenKind::Semicolon,
            TokenKind::Dot,
            TokenKind::Eof,
        ]
    );
}

#[test]
fn tokenizes_a_string_without_its_quotes() {
    let tokens = lex("print(\"hi there\");").unwrap();
    assert_eq!(tokens[2].kind, TokenKind::String("hi there".to_string()));
    assert_eq!(tokens[2].lexeme, "hi there");
    assert_eq!(tokens[2].pos, 6);
}

#[test]
fn skips_comments_and_whitespace() {
    let tokens = lex("// a comment\n\tprint").unwrap();
    assert_eq!(kinds(&tokens), vec![TokenKind::Print, TokenKind::Eof]);
    assert_eq!(tokens[0].pos, 14);
}

#[test]
fn a_number_needs_a_digit_after_its_point() {
    let tokens = lex("1.x").unwrap();
    assert_eq!(
        kinds(&tokens),
        vec![TokenKind::Number("1".to_string()), TokenKind::Dot, TokenKind::Ident("x".to_string()), TokenKind::Eof]
    );
}

#[test]
fn empty_input_is_only_the_end() {
    let tokens = lex("").unwrap();
    assert_eq!(tokens.len(), 1);
    assert_eq!(tokens[0].kind, TokenKind::Eof);
    assert_eq!(tokens[0].pos, 0);
    assert_eq!(tokens[0].lexeme, "");
}

#[test]
fn reports_an_unterminated_string() {
    assert_eq!(lex("print(\"abc").unwrap_err(), "unterminated string");
}

#[test]
fn reports_an_unexpected_character() {
    assert_eq!(lex("x @").unwrap_err(), "unexpected character `@` at 2");
    assert_eq!(lex("a:b").unwrap_err(), "unexpected character `:` at 1");
}

#[test]
fn tokens_stand_at_their_positions_in_order() {
    let source = "void f(a b) { return a + \"s\"; }";
    let chars: Vec<char> = source.chars().collect();
    let tokens = lex(source).unwrap();
    let last = tokens.last().unwrap();
    assert_eq!(last.kind, TokenKind::Eof);
    assert_eq!(last.pos, chars.len());
    for pair in tokens.windows(2) {
        assert!(pair[0].pos < pair[1].pos);
    }
    for t in &tokens[..tokens.len() - 1] {
        assert!(t.kind != TokenKind::Eof);
        let from = if matches!(t.kind, TokenKind::String(_)) { t.pos + 1 } else { t.pos };
        let text: String = chars[from..from + t.lexeme.chars().count()].iter().collect();
        assert_eq!(text, t.lexeme);
    }
}

#[test]
fn identifier_characters() {
    assert!(is_ident_start('a'));
    assert!(is_ident_start('_'));
    assert!(!is_ident_start('$'));
    assert!(!is_ident_start('1'));
    assert!(is_ident_continue('1'));
    assert!(is_ident_continue('$'));
    assert!(!is_ident_continue('-'));
}

#[test]
fn kinds_match_by_variant() {
    assert!(token_kind_matches(&TokenKind::Ident("a".to_string()), &TokenKind::Ident("b".to_string())));
    assert!(token_kind_matches(&TokenKind::String("a".to_string()), &TokenKind::String(String::new())));
    assert!(!token_kind_matches(&TokenKind::Plus, &TokenKind::Minus));
}
