use vstd::prelude::*;

verus! {

/// The kinds of token that the lexer produces.
///
/// A numeric literal is kept as the text of its digits (with at most one
/// decimal point between digits); turning that text into a number is left
/// to whoever evaluates the program.
#[derive(Debug, Clone, PartialEq)]
pub enum TokenKind {
    Var,
    Print,
    Ident(String),
    Number(String),
    String(String),
    Import,
    ImportStr,
    Plus,
    Minus,
    Star,
    Slash,
    Percent,
    Equal,
    EqualEqual,
    LParen,
    RParen,
    LBracket,
    RBracket,
    LBrace,
    RBrace,
    DoubleColon,
    Semicolon,
    Dot,
    If,
    True,
    False,
    Else,
    Return,
    Void,
    Declare,
    Struct,
    Enum,
    Run,
    Eof,
}

/// The variant of a [`TokenKind`], without its payload.
#[derive(Debug, Clone, Copy, PartialEq, Eq, Structural)]
pub enum KindTag {
    Var,
    Print,
    Ident,
    Number,
    String,
    Import,
    ImportStr,
    Plus,
    Minus,
    Star,
    Slash,
    Percent,
    Equal,
    EqualEqual,
    LParen,
    RParen,
    LBracket,
    RBracket,
    LBrace,
    RBrace,
    DoubleColon,
    Semicolon,
    Dot,
    If,
    True,
    False,
    Else,
    Return,
    Void,
    Declare,
    Struct,
    Enum,
    Run,
    Eof,
}

/// A token: its kind, the source text it stands for, and the index (in
/// characters) of its first character.
#[derive(Debug, Clone, PartialEq)]
pub struct Token {
    pub kind: TokenKind,
    pub lexeme: String,
    pub pos: usize,
}

/// The mathematical description of a token: its variant, its text and its position.
/// The payload of `Ident`, `Number` and `String` tokens is always their text.
pub struct TokenModel {
    pub tag: KindTag,
    pub lexeme: Seq<char>,
    pub pos: nat,
}

/// The variant of a token kind.
pub open spec fn tag_of(k: TokenKind) -> KindTag {
    match k {
        TokenKind::Var => KindTag::Var,
        TokenKind::Print => KindTag::Print,
        TokenKind::Ident(_) => KindTag::Ident,
        TokenKind::Number(_) => KindTag::Number,
        TokenKind::String(_) => KindTag::String,
        TokenKind::Import => KindTag::Import,
        TokenKind::ImportStr => KindTag::ImportStr,
        TokenKind::Plus => KindTag::Plus,
        TokenKind::Minus => KindTag::Minus,
        TokenKind::Star => KindTag::Star,
        TokenKind::Slash => KindTag::Slash,
        TokenKind::Percent => KindTag::Percent,
        TokenKind::Equal => KindTag::Equal,
        TokenKind::EqualEqual => KindTag::EqualEqual,
        TokenKind::LParen => KindTag::LParen,
        TokenKind::RParen => KindTag::RParen,
        TokenKind::LBracket => KindTag::LBracket,
        TokenKind::RBracket => KindTag::RBracket,
        TokenKind::LBrace => KindTag::LBrace,
        TokenKind::RBrace => KindTag::RBrace,
        TokenKind::DoubleColon => KindTag::DoubleColon,
        TokenKind::Semicolon => KindTag::Semicolon,
        TokenKind::Dot => KindTag::Dot,
        TokenKind::If => KindTag::If,
        TokenKind::True => KindTag::True,
        TokenKind::False => KindTag::False,
        TokenKind::Else => KindTag::Else,
        TokenKind::Return => KindTag::Return,
        TokenKind::Void => KindTag::Void,
        TokenKind::Declare => KindTag::Declare,
        TokenKind::Struct => KindTag::Struct,
        TokenKind::Enum => KindTag::Enum,
        TokenKind::Run => KindTag::Run,
        TokenKind::Eof => KindTag::Eof,
    }
}

/// Two token kinds match when they are the same variant, whatever their
/// payloads; `DoubleColon`, `Enum` and `Run` match nothing.
pub open spec fn kinds_match(a: TokenKind, b: TokenKind) -> bool {
    &&& tag_of(a) == tag_of(b)
    &&& tag_of(a) != KindTag::DoubleColon
    &&& tag_of(a) != KindTag::Enum
    &&& tag_of(a) != KindTag::Run
}

impl TokenKind {
    /// Returns the variant of this kind.
    pub fn tag(&self) -> (t: KindTag)
        ensures
            t == tag_of(*self),
    {
        match self {
            TokenKind::Var => KindTag::Var,
            TokenKind::Print => KindTag::Print,
            TokenKind::Ident(_) => KindTag::Ident,
            TokenKind::Number(_) => KindTag::Number,
            TokenKind::String(_) => KindTag::String,
            TokenKind::Import => KindTag::Import,
            TokenKind::ImportStr => KindTag::ImportStr,
            TokenKind::Plus => KindTag::Plus,
            TokenKind::Minus => KindTag::Minus,
            TokenKind::Star => KindTag::Star,
            TokenKind::Slash => KindTag::Slash,
            TokenKind::Percent => KindTag::Percent,
            TokenKind::Equal => KindTag::Equal,
            TokenKind::EqualEqual => KindTag::EqualEqual,
            TokenKind::LParen => KindTag::LParen,
            TokenKind::RParen => KindTag::RParen,
            TokenKind::LBracket => KindTag::LBracket,
            TokenKind::RBracket => KindTag::RBracket,
            TokenKind::LBrace => KindTag::LBrace,
            TokenKind::RBrace => KindTag::RBrace,
            TokenKind::DoubleColon => KindTag::DoubleColon,
            TokenKind::Semicolon => KindTag::Semicolon,
            TokenKind::Dot => KindTag::Dot,
            TokenKind::If => KindTag::If,
            TokenKind::True => KindTag::True,
            TokenKind::False => KindTag::False,
            TokenKind::Else => KindTag::Else,
            TokenKind::Return => KindTag::Return,
            TokenKind::Void => KindTag::Void,
            TokenKind::Declare => KindTag::Declare,
            TokenKind::Struct => KindTag::Struct,
            TokenKind::Enum => KindTag::Enum,
            TokenKind::Run => KindTag::Run,
            TokenKind::Eof => KindTag::Eof,
        }
    }

    /// Returns a copy of this kind, payload included.
    pub fn duplicate(&self) -> (r: TokenKind)
        ensures
            r == *self,
    {
        match self {
            TokenKind::Ident(s) => TokenKind::Ident(s.clone()),
            TokenKind::Number(s) => TokenKind::Number(s.clone()),
            TokenKind::String(s) => TokenKind::String(s.clone()),
            TokenKind::Var => TokenKind::Var,
            TokenKind::Print => TokenKind::Print,
            TokenKind::Import => TokenKind::Import,
            TokenKind::ImportStr => TokenKind::ImportStr,
            TokenKind::Plus => TokenKind::Plus,
            TokenKind::Minus => TokenKind::Minus,
            TokenKind::Star => TokenKind::Star,
            TokenKind::Slash => TokenKind::Slash,
            TokenKind::Percent => TokenKind::Percent,
            TokenKind::Equal => TokenKind::Equal,
            TokenKind::EqualEqual => TokenKind::EqualEqual,
            TokenKind::LParen => TokenKind::LParen,
            TokenKind::RParen => TokenKind::RParen,
            TokenKind::LBracket => TokenKind::LBracket,
            TokenKind::RBracket => TokenKind::RBracket,
            TokenKind::LBrace => TokenKind::LBrace,
            TokenKind::RBrace => TokenKind::RBrace,
            TokenKind::DoubleColon => TokenKind::DoubleColon,
            TokenKind::Semicolon => TokenKind::Semicolon,
            TokenKind::Dot => TokenKind::Dot,
            TokenKind::If => TokenKind::If,
            TokenKind::True => TokenKind::True,
            TokenKind::False => TokenKind::False,
            TokenKind::Else => TokenKind::Else,
            TokenKind::Return => TokenKind::Return,
            TokenKind::Void => TokenKind::Void,
            TokenKind::Declare => TokenKind::Declare,
            TokenKind::Struct => TokenKind::Struct,
            TokenKind::Enum => TokenKind::Enum,
            TokenKind::Run => TokenKind::Run,
            TokenKind::Eof => TokenKind::Eof,
        }
    }
}

/// Returns whether two token kinds are the same variant, ignoring payloads.
/// `DoubleColon`, `Enum` and `Run` match no kind, not even themselves.
pub fn token_kind_matches(a: &TokenKind, b: &TokenKind) -> (r: bool)
    ensures
        r == kinds_match(*a, *b),
{
    let ta = a.tag();
    let tb = b.tag();
    ta == tb && ta != KindTag::DoubleColon && ta != KindTag::Enum && ta != KindTag::Run
}

impl Token {
    /// Returns a copy of this token.
    pub fn duplicate(&self) -> (r: Token)
        ensures
            r == *self,
    {
        Token { kind: self.kind.duplicate(), lexeme: self.lexeme.clone(), pos: self.pos }
    }

    /// The mathematical description of this token.
    pub open spec fn model(self) -> TokenModel {
        TokenModel { tag: tag_of(self.kind), lexeme: self.lexeme@, pos: self.pos as nat }
    }

    /// The payload of an `Ident`, `Number` or `String` token is its text.
    pub open spec fn payload_is_lexeme(self) -> bool {
        match self.kind {
            TokenKind::Ident(s) => s@ == self.lexeme@,
            TokenKind::Number(s) => s@ == self.lexeme@,
            TokenKind::String(s) => s@ == self.lexeme@,
            _ => true,
        }
    }
}

} // verus!
