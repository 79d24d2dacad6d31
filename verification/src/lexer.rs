use vstd::prelude::*;
use vstd::string::StringExecFns;

use crate::text::{decimal, push_char, push_decimal, range_is, string_of_range};
use crate::token::{tag_of, KindTag, Token, TokenKind, TokenModel};

verus! {

// ---------------------------------------------------------------------
// The lexical grammar, stated over the sequence of source characters.
// ---------------------------------------------------------------------

/// An ASCII decimal digit.
pub open spec fn is_digit(c: char) -> bool {
    '0' <= c && c <= '9'
}

/// An ASCII letter.
pub open spec fn is_alpha(c: char) -> bool {
    ('a' <= c && c <= 'z') || ('A' <= c && c <= 'Z')
}

/// A character that may begin an identifier.
pub open spec fn ident_start(c: char) -> bool {
    is_alpha(c) || c == '_'
}

/// A character that may continue an identifier.
pub open spec fn ident_continue(c: char) -> bool {
    is_alpha(c) || is_digit(c) || c == '_' || c == '$'
}

/// The character at `i`, or `'\0'` past the end.
pub open spec fn char_at(s: Seq<char>, i: int) -> char {
    if 0 <= i < s.len() { s[i] } else { '\0' }
}

/// The first index at or after `i` whose character is not a digit.
pub open spec fn skip_digits(s: Seq<char>, i: nat) -> nat
    decreases s.len() - i,
{
    if i < s.len() && is_digit(s[i as int]) { skip_digits(s, i + 1) } else { i }
}

/// The first index at or after `i` whose character cannot continue an identifier.
pub open spec fn skip_ident(s: Seq<char>, i: nat) -> nat
    decreases s.len() - i,
{
    if i < s.len() && ident_continue(s[i as int]) { skip_ident(s, i + 1) } else { i }
}

/// The first index at or after `i` holding `stop`, or the length of `s`.
pub open spec fn skip_until(s: Seq<char>, i: nat, stop: char) -> nat
    decreases s.len() - i,
{
    if i < s.len() && s[i as int] != stop { skip_until(s, i + 1, stop) } else { i }
}

/// The end of a number whose first digit stands at `i - 1`: more digits,
/// then optionally a `.` followed by at least one digit and more digits.
pub open spec fn number_end(s: Seq<char>, i: nat) -> nat {
    let j = skip_digits(s, i);
    if char_at(s, j as int) == '.' && is_digit(char_at(s, (j + 1) as int)) {
        skip_digits(s, j + 1)
    } else {
        j
    }
}

/// The kind of a word: a keyword, or an identifier.
pub open spec fn word_tag(w: Seq<char>) -> KindTag {
    if w == "var"@ { KindTag::Var }
    else if w == "print"@ { KindTag::Print }
    else if w == "import"@ { KindTag::Import }
    else if w == "import$str"@ { KindTag::ImportStr }
    else if w == "if"@ { KindTag::If }
    else if w == "true"@ { KindTag::True }
    else if w == "false"@ { KindTag::False }
    else if w == "else"@ { KindTag::Else }
    else if w == "return"@ { KindTag::Return }
    else if w == "void"@ { KindTag::Void }
    else if w == "declare"@ { KindTag::Declare }
    else if w == "struct"@ { KindTag::Struct }
    else if w == "enum"@ { KindTag::Enum }
    else if w == "run$r"@ { KindTag::Run }
    else { KindTag::Ident }
}

/// The message for a character that begins no token, found at `pos`.
pub open spec fn unexpected_message(c: char, pos: nat) -> Seq<char> {
    "unexpected character `"@.push(c) + "` at "@ + decimal(pos)
}

/// What one scan from a position yields.
pub enum Scan {
    /// Nothing (whitespace or a comment); lexing goes on at `next`.
    Skip { next: nat },
    /// A token; lexing goes on at `next`.
    Emit { token: TokenModel, next: nat },
    /// An error message, with the position at which lexing stopped.
    Fail { message: Seq<char>, stop: nat },
}

/// A token spanning `s[start..end]`.
pub open spec fn emit(s: Seq<char>, tag: KindTag, start: nat, end: nat) -> Scan {
    Scan::Emit { token: TokenModel { tag, lexeme: s.subrange(start as int, end as int), pos: start }, next: end }
}

/// One scan of the token that begins at `start < s.len()`.
pub open spec fn scan(s: Seq<char>, start: nat) -> Scan {
    let c = s[start as int];
    let cur = start + 1;
    let peek = char_at(s, cur as int);
    if c == '(' { emit(s, KindTag::LParen, start, cur) }
    else if c == ')' { emit(s, KindTag::RParen, start, cur) }
    else if c == '+' { emit(s, KindTag::Plus, start, cur) }
    else if c == '-' { emit(s, KindTag::Minus, start, cur) }
    else if c == '*' { emit(s, KindTag::Star, start, cur) }
    else if c == '[' { emit(s, KindTag::LBracket, start, cur) }
    else if c == ']' { emit(s, KindTag::RBracket, start, cur) }
    else if c == '{' { emit(s, KindTag::LBrace, start, cur) }
    else if c == '}' { emit(s, KindTag::RBrace, start, cur) }
    else if c == '%' { emit(s, KindTag::Percent, start, cur) }
    else if c == '=' {
        if peek == '=' { emit(s, KindTag::EqualEqual, start, cur + 1) }
        else { emit(s, KindTag::Equal, start, cur) }
    }
    else if c == '/' {
        if peek == '/' { Scan::Skip { next: skip_until(s, cur + 1, '\n') } }
        else { emit(s, KindTag::Slash, start, cur) }
    }
    else if c == ':' {
        if peek == ':' { emit(s, KindTag::DoubleColon, start, cur + 1) }
        else { Scan::Fail { message: unexpected_message(c, start), stop: cur } }
    }
    else if c == ';' { emit(s, KindTag::Semicolon, start, cur) }
    else if c == '.' { emit(s, KindTag::Dot, start, cur) }
    else if c == ' ' || c == '\r' || c == '\t' || c == '\n' { Scan::Skip { next: cur } }
    else if c == '"' {
        let close = skip_until(s, cur, '"');
        if close >= s.len() {
            Scan::Fail { message: "unterminated string"@, stop: close }
        } else {
            Scan::Emit {
                token: TokenModel { tag: KindTag::String, lexeme: s.subrange(cur as int, close as int), pos: start },
                next: close + 1,
            }
        }
    }
    else if is_digit(c) { emit(s, KindTag::Number, start, number_end(s, cur)) }
    else if ident_start(c) {
        let end = skip_ident(s, cur);
        emit(s, word_tag(s.subrange(start as int, end as int)), start, end)
    }
    else { Scan::Fail { message: unexpected_message(c, start), stop: cur } }
}

/// The end-of-input token at `pos`.
pub open spec fn eof_token(pos: nat) -> TokenModel {
    TokenModel { tag: KindTag::Eof, lexeme: Seq::empty(), pos }
}

/// Skipping digits or identifier characters never moves back, nor past the end.
pub proof fn lemma_skips_advance(s: Seq<char>, i: nat)
    ensures
        i <= skip_digits(s, i) <= (if i <= s.len() { s.len() } else { i }),
        i <= skip_ident(s, i) <= (if i <= s.len() { s.len() } else { i }),
    decreases s.len() - i,
{
    if i < s.len() {
        lemma_skips_advance(s, i + 1);
    }
}

/// Skipping to a character never moves back, nor past the end.
pub proof fn lemma_skip_until_advances(s: Seq<char>, i: nat, stop: char)
    ensures
        i <= skip_until(s, i, stop) <= (if i <= s.len() { s.len() } else { i }),
    decreases s.len() - i,
{
    if i < s.len() {
        lemma_skip_until_advances(s, i + 1, stop);
    }
}

/// Every scan moves forward, and stays within the input (but for a string that
/// runs to the end, which stops at the end).
pub proof fn lemma_scan_advances(s: Seq<char>, start: nat)
    requires
        start < s.len(),
    ensures
        match scan(s, start) {
            Scan::Skip { next } => start < next <= s.len(),
            Scan::Emit { token, next } => start < next <= s.len() && token.pos == start,
            Scan::Fail { stop, .. } => start < stop <= s.len(),
        },
{
    lemma_skips_advance(s, start + 1);
    lemma_skip_until_advances(s, start + 1, '"');
    lemma_skip_until_advances(s, start + 2, '\n');
    let j = skip_digits(s, start + 1);
    lemma_skips_advance(s, j + 1);
}

/// Lexing the characters from `pos` on: the tokens, ending with the
/// end-of-input token, or the error message and the position at which
/// lexing stopped.
pub open spec fn lex_from(s: Seq<char>, pos: nat) -> Result<Seq<TokenModel>, (Seq<char>, nat)>
    decreases s.len() - pos,
{
    if pos >= s.len() {
        Ok(seq![eof_token(pos)])
    } else {
        proof { lemma_scan_advances(s, pos); }
        match scan(s, pos) {
            Scan::Skip { next } => lex_from(s, next),
            Scan::Emit { token, next } => match lex_from(s, next) {
                Ok(rest) => Ok(seq![token] + rest),
                Err(e) => Err(e),
            },
            Scan::Fail { message, stop } => Err((message, stop)),
        }
    }
}

/// The token's text stands in `s` at its position: a string's text just
/// after its opening quote, any other token's text at the position itself.
pub open spec fn text_at(s: Seq<char>, t: TokenModel) -> bool {
    let from: int = if t.tag == KindTag::String { t.pos + 1int } else { t.pos as int };
    &&& from + t.lexeme.len() <= s.len()
    &&& s.subrange(from, from + t.lexeme.len()) == t.lexeme
}

/// A token that one scan yields is no end-of-input token, and its text
/// stands in the input at its position.
pub proof fn lemma_scan_token(s: Seq<char>, start: nat)
    requires
        start < s.len(),
    ensures
        scan(s, start) matches Scan::Emit { token, next } ==> {
            &&& token.tag != KindTag::Eof
            &&& text_at(s, token)
        },
{
    lemma_scan_advances(s, start);
    lemma_skip_until_advances(s, start + 1, '"');
    if let Scan::Emit { token, next } = scan(s, start) {
        let w = s.subrange(start as int, skip_ident(s, start + 1) as int);
        assert(word_tag(w) != KindTag::Eof);
    }
}

/// The tokens of a successful lexing from `pos`: the last is the
/// end-of-input token at the end of the text and no other is; every other
/// token stands at its position in the text with its own text, at or after
/// `pos`; and positions strictly increase.
pub proof fn lemma_lex_tokens(s: Seq<char>, pos: nat)
    requires
        pos <= s.len(),
    ensures
        lex_from(s, pos) matches Ok(tokens) ==> {
            &&& tokens.len() > 0
            &&& tokens.last() == eof_token(s.len())
            &&& forall|i: int| 0 <= i < tokens.len() - 1 ==> {
                &&& (#[trigger] tokens[i]).tag != KindTag::Eof
                &&& pos <= tokens[i].pos < s.len()
                &&& text_at(s, tokens[i])
            }
            &&& forall|i: int, j: int| 0 <= i < j < tokens.len() ==> (#[trigger] tokens[i]).pos < (#[trigger] tokens[j]).pos
        },
    decreases s.len() - pos,
{
    if pos < s.len() {
        lemma_scan_advances(s, pos);
        lemma_scan_token(s, pos);
        match scan(s, pos) {
            Scan::Skip { next } => lemma_lex_tokens(s, next),
            Scan::Emit { token, next } => {
                lemma_lex_tokens(s, next);
                if let Ok(rest) = lex_from(s, next) {
                    let tokens = seq![token] + rest;
                    assert(tokens.last() == rest.last());
                    assert forall|i: int| 0 <= i < tokens.len() - 1 implies {
                        &&& (#[trigger] tokens[i]).tag != KindTag::Eof
                        &&& pos <= tokens[i].pos < s.len()
                        &&& text_at(s, tokens[i])
                    } by {
                        if i > 0 {
                            assert(tokens[i] == rest[i - 1]);
                        }
                    }
                    assert forall|i: int, j: int| 0 <= i < j < tokens.len() implies (#[trigger] tokens[i]).pos < (#[trigger] tokens[j]).pos by {
                        assert(tokens[j] == rest[j - 1]);
                        if i > 0 {
                            assert(tokens[i] == rest[i - 1]);
                        } else {
                            if j - 1 < rest.len() - 1 {
                                assert(next <= rest[j - 1].pos);
                            } else {
                                assert(rest[j - 1] == rest.last());
                            }
                        }
                    }
                }
            },
            Scan::Fail { .. } => {},
        }
    }
}

/// The identifier token `t` is a whole word of `s`: it begins with a
/// character that may begin an identifier, goes on with characters that may
/// continue one, and the character after it (if any) may not continue one.
pub open spec fn whole_word(s: Seq<char>, t: TokenModel) -> bool {
    let end = t.pos + t.lexeme.len();
    &&& t.lexeme.len() > 0
    &&& ident_start(t.lexeme[0])
    &&& forall|m: int| 0 < m < t.lexeme.len() ==> ident_continue(#[trigger] t.lexeme[m])
    &&& end <= s.len()
    &&& end < s.len() ==> !ident_continue(s[end as int])
}

/// Skipping identifier characters stops only at a character that cannot
/// continue an identifier, or at the end, and passes only characters that can.
pub proof fn lemma_skip_ident_maximal(s: Seq<char>, i: nat)
    requires
        i <= s.len(),
    ensures
        i <= skip_ident(s, i) <= s.len(),
        skip_ident(s, i) < s.len() ==> !ident_continue(s[skip_ident(s, i) as int]),
        forall|m: int| i <= m < skip_ident(s, i) ==> ident_continue(#[trigger] s[m]),
    decreases s.len() - i,
{
    if i < s.len() && ident_continue(s[i as int]) {
        lemma_skip_ident_maximal(s, i + 1);
    }
}

/// Every identifier token of a successful lexing from `pos` is a whole word
/// of the text: a letter followed by digits, say, is one identifier.
pub proof fn lemma_lex_identifiers(s: Seq<char>, pos: nat)
    requires
        pos <= s.len(),
    ensures
        lex_from(s, pos) matches Ok(tokens) ==> forall|i: int|
            0 <= i < tokens.len() && (#[trigger] tokens[i]).tag == KindTag::Ident ==> whole_word(s, tokens[i]),
    decreases s.len() - pos,
{
    if pos < s.len() {
        lemma_scan_advances(s, pos);
        match scan(s, pos) {
            Scan::Skip { next } => lemma_lex_identifiers(s, next),
            Scan::Emit { token, next } => {
                lemma_lex_identifiers(s, next);
                if token.tag == KindTag::Ident {
                    let end = skip_ident(s, pos + 1);
                    lemma_skip_ident_maximal(s, pos + 1);
                    assert(ident_start(s[pos as int]));
                    assert(token.lexeme == s.subrange(pos as int, end as int));
                    assert forall|m: int| 0 < m < token.lexeme.len() implies ident_continue(#[trigger] token.lexeme[m]) by {
                        assert(token.lexeme[m] == s[pos + m]);
                    }
                    assert(whole_word(s, token));
                }
                if let Ok(rest) = lex_from(s, next) {
                    let tokens = seq![token] + rest;
                    assert forall|i: int| 0 <= i < tokens.len() && (#[trigger] tokens[i]).tag == KindTag::Ident implies whole_word(s, tokens[i]) by {
                        if i > 0 {
                            assert(tokens[i] == rest[i - 1]);
                        }
                    }
                }
            },
            Scan::Fail { .. } => {},
        }
    }
}

/// Lexing a whole source text.
pub open spec fn lex(s: Seq<char>) -> Result<Seq<TokenModel>, (Seq<char>, nat)> {
    lex_from(s, 0)
}

// ---------------------------------------------------------------------
// The lexer.
// ---------------------------------------------------------------------

/// Turns source text into tokens.
pub struct Lexer<'a> {
    chars: Vec<char>,
    start: usize,
    current: usize,
    _source: &'a str,
}

/// What a lexer's behaviour depends on: the characters of its source and
/// the position from which it will go on.
pub struct LexerState {
    pub chars: Seq<char>,
    pub current: nat,
}

/// The models of a sequence of tokens.
pub open spec fn models(tokens: Seq<Token>) -> Seq<TokenModel> {
    tokens.map_values(|t: Token| t.model())
}

impl<'a> View for Lexer<'a> {
    type V = LexerState;

    closed spec fn view(&self) -> LexerState {
        LexerState { chars: self.chars@, current: self.current as nat }
    }
}

impl<'a> Lexer<'a> {
    /// The lexer's positions lie within its characters.
    pub closed spec fn wf(&self) -> bool {
        &&& self.start <= self.current <= self.chars.len()
    }

    /// A lexer at the start of `source`.
    pub fn new(source: &'a str) -> (r: Self)
        ensures
            r.wf(),
            r@.chars == source@,
            r@.current == 0,
    {
        let mut chars: Vec<char> = Vec::new();
        for c in it: source.chars()
            invariant
                chars@ == it.seq().take(it.index() as int),
                it.seq() == source@,
        {
            chars.push(c);
            assert(chars@ =~= it.seq().take(it.index() + 1));
        }
        assert(chars@ =~= source@);
        Self { chars, start: 0, current: 0, _source: source }
    }

    /// Reads the tokens from the current position to the end of the source.
    /// On success the tokens end with one end-of-input token; on failure the
    /// error message says what went wrong.
    pub fn tokenize(&mut self) -> (r: Result<Vec<Token>, String>)
        requires
            old(self).wf(),
        ensures
            final(self).wf(),
            final(self)@.chars == old(self)@.chars,
            match r {
                Ok(tokens) => {
                    &&& lex_from(old(self)@.chars, old(self)@.current) == Ok::<Seq<TokenModel>, (Seq<char>, nat)>(models(tokens@))
                    &&& forall|i: int| 0 <= i < tokens.len() ==> (#[trigger] tokens@[i]).payload_is_lexeme()
                    &&& final(self)@.current == old(self)@.chars.len()
                },
                Err(message) => lex_from(old(self)@.chars, old(self)@.current)
                    == Err::<Seq<TokenModel>, (Seq<char>, nat)>((message@, final(self)@.current)),
            },
    {
        let mut tokens: Vec<Token> = Vec::new();
        let ghost s = self.chars@;
        let ghost origin = self.current as nat;

        while !self.is_at_end()
            invariant
                self.wf(),
                self.chars@ == s,
                s == old(self).chars@,
                origin == old(self).current,
                forall|i: int| 0 <= i < tokens.len() ==> (#[trigger] tokens@[i]).payload_is_lexeme(),
                match lex_from(s, self.current as nat) {
                    Ok(rest) => lex_from(s, origin) == Ok::<Seq<TokenModel>, (Seq<char>, nat)>(models(tokens@) + rest),
                    Err(e) => lex_from(s, origin) == Err::<Seq<TokenModel>, (Seq<char>, nat)>(e),
                },
            decreases s.len() - self.current,
        {
            self.start = self.current;
            let ghost before = tokens@;
            let ghost at = self.current as nat;
            proof { lemma_scan_advances(s, at); }

            let token = self.scan_token();
            match token {
                Err(message) => {
                    return Err(message);
                },
                Ok(Some(token)) => {
                    tokens.push(token);
                    proof {
                        assert(models(tokens@) =~= models(before) + seq![token.model()]);
                        match lex_from(s, self.current as nat) {
                            Ok(rest) => {
                                assert(models(tokens@) + rest =~= models(before) + (seq![token.model()] + rest));
                            },
                            Err(e) => {},
                        }
                    }
                },
                Ok(None) => {},
            }
        }

        let eof = Token { kind: TokenKind::Eof, lexeme: String::new(), pos: self.current };
        let ghost before = tokens@;
        tokens.push(eof);
        proof {
            assert(eof.model() == eof_token(self.current as nat));
            assert(models(tokens@) =~= models(before) + seq![eof_token(self.current as nat)]);
        }
        Ok(tokens)
    }

    /// Scans one token from `start == current`: `None` for whitespace and comments.
    fn scan_token(&mut self) -> (r: Result<Option<Token>, String>)
        requires
            old(self).wf(),
            old(self).start == old(self).current,
            old(self).current < old(self).chars.len(),
        ensures
            final(self).wf(),
            final(self).chars@ == old(self).chars@,
            match (scan(old(self).chars@, old(self).current as nat), r) {
                (Scan::Skip { next }, Ok(None)) => final(self).current == next,
                (Scan::Emit { token, next }, Ok(Some(t))) => {
                    &&& t.model() == token
                    &&& t.payload_is_lexeme()
                    &&& final(self).current == next
                },
                (Scan::Fail { message, stop }, Err(m)) => m@ == message && final(self).current == stop,
                _ => false,
            },
    {
        let ghost s = self.chars@;
        let c = self.advance();
        proof { lemma_skips_advance(s, self.current as nat); }

        if c == '(' {
            Ok(Some(self.simple(TokenKind::LParen)))
        } else if c == ')' {
            Ok(Some(self.simple(TokenKind::RParen)))
        } else if c == '+' {
            Ok(Some(self.simple(TokenKind::Plus)))
        } else if c == '-' {
            Ok(Some(self.simple(TokenKind::Minus)))
        } else if c == '*' {
            Ok(Some(self.simple(TokenKind::Star)))
        } else if c == '[' {
            Ok(Some(self.simple(TokenKind::LBracket)))
        } else if c == ']' {
            Ok(Some(self.simple(TokenKind::RBracket)))
        } else if c == '{' {
            Ok(Some(self.simple(TokenKind::LBrace)))
        } else if c == '}' {
            Ok(Some(self.simple(TokenKind::RBrace)))
        } else if c == '%' {
            Ok(Some(self.simple(TokenKind::Percent)))
        } else if c == '=' {
            if self.peek() == '=' {
                self.advance();
                Ok(Some(self.simple(TokenKind::EqualEqual)))
            } else {
                Ok(Some(self.simple(TokenKind::Equal)))
            }
        } else if c == '/' {
            if self.peek() == '/' {
                self.advance();
                while self.peek() != '\n' && !self.is_at_end()
                    invariant
                        self.wf(),
                        self.chars@ == s,
                        skip_until(s, self.current as nat, '\n') == skip_until(s, (old(self).current + 2) as nat, '\n'),
                    decreases s.len() - self.current,
                {
                    self.advance();
                }
                Ok(None)
            } else {
                Ok(Some(self.simple(TokenKind::Slash)))
            }
        } else if c == ':' {
            if self.peek() == ':' {
                self.advance();
                Ok(Some(self.simple(TokenKind::DoubleColon)))
            } else {
                Err(unexpected_character(c, self.current - 1))
            }
        } else if c == ';' {
            Ok(Some(self.simple(TokenKind::Semicolon)))
        } else if c == '.' {
            Ok(Some(self.simple(TokenKind::Dot)))
        } else if c == ' ' || c == '\r' || c == '\t' || c == '\n' {
            Ok(None)
        } else if c == '"' {
            match self.string() {
                Ok(t) => Ok(Some(t)),
                Err(e) => Err(e),
            }
        } else if is_ascii_digit(c) {
            Ok(Some(self.number()))
        } else if is_ident_start(c) {
            Ok(Some(self.identifier()))
        } else {
            Err(unexpected_character(c, self.current - 1))
        }
    }

    /// A token of `kind` spanning `start..current`.
    fn simple(&self, kind: TokenKind) -> (t: Token)
        requires
            self.wf(),
        ensures
            t.kind == kind,
            t.lexeme@ == self.chars@.subrange(self.start as int, self.current as int),
            t.pos == self.start,
    {
        Token { kind, lexeme: self.current_lexeme(), pos: self.start }
    }

    /// Reads a string literal whose opening quote is at `start`.
    fn string(&mut self) -> (r: Result<Token, String>)
        requires
            old(self).wf(),
            old(self).current == old(self).start + 1,
        ensures
            final(self).wf(),
            final(self).chars@ == old(self).chars@,
            final(self).start == old(self).start,
            ({
                let s = old(self).chars@;
                let close = skip_until(s, old(self).current as nat, '"');
                match r {
                    Ok(t) => {
                        &&& close < s.len()
                        &&& t.kind == TokenKind::String(t.lexeme)
                        &&& t.lexeme@ == s.subrange(old(self).current as int, close as int)
                        &&& t.pos == old(self).start
                        &&& final(self).current == close + 1
                    },
                    Err(m) => close >= s.len() && m@ == "unterminated string"@ && final(self).current == close,
                }
            }),
    {
        let ghost s = self.chars@;
        let ghost first = self.current as nat;
        while self.peek() != '"' && !self.is_at_end()
            invariant
                self.wf(),
                self.chars@ == s,
                self.start == old(self).start,
                first <= self.current,
                skip_until(s, self.current as nat, '"') == skip_until(s, first, '"'),
            decreases s.len() - self.current,
        {
            self.advance();
        }

        if self.is_at_end() {
            return Err(String::from_str("unterminated string"));
        }

        self.advance();

        let value = string_of_range(&self.chars, self.start + 1, self.current - 1);
        Ok(Token { kind: TokenKind::String(value.clone()), lexeme: value, pos: self.start })
    }

    /// Reads a number whose first digit is at `start`.
    fn number(&mut self) -> (t: Token)
        requires
            old(self).wf(),
            old(self).current == old(self).start + 1,
        ensures
            final(self).wf(),
            final(self).chars@ == old(self).chars@,
            final(self).start == old(self).start,
            final(self).current == number_end(old(self).chars@, old(self).current as nat),
            t.kind == TokenKind::Number(t.lexeme),
            t.lexeme@ == old(self).chars@.subrange(old(self).start as int, final(self).current as int),
            t.pos == old(self).start,
    {
        let ghost s = self.chars@;
        let ghost first = self.current as nat;
        while is_ascii_digit(self.peek())
            invariant
                self.wf(),
                self.chars@ == s,
                self.start == old(self).start,
                skip_digits(s, self.current as nat) == skip_digits(s, first),
            decreases s.len() - self.current,
        {
            self.advance();
        }

        if self.peek() == '.' && is_ascii_digit(self.peek_next()) {
            self.advance();
            let ghost after_dot = self.current as nat;
            while is_ascii_digit(self.peek())
                invariant
                    self.wf(),
                    self.chars@ == s,
                    self.start == old(self).start,
                    skip_digits(s, self.current as nat) == skip_digits(s, after_dot),
                decreases s.len() - self.current,
            {
                self.advance();
            }
        }

        let lexeme = self.current_lexeme();
        Token { kind: TokenKind::Number(lexeme.clone()), lexeme, pos: self.start }
    }

    /// Reads a word (keyword or identifier) whose first character is at `start`.
    fn identifier(&mut self) -> (t: Token)
        requires
            old(self).wf(),
            old(self).current == old(self).start + 1,
        ensures
            final(self).wf(),
            final(self).chars@ == old(self).chars@,
            final(self).start == old(self).start,
            final(self).current == skip_ident(old(self).chars@, old(self).current as nat),
            t.lexeme@ == old(self).chars@.subrange(old(self).start as int, final(self).current as int),
            tag_of(t.kind) == word_tag(t.lexeme@),
            t.payload_is_lexeme(),
            t.pos == old(self).start,
    {
        let ghost s = self.chars@;
        let ghost first = self.current as nat;
        while is_ident_continue(self.peek())
            invariant
                self.wf(),
                self.chars@ == s,
                self.start == old(self).start,
                skip_ident(s, self.current as nat) == skip_ident(s, first),
            decreases s.len() - self.current,
        {
            self.advance();
        }

        let lexeme = self.current_lexeme();
        let (a, b) = (self.start, self.current);
        let kind = if range_is(&self.chars, a, b, "var") {
            TokenKind::Var
        } else if range_is(&self.chars, a, b, "print") {
            TokenKind::Print
        } else if range_is(&self.chars, a, b, "import") {
            TokenKind::Import
        } else if range_is(&self.chars, a, b, "import$str") {
            TokenKind::ImportStr
        } else if range_is(&self.chars, a, b, "if") {
            TokenKind::If
        } else if range_is(&self.chars, a, b, "true") {
            TokenKind::True
        } else if range_is(&self.chars, a, b, "false") {
            TokenKind::False
        } else if range_is(&self.chars, a, b, "else") {
            TokenKind::Else
        } else if range_is(&self.chars, a, b, "return") {
            TokenKind::Return
        } else if range_is(&self.chars, a, b, "void") {
            TokenKind::Void
        } else if range_is(&self.chars, a, b, "declare") {
            TokenKind::Declare
        } else if range_is(&self.chars, a, b, "struct") {
            TokenKind::Struct
        } else if range_is(&self.chars, a, b, "enum") {
            TokenKind::Enum
        } else if range_is(&self.chars, a, b, "run$r") {
            TokenKind::Run
        } else {
            TokenKind::Ident(lexeme.clone())
        };

        Token { kind, lexeme, pos: self.start }
    }

    /// The text from `start` to `current`.
    fn current_lexeme(&self) -> (s: String)
        requires
            self.wf(),
        ensures
            s@ == self.chars@.subrange(self.start as int, self.current as int),
    {
        string_of_range(&self.chars, self.start, self.current)
    }

    /// Consumes the current character and returns it.
    fn advance(&mut self) -> (c: char)
        requires
            old(self).wf(),
            old(self).current < old(self).chars.len(),
        ensures
            final(self).wf(),
            final(self).chars@ == old(self).chars@,
            final(self).start == old(self).start,
            final(self).current == old(self).current + 1,
            c == old(self).chars@[old(self).current as int],
    {
        let c = self.chars[self.current];
        self.current += 1;
        c
    }

    /// The current character, or `'\0'` at the end.
    fn peek(&self) -> (c: char)
        ensures
            c == char_at(self.chars@, self.current as int),
    {
        if self.current < self.chars.len() { self.chars[self.current] } else { '\0' }
    }

    /// The character after the current one, or `'\0'` past the end.
    fn peek_next(&self) -> (c: char)
        requires
            self.wf(),
        ensures
            c == char_at(self.chars@, self.current + 1),
    {
        if self.current < self.chars.len() && self.current + 1 < self.chars.len() {
            self.chars[self.current + 1]
        } else {
            '\0'
        }
    }

    /// Whether every character has been consumed.
    fn is_at_end(&self) -> (r: bool)
        ensures
            r == (self.current >= self.chars.len()),
    {
        self.current >= self.chars.len()
    }
}

/// The message for a character that begins no token, found at `pos`.
fn unexpected_character(c: char, pos: usize) -> (m: String)
    ensures
        m@ == unexpected_message(c, pos as nat),
{
    let mut m = String::from_str("unexpected character `");
    push_char(&mut m, c);
    m.append("` at ");
    push_decimal(&mut m, pos);
    m
}

fn is_ascii_digit(c: char) -> (r: bool)
    ensures
        r == is_digit(c),
{
    '0' <= c && c <= '9'
}

/// Whether `c` may begin an identifier: an ASCII letter or `_`.
pub fn is_ident_start(c: char) -> (r: bool)
    ensures
        r == ident_start(c),
{
    ('a' <= c && c <= 'z') || ('A' <= c && c <= 'Z') || c == '_'
}

/// Whether `c` may continue an identifier: an ASCII letter or digit, `_` or `$`.
pub fn is_ident_continue(c: char) -> (r: bool)
    ensures
        r == ident_continue(c),
{
    ('a' <= c && c <= 'z') || ('A' <= c && c <= 'Z') || ('0' <= c && c <= '9') || c == '_' || c == '$'
}

} // verus!
