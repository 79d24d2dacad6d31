use vstd::prelude::*;
use vstd::string::StringExecFns;

use crate::ast::{lemma_array_model, lemma_call_model, lemma_if_model, lemma_void_model, names_model, exprs_model, stmts_model, BinaryOp, Expr, ExprModel, Program, Stmt, StmtModel, UnaryOp};
use crate::token::{kinds_match, tag_of, token_kind_matches, KindTag, Token, TokenKind};

verus! {

// ---------------------------------------------------------------------
// The grammar, stated over a sequence of tokens and a position in it.
// ---------------------------------------------------------------------

/// Why parsing stopped.
pub enum Failure {
    /// A syntax error: its message and the position of the token it names.
    Syntax { message: Seq<char>, at: nat },
    /// The input ends with a `(` that opens an expression: the grammar then
    /// asks for an expression at the end of the input again and again, so
    /// parsing never finishes.
    Endless { at: nat },
}

impl Failure {
    /// The position at which the parse failed.
    pub open spec fn at(self) -> nat {
        match self {
            Failure::Syntax { at, .. } => at,
            Failure::Endless { at } => at,
        }
    }
}

/// A parse result: the value and the position after it.
pub type Parsed<A> = Result<(A, nat), Failure>;

/// The variant of the token at `p`.
pub open spec fn tag_at(t: Seq<Token>, p: nat) -> KindTag {
    tag_of(t[p as int].kind)
}

/// The token at `p` ends the input.
pub open spec fn at_end(t: Seq<Token>, p: nat) -> bool {
    tag_at(t, p) == KindTag::Eof
}

/// The token at `p` matches a token of variant `k` (see `kinds_match`).
pub open spec fn check(t: Seq<Token>, p: nat, k: KindTag) -> bool {
    &&& tag_at(t, p) == k
    &&& k != KindTag::DoubleColon
    &&& k != KindTag::Enum
    &&& k != KindTag::Run
}

/// The position after consuming the token at `p`; the end-of-input token is
/// never consumed, and the position never passes the last token.
pub open spec fn advance(t: Seq<Token>, p: nat) -> nat {
    if at_end(t, p) || p + 1 >= t.len() { p } else { p + 1 }
}

/// The kind of the token before `p`.
pub open spec fn prev_kind(t: Seq<Token>, p: nat) -> TokenKind {
    t[p - 1].kind
}

/// A syntax error with `message` at `at`.
pub open spec fn syntax<A>(message: Seq<char>, at: nat) -> Result<A, Failure> {
    Err(Failure::Syntax { message, at })
}

/// Nesting without end at `at`.
pub open spec fn endless<A>(at: nat) -> Result<A, Failure> {
    Err(Failure::Endless { at })
}

/// Consumes a token of variant `k` at `p`, or fails with `message`.
pub open spec fn consume(t: Seq<Token>, p: nat, k: KindTag, message: Seq<char>) -> Result<nat, Failure> {
    if check(t, p, k) { Ok(advance(t, p)) } else { syntax(message, p) }
}

/// Parameter names up to the closing `)`, which is not consumed.
#[verifier::opaque]
pub open spec fn parse_params(t: Seq<Token>, p: nat, acc: Seq<Seq<char>>) -> Parsed<Seq<Seq<char>>>
    decreases t.len() - p,
{
    if check(t, p, KindTag::RParen) {
        Ok((acc, p))
    } else if at_end(t, p) {
        syntax("expected `)` after parameters"@, p)
    } else {
        let p1 = advance(t, p);
        match prev_kind(t, p1) {
            TokenKind::Ident(name) => if p < p1 { parse_params(t, p1, acc.push(name@)) } else { endless(p1) },
            _ => syntax("expected parameter name"@, p1),
        }
    }
}

/// Field names, each followed by `;`, up to the closing `}`, which is not consumed.
#[verifier::opaque]
pub open spec fn parse_fields(t: Seq<Token>, p: nat, acc: Seq<Seq<char>>) -> Parsed<Seq<Seq<char>>>
    decreases t.len() - p,
{
    if check(t, p, KindTag::RBrace) {
        Ok((acc, p))
    } else if at_end(t, p) {
        syntax("expected `)` after parameters"@, p)
    } else {
        let p1 = advance(t, p);
        match prev_kind(t, p1) {
            TokenKind::Ident(name) => match consume(t, p1, KindTag::Semicolon, "expected `;` after field"@) {
                Ok(p2) => if p < p2 { parse_fields(t, p2, acc.push(name@)) } else { endless(p2) },
                Err(f) => Err(f),
            },
            _ => syntax("expected parameter name"@, p1),
        }
    }
}

/// `struct NAME { FIELD; ... }`, from after the keyword.
#[verifier::opaque]
pub open spec fn parse_struct(t: Seq<Token>, p: nat) -> Parsed<StmtModel> {
    let p1 = advance(t, p);
    match prev_kind(t, p1) {
        TokenKind::Ident(name) => match consume(t, p1, KindTag::LBrace, "expected `{` after if name"@) {
            Ok(p2) => match parse_fields(t, p2, seq![]) {
                Ok((fields, p3)) => match consume(t, p3, KindTag::RBrace, "expected `)` after parameters"@) {
                    Ok(p4) => Ok((StmtModel::Struct { name: name@, fields }, p4)),
                    Err(f) => Err(f),
                },
                Err(f) => Err(f),
            },
            Err(f) => Err(f),
        },
        _ => syntax("expected identifier after `struct`"@, p1),
    }
}

/// One statement starting at `p`.
#[verifier::opaque]
pub open spec fn parse_statement(t: Seq<Token>, p: nat) -> Parsed<StmtModel>
    decreases t.len() - p, 30int,
{
    let p1 = advance(t, p);
    if check(t, p, KindTag::Var) {
        parse_var(t, p1)
    } else if check(t, p, KindTag::If) {
        parse_if(t, p1)
    } else if check(t, p, KindTag::Void) {
        parse_void(t, p1)
    } else if check(t, p, KindTag::Struct) {
        parse_struct(t, p1)
    } else if check(t, p, KindTag::Return) {
        match parse_expression(t, p1) {
            Ok((e, p2)) => match consume(t, p2, KindTag::Semicolon, "expected `;` after return value"@) {
                Ok(p3) => Ok((StmtModel::Return(e), p3)),
                Err(f) => Err(f),
            },
            Err(f) => Err(f),
        }
    } else if check(t, p, KindTag::Print) {
        match consume(t, p1, KindTag::LParen, "expected `(` after `print`"@) {
            Ok(p2) => match parse_expression(t, p2) {
                Ok((e, p3)) => match consume(t, p3, KindTag::RParen, "expected `)` after print expression"@) {
                    Ok(p4) => match consume(t, p4, KindTag::Semicolon, "expected `;` after print statement"@) {
                        Ok(p5) => Ok((StmtModel::Print(e), p5)),
                        Err(f) => Err(f),
                    },
                    Err(f) => Err(f),
                },
                Err(f) => Err(f),
            },
            Err(f) => Err(f),
        }
    } else if t[p as int].kind is Ident && p + 1 < t.len() && tag_at(t, p + 1) == KindTag::Equal {
        let p2 = advance(t, p1);
        match parse_expression(t, p2) {
            Ok((e, p3)) => match consume(t, p3, KindTag::Semicolon, "expected `;` after assignment"@) {
                Ok(p4) => Ok((StmtModel::Assign { name: t[p as int].kind->Ident_0@, value: e }, p4)),
                Err(f) => Err(f),
            },
            Err(f) => Err(f),
        }
    } else {
        match parse_expression(t, p) {
            Ok((e, p2)) => match consume(t, p2, KindTag::Semicolon, "expected `;` after expression"@) {
                Ok(p3) => Ok((StmtModel::Expr(e), p3)),
                Err(f) => Err(f),
            },
            Err(f) => Err(f),
        }
    }
}

/// `var NAME = EXPR;`, from after the keyword.
#[verifier::opaque]
pub open spec fn parse_var(t: Seq<Token>, p: nat) -> Parsed<StmtModel>
    decreases t.len() - p, 25int,
{
    let p1 = advance(t, p);
    match prev_kind(t, p1) {
        TokenKind::Ident(name) => match consume(t, p1, KindTag::Equal, "expected `=` after variable name"@) {
            Ok(p2) => match parse_expression(t, p2) {
                Ok((e, p3)) => match consume(t, p3, KindTag::Semicolon, "expected `;` after variable declaration"@) {
                    Ok(p4) => Ok((StmtModel::Var { name: name@, value: e }, p4)),
                    Err(f) => Err(f),
                },
                Err(f) => Err(f),
            },
            Err(f) => Err(f),
        },
        _ => syntax("expected identifier after `var`"@, p1),
    }
}

/// Statements up to `}`, then the `}`; `message` is the error for a missing `}`.
/// `acc` holds the statements already read.
#[verifier::opaque]
pub open spec fn parse_block(t: Seq<Token>, p: nat, acc: Seq<StmtModel>, message: Seq<char>) -> Parsed<Seq<StmtModel>>
    decreases t.len() - p, 35int,
{
    if check(t, p, KindTag::RBrace) {
        Ok((acc, advance(t, p)))
    } else if at_end(t, p) {
        syntax(message, p)
    } else {
        match parse_statement(t, p) {
            Ok((s, p2)) => if p < p2 <= t.len() { parse_block(t, p2, acc.push(s), message) } else { endless(p2) },
            Err(f) => Err(f),
        }
    }
}

/// `if EXPR { ... }` with an optional `else { ... }`, from after the keyword.
#[verifier::opaque]
pub open spec fn parse_if(t: Seq<Token>, p: nat) -> Parsed<StmtModel>
    decreases t.len() - p, 25int,
{
    match parse_expression(t, p) {
        Ok((c, p1)) => match consume(t, p1, KindTag::LBrace, "expected `{` after if condition"@) {
            Ok(p2) => if p < p2 <= t.len() {
                match parse_block(t, p2, seq![], "expected `}` after if body"@) {
                    Ok((body, p3)) => if check(t, p3, KindTag::Else) {
                        match consume(t, advance(t, p3), KindTag::LBrace, "expected `{` after `else`"@) {
                            Ok(p5) => if p < p5 <= t.len() {
                                match parse_block(t, p5, seq![], "expected `}` after else body"@) {
                                    Ok((else_body, p6)) => Ok((StmtModel::If { condition: c, body, else_body: Some(else_body) }, p6)),
                                    Err(f) => Err(f),
                                }
                            } else {
                                endless(p5)
                            },
                            Err(f) => Err(f),
                        }
                    } else {
                        Ok((StmtModel::If { condition: c, body, else_body: None }, p3))
                    },
                    Err(f) => Err(f),
                }
            } else {
                endless(p2)
            },
            Err(f) => Err(f),
        },
        Err(f) => Err(f),
    }
}

/// `void NAME(PARAM ...) { ... }`, from after the keyword.
#[verifier::opaque]
pub open spec fn parse_void(t: Seq<Token>, p: nat) -> Parsed<StmtModel>
    decreases t.len() - p, 25int,
{
    let p1 = advance(t, p);
    match prev_kind(t, p1) {
        TokenKind::Ident(name) => match consume(t, p1, KindTag::LParen, "expected `(` after void name"@) {
            Ok(p2) => match parse_params(t, p2, seq![]) {
                Ok((params, p3)) => match consume(t, p3, KindTag::RParen, "expected `)` after parameters"@) {
                    Ok(p4) => match consume(t, p4, KindTag::LBrace, "expected `{` after function declaration"@) {
                        Ok(p5) => if p < p5 <= t.len() {
                            match parse_block(t, p5, seq![], "expected `}` after void body"@) {
                                Ok((body, p6)) => Ok((StmtModel::Void { name: name@, params, body }, p6)),
                                Err(f) => Err(f),
                            }
                        } else {
                            endless(p5)
                        },
                        Err(f) => Err(f),
                    },
                    Err(f) => Err(f),
                },
                Err(f) => Err(f),
            },
            Err(f) => Err(f),
        },
        _ => syntax("expected a function name"@, p1),
    }
}

/// An expression: equality comparisons of sums.
#[verifier::opaque]
pub open spec fn parse_expression(t: Seq<Token>, p: nat) -> Parsed<ExprModel>
    decreases t.len() - p, 20int,
{
    parse_comparison(t, p)
}

/// `TERM (== TERM)*`, grouped to the left.
#[verifier::opaque]
pub open spec fn parse_comparison(t: Seq<Token>, p: nat) -> Parsed<ExprModel>
    decreases t.len() - p, 19int,
{
    match parse_term(t, p) {
        Ok((e, p1)) => if p <= p1 <= t.len() { parse_comparison_rest(t, p1, e) } else { endless(p1) },
        Err(f) => Err(f),
    }
}

#[verifier::opaque]
pub open spec fn parse_comparison_rest(t: Seq<Token>, p: nat, left: ExprModel) -> Parsed<ExprModel>
    decreases t.len() - p, 18int,
{
    if check(t, p, KindTag::EqualEqual) {
        match parse_term(t, advance(t, p)) {
            Ok((right, p2)) => if p < p2 <= t.len() {
                parse_comparison_rest(t, p2, ExprModel::Binary { left: Box::new(left), op: BinaryOp::Equal, right: Box::new(right) })
            } else {
                endless(p2)
            },
            Err(f) => Err(f),
        }
    } else {
        Ok((left, p))
    }
}

/// `FACTOR ((+|-) FACTOR)*`, grouped to the left.
#[verifier::opaque]
pub open spec fn parse_term(t: Seq<Token>, p: nat) -> Parsed<ExprModel>
    decreases t.len() - p, 15int,
{
    match parse_factor(t, p) {
        Ok((e, p1)) => if p <= p1 <= t.len() { parse_term_rest(t, p1, e) } else { endless(p1) },
        Err(f) => Err(f),
    }
}

#[verifier::opaque]
pub open spec fn parse_term_rest(t: Seq<Token>, p: nat, left: ExprModel) -> Parsed<ExprModel>
    decreases t.len() - p, 14int,
{
    if check(t, p, KindTag::Plus) || check(t, p, KindTag::Minus) {
        let op = if check(t, p, KindTag::Plus) { BinaryOp::Add } else { BinaryOp::Subtract };
        match parse_factor(t, advance(t, p)) {
            Ok((right, p2)) => if p < p2 <= t.len() {
                parse_term_rest(t, p2, ExprModel::Binary { left: Box::new(left), op, right: Box::new(right) })
            } else {
                endless(p2)
            },
            Err(f) => Err(f),
        }
    } else {
        Ok((left, p))
    }
}

/// `UNARY ((*|/|%) UNARY)*`, grouped to the left.
#[verifier::opaque]
pub open spec fn parse_factor(t: Seq<Token>, p: nat) -> Parsed<ExprModel>
    decreases t.len() - p, 12int,
{
    match parse_unary(t, p) {
        Ok((e, p1)) => if p <= p1 <= t.len() { parse_factor_rest(t, p1, e) } else { endless(p1) },
        Err(f) => Err(f),
    }
}

#[verifier::opaque]
pub open spec fn parse_factor_rest(t: Seq<Token>, p: nat, left: ExprModel) -> Parsed<ExprModel>
    decreases t.len() - p, 11int,
{
    if check(t, p, KindTag::Star) || check(t, p, KindTag::Slash) || check(t, p, KindTag::Percent) {
        let op = if check(t, p, KindTag::Star) {
            BinaryOp::Multiply
        } else if check(t, p, KindTag::Slash) {
            BinaryOp::Divide
        } else {
            BinaryOp::Modulo
        };
        match parse_unary(t, advance(t, p)) {
            Ok((right, p2)) => if p < p2 <= t.len() {
                parse_factor_rest(t, p2, ExprModel::Binary { left: Box::new(left), op, right: Box::new(right) })
            } else {
                endless(p2)
            },
            Err(f) => Err(f),
        }
    } else {
        Ok((left, p))
    }
}

/// `(-|+)* CALL`.
#[verifier::opaque]
pub open spec fn parse_unary(t: Seq<Token>, p: nat) -> Parsed<ExprModel>
    decreases t.len() - p, 10int,
{
    if check(t, p, KindTag::Minus) || check(t, p, KindTag::Plus) {
        let op = if check(t, p, KindTag::Minus) { UnaryOp::Negate } else { UnaryOp::Plus };
        let p1 = advance(t, p);
        if p < p1 {
            match parse_unary(t, p1) {
                Ok((e, p2)) => Ok((ExprModel::Unary { op, expr: Box::new(e) }, p2)),
                Err(f) => Err(f),
            }
        } else {
            endless(p1)
        }
    } else {
        parse_call(t, p)
    }
}

/// `PRIMARY` followed by calls `(ARG ...)` and field accesses `.NAME`.
#[verifier::opaque]
pub open spec fn parse_call(t: Seq<Token>, p: nat) -> Parsed<ExprModel>
    decreases t.len() - p, 9int,
{
    match parse_primary(t, p) {
        Ok((e, p1)) => if p <= p1 <= t.len() { parse_call_rest(t, p1, e) } else { endless(p1) },
        Err(f) => Err(f),
    }
}

#[verifier::opaque]
pub open spec fn parse_call_rest(t: Seq<Token>, p: nat, e: ExprModel) -> Parsed<ExprModel>
    decreases t.len() - p, 8int,
{
    if check(t, p, KindTag::LParen) {
        let p1 = advance(t, p);
        match e {
            ExprModel::Variable(name) => if p < p1 <= t.len() {
                match parse_args(t, p1, seq![]) {
                    Ok((args, p2)) => match consume(t, p2, KindTag::RParen, "expected `)` after function arguments"@) {
                        Ok(p3) => if p < p3 <= t.len() {
                            parse_call_rest(t, p3, ExprModel::Call { name, args })
                        } else {
                            endless(p3)
                        },
                        Err(f) => Err(f),
                    },
                    Err(f) => Err(f),
                }
            } else {
                endless(p1)
            },
            _ => syntax("only functions can be called"@, p1),
        }
    } else if check(t, p, KindTag::Dot) {
        let p2 = advance(t, advance(t, p));
        match prev_kind(t, p2) {
            TokenKind::Ident(name) => if p < p2 <= t.len() {
                parse_call_rest(t, p2, ExprModel::Field { object: Box::new(e), name: name@ })
            } else {
                endless(p2)
            },
            _ => syntax("expected field name after `.`"@, p2),
        }
    } else {
        Ok((e, p))
    }
}

/// Call arguments (each a term) up to `)`, which is not consumed.
#[verifier::opaque]
pub open spec fn parse_args(t: Seq<Token>, p: nat, acc: Seq<ExprModel>) -> Parsed<Seq<ExprModel>>
    decreases t.len() - p, 16int,
{
    if check(t, p, KindTag::RParen) {
        Ok((acc, p))
    } else if at_end(t, p) {
        syntax("expected `)` after function arguments"@, p)
    } else {
        match parse_term(t, p) {
            Ok((a, p2)) => if p < p2 <= t.len() { parse_args(t, p2, acc.push(a)) } else { endless(p2) },
            Err(f) => Err(f),
        }
    }
}

/// Array elements (each an expression) up to `]`, then the `]`.
#[verifier::opaque]
pub open spec fn parse_array(t: Seq<Token>, p: nat, acc: Seq<ExprModel>) -> Parsed<Seq<ExprModel>>
    decreases t.len() - p, 21int,
{
    if check(t, p, KindTag::RBracket) {
        Ok((acc, advance(t, p)))
    } else if at_end(t, p) {
        syntax("expected `]` after array"@, p)
    } else {
        match parse_expression(t, p) {
            Ok((e, p2)) => if p < p2 <= t.len() { parse_array(t, p2, acc.push(e)) } else { endless(p2) },
            Err(f) => Err(f),
        }
    }
}

/// A literal, a name, `declare "PATH"`, `[ ... ]`, `import(EXPR)`,
/// `import$str(EXPR)` or `(EXPR)`.
#[verifier::opaque]
pub open spec fn parse_primary(t: Seq<Token>, p: nat) -> Parsed<ExprModel>
    decreases t.len() - p, 5int,
{
    let p1 = advance(t, p);
    match prev_kind(t, p1) {
        TokenKind::Number(v) => Ok((ExprModel::Number(v@), p1)),
        TokenKind::String(v) => Ok((ExprModel::Str(v@), p1)),
        TokenKind::True => Ok((ExprModel::Boolean(true), p1)),
        TokenKind::False => Ok((ExprModel::Boolean(false), p1)),
        TokenKind::Ident(name) => Ok((ExprModel::Variable(name@), p1)),
        TokenKind::Declare => match consume(t, p1, KindTag::String, "expected string after `declare`"@) {
            Ok(p2) => match prev_kind(t, p2) {
                TokenKind::String(v) => Ok((ExprModel::Declare(Box::new(ExprModel::Str(v@))), p2)),
                _ => endless(p2),
            },
            Err(f) => Err(f),
        },
        TokenKind::LBracket => if p < p1 <= t.len() {
            match parse_array(t, p1, seq![]) {
                Ok((elements, p2)) => Ok((ExprModel::Array(elements), p2)),
                Err(f) => Err(f),
            }
        } else {
            // The `[` is the last token: no element and no `]` can follow.
            syntax("expected `]` after array"@, p1)
        },
        TokenKind::Import => match consume(t, p1, KindTag::LParen, "expected `(` after `import`"@) {
            Ok(p2) => if p < p2 <= t.len() {
                match parse_expression(t, p2) {
                    Ok((e, p3)) => match consume(t, p3, KindTag::RParen, "expected `)` after import path"@) {
                        Ok(p4) => Ok((ExprModel::Import(Box::new(e)), p4)),
                        Err(f) => Err(f),
                    },
                    Err(f) => Err(f),
                }
            } else {
                endless(p2)
            },
            Err(f) => Err(f),
        },
        TokenKind::ImportStr => match consume(t, p1, KindTag::LParen, "expected `(` after `import$str`"@) {
            Ok(p2) => if p < p2 <= t.len() {
                match parse_expression(t, p2) {
                    Ok((e, p3)) => match consume(t, p3, KindTag::RParen, "expected `)` after import$str path"@) {
                        Ok(p4) => Ok((ExprModel::ImportStr(Box::new(e)), p4)),
                        Err(f) => Err(f),
                    },
                    Err(f) => Err(f),
                }
            } else {
                endless(p2)
            },
            Err(f) => Err(f),
        },
        TokenKind::LParen => if p < p1 <= t.len() {
            match parse_expression(t, p1) {
                Ok((e, p2)) => match consume(t, p2, KindTag::RParen, "expected `)` after expression"@) {
                    Ok(p3) => Ok((e, p3)),
                    Err(f) => Err(f),
                },
                Err(f) => Err(f),
            }
        } else {
            endless(p1)
        },
        _ => syntax("expected expression"@, p1),
    }
}

/// Statements until the end of the input; `acc` holds those already read.
#[verifier::opaque]
pub open spec fn parse_statements(t: Seq<Token>, p: nat, acc: Seq<StmtModel>) -> Parsed<Seq<StmtModel>>
    decreases t.len() - p,
{
    if at_end(t, p) {
        Ok((acc, p))
    } else {
        match parse_statement(t, p) {
            Ok((s, p2)) => if p < p2 <= t.len() { parse_statements(t, p2, acc.push(s)) } else { endless(p2) },
            Err(f) => Err(f),
        }
    }
}

/// A product reads every `*`, `/` and `%` that follows it: after a
/// successful parse of the rest of a product, the next token is none of them.
pub proof fn lemma_factor_rest_takes_all(t: Seq<Token>, p: nat, left: ExprModel)
    ensures
        parse_factor_rest(t, p, left) matches Ok((e, q)) ==> {
            &&& !check(t, q, KindTag::Star)
            &&& !check(t, q, KindTag::Slash)
            &&& !check(t, q, KindTag::Percent)
        },
    decreases t.len() - p,
{
    reveal_with_fuel(parse_factor_rest, 1);
    reveal_with_fuel(parse_unary, 1);
    if check(t, p, KindTag::Star) || check(t, p, KindTag::Slash) || check(t, p, KindTag::Percent) {
        let op = if check(t, p, KindTag::Star) {
            BinaryOp::Multiply
        } else if check(t, p, KindTag::Slash) {
            BinaryOp::Divide
        } else {
            BinaryOp::Modulo
        };
        if let Ok((right, p2)) = parse_unary(t, advance(t, p)) {
            if p < p2 <= t.len() {
                lemma_factor_rest_takes_all(t, p2, ExprModel::Binary { left: Box::new(left), op, right: Box::new(right) });
            }
        }
    }
}

/// A factor reads every `*`, `/` and `%` that follows it, so these bind
/// tighter than `+` and `-`: after a successful parse of a factor the next
/// token is none of them.
pub proof fn lemma_factor_takes_all(t: Seq<Token>, p: nat)
    ensures
        parse_factor(t, p) matches Ok((e, q)) ==> {
            &&& !check(t, q, KindTag::Star)
            &&& !check(t, q, KindTag::Slash)
            &&& !check(t, q, KindTag::Percent)
        },
{
    reveal_with_fuel(parse_factor, 1);
    reveal_with_fuel(parse_unary, 1);
    reveal_with_fuel(parse_factor_rest, 1);
    if let Ok((e, p1)) = parse_unary(t, p) {
        lemma_factor_rest_takes_all(t, p1, e);
    }
}

/// A sum reads every `+` and `-` that follows it; where it read one, the
/// result is an addition or a subtraction whose right operand is a whole
/// factor that ends where the sum ends.
pub proof fn lemma_term_rest_shape(t: Seq<Token>, p: nat, left: ExprModel)
    ensures
        parse_term_rest(t, p, left) matches Ok((e, q)) ==> {
            &&& !check(t, q, KindTag::Plus)
            &&& !check(t, q, KindTag::Minus)
            &&& (q == p && e == left) || (e matches ExprModel::Binary { op, right, .. } && (op == BinaryOp::Add
                || op == BinaryOp::Subtract) && exists|m: nat| p <= m && parse_factor(t, m) == Ok::<(ExprModel, nat), Failure>((*right, q)))
        },
    decreases t.len() - p,
{
    reveal_with_fuel(parse_term_rest, 1);
    reveal_with_fuel(parse_factor, 1);
    if check(t, p, KindTag::Plus) || check(t, p, KindTag::Minus) {
        let op = if check(t, p, KindTag::Plus) { BinaryOp::Add } else { BinaryOp::Subtract };
        let m = advance(t, p);
        if let Ok((right, p2)) = parse_factor(t, m) {
            if p < p2 <= t.len() {
                let next = ExprModel::Binary { left: Box::new(left), op, right: Box::new(right) };
                lemma_term_rest_shape(t, p2, next);
                if let Ok((e, q)) = parse_term_rest(t, p2, next) {
                    assert(p <= m);
                    assert(parse_factor(t, m) == Ok::<(ExprModel, nat), Failure>((right, p2)));
                    if q == p2 && e == next {
                        assert(next matches ExprModel::Binary { op, right, .. } && (op == BinaryOp::Add || op
                            == BinaryOp::Subtract) && exists|m: nat| p <= m && parse_factor(t, m) == Ok::<(ExprModel, nat), Failure>((*right, q)));
                    }
                }
            }
        }
    }
}

/// In `a - b / c` (and `a + b / c`), the division binds tighter: a sum
/// whose operator is `+` or `-` has as its right operand a whole factor,
/// which reads every `*`, `/` and `%` after it.
pub proof fn lemma_division_binds_tighter(t: Seq<Token>, p: nat, left: ExprModel)
    ensures
        match parse_term_rest(t, p, left) {
            Ok((ExprModel::Binary { op, right, .. }, q)) => q != p && (op == BinaryOp::Add || op == BinaryOp::Subtract) ==> {
                &&& exists|m: nat| p <= m && parse_factor(t, m) == Ok::<(ExprModel, nat), Failure>((*right, q))
                &&& !check(t, q, KindTag::Slash)
                &&& !check(t, q, KindTag::Star)
                &&& !check(t, q, KindTag::Percent)
            },
            _ => true,
        },
{
    lemma_term_rest_shape(t, p, left);
    if let Ok((e, q)) = parse_term_rest(t, p, left) {
        if q != p {
            if let ExprModel::Binary { op, right, .. } = e {
                if op == BinaryOp::Add || op == BinaryOp::Subtract {
                    let m = choose|m: nat| p <= m && parse_factor(t, m) == Ok::<(ExprModel, nat), Failure>((*right, q));
                    lemma_factor_takes_all(t, m);
                }
            }
        }
    }
}

/// A successful parse reads the input up to its end-of-input token, and the
/// statements it returns begin with those already read.
pub proof fn lemma_parse_reaches_end(t: Seq<Token>, p: nat, acc: Seq<StmtModel>)
    ensures
        parse_statements(t, p, acc) matches Ok((s, q)) ==> {
            &&& at_end(t, q)
            &&& p <= q
            &&& acc.len() <= s.len()
            &&& forall|i: int| 0 <= i < acc.len() ==> #[trigger] s[i] == acc[i]
        },
    decreases t.len() - p,
{
    reveal_with_fuel(parse_statements, 1);
    if !at_end(t, p) {
        if let Ok((st, p2)) = parse_statement(t, p) {
            if p < p2 <= t.len() {
                lemma_parse_reaches_end(t, p2, acc.push(st));
                if let Ok((s, q)) = parse_statements(t, p2, acc.push(st)) {
                    assert forall|i: int| 0 <= i < acc.len() implies #[trigger] s[i] == acc[i] by {
                        assert(acc.push(st)[i] == acc[i]);
                    }
                }
            }
        }
    }
}

/// The whole program in `t`.
pub open spec fn parse_tokens(t: Seq<Token>) -> Parsed<Seq<StmtModel>> {
    parse_statements(t, 0, seq![])
}

// ---------------------------------------------------------------------
// The parser.
// ---------------------------------------------------------------------

/// Some token at or after `p` ends the input (and `p` lies within `t`).
pub open spec fn eof_from(t: Seq<Token>, p: nat) -> bool {
    &&& p < t.len()
    &&& exists|e: int| p <= e < t.len() && tag_of(#[trigger] t[e].kind) == KindTag::Eof
}

/// Before the end of the input, consuming a token moves one position on.
pub proof fn lemma_advance(t: Seq<Token>, p: nat)
    requires
        eof_from(t, p),
    ensures
        !at_end(t, p) ==> p + 1 < t.len() && eof_from(t, p + 1) && advance(t, p) == p + 1,
        at_end(t, p) ==> advance(t, p) == p,
{
    if !at_end(t, p) {
        let e = choose|e: int| p <= e < t.len() && tag_of(#[trigger] t[e].kind) == KindTag::Eof;
        assert(e != p);
        assert(p + 1 <= e < t.len() && tag_of(t[e].kind) == KindTag::Eof);
    }
}

/// A syntax error, or the input's ending in an unclosed `(` that the grammar
/// would expand without end.
#[derive(Debug)]
pub enum ParseError {
    /// The message, and the token at which it arose.
    Syntax { message: String, token: Token },
    EndlessNesting,
}

impl ParseError {
    /// Returns a copy of this error.
    pub fn duplicate(&self) -> (r: ParseError)
        ensures
            r == *self,
    {
        match self {
            ParseError::Syntax { message, token } => ParseError::Syntax { message: message.clone(), token: token.duplicate() },
            ParseError::EndlessNesting => ParseError::EndlessNesting,
        }
    }

    /// This error is the failure `f` in the tokens `t`.
    pub open spec fn describes(self, f: Failure, t: Seq<Token>) -> bool {
        match (self, f) {
            (ParseError::Syntax { message, token }, Failure::Syntax { message: m, at }) => {
                &&& message@ == m
                &&& at < t.len()
                &&& token == t[at as int]
            },
            (ParseError::EndlessNesting, Failure::Endless { .. }) => true,
            _ => false,
        }
    }
}

/// The exec result `got`, ending at position `end`, is the parse `expected`.
pub open spec fn agrees<A>(expected: Parsed<A>, got: Result<A, ParseError>, t: Seq<Token>, end: nat) -> bool {
    match expected {
        Ok((a, q)) => got == Ok::<A, ParseError>(a) && end == q,
        Err(f) => match got {
            Err(e) => e.describes(f, t) && end == f.at(),
            Ok(_) => false,
        },
    }
}

/// If `inner` fails, `outer` fails in the same way.
pub open spec fn fails_as<A, B>(inner: Parsed<A>, outer: Parsed<B>) -> bool {
    inner is Err ==> outer == Err::<(B, nat), Failure>(inner->Err_0)
}

/// A successful parse from `p` ends at `q` no earlier, and later unless `p` is the end.
pub open spec fn moved_on(t: Seq<Token>, p: nat, q: nat) -> bool {
    p <= q && (!at_end(t, p) ==> p < q)
}

/// The model of the result of parsing an expression.
pub open spec fn expr_result(r: Result<Expr, ParseError>) -> Result<ExprModel, ParseError> {
    match r {
        Ok(e) => Ok(e.model()),
        Err(x) => Err(x),
    }
}

/// The model of the result of parsing a statement.
pub open spec fn stmt_result(r: Result<Stmt, ParseError>) -> Result<StmtModel, ParseError> {
    match r {
        Ok(s) => Ok(s.model()),
        Err(x) => Err(x),
    }
}

/// The model of the result of parsing a program.
pub open spec fn program_result(r: Result<Program, ParseError>) -> Result<Seq<StmtModel>, ParseError> {
    match r {
        Ok(p) => Ok(p.model()),
        Err(x) => Err(x),
    }
}

/// Turns tokens into a program.
pub struct Parser {
    tokens: Vec<Token>,
    current: usize,
}

/// What a parser's behaviour depends on: its tokens and its position.
pub struct ParserState {
    pub tokens: Seq<Token>,
    pub current: nat,
}

impl View for Parser {
    type V = ParserState;

    closed spec fn view(&self) -> ParserState {
        ParserState { tokens: self.tokens@, current: self.current as nat }
    }
}

impl Parser {
    /// An end-of-input token lies at or after the current position.
    pub open spec fn wf(&self) -> bool {
        eof_from(self@.tokens, self@.current)
    }

    /// Well formed, and there is a token before the current one unless the
    /// current one is not the end.
    pub open spec fn ready(&self) -> bool {
        &&& self.wf()
        &&& (self@.current > 0 || !at_end(self@.tokens, self@.current))
    }

    /// A parser at the first of `tokens`.
    pub fn new(tokens: Vec<Token>) -> (r: Self)
        ensures
            r@.tokens == tokens@,
            r@.current == 0,
    {
        Self { tokens, current: 0 }
    }

    /// Parses statements until the end-of-input token.
    pub fn parse_program(&mut self) -> (r: Result<Program, ParseError>)
        requires
            old(self).wf(),
        ensures
            final(self)@.tokens == old(self)@.tokens,
            final(self).wf(),
            agrees(parse_statements(old(self)@.tokens, old(self)@.current, seq![]), program_result(r), old(self)@.tokens, final(self)@.current),
    {
        proof { reveal_with_fuel(parse_statements, 1); reveal_with_fuel(parse_statement, 1); }
        let ghost t = self@.tokens;
        let ghost p0 = self@.current;
        let mut statements: Vec<Stmt> = Vec::new();
        assert(stmts_model(statements@) =~= seq![]);

        while !self.is_at_end()
            invariant
                self.wf(),
                self@.tokens == t,
                t == old(self)@.tokens,
                t == old(self)@.tokens,
                p0 == old(self)@.current,
                parse_statements(t, p0, seq![]) == parse_statements(t, self@.current, stmts_model(statements@)),
            decreases t.len() - self@.current,
        {
            proof { reveal_with_fuel(parse_statements, 1); reveal_with_fuel(parse_statement, 1); }
            let ghost before = statements@;
            let statement = self.statement()?;
            statements.push(statement);
            assert(stmts_model(statements@) =~= stmts_model(before).push(statement.model()));
        }

        let program = Program { statements };
        assert(program.model() == stmts_model(program.statements@));
        Ok(program)
    }

    #[verifier::rlimit(100)]
    #[verifier::spinoff_prover]
    fn statement(&mut self) -> (r: Result<Stmt, ParseError>)
        requires
            old(self).wf(),
            !at_end(old(self)@.tokens, old(self)@.current),
        ensures
            final(self)@.tokens == old(self)@.tokens,
            final(self).wf(),
            agrees(parse_statement(old(self)@.tokens, old(self)@.current), stmt_result(r), old(self)@.tokens, final(self)@.current),
            r is Ok ==> moved_on(old(self)@.tokens, old(self)@.current, final(self)@.current),
        decreases old(self)@.tokens.len() - old(self)@.current, 30int,
    {
        proof { reveal_with_fuel(parse_statement, 1); reveal_with_fuel(parse_var, 1); reveal_with_fuel(parse_if, 1); reveal_with_fuel(parse_void, 1); reveal_with_fuel(parse_struct, 1); reveal_with_fuel(parse_expression, 1); }
        let ghost t = self@.tokens;
        let ghost p = self@.current;
        proof { lemma_advance(t, p); }

        if self.matches(&TokenKind::Var) {
            return self.var_statement();
        }

        if self.matches(&TokenKind::If) {
            return self.if_statement();
        }

        if self.matches(&TokenKind::Void) {
            return self.void_statement();
        }

        if self.matches(&TokenKind::Struct) {
            return self.struct_statement();
        }

        if self.matches(&TokenKind::Return) {
            let value = self.expression()?;
            self.consume(&TokenKind::Semicolon, "expected `;` after return value")?;
            return Ok(Stmt::Return(value));
        }

        if self.matches(&TokenKind::Print) {
            self.consume(&TokenKind::LParen, "expected `(` after `print`")?;
            let value = self.expression()?;
            self.consume(&TokenKind::RParen, "expected `)` after print expression")?;
            self.consume(&TokenKind::Semicolon, "expected `;` after print statement")?;
            return Ok(Stmt::Print(value));
        }

        // x = expression;
        if let TokenKind::Ident(name) = &self.peek().kind {
            if self.tokens.len() - self.current > 1 && self.tokens[self.current + 1].kind.tag() == KindTag::Equal {
                let name = name.clone();
                self.advance();
                proof { lemma_advance(t, self@.current); }
                self.advance();
                let value = self.expression()?;
                self.consume(&TokenKind::Semicolon, "expected `;` after assignment")?;
                return Ok(Stmt::Assign { name, value });
            }
        }

        let expr = self.expression()?;
        self.consume(&TokenKind::Semicolon, "expected `;` after expression")?;
        Ok(Stmt::Expr(expr))
    }

    fn struct_statement(&mut self) -> (r: Result<Stmt, ParseError>)
        requires
            old(self).ready(),
        ensures
            final(self)@.tokens == old(self)@.tokens,
            final(self).wf(),
            agrees(parse_struct(old(self)@.tokens, old(self)@.current), stmt_result(r), old(self)@.tokens, final(self)@.current),
            r is Ok ==> moved_on(old(self)@.tokens, old(self)@.current, final(self)@.current),
    {
        proof { reveal_with_fuel(parse_struct, 1); reveal_with_fuel(parse_fields, 1); }
        let ghost t = self@.tokens;
        let ghost p = self@.current;
        proof { lemma_advance(t, p); }
        self.advance();
        let name = match &self.previous().kind {
            TokenKind::Ident(name) => name.clone(),
            _ => {
                return Err(self.error("expected identifier after `struct`"));
            },
        };

        self.consume(&TokenKind::LBrace, "expected `{` after if name")?;
        let ghost p2 = self@.current;

        let mut fields: Vec<String> = Vec::new();
        assert(names_model(fields@) =~= seq![]);
        while !self.check(&TokenKind::RBrace)
            invariant
                self.wf(),
                self@.tokens == t,
                t == old(self)@.tokens,
                p == old(self)@.current,
                p < p2 <= self@.current,
                parse_fields(t, p2, seq![]) == parse_fields(t, self@.current, names_model(fields@)),
                fails_as(parse_fields(t, p2, seq![]), parse_struct(t, p)),
            decreases t.len() - self@.current,
        {
            proof { reveal_with_fuel(parse_fields, 1); }
            if self.is_at_end() {
                return Err(self.error("expected `)` after parameters"));
            }
            let ghost q = self@.current;
            proof { lemma_advance(t, q); }
            self.advance();
            match &self.previous().kind {
                TokenKind::Ident(field) => {
                    let ghost before = fields@;
                    fields.push(field.clone());
                    assert(names_model(fields@) =~= names_model(before).push(field@));
                    proof { lemma_advance(t, self@.current); }
                    self.consume(&TokenKind::Semicolon, "expected `;` after field")?;
                },
                _ => {
                    return Err(self.error("expected parameter name"));
                },
            }
        }

        self.consume(&TokenKind::RBrace, "expected `)` after parameters")?;
        let statement = Stmt::Struct { name, fields };
        Ok(statement)
    }

    fn var_statement(&mut self) -> (r: Result<Stmt, ParseError>)
        requires
            old(self).ready(),
        ensures
            final(self)@.tokens == old(self)@.tokens,
            final(self).wf(),
            agrees(parse_var(old(self)@.tokens, old(self)@.current), stmt_result(r), old(self)@.tokens, final(self)@.current),
            r is Ok ==> moved_on(old(self)@.tokens, old(self)@.current, final(self)@.current),
        decreases old(self)@.tokens.len() - old(self)@.current, 25int,
    {
        proof { reveal_with_fuel(parse_var, 1); reveal_with_fuel(parse_expression, 1); }
        let ghost t = self@.tokens;
        let ghost p = self@.current;
        proof { lemma_advance(t, p); }
        self.advance();
        let name = match &self.previous().kind {
            TokenKind::Ident(name) => name.clone(),
            _ => {
                return Err(self.error("expected identifier after `var`"));
            },
        };

        proof { lemma_advance(t, self@.current); }
        self.consume(&TokenKind::Equal, "expected `=` after variable name")?;
        let value = self.expression()?;
        proof { lemma_advance(t, self@.current); }
        self.consume(&TokenKind::Semicolon, "expected `;` after variable declaration")?;
        Ok(Stmt::Var { name, value })
    }

    fn if_statement(&mut self) -> (r: Result<Stmt, ParseError>)
        requires
            old(self).ready(),
        ensures
            final(self)@.tokens == old(self)@.tokens,
            final(self).wf(),
            agrees(parse_if(old(self)@.tokens, old(self)@.current), stmt_result(r), old(self)@.tokens, final(self)@.current),
            r is Ok ==> moved_on(old(self)@.tokens, old(self)@.current, final(self)@.current),
        decreases old(self)@.tokens.len() - old(self)@.current, 25int,
    {
        proof { reveal_with_fuel(parse_if, 1); reveal_with_fuel(parse_expression, 1); reveal_with_fuel(parse_block, 1); }
        let ghost t = self@.tokens;
        let ghost p = self@.current;
        let condition = self.expression()?;
        proof { lemma_advance(t, self@.current); }
        self.consume(&TokenKind::LBrace, "expected `{` after if condition")?;
        let ghost p2 = self@.current;
        let ghost body_msg = "expected `}` after if body"@;

        let mut body: Vec<Stmt> = Vec::new();
        assert(stmts_model(body@) =~= seq![]);
        while !self.check(&TokenKind::RBrace)
            invariant
                self.wf(),
                self@.tokens == t,
                t == old(self)@.tokens,
                p == old(self)@.current,
                p < p2 <= self@.current,
                parse_block(t, p2, seq![], body_msg) == parse_block(t, self@.current, stmts_model(body@), body_msg),
                fails_as(parse_block(t, p2, seq![], body_msg), parse_if(t, p)),
                body_msg == "expected `}` after if body"@,
            decreases t.len() - self@.current,
        {
            proof { reveal_with_fuel(parse_block, 1); reveal_with_fuel(parse_statement, 1); }
            if self.is_at_end() {
                return Err(self.error("expected `}` after if body"));
            }
            let ghost before = body@;
            let statement = self.statement()?;
            body.push(statement);
            assert(stmts_model(body@) =~= stmts_model(before).push(statement.model()));
        }

        proof { lemma_advance(t, self@.current); }
        self.consume(&TokenKind::RBrace, "expected `}` after if body")?;

        let ghost p3 = self@.current;
        let ghost else_msg = "expected `}` after else body"@;
        let else_body = if self.matches(&TokenKind::Else) {
            proof { lemma_advance(t, p3); lemma_advance(t, self@.current); }
            self.consume(&TokenKind::LBrace, "expected `{` after `else`")?;
            let ghost p5 = self@.current;

            let mut else_body: Vec<Stmt> = Vec::new();
            assert(stmts_model(else_body@) =~= seq![]);
            while !self.check(&TokenKind::RBrace)
                invariant
                    self.wf(),
                    self@.tokens == t,
                    t == old(self)@.tokens,
                    p == old(self)@.current,
                    p < p5 <= self@.current,
                    parse_block(t, p5, seq![], else_msg) == parse_block(t, self@.current, stmts_model(else_body@), else_msg),
                    fails_as(parse_block(t, p5, seq![], else_msg), parse_if(t, p)),
                    else_msg == "expected `}` after else body"@,
                decreases t.len() - self@.current,
            {
                proof { reveal_with_fuel(parse_block, 1); reveal_with_fuel(parse_statement, 1); }
                if self.is_at_end() {
                    return Err(self.error("expected `}` after else body"));
                }
                let ghost before = else_body@;
                let statement = self.statement()?;
                else_body.push(statement);
                assert(stmts_model(else_body@) =~= stmts_model(before).push(statement.model()));
            }

            proof { lemma_advance(t, self@.current); }
            self.consume(&TokenKind::RBrace, "expected `}` after else body")?;
            Some(else_body)
        } else {
            None
        };

        let statement = Stmt::If { condition, body, else_body };
        proof { lemma_if_model(condition, body, else_body); }
        Ok(statement)
    }

    #[verifier::rlimit(60)]
    fn void_statement(&mut self) -> (r: Result<Stmt, ParseError>)
        requires
            old(self).ready(),
        ensures
            final(self)@.tokens == old(self)@.tokens,
            final(self).wf(),
            agrees(parse_void(old(self)@.tokens, old(self)@.current), stmt_result(r), old(self)@.tokens, final(self)@.current),
            r is Ok ==> moved_on(old(self)@.tokens, old(self)@.current, final(self)@.current),
        decreases old(self)@.tokens.len() - old(self)@.current, 25int,
    {
        proof { reveal_with_fuel(parse_void, 1); reveal_with_fuel(parse_params, 1); reveal_with_fuel(parse_block, 1); }
        let ghost t = self@.tokens;
        let ghost p = self@.current;
        proof { lemma_advance(t, p); }
        self.advance();
        let name = match &self.previous().kind {
            TokenKind::Ident(name) => name.clone(),
            _ => {
                return Err(self.error("expected a function name"));
            },
        };

        proof { lemma_advance(t, self@.current); }
        self.consume(&TokenKind::LParen, "expected `(` after void name")?;
        let ghost p2 = self@.current;

        let mut params: Vec<String> = Vec::new();
        assert(names_model(params@) =~= seq![]);
        while !self.check(&TokenKind::RParen)
            invariant
                self.wf(),
                self@.tokens == t,
                t == old(self)@.tokens,
                p == old(self)@.current,
                p < p2 <= self@.current,
                parse_params(t, p2, seq![]) == parse_params(t, self@.current, names_model(params@)),
                fails_as(parse_params(t, p2, seq![]), parse_void(t, p)),
            decreases t.len() - self@.current,
        {
            proof { reveal_with_fuel(parse_params, 1); }
            if self.is_at_end() {
                return Err(self.error("expected `)` after parameters"));
            }
            proof { lemma_advance(t, self@.current); }
            self.advance();
            match &self.previous().kind {
                TokenKind::Ident(param) => {
                    let ghost before = params@;
                    params.push(param.clone());
                    assert(names_model(params@) =~= names_model(before).push(param@));
                },
                _ => {
                    return Err(self.error("expected parameter name"));
                },
            }
        }

        proof { lemma_advance(t, self@.current); }
        self.consume(&TokenKind::RParen, "expected `)` after parameters")?;
        proof { lemma_advance(t, self@.current); }
        self.consume(&TokenKind::LBrace, "expected `{` after function declaration")?;
        let ghost p5 = self@.current;
        let ghost body_msg = "expected `}` after void body"@;

        let mut body: Vec<Stmt> = Vec::new();
        assert(stmts_model(body@) =~= seq![]);
        while !self.check(&TokenKind::RBrace)
            invariant
                self.wf(),
                self@.tokens == t,
                t == old(self)@.tokens,
                p == old(self)@.current,
                p < p5 <= self@.current,
                parse_block(t, p5, seq![], body_msg) == parse_block(t, self@.current, stmts_model(body@), body_msg),
                fails_as(parse_block(t, p5, seq![], body_msg), parse_void(t, p)),
                body_msg == "expected `}` after void body"@,
            decreases t.len() - self@.current,
        {
            proof { reveal_with_fuel(parse_block, 1); reveal_with_fuel(parse_statement, 1); }
            if self.is_at_end() {
                return Err(self.error("expected `}` after void body"));
            }
            let ghost before = body@;
            let statement = self.statement()?;
            body.push(statement);
            assert(stmts_model(body@) =~= stmts_model(before).push(statement.model()));
        }

        proof { lemma_advance(t, self@.current); }
        self.consume(&TokenKind::RBrace, "expected `}` after void body")?;

        let statement = Stmt::Void { name, params, body };
        proof { lemma_void_model(name, params, body); }
        Ok(statement)
    }

    fn expression(&mut self) -> (r: Result<Expr, ParseError>)
        requires
            old(self).ready(),
        ensures
            final(self)@.tokens == old(self)@.tokens,
            final(self).wf(),
            agrees(parse_expression(old(self)@.tokens, old(self)@.current), expr_result(r), old(self)@.tokens, final(self)@.current),
            r is Ok ==> moved_on(old(self)@.tokens, old(self)@.current, final(self)@.current),
        decreases old(self)@.tokens.len() - old(self)@.current, 20int,
    {
        proof { reveal_with_fuel(parse_expression, 1); reveal_with_fuel(parse_comparison, 1); }
        self.comparison()
    }

    fn comparison(&mut self) -> (r: Result<Expr, ParseError>)
        requires
            old(self).ready(),
        ensures
            final(self)@.tokens == old(self)@.tokens,
            final(self).wf(),
            agrees(parse_comparison(old(self)@.tokens, old(self)@.current), expr_result(r), old(self)@.tokens, final(self)@.current),
            r is Ok ==> moved_on(old(self)@.tokens, old(self)@.current, final(self)@.current),
        decreases old(self)@.tokens.len() - old(self)@.current, 19int,
    {
        proof { reveal_with_fuel(parse_comparison, 1); reveal_with_fuel(parse_term, 1); reveal_with_fuel(parse_comparison_rest, 1); }
        let ghost t = self@.tokens;
        let ghost p = self@.current;
        let mut expr = self.term()?;

        loop
            invariant
                self.wf(),
                self@.tokens == t,
                t == old(self)@.tokens,
                p == old(self)@.current,
                moved_on(t, p, self@.current),
                parse_comparison(t, p) == parse_comparison_rest(t, self@.current, expr.model()),
            ensures
                self.wf(),
                self@.tokens == t,
                t == old(self)@.tokens,
                p == old(self)@.current,
                moved_on(t, p, self@.current),
                parse_comparison(t, p) == Ok::<(ExprModel, nat), Failure>((expr.model(), self@.current)),
            decreases t.len() - self@.current,
        {
            proof { reveal_with_fuel(parse_comparison_rest, 1); reveal_with_fuel(parse_term, 1); }
            let ghost q = self@.current;
            proof { lemma_advance(t, q); }
            if !self.matches(&TokenKind::EqualEqual) {
                break;
            }
            let right = self.term()?;
            expr = Expr::Binary { left: Box::new(expr), op: BinaryOp::Equal, right: Box::new(right) };
        }

        Ok(expr)
    }

    fn term(&mut self) -> (r: Result<Expr, ParseError>)
        requires
            old(self).ready(),
        ensures
            final(self)@.tokens == old(self)@.tokens,
            final(self).wf(),
            agrees(parse_term(old(self)@.tokens, old(self)@.current), expr_result(r), old(self)@.tokens, final(self)@.current),
            r is Ok ==> moved_on(old(self)@.tokens, old(self)@.current, final(self)@.current),
        decreases old(self)@.tokens.len() - old(self)@.current, 15int,
    {
        proof { reveal_with_fuel(parse_term, 1); reveal_with_fuel(parse_factor, 1); reveal_with_fuel(parse_term_rest, 1); }
        let ghost t = self@.tokens;
        let ghost p = self@.current;
        let mut expr = self.factor()?;

        loop
            invariant
                self.wf(),
                self@.tokens == t,
                t == old(self)@.tokens,
                p == old(self)@.current,
                moved_on(t, p, self@.current),
                parse_term(t, p) == parse_term_rest(t, self@.current, expr.model()),
            ensures
                self.wf(),
                self@.tokens == t,
                t == old(self)@.tokens,
                p == old(self)@.current,
                moved_on(t, p, self@.current),
                parse_term(t, p) == Ok::<(ExprModel, nat), Failure>((expr.model(), self@.current)),
            decreases t.len() - self@.current,
        {
            proof { reveal_with_fuel(parse_term_rest, 1); reveal_with_fuel(parse_factor, 1); }
            let ghost q = self@.current;
            proof { lemma_advance(t, q); }
            let kinds = [TokenKind::Plus, TokenKind::Minus];
            let matched = self.matches_any(&kinds);
            proof {
                assert(kinds@[0] == TokenKind::Plus && kinds@[1] == TokenKind::Minus);
                assert(matched == (check(t, q, KindTag::Plus) || check(t, q, KindTag::Minus)));
            }
            if !matched {
                break;
            }
            let op = match self.previous().kind {
                TokenKind::Plus => BinaryOp::Add,
                _ => BinaryOp::Subtract,
            };
            let right = self.factor()?;
            expr = Expr::Binary { left: Box::new(expr), op, right: Box::new(right) };
        }

        Ok(expr)
    }

    fn factor(&mut self) -> (r: Result<Expr, ParseError>)
        requires
            old(self).ready(),
        ensures
            final(self)@.tokens == old(self)@.tokens,
            final(self).wf(),
            agrees(parse_factor(old(self)@.tokens, old(self)@.current), expr_result(r), old(self)@.tokens, final(self)@.current),
            r is Ok ==> moved_on(old(self)@.tokens, old(self)@.current, final(self)@.current),
        decreases old(self)@.tokens.len() - old(self)@.current, 12int,
    {
        proof { reveal_with_fuel(parse_factor, 1); reveal_with_fuel(parse_unary, 1); reveal_with_fuel(parse_factor_rest, 1); }
        let ghost t = self@.tokens;
        let ghost p = self@.current;
        let mut expr = self.unary()?;

        loop
            invariant
                self.wf(),
                self@.tokens == t,
                t == old(self)@.tokens,
                p == old(self)@.current,
                moved_on(t, p, self@.current),
                parse_factor(t, p) == parse_factor_rest(t, self@.current, expr.model()),
            ensures
                self.wf(),
                self@.tokens == t,
                t == old(self)@.tokens,
                p == old(self)@.current,
                moved_on(t, p, self@.current),
                parse_factor(t, p) == Ok::<(ExprModel, nat), Failure>((expr.model(), self@.current)),
            decreases t.len() - self@.current,
        {
            proof { reveal_with_fuel(parse_factor_rest, 1); reveal_with_fuel(parse_unary, 1); }
            let ghost q = self@.current;
            proof { lemma_advance(t, q); }
            if !(self.matches(&TokenKind::Star) || self.matches(&TokenKind::Slash) || self.matches(&TokenKind::Percent)) {
                break;
            }
            let operator = match self.previous().kind {
                TokenKind::Star => BinaryOp::Multiply,
                TokenKind::Slash => BinaryOp::Divide,
                _ => BinaryOp::Modulo,
            };
            let right = self.unary()?;
            expr = Expr::Binary { left: Box::new(expr), op: operator, right: Box::new(right) };
        }

        Ok(expr)
    }

    fn unary(&mut self) -> (r: Result<Expr, ParseError>)
        requires
            old(self).ready(),
        ensures
            final(self)@.tokens == old(self)@.tokens,
            final(self).wf(),
            agrees(parse_unary(old(self)@.tokens, old(self)@.current), expr_result(r), old(self)@.tokens, final(self)@.current),
            r is Ok ==> moved_on(old(self)@.tokens, old(self)@.current, final(self)@.current),
        decreases old(self)@.tokens.len() - old(self)@.current, 10int,
    {
        proof { reveal_with_fuel(parse_unary, 1); reveal_with_fuel(parse_call, 1); }
        let ghost t = self@.tokens;
        let ghost p = self@.current;
        proof { lemma_advance(t, p); }
        let kinds = [TokenKind::Minus, TokenKind::Plus];
        let matched = self.matches_any(&kinds);
        proof {
            assert(kinds@[0] == TokenKind::Minus && kinds@[1] == TokenKind::Plus);
            assert(matched == (check(t, p, KindTag::Minus) || check(t, p, KindTag::Plus)));
        }
        if matched {
            let op = match self.previous().kind {
                TokenKind::Minus => UnaryOp::Negate,
                _ => UnaryOp::Plus,
            };
            let expr = self.unary()?;
            return Ok(Expr::Unary { op, expr: Box::new(expr) });
        }

        self.call()
    }

    /// A primary expression followed by calls `name(ARG ...)` and field accesses `.NAME`.
    #[verifier::rlimit(60)]
    fn call(&mut self) -> (r: Result<Expr, ParseError>)
        requires
            old(self).ready(),
        ensures
            final(self)@.tokens == old(self)@.tokens,
            final(self).wf(),
            agrees(parse_call(old(self)@.tokens, old(self)@.current), expr_result(r), old(self)@.tokens, final(self)@.current),
            r is Ok ==> moved_on(old(self)@.tokens, old(self)@.current, final(self)@.current),
        decreases old(self)@.tokens.len() - old(self)@.current, 9int,
    {
        proof { reveal_with_fuel(parse_call, 1); reveal_with_fuel(parse_primary, 1); reveal_with_fuel(parse_call_rest, 1); }
        let ghost t = self@.tokens;
        let ghost p = self@.current;
        let mut expr = self.primary()?;

        loop
            invariant
                self.wf(),
                self@.tokens == t,
                t == old(self)@.tokens,
                p == old(self)@.current,
                moved_on(t, p, self@.current),
                parse_call(t, p) == parse_call_rest(t, self@.current, expr.model()),
            ensures
                self.wf(),
                self@.tokens == t,
                t == old(self)@.tokens,
                p == old(self)@.current,
                moved_on(t, p, self@.current),
                parse_call(t, p) == Ok::<(ExprModel, nat), Failure>((expr.model(), self@.current)),
            decreases t.len() - self@.current,
        {
            proof { reveal_with_fuel(parse_call_rest, 1); reveal_with_fuel(parse_args, 1); }
            let ghost q = self@.current;
            proof { lemma_advance(t, q); }
            if self.matches(&TokenKind::LParen) {
                let name = match expr {
                    Expr::Variable(name) => name,
                    _ => {
                        return Err(self.error("only functions can be called"));
                    },
                };
                let ghost q1 = self@.current;
                let ghost arg_start = self@.current;

                let mut args: Vec<Expr> = Vec::new();
                assert(exprs_model(args@) =~= seq![]);
                while !self.check(&TokenKind::RParen)
                    invariant
                        self.wf(),
                        self@.tokens == t,
                        t == old(self)@.tokens,
                        p == old(self)@.current,
                        p <= q < q1 <= self@.current,
                        check(t, q, KindTag::LParen),
                        q1 == advance(t, q),
                        parse_call(t, p) == parse_call_rest(t, q, ExprModel::Variable(name@)),
                        parse_args(t, q1, seq![]) == parse_args(t, self@.current, exprs_model(args@)),
                        fails_as(parse_args(t, q1, seq![]), parse_call(t, p)),
                    decreases t.len() - self@.current,
                {
                    proof { reveal_with_fuel(parse_args, 1); reveal_with_fuel(parse_term, 1); }
                    if self.is_at_end() {
                        return Err(self.error("expected `)` after function arguments"));
                    }
                    let ghost before = args@;
                    let argument = self.argument()?;
                    args.push(argument);
                    assert(exprs_model(args@) =~= exprs_model(before).push(argument.model()));
                }

                proof { lemma_advance(t, self@.current); }
                self.consume(&TokenKind::RParen, "expected `)` after function arguments")?;
                proof { lemma_call_model(name, args); }
                expr = Expr::Call { name, args };
            } else if self.matches(&TokenKind::Dot) {
                proof { lemma_advance(t, self@.current); }
                self.advance();
                let name = match &self.previous().kind {
                    TokenKind::Ident(name) => name.clone(),
                    _ => {
                        return Err(self.error("expected field name after `.`"));
                    },
                };
                expr = Expr::Field { object: Box::new(expr), name };
            } else {
                break;
            }
        }

        Ok(expr)
    }

    /// A call argument: a term.
    fn argument(&mut self) -> (r: Result<Expr, ParseError>)
        requires
            old(self).ready(),
        ensures
            final(self)@.tokens == old(self)@.tokens,
            final(self).wf(),
            agrees(parse_term(old(self)@.tokens, old(self)@.current), expr_result(r), old(self)@.tokens, final(self)@.current),
            r is Ok ==> moved_on(old(self)@.tokens, old(self)@.current, final(self)@.current),
        decreases old(self)@.tokens.len() - old(self)@.current, 16int,
    {
        self.term()
    }

    #[verifier::rlimit(100)]
    #[verifier::spinoff_prover]
    fn primary(&mut self) -> (r: Result<Expr, ParseError>)
        requires
            old(self).ready(),
        ensures
            final(self)@.tokens == old(self)@.tokens,
            final(self).wf(),
            agrees(parse_primary(old(self)@.tokens, old(self)@.current), expr_result(r), old(self)@.tokens, final(self)@.current),
            r is Ok ==> moved_on(old(self)@.tokens, old(self)@.current, final(self)@.current),
        decreases old(self)@.tokens.len() - old(self)@.current, 5int,
    {
        proof { reveal_with_fuel(parse_primary, 1); reveal_with_fuel(parse_array, 1); reveal_with_fuel(parse_expression, 1); }
        let ghost t = self@.tokens;
        let ghost p = self@.current;
        proof { lemma_advance(t, p); }
        let start = self.current;
        self.advance();
        let ghost p1 = self@.current;
        proof { lemma_advance(t, p1); }

        match &self.previous().kind {
            TokenKind::Number(value) => Ok(Expr::Number(value.clone())),
            TokenKind::String(value) => Ok(Expr::String(value.clone())),
            TokenKind::True => Ok(Expr::Boolean(true)),
            TokenKind::False => Ok(Expr::Boolean(false)),
            TokenKind::Ident(name) => Ok(Expr::Variable(name.clone())),
            TokenKind::Declare => {
                self.consume(&TokenKind::String(String::new()), "expected string after `declare`")?;
                let path = match &self.previous().kind {
                    TokenKind::String(value) => Expr::String(value.clone()),
                    _ => {
                        return Err(ParseError::EndlessNesting);
                    },
                };
                proof { reveal_with_fuel(Expr::model, 2); }
                Ok(Expr::Declare(Box::new(path)))
            },
            TokenKind::LBracket => {
                let mut elements: Vec<Expr> = Vec::new();
                assert(exprs_model(elements@) =~= seq![]);
                while !self.check(&TokenKind::RBracket)
                    invariant
                        self.wf(),
                        self@.tokens == t,
                        t == old(self)@.tokens,
                        p == old(self)@.current,
                        p1 <= self@.current,
                        p < p1 || at_end(t, self@.current),
                        parse_array(t, p1, seq![]) == parse_array(t, self@.current, exprs_model(elements@)),
                        fails_as(parse_array(t, p1, seq![]), parse_primary(t, p)),
                    decreases t.len() - self@.current,
                {
                    proof { reveal_with_fuel(parse_array, 1); reveal_with_fuel(parse_expression, 1); }
                    if self.is_at_end() {
                        return Err(self.error("expected `]` after array"));
                    }
                    let ghost before = elements@;
                    let element = self.expression()?;
                    elements.push(element);
                    assert(exprs_model(elements@) =~= exprs_model(before).push(element.model()));
                }

                proof { lemma_advance(t, self@.current); }
                self.consume(&TokenKind::RBracket, "expected `]` after array")?;
                proof { lemma_array_model(elements); }
                Ok(Expr::Array(elements))
            },
            TokenKind::Import => {
                self.consume(&TokenKind::LParen, "expected `(` after `import`")?;
                let path = self.expression()?;
                proof { lemma_advance(t, self@.current); }
                self.consume(&TokenKind::RParen, "expected `)` after import path")?;
                Ok(Expr::Import(Box::new(path)))
            },
            TokenKind::ImportStr => {
                self.consume(&TokenKind::LParen, "expected `(` after `import$str`")?;
                let path = self.expression()?;
                proof { lemma_advance(t, self@.current); }
                self.consume(&TokenKind::RParen, "expected `)` after import$str path")?;
                Ok(Expr::ImportStr(Box::new(path)))
            },
            TokenKind::LParen => {
                if self.current == start {
                    // The `(` is the last token and could not be consumed:
                    // the grammar would ask for an expression here forever.
                    return Err(ParseError::EndlessNesting);
                }
                let expr = self.expression()?;
                proof { lemma_advance(t, self@.current); }
                self.consume(&TokenKind::RParen, "expected `)` after expression")?;
                Ok(expr)
            },
            _ => Err(self.error("expected expression")),
        }
    }

    /// Consumes a token of `kind`'s variant, or fails with `message`.
    fn consume(&mut self, kind: &TokenKind, message: &str) -> (r: Result<(), ParseError>)
        requires
            old(self).wf(),
        ensures
            final(self)@.tokens == old(self)@.tokens,
            final(self).wf(),
            match consume(old(self)@.tokens, old(self)@.current, tag_of(*kind), message@) {
                Ok(q) => r is Ok && final(self)@.current == q,
                Err(f) => match r {
                    Err(e) => e.describes(f, old(self)@.tokens) && final(self)@.current == f.at(),
                    Ok(_) => false,
                },
            },
    {
        proof { lemma_advance(self@.tokens, self@.current); }
        if self.check(kind) {
            self.advance();
            Ok(())
        } else {
            Err(self.error(message))
        }
    }

    /// Consumes a token of `kind`'s variant if there is one.
    fn matches(&mut self, kind: &TokenKind) -> (r: bool)
        requires
            old(self).wf(),
        ensures
            final(self)@.tokens == old(self)@.tokens,
            final(self).wf(),
            r == check(old(self)@.tokens, old(self)@.current, tag_of(*kind)),
            final(self)@.current == if r { advance(old(self)@.tokens, old(self)@.current) } else { old(self)@.current },
    {
        if self.check(kind) {
            self.advance();
            true
        } else {
            false
        }
    }

    /// Consumes a token of one of `kinds`' variants if there is one.
    fn matches_any(&mut self, kinds: &[TokenKind]) -> (r: bool)
        requires
            old(self).wf(),
        ensures
            final(self)@.tokens == old(self)@.tokens,
            final(self).wf(),
            r == exists|i: int| 0 <= i < kinds@.len() && check(old(self)@.tokens, old(self)@.current, tag_of(#[trigger] kinds@[i])),
            final(self)@.current == if r { advance(old(self)@.tokens, old(self)@.current) } else { old(self)@.current },
    {
        let mut i: usize = 0;
        while i < kinds.len()
            invariant
                *self == *old(self),
                self.wf(),
                i <= kinds@.len(),
                forall|j: int| 0 <= j < i ==> !check(self@.tokens, self@.current, tag_of(#[trigger] kinds@[j])),
            decreases kinds@.len() - i,
        {
            if self.check(&kinds[i]) {
                self.advance();
                return true;
            }
            i += 1;
        }
        false
    }

    /// Whether the current token matches `kind`'s variant; at the end only `Eof` matches.
    fn check(&self, kind: &TokenKind) -> (r: bool)
        requires
            self.wf(),
        ensures
            r == check(self@.tokens, self@.current, tag_of(*kind)),
    {
        if self.is_at_end() {
            return match kind {
                TokenKind::Eof => true,
                _ => false,
            };
        }
        token_kind_matches(&self.peek().kind, kind)
    }

    /// Moves past the current token, unless it ends the input.
    fn advance(&mut self)
        requires
            old(self).wf(),
        ensures
            final(self)@.tokens == old(self)@.tokens,
            final(self).wf(),
            final(self)@.current == advance(old(self)@.tokens, old(self)@.current),
    {
        proof { lemma_advance(self@.tokens, self@.current); }
        let _n = self.tokens.len();
        if !self.is_at_end() {
            self.current += 1;
        }
    }

    fn peek(&self) -> (t: &Token)
        requires
            self.wf(),
        ensures
            *t == self@.tokens[self@.current as int],
    {
        &self.tokens[self.current]
    }

    fn previous(&self) -> (t: &Token)
        requires
            self.wf(),
            self@.current > 0,
        ensures
            *t == self@.tokens[self@.current - 1],
    {
        &self.tokens[self.current - 1]
    }

    fn is_at_end(&self) -> (r: bool)
        requires
            self.wf(),
        ensures
            r == at_end(self@.tokens, self@.current),
    {
        match self.peek().kind {
            TokenKind::Eof => true,
            _ => false,
        }
    }

    /// A syntax error with `message` at the current token.
    fn error(&self, message: &str) -> (e: ParseError)
        requires
            self.wf(),
        ensures
            e == (ParseError::Syntax { message: e->message, token: self@.tokens[self@.current as int] }),
            e->message@ == message@,
    {
        ParseError::Syntax { message: String::from_str(message), token: self.peek().duplicate() }
    }
}
} // verus!
