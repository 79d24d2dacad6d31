use vstd::prelude::*;

use crate::ast::{BinaryOp, ExprModel, StmtModel, UnaryOp};
use crate::entries::{lookup, put};
use crate::lexer::{lex, models};
use crate::parser::{parse_statements, ParseError};
use crate::text::decimal;
use crate::token::Token;
use crate::value::{float_neg, values_equal, ValueModel};

verus! {

// The meaning of programs, as functions on mathematical values. A run knows
// of the world only what a `KnowledgeModel` holds: the files it may read and
// the results of the floating-point operations it may need. Where that is not
// enough it stops and says what it needs.
/// A question about doubles, as a run asks it.
pub enum QueryModel {
    Literal(Seq<char>),
    Arithmetic(BinaryOp, u64, u64),
}

/// Why a run stopped, as a mathematical value.
pub enum HaltModel {
    Error(Seq<char>),
    Syntax(ParseError),
    TooDeep,
    NeedFile(Seq<char>),
    NeedNumber(QueryModel),
}

/// A file as a run knows it: its path, its text (or the message for a file
/// that could not be read), and its statements (or why there are none).
pub struct FileModel {
    pub path: Seq<char>,
    pub text: Result<Seq<char>, Seq<char>>,
    pub program: Result<Seq<StmtModel>, HaltModel>,
}

/// What a run knows: files, and answers to questions about doubles.
pub struct KnowledgeModel {
    pub files: Seq<FileModel>,
    pub numbers: Seq<(QueryModel, u64)>,
}

/// The first file known under `path`.
pub open spec fn file_named(files: Seq<FileModel>, path: Seq<char>) -> Option<FileModel>
    decreases files.len(),
{
    if files.len() == 0 {
        None
    } else if files[0].path == path {
        Some(files[0])
    } else {
        file_named(files.drop_first(), path)
    }
}

/// The first answer known for `q`.
pub open spec fn answer_to(numbers: Seq<(QueryModel, u64)>, q: QueryModel) -> Option<u64>
    decreases numbers.len(),
{
    if numbers.len() == 0 {
        None
    } else if numbers[0].0 == q {
        Some(numbers[0].1)
    } else {
        answer_to(numbers.drop_first(), q)
    }
}

/// The statements of a file's text, as the lexer and the parser find them,
/// or why there are none.
pub open spec fn program_of(text: Result<Seq<char>, Seq<char>>, program: Result<Seq<StmtModel>, HaltModel>) -> bool {
    match text {
        Err(message) => program == Err::<Seq<StmtModel>, HaltModel>(HaltModel::Error(message)),
        Ok(source) => match lex(source) {
            Err((message, _)) => program == Err::<Seq<StmtModel>, HaltModel>(HaltModel::Error(message)),
            Ok(token_models) => exists|tokens: Seq<Token>| {
                &&& models(tokens) == token_models
                &&& forall|i: int| 0 <= i < tokens.len() ==> (#[trigger] tokens[i]).payload_is_lexeme()
                &&& match parse_statements(tokens, 0, seq![]) {
                    Ok((statements, _)) => program == Ok::<Seq<StmtModel>, HaltModel>(statements),
                    Err(f) => match program {
                        Err(HaltModel::Syntax(e)) => e.describes(f, tokens),
                        _ => false,
                    },
                }
            },
        },
    }
}

// ---------------------------------------------------------------------
// The semantics of programs.
// ---------------------------------------------------------------------

/// A function: its parameter names and its body.
pub struct FunctionModel {
    pub params: Seq<Seq<char>>,
    pub body: Seq<StmtModel>,
}

/// The state of a run: variables, functions, structs (each name with its
/// field names), and the values printed so far.
#[verifier::ext_equal]
pub struct State {
    pub variables: Seq<(Seq<char>, ValueModel)>,
    pub functions: Seq<(Seq<char>, FunctionModel)>,
    pub structs: Seq<(Seq<char>, Seq<Seq<char>>)>,
    pub output: Seq<ValueModel>,
}

/// The state after an evaluation, and its result or why it stopped.
pub type Eval<X> = (State, Result<X, HaltModel>);

/// Stopping at `st` with a runtime error.
pub open spec fn error<X>(st: State, message: Seq<char>) -> Eval<X> {
    (st, Err(HaltModel::Error(message)))
}

/// Stopping at `st` with `h`.
pub open spec fn halt<X>(st: State, h: HaltModel) -> Eval<X> {
    (st, Err(h))
}

/// `st` with the variable `name` set to `v`.
pub open spec fn with_variable(st: State, name: Seq<char>, v: ValueModel) -> State {
    State { variables: put(st.variables, name, v), ..st }
}

/// `st` with the function `name` set to `f`.
pub open spec fn with_function(st: State, name: Seq<char>, f: FunctionModel) -> State {
    State { functions: put(st.functions, name, f), ..st }
}

/// `st` with the struct `name` set to have `fields`.
pub open spec fn with_struct(st: State, name: Seq<char>, fields: Seq<Seq<char>>) -> State {
    State { structs: put(st.structs, name, fields), ..st }
}

/// `before`, then `name`, then `after`.
pub open spec fn quoted(before: Seq<char>, name: Seq<char>, after: Seq<char>) -> Seq<char> {
    before + name + after
}

/// `+`, `-`, `*`, `/` and `%` on two numbers, `==` on any two values.
pub open spec fn binary(a: ValueModel, op: BinaryOp, b: ValueModel, k: KnowledgeModel) -> Result<ValueModel, HaltModel> {
    match (a, op, b) {
        (ValueModel::Number(x), BinaryOp::Equal, ValueModel::Number(y)) => Ok(ValueModel::Boolean(values_equal(a, b))),
        (ValueModel::Number(x), _, ValueModel::Number(y)) => match answer_to(k.numbers, QueryModel::Arithmetic(op, x, y)) {
            Some(r) => Ok(ValueModel::Number(r)),
            None => Err(HaltModel::NeedNumber(QueryModel::Arithmetic(op, x, y))),
        },
        (_, BinaryOp::Equal, _) => Ok(ValueModel::Boolean(values_equal(a, b))),
        _ => Err(HaltModel::Error("invalid binary operation"@)),
    }
}

/// `-` and `+` on a number.
pub open spec fn unary(op: UnaryOp, v: ValueModel) -> Result<ValueModel, HaltModel> {
    match (op, v) {
        (UnaryOp::Negate, ValueModel::Number(x)) => Ok(ValueModel::Number(float_neg(x))),
        (UnaryOp::Plus, ValueModel::Number(x)) => Ok(ValueModel::Number(x)),
        _ => Err(HaltModel::Error("invalid unary operation"@)),
    }
}

/// The field `name` of a struct value.
pub open spec fn field_of(object: ValueModel, name: Seq<char>) -> Result<ValueModel, HaltModel> {
    match object {
        ValueModel::Struct { name: struct_name, fields } => match lookup(fields, name) {
            Some(v) => Ok(v),
            None => Err(HaltModel::Error(quoted("struct `"@, struct_name, "` has no field `"@) + name + "`"@)),
        },
        _ => Err(HaltModel::Error(quoted("cannot access field `"@, name, "` on non-struct value"@))),
    }
}

/// The size of an expression: its number of nodes.
pub open spec fn expr_size(e: ExprModel) -> nat
    decreases e,
{
    match e {
        ExprModel::Array(items) => 1 + exprs_size(items),
        ExprModel::Call { args, .. } => 1 + exprs_size(args),
        ExprModel::Field { object, .. } => 1 + expr_size(*object),
        ExprModel::Unary { expr, .. } => 1 + expr_size(*expr),
        ExprModel::Import(x) => 1 + expr_size(*x),
        ExprModel::ImportStr(x) => 1 + expr_size(*x),
        ExprModel::Declare(x) => 1 + expr_size(*x),
        ExprModel::Binary { left, right, .. } => 1 + expr_size(*left) + expr_size(*right),
        _ => 1,
    }
}

/// The size of a list of expressions.
pub open spec fn exprs_size(es: Seq<ExprModel>) -> nat
    decreases es,
{
    if es.len() == 0 { 0 } else { expr_size(es[0]) + exprs_size(es.drop_first()) }
}

/// The size of a statement: its number of statement and expression nodes.
pub open spec fn stmt_size(s: StmtModel) -> nat
    decreases s,
{
    match s {
        StmtModel::Var { value, .. } => 1 + expr_size(value),
        StmtModel::Assign { value, .. } => 1 + expr_size(value),
        StmtModel::Print(e) => 1 + expr_size(e),
        StmtModel::Expr(e) => 1 + expr_size(e),
        StmtModel::Return(e) => 1 + expr_size(e),
        StmtModel::If { condition, body, else_body } => 1 + expr_size(condition) + stmts_size(body) + match else_body {
            Some(b) => stmts_size(b),
            None => 0,
        },
        StmtModel::Void { body, .. } => 1 + stmts_size(body),
        _ => 1,
    }
}

/// The size of a list of statements.
pub open spec fn stmts_size(ss: Seq<StmtModel>) -> nat
    decreases ss,
{
    if ss.len() == 0 { 0 } else { stmt_size(ss[0]) + stmts_size(ss.drop_first()) }
}

/// Every expression has a positive size.
pub proof fn lemma_expr_size_positive(e: ExprModel)
    ensures
        expr_size(e) >= 1,
{
}

/// Every statement has a positive size.
pub proof fn lemma_stmt_size_positive(s: StmtModel)
    ensures
        stmt_size(s) >= 1,
{
}

/// An expression of a list is no larger than the list.
pub proof fn lemma_expr_size_at(es: Seq<ExprModel>, i: int)
    requires
        0 <= i < es.len(),
    ensures
        expr_size(es[i]) <= exprs_size(es),
    decreases es.len(),
{
    if i > 0 {
        lemma_expr_size_at(es.drop_first(), i - 1);
        assert(es.drop_first()[i - 1] == es[i]);
    }
}

/// A statement of a list is no larger than the list.
pub proof fn lemma_stmt_size_at(ss: Seq<StmtModel>, i: int)
    requires
        0 <= i < ss.len(),
    ensures
        stmt_size(ss[i]) <= stmts_size(ss),
    decreases ss.len(),
{
    if i > 0 {
        lemma_stmt_size_at(ss.drop_first(), i - 1);
        assert(ss.drop_first()[i - 1] == ss[i]);
    }
}

/// Evaluates an expression. The parser makes no enum values; one that a
/// caller builds evaluates to null.
pub open spec fn eval(e: ExprModel, st: State, k: KnowledgeModel, fuel: nat) -> Eval<ValueModel>
    decreases fuel, expr_size(e), 2int,
{
    match e {
        ExprModel::Number(text) => match answer_to(k.numbers, QueryModel::Literal(text)) {
            Some(bits) => (st, Ok(ValueModel::Number(bits))),
            None => halt(st, HaltModel::NeedNumber(QueryModel::Literal(text))),
        },
        ExprModel::Str(s) => (st, Ok(ValueModel::Str(s))),
        ExprModel::Boolean(b) => (st, Ok(ValueModel::Boolean(b))),
        ExprModel::Variable(name) => match lookup(st.variables, name) {
            Some(v) => (st, Ok(v)),
            None => error(st, quoted("undefined variable `"@, name, "`"@)),
        },
        ExprModel::Array(items) => match eval_items(items, seq![], st, k, fuel) {
            (s1, Ok(values)) => (s1, Ok(ValueModel::Array(values))),
            (s1, Err(h)) => halt(s1, h),
        },
        ExprModel::Binary { left, op, right } => match eval(*left, st, k, fuel) {
            (s1, Ok(a)) => match eval(*right, s1, k, fuel) {
                (s2, Ok(b)) => (s2, binary(a, op, b, k)),
                (s2, Err(h)) => halt(s2, h),
            },
            (s1, Err(h)) => halt(s1, h),
        },
        ExprModel::Unary { op, expr } => match eval(*expr, st, k, fuel) {
            (s1, Ok(v)) => (s1, unary(op, v)),
            (s1, Err(h)) => halt(s1, h),
        },
        ExprModel::Call { name, args } => if lookup(st.structs, name) is Some {
            construct(name, args, st, k, fuel)
        } else {
            call(name, args, st, k, fuel)
        },
        ExprModel::Field { object, name } => match eval(*object, st, k, fuel) {
            (s1, Ok(v)) => (s1, field_of(v, name)),
            (s1, Err(h)) => halt(s1, h),
        },
        ExprModel::Import(path) => match eval(*path, st, k, fuel) {
            (s1, Ok(ValueModel::Str(p))) => import_file(p, s1, k, fuel),
            (s1, Ok(_)) => error(s1, "import path must be a string"@),
            (s1, Err(h)) => halt(s1, h),
        },
        ExprModel::ImportStr(path) => match eval(*path, st, k, fuel) {
            (s1, Ok(ValueModel::Str(p))) => match file_named(k.files, p) {
                Some(f) => match f.text {
                    Ok(text) => (s1, Ok(ValueModel::Str(text))),
                    Err(message) => error(s1, message),
                },
                None => halt(s1, HaltModel::NeedFile(p)),
            },
            (s1, Ok(_)) => error(s1, "import$str path must be a string"@),
            (s1, Err(h)) => halt(s1, h),
        },
        ExprModel::Declare(path) => match eval(*path, st, k, fuel) {
            (s1, Ok(ValueModel::Str(p))) => match declare_file(p, s1, k, fuel) {
                (s2, Ok(_)) => (s2, Ok(ValueModel::Null)),
                (s2, Err(h)) => halt(s2, h),
            },
            (s1, Ok(_)) => error(s1, "declare path must be a string"@),
            (s1, Err(h)) => halt(s1, h),
        },
        ExprModel::EnumValue { .. } => (st, Ok(ValueModel::Null)),
    }
}

/// Runs the statements of the file at `path` one level deeper; the value is null.
pub open spec fn import_file(path: Seq<char>, st: State, k: KnowledgeModel, fuel: nat) -> Eval<ValueModel>
    decreases fuel, 0nat, 0int,
{
    match file_named(k.files, path) {
        None => halt(st, HaltModel::NeedFile(path)),
        Some(f) => match f.program {
            Err(h) => halt(st, h),
            Ok(statements) => if fuel == 0 {
                halt(st, HaltModel::TooDeep)
            } else {
                match exec_all(statements, st, k, (fuel - 1) as nat) {
                    (s1, Ok(_)) => (s1, Ok(ValueModel::Null)),
                    (s1, Err(h)) => halt(s1, h),
                }
            },
        },
    }
}

/// Takes the declarations of the file at `path`, one level deeper.
pub open spec fn declare_file(path: Seq<char>, st: State, k: KnowledgeModel, fuel: nat) -> Eval<()>
    decreases fuel, 0nat, 0int,
{
    match file_named(k.files, path) {
        None => halt(st, HaltModel::NeedFile(path)),
        Some(f) => match f.program {
            Err(h) => halt(st, h),
            Ok(statements) => if fuel == 0 {
                halt(st, HaltModel::TooDeep)
            } else {
                declare_all(statements, path, st, k, (fuel - 1) as nat)
            },
        },
    }
}

/// Evaluates `items` in order after the values `acc`.
pub open spec fn eval_items(items: Seq<ExprModel>, acc: Seq<ValueModel>, st: State, k: KnowledgeModel, fuel: nat) -> Eval<Seq<ValueModel>>
    decreases fuel, exprs_size(items), 3int,
{
    if items.len() == 0 {
        (st, Ok(acc))
    } else {
        proof { lemma_expr_size_positive(items[0]); }
        match eval(items[0], st, k, fuel) {
            (s1, Ok(v)) => eval_items(items.drop_first(), acc.push(v), s1, k, fuel),
            (s1, Err(h)) => halt(s1, h),
        }
    }
}

/// Builds a value of the struct `name`, whose field names are known.
pub open spec fn construct(name: Seq<char>, args: Seq<ExprModel>, st: State, k: KnowledgeModel, fuel: nat) -> Eval<ValueModel>
    decreases fuel, exprs_size(args), 5int,
{
    let fields = lookup(st.structs, name)->Some_0;
    if args.len() != fields.len() {
        error(st, quoted("struct `"@, name, "` expected "@) + decimal(fields.len()) + " fields, got "@ + decimal(args.len()))
    } else {
        match bind_fields(fields, args, seq![], st, k, fuel) {
            (s1, Ok(entries)) => (s1, Ok(ValueModel::Struct { name, fields: entries })),
            (s1, Err(h)) => halt(s1, h),
        }
    }
}

/// Sets each field of `names` to the value of the matching argument, in order.
pub open spec fn bind_fields(
    names: Seq<Seq<char>>,
    args: Seq<ExprModel>,
    acc: Seq<(Seq<char>, ValueModel)>,
    st: State,
    k: KnowledgeModel,
    fuel: nat,
) -> Eval<Seq<(Seq<char>, ValueModel)>>
    decreases fuel, exprs_size(args), 4int,
{
    if args.len() == 0 || names.len() == 0 {
        (st, Ok(acc))
    } else {
        proof { lemma_expr_size_positive(args[0]); }
        match eval(args[0], st, k, fuel) {
            (s1, Ok(v)) => bind_fields(names.drop_first(), args.drop_first(), put(acc, names[0], v), s1, k, fuel),
            (s1, Err(h)) => halt(s1, h),
        }
    }
}

/// Calls the function `name`: binds its parameters, then runs its body one
/// level deeper.
pub open spec fn call(name: Seq<char>, args: Seq<ExprModel>, st: State, k: KnowledgeModel, fuel: nat) -> Eval<ValueModel>
    decreases fuel, exprs_size(args), 5int,
{
    match lookup(st.functions, name) {
        None => error(st, quoted("undefined function `"@, name, "`"@)),
        Some(f) => if args.len() != f.params.len() {
            error(st, quoted("function `"@, name, "` expected "@) + decimal(f.params.len()) + " arguments, got "@ + decimal(args.len()))
        } else {
            match bind_params(f.params, args, st, k, fuel) {
                (s1, Ok(_)) => if fuel == 0 {
                    halt(s1, HaltModel::TooDeep)
                } else {
                    match exec_body(f.body, s1, k, (fuel - 1) as nat) {
                        (s2, Ok(Some(v))) => (s2, Ok(v)),
                        (s2, Ok(None)) => (s2, Ok(ValueModel::Null)),
                        (s2, Err(h)) => halt(s2, h),
                    }
                },
                (s1, Err(h)) => halt(s1, h),
            }
        },
    }
}

/// Sets each parameter variable of `names` to the value of the matching argument, in order.
pub open spec fn bind_params(names: Seq<Seq<char>>, args: Seq<ExprModel>, st: State, k: KnowledgeModel, fuel: nat) -> Eval<()>
    decreases fuel, exprs_size(args), 4int,
{
    if args.len() == 0 || names.len() == 0 {
        (st, Ok(()))
    } else {
        proof { lemma_expr_size_positive(args[0]); }
        match eval(args[0], st, k, fuel) {
            (s1, Ok(v)) => bind_params(names.drop_first(), args.drop_first(), with_variable(s1, names[0], v), k, fuel),
            (s1, Err(h)) => halt(s1, h),
        }
    }
}

/// Executes one statement; `Some` holds the value of a `return`. The parser
/// makes no enum declarations; one that a caller builds does nothing.
pub open spec fn exec_stmt(s: StmtModel, st: State, k: KnowledgeModel, fuel: nat) -> Eval<Option<ValueModel>>
    decreases fuel, stmt_size(s), 10int,
{
    match s {
        StmtModel::Var { name, value } => match eval(value, st, k, fuel) {
            (s1, Ok(v)) => (with_variable(s1, name, v), Ok(None)),
            (s1, Err(h)) => halt(s1, h),
        },
        StmtModel::Assign { name, value } => match eval(value, st, k, fuel) {
            (s1, Ok(v)) => (with_variable(s1, name, v), Ok(None)),
            (s1, Err(h)) => halt(s1, h),
        },
        StmtModel::Print(e) => match eval(e, st, k, fuel) {
            (s1, Ok(v)) => (State { output: s1.output.push(v), ..s1 }, Ok(None)),
            (s1, Err(h)) => halt(s1, h),
        },
        StmtModel::Expr(e) => match eval(e, st, k, fuel) {
            (s1, Ok(_)) => (s1, Ok(None)),
            (s1, Err(h)) => halt(s1, h),
        },
        StmtModel::Struct { name, fields } => (with_struct(st, name, fields), Ok(None)),
        StmtModel::Void { name, params, body } => (with_function(st, name, FunctionModel { params, body }), Ok(None)),
        StmtModel::Return(e) => match eval(e, st, k, fuel) {
            (s1, Ok(v)) => (s1, Ok(Some(v))),
            (s1, Err(h)) => halt(s1, h),
        },
        StmtModel::If { condition, body, else_body } => match eval(condition, st, k, fuel) {
            (s1, Ok(ValueModel::Boolean(true))) => exec_body(body, s1, k, fuel),
            (s1, Ok(ValueModel::Boolean(false))) => match else_body {
                Some(b) => exec_body(b, s1, k, fuel),
                None => (s1, Ok(None)),
            },
            (s1, Ok(_)) => error(s1, "if condition must be a boolean"@),
            (s1, Err(h)) => halt(s1, h),
        },
        StmtModel::Enum { .. } => (st, Ok(None)),
    }
}

/// Executes statements in order until one returns a value.
pub open spec fn exec_body(ss: Seq<StmtModel>, st: State, k: KnowledgeModel, fuel: nat) -> Eval<Option<ValueModel>>
    decreases fuel, stmts_size(ss), 11int,
{
    if ss.len() == 0 {
        (st, Ok(None))
    } else {
        proof { lemma_stmt_size_positive(ss[0]); }
        match exec_stmt(ss[0], st, k, fuel) {
            (s1, Ok(Some(v))) => (s1, Ok(Some(v))),
            (s1, Ok(None)) => exec_body(ss.drop_first(), s1, k, fuel),
            (s1, Err(h)) => halt(s1, h),
        }
    }
}

/// Executes all statements in order; a `return` value is dropped.
pub open spec fn exec_all(ss: Seq<StmtModel>, st: State, k: KnowledgeModel, fuel: nat) -> Eval<()>
    decreases fuel, stmts_size(ss), 11int,
{
    if ss.len() == 0 {
        (st, Ok(()))
    } else {
        proof { lemma_stmt_size_positive(ss[0]); }
        match exec_stmt(ss[0], st, k, fuel) {
            (s1, Ok(_)) => exec_all(ss.drop_first(), s1, k, fuel),
            (s1, Err(h)) => halt(s1, h),
        }
    }
}

/// Takes the declarations among `ss`: variables (evaluated), functions and
/// structs; any other statement is an error.
pub open spec fn declare_all(ss: Seq<StmtModel>, path: Seq<char>, st: State, k: KnowledgeModel, fuel: nat) -> Eval<()>
    decreases fuel, stmts_size(ss), 11int,
{
    if ss.len() == 0 {
        (st, Ok(()))
    } else {
        proof { lemma_stmt_size_positive(ss[0]); }
        match ss[0] {
            StmtModel::Var { name, value } => match eval(value, st, k, fuel) {
                (s1, Ok(v)) => declare_all(ss.drop_first(), path, with_variable(s1, name, v), k, fuel),
                (s1, Err(h)) => halt(s1, h),
            },
            StmtModel::Void { name, params, body } => declare_all(
                ss.drop_first(),
                path,
                with_function(st, name, FunctionModel { params, body }),
                k,
                fuel,
            ),
            StmtModel::Struct { name, fields } => declare_all(ss.drop_first(), path, with_struct(st, name, fields), k, fuel),
            _ => error(st, quoted("cannot declare this statement from `"@, path, "`"@)),
        }
    }
}

/// Runs a program's statements from an empty state.
pub open spec fn run_program(statements: Seq<StmtModel>, k: KnowledgeModel, fuel: nat) -> Eval<()> {
    exec_all(statements, empty_state(), k, fuel)
}

/// The state of a run before its first statement.
pub open spec fn empty_state() -> State {
    State { variables: seq![], functions: seq![], structs: seq![], output: seq![] }
}

} // verus!
