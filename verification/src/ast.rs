use vstd::prelude::*;

verus! {

/// A parsed program: its statements in order.
#[derive(Debug)]
pub struct Program {
    pub statements: Vec<Stmt>,
}

#[derive(Debug)]
pub enum Stmt {
    Var { name: String, value: Expr },
    Assign { name: String, value: Expr },
    Print(Expr),
    If { condition: Expr, body: Vec<Stmt>, else_body: Option<Vec<Stmt>> },
    Void { name: String, params: Vec<String>, body: Vec<Stmt> },
    Expr(Expr),
    Return(Expr),
    Struct { name: String, fields: Vec<String> },
    Enum { name: String, variants: Vec<String> },
}

/// An expression. A numeric literal is kept as the text of its digits.
#[derive(Debug)]
pub enum Expr {
    Number(String),
    Variable(String),
    Array(Vec<Expr>),
    String(String),
    Boolean(bool),
    EnumValue { enum_name: String, variant: String },
    Field { object: Box<Expr>, name: String },
    Call { name: String, args: Vec<Expr> },
    Unary { op: UnaryOp, expr: Box<Expr> },
    Import(Box<Expr>),
    ImportStr(Box<Expr>),
    Declare(Box<Expr>),
    Binary { left: Box<Expr>, op: BinaryOp, right: Box<Expr> },
}

#[derive(Debug, Clone, Copy, PartialEq, Eq, Structural)]
pub enum UnaryOp {
    Negate,
    Plus,
}

#[derive(Debug, Clone, Copy, PartialEq, Eq, Structural)]
pub enum BinaryOp {
    Add,
    Subtract,
    Multiply,
    Divide,
    Equal,
    Modulo,
}

/// The mathematical value of an expression: names and literals as character sequences.
pub enum ExprModel {
    Number(Seq<char>),
    Variable(Seq<char>),
    Array(Seq<ExprModel>),
    Str(Seq<char>),
    Boolean(bool),
    EnumValue { enum_name: Seq<char>, variant: Seq<char> },
    Field { object: Box<ExprModel>, name: Seq<char> },
    Call { name: Seq<char>, args: Seq<ExprModel> },
    Unary { op: UnaryOp, expr: Box<ExprModel> },
    Import(Box<ExprModel>),
    ImportStr(Box<ExprModel>),
    Declare(Box<ExprModel>),
    Binary { left: Box<ExprModel>, op: BinaryOp, right: Box<ExprModel> },
}

/// The mathematical value of a statement.
pub enum StmtModel {
    Var { name: Seq<char>, value: ExprModel },
    Assign { name: Seq<char>, value: ExprModel },
    Print(ExprModel),
    If { condition: ExprModel, body: Seq<StmtModel>, else_body: Option<Seq<StmtModel>> },
    Void { name: Seq<char>, params: Seq<Seq<char>>, body: Seq<StmtModel> },
    Expr(ExprModel),
    Return(ExprModel),
    Struct { name: Seq<char>, fields: Seq<Seq<char>> },
    Enum { name: Seq<char>, variants: Seq<Seq<char>> },
}

/// The character sequences of a list of names.
pub open spec fn names_model(v: Seq<String>) -> Seq<Seq<char>> {
    v.map_values(|s: String| s@)
}

impl Expr {
    /// The mathematical value of this expression.
    pub open spec fn model(self) -> ExprModel
        decreases self,
    {
        match self {
            Expr::Number(s) => ExprModel::Number(s@),
            Expr::Variable(s) => ExprModel::Variable(s@),
            Expr::Array(v) => ExprModel::Array(
                Seq::new(v.len() as nat, |i: int| if 0 <= i < v.len() { v@[i].model() } else { ExprModel::Boolean(false) }),
            ),
            Expr::String(s) => ExprModel::Str(s@),
            Expr::Boolean(b) => ExprModel::Boolean(b),
            Expr::EnumValue { enum_name, variant } => ExprModel::EnumValue { enum_name: enum_name@, variant: variant@ },
            Expr::Field { object, name } => ExprModel::Field { object: Box::new(object.model()), name: name@ },
            Expr::Call { name, args } => ExprModel::Call {
                name: name@,
                args: Seq::new(args.len() as nat, |i: int| if 0 <= i < args.len() { args@[i].model() } else { ExprModel::Boolean(false) }),
            },
            Expr::Unary { op, expr } => ExprModel::Unary { op, expr: Box::new(expr.model()) },
            Expr::Import(e) => ExprModel::Import(Box::new(e.model())),
            Expr::ImportStr(e) => ExprModel::ImportStr(Box::new(e.model())),
            Expr::Declare(e) => ExprModel::Declare(Box::new(e.model())),
            Expr::Binary { left, op, right } => ExprModel::Binary {
                left: Box::new(left.model()),
                op,
                right: Box::new(right.model()),
            },
        }
    }
}

/// The models of a list of expressions.
pub open spec fn exprs_model(v: Seq<Expr>) -> Seq<ExprModel> {
    v.map_values(|e: Expr| e.model())
}

impl Stmt {
    /// The mathematical value of this statement.
    pub open spec fn model(self) -> StmtModel
        decreases self,
    {
        match self {
            Stmt::Var { name, value } => StmtModel::Var { name: name@, value: value.model() },
            Stmt::Assign { name, value } => StmtModel::Assign { name: name@, value: value.model() },
            Stmt::Print(e) => StmtModel::Print(e.model()),
            Stmt::If { condition, body, else_body } => StmtModel::If {
                condition: condition.model(),
                body: Seq::new(body.len() as nat, |i: int| if 0 <= i < body.len() { body@[i].model() } else { StmtModel::Print(ExprModel::Boolean(false)) }),
                else_body: match else_body {
                    Some(v) => Some(Seq::new(v.len() as nat, |i: int| if 0 <= i < v.len() { v@[i].model() } else { StmtModel::Print(ExprModel::Boolean(false)) })),
                    None => None,
                },
            },
            Stmt::Void { name, params, body } => StmtModel::Void {
                name: name@,
                params: names_model(params@),
                body: Seq::new(body.len() as nat, |i: int| if 0 <= i < body.len() { body@[i].model() } else { StmtModel::Print(ExprModel::Boolean(false)) }),
            },
            Stmt::Expr(e) => StmtModel::Expr(e.model()),
            Stmt::Return(e) => StmtModel::Return(e.model()),
            Stmt::Struct { name, fields } => StmtModel::Struct { name: name@, fields: names_model(fields@) },
            Stmt::Enum { name, variants } => StmtModel::Enum { name: name@, variants: names_model(variants@) },
        }
    }
}

/// The models of a list of statements.
pub open spec fn stmts_model(v: Seq<Stmt>) -> Seq<StmtModel> {
    v.map_values(|s: Stmt| s.model())
}

/// The model of an array expression is the array of its items' models.
pub proof fn lemma_array_model(v: Vec<Expr>)
    ensures
        Expr::Array(v).model() == ExprModel::Array(exprs_model(v@)),
{
    if let ExprModel::Array(s) = Expr::Array(v).model() {
        assert(s =~= exprs_model(v@));
    }
}

/// The model of a call is the call of its arguments' models.
pub proof fn lemma_call_model(name: String, v: Vec<Expr>)
    ensures
        (Expr::Call { name, args: v }).model() == (ExprModel::Call { name: name@, args: exprs_model(v@) }),
{
    if let ExprModel::Call { args, .. } = (Expr::Call { name, args: v }).model() {
        assert(args =~= exprs_model(v@));
    }
}

/// The model of an `if` statement is built from the models of its parts.
pub proof fn lemma_if_model(condition: Expr, body: Vec<Stmt>, else_body: Option<Vec<Stmt>>)
    ensures
        (Stmt::If { condition, body, else_body }).model() == (StmtModel::If {
            condition: condition.model(),
            body: stmts_model(body@),
            else_body: match else_body {
                Some(v) => Some(stmts_model(v@)),
                None => None,
            },
        }),
{
    if let StmtModel::If { body: b, else_body: eb, .. } = (Stmt::If { condition, body, else_body }).model() {
        assert(b =~= stmts_model(body@));
        match else_body {
            Some(v) => {
                assert(eb.unwrap() =~= stmts_model(v@));
            },
            None => {},
        }
    }
}

/// The model of a function declaration is built from the models of its parts.
pub proof fn lemma_void_model(name: String, params: Vec<String>, body: Vec<Stmt>)
    ensures
        (Stmt::Void { name, params, body }).model() == (StmtModel::Void {
            name: name@,
            params: names_model(params@),
            body: stmts_model(body@),
        }),
{
    if let StmtModel::Void { body: b, .. } = (Stmt::Void { name, params, body }).model() {
        assert(b =~= stmts_model(body@));
    }
}

impl Program {
    /// The models of the program's statements.
    pub open spec fn model(self) -> Seq<StmtModel> {
        stmts_model(self.statements@)
    }
}

/// A copy of a list of names.
pub fn copy_names(names: &Vec<String>) -> (r: Vec<String>)
    ensures
        names_model(r@) == names_model(names@),
{
    let mut out: Vec<String> = Vec::new();
    let mut i: usize = 0;
    while i < names.len()
        invariant
            i <= names.len(),
            out.len() == i,
            names_model(out@) == names_model(names@).take(i as int),
        decreases names.len() - i,
    {
        out.push(names[i].clone());
        assert(names_model(out@) =~= names_model(names@).take(i + 1));
        i += 1;
    }
    assert(names_model(names@).take(names.len() as int) =~= names_model(names@));
    out
}

impl Expr {
    /// A copy of this expression, subexpressions included.
    pub fn copy(&self) -> (r: Expr)
        ensures
            r.model() == self.model(),
        decreases self,
    {
        match self {
            Expr::Number(s) => Expr::Number(s.clone()),
            Expr::Variable(s) => Expr::Variable(s.clone()),
            Expr::String(s) => Expr::String(s.clone()),
            Expr::Boolean(b) => Expr::Boolean(*b),
            Expr::EnumValue { enum_name, variant } => Expr::EnumValue { enum_name: enum_name.clone(), variant: variant.clone() },
            Expr::Array(items) => {
                let out = copy_exprs(items, Ghost(*self));
                proof {
                    lemma_array_model(out);
                    lemma_array_model(*items);
                }
                Expr::Array(out)
            },
            Expr::Call { name, args } => {
                let out = copy_exprs(args, Ghost(*self));
                let copied_name = name.clone();
                proof {
                    lemma_call_model(copied_name, out);
                    lemma_call_model(*name, *args);
                }
                Expr::Call { name: copied_name, args: out }
            },
            Expr::Field { object, name } => Expr::Field { object: Box::new(object.copy()), name: name.clone() },
            Expr::Unary { op, expr } => Expr::Unary { op: *op, expr: Box::new(expr.copy()) },
            Expr::Import(e) => Expr::Import(Box::new(e.copy())),
            Expr::ImportStr(e) => Expr::ImportStr(Box::new(e.copy())),
            Expr::Declare(e) => Expr::Declare(Box::new(e.copy())),
            Expr::Binary { left, op, right } => Expr::Binary {
                left: Box::new(left.copy()),
                op: *op,
                right: Box::new(right.copy()),
            },
        }
    }
}

/// A copy of the expressions `items`, which are part of `whole`.
fn copy_exprs(items: &Vec<Expr>, Ghost(whole): Ghost<Expr>) -> (r: Vec<Expr>)
    requires
        decreases_to!(whole => *items),
    ensures
        exprs_model(r@) == exprs_model(items@),
    decreases whole, 0int,
{
    let mut out: Vec<Expr> = Vec::new();
    let mut i: usize = 0;
    while i < items.len()
        invariant
            decreases_to!(whole => *items),
            i <= items.len(),
            out.len() == i,
            exprs_model(out@) == exprs_model(items@).take(i as int),
        decreases items.len() - i,
    {
        assert(decreases_to!(whole => items@[i as int])) by {
            assert(decreases_to!(*items => items@));
            assert(decreases_to!(items@ => items@[i as int]));
        }
        let item = items[i].copy();
        out.push(item);
        assert(exprs_model(out@) =~= exprs_model(items@).take(i + 1));
        i += 1;
    }
    assert(exprs_model(items@).take(items.len() as int) =~= exprs_model(items@));
    out
}

impl Stmt {
    /// A copy of this statement, nested statements included.
    pub fn copy(&self) -> (r: Stmt)
        ensures
            r.model() == self.model(),
        decreases self,
    {
        match self {
            Stmt::Var { name, value } => Stmt::Var { name: name.clone(), value: value.copy() },
            Stmt::Assign { name, value } => Stmt::Assign { name: name.clone(), value: value.copy() },
            Stmt::Print(e) => Stmt::Print(e.copy()),
            Stmt::Expr(e) => Stmt::Expr(e.copy()),
            Stmt::Return(e) => Stmt::Return(e.copy()),
            Stmt::Struct { name, fields } => Stmt::Struct { name: name.clone(), fields: copy_names(fields) },
            Stmt::Enum { name, variants } => Stmt::Enum { name: name.clone(), variants: copy_names(variants) },
            Stmt::If { condition, body, else_body } => {
                let c = condition.copy();
                let b = copy_stmts(body, Ghost(*self));
                let e = match else_body {
                    Some(v) => {
                        assert(decreases_to!(*self => *v)) by {
                            assert(decreases_to!(*self => self->else_body));
                            assert(decreases_to!(self->else_body => self->else_body->Some_0));
                        }
                        Some(copy_stmts(v, Ghost(*self)))
                    },
                    None => None,
                };
                proof {
                    lemma_if_model(c, b, e);
                    lemma_if_model(*condition, *body, *else_body);
                }
                Stmt::If { condition: c, body: b, else_body: e }
            },
            Stmt::Void { name, params, body } => {
                let n = name.clone();
                let p = copy_names(params);
                let b = copy_stmts(body, Ghost(*self));
                proof {
                    lemma_void_model(n, p, b);
                    lemma_void_model(*name, *params, *body);
                }
                Stmt::Void { name: n, params: p, body: b }
            },
        }
    }
}

/// A copy of the statements `items`, which are part of `whole`.
fn copy_stmts(items: &Vec<Stmt>, Ghost(whole): Ghost<Stmt>) -> (r: Vec<Stmt>)
    requires
        decreases_to!(whole => *items),
    ensures
        stmts_model(r@) == stmts_model(items@),
    decreases whole, 0int,
{
    let mut out: Vec<Stmt> = Vec::new();
    let mut i: usize = 0;
    while i < items.len()
        invariant
            decreases_to!(whole => *items),
            i <= items.len(),
            out.len() == i,
            stmts_model(out@) == stmts_model(items@).take(i as int),
        decreases items.len() - i,
    {
        assert(decreases_to!(whole => items@[i as int])) by {
            assert(decreases_to!(*items => items@));
            assert(decreases_to!(items@ => items@[i as int]));
        }
        let item = items[i].copy();
        out.push(item);
        assert(stmts_model(out@) =~= stmts_model(items@).take(i + 1));
        i += 1;
    }
    assert(stmts_model(items@).take(items.len() as int) =~= stmts_model(items@));
    out
}

/// A copy of a list of statements.
pub fn copy_statements(items: &Vec<Stmt>) -> (r: Vec<Stmt>)
    ensures
        stmts_model(r@) == stmts_model(items@),
{
    let mut out: Vec<Stmt> = Vec::new();
    let mut i: usize = 0;
    while i < items.len()
        invariant
            i <= items.len(),
            out.len() == i,
            stmts_model(out@) == stmts_model(items@).take(i as int),
        decreases items.len() - i,
    {
        let item = items[i].copy();
        out.push(item);
        assert(stmts_model(out@) =~= stmts_model(items@).take(i + 1));
        i += 1;
    }
    assert(stmts_model(items@).take(items.len() as int) =~= stmts_model(items@));
    out
}

} // verus!
