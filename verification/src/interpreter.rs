use vstd::prelude::*;
use vstd::string::StringExecFns;

use crate::ast::{lemma_array_model, lemma_call_model, lemma_if_model, lemma_void_model, exprs_model, copy_names, copy_statements, names_model, stmts_model, BinaryOp, Expr, ExprModel, Program, Stmt, StmtModel, UnaryOp};
use crate::entries::{find_key, first_index, lemma_first_index, lookup, names_of, put, put_entry, string_names};
use crate::laws::{asks_nothing, knows_more, programs_ask_nothing};
use crate::lexer::{lemma_lex_tokens, models, Lexer};
use crate::parser::{parse_statements, ParseError, Parser};
use crate::semantics::{
    bind_fields, bind_params, call, empty_state, field_of, lemma_expr_size_at, lemma_stmt_size_at, quoted,
    with_function, with_struct, with_variable,
    answer_to, binary, construct, declare_all, declare_file, eval, eval_items, exec_all, exec_body, exec_stmt,
    expr_size, exprs_size, file_named, import_file, program_of, stmt_size, stmts_size, unary, FileModel,
    FunctionModel, HaltModel, KnowledgeModel, QueryModel, State,
};
use crate::text::push_decimal;
use crate::token::{tag_of, KindTag};
use crate::value::{
    entries_model, lemma_array_value_model, lemma_entry_names, lemma_struct_value_model, number_neg, values_eq,
    values_model, Value, ValueModel,
};

verus! {

/// A question about doubles that a run may need answered: the double that a
/// numeric literal denotes, or the result of `+`, `-`, `*`, `/` or `%` on two
/// doubles (given by their bit patterns).
#[derive(Debug)]
pub enum Query {
    Literal(String),
    Arithmetic(BinaryOp, u64, u64),
}

impl Query {
    /// The mathematical value of this question.
    pub open spec fn model(self) -> QueryModel {
        match self {
            Query::Literal(s) => QueryModel::Literal(s@),
            Query::Arithmetic(op, a, b) => QueryModel::Arithmetic(op, a, b),
        }
    }
}

/// Why a run stopped before its end.
#[derive(Debug)]
pub enum Halt {
    /// A runtime error, or a file that could not be read or lexed: the message.
    Error(String),
    /// A syntax error in an imported or declared file.
    Syntax(ParseError),
    /// Calls and imports nested deeper than the run allows.
    TooDeep,
    /// The run needs the contents of this file.
    NeedFile(String),
    /// The run needs the answer to this question.
    NeedNumber(Query),
}

impl Halt {
    /// The mathematical value of this halt.
    pub open spec fn model(self) -> HaltModel {
        match self {
            Halt::Error(m) => HaltModel::Error(m@),
            Halt::Syntax(e) => HaltModel::Syntax(e),
            Halt::TooDeep => HaltModel::TooDeep,
            Halt::NeedFile(p) => HaltModel::NeedFile(p@),
            Halt::NeedNumber(q) => HaltModel::NeedNumber(q.model()),
        }
    }
}

// ---------------------------------------------------------------------
// Knowledge.
// ---------------------------------------------------------------------

/// A file as a run knows it.
pub struct SourceFile {
    path: String,
    text: Result<String, String>,
    program: Result<Program, Halt>,
}

impl SourceFile {
    /// The mathematical value of this file.
    pub closed spec fn model(self) -> FileModel {
        FileModel {
            path: self.path@,
            text: match self.text {
                Ok(s) => Ok(s@),
                Err(m) => Err(m@),
            },
            program: match self.program {
                Ok(p) => Ok(p.model()),
                Err(h) => Err(h.model()),
            },
        }
    }
}

/// The files and the answers about doubles that runs may use.
pub struct Knowledge {
    files: Vec<SourceFile>,
    numbers: Vec<(Query, u64)>,
}

impl View for Knowledge {
    type V = KnowledgeModel;

    closed spec fn view(&self) -> KnowledgeModel {
        KnowledgeModel {
            files: self.files@.map_values(|f: SourceFile| f.model()),
            numbers: self.numbers@.map_values(|e: (Query, u64)| (e.0.model(), e.1)),
        }
    }
}

impl Knowledge {
    /// Every known file's statements are those of its text.
    pub open spec fn wf(&self) -> bool {
        forall|i: int| 0 <= i < self@.files.len() ==> program_of(#[trigger] self@.files[i].text, self@.files[i].program)
    }

    /// Knowledge of nothing.
    pub fn new() -> (r: Self)
        ensures
            r.wf(),
            r@.files == Seq::<FileModel>::empty(),
            r@.numbers == Seq::<(QueryModel, u64)>::empty(),
    {
        let r = Knowledge { files: Vec::new(), numbers: Vec::new() };
        assert(r@.files =~= Seq::<FileModel>::empty());
        assert(r@.numbers =~= Seq::<(QueryModel, u64)>::empty());
        r
    }

    /// Records the file at `path`: its text, or the message for a file that
    /// could not be read. Its statements are lexed and parsed here.
    pub fn add_file(&mut self, path: String, text: Result<String, String>)
        requires
            old(self).wf(),
        ensures
            final(self).wf(),
            knows_more(old(self)@, final(self)@),
            final(self)@.numbers == old(self)@.numbers,
            final(self)@.files.len() == old(self)@.files.len() + 1,
            final(self)@.files.drop_last() == old(self)@.files,
            final(self)@.files.last().path == path@,
            final(self)@.files.last().text == match text {
                Ok(s) => Ok::<Seq<char>, Seq<char>>(s@),
                Err(m) => Err::<Seq<char>, Seq<char>>(m@),
            },
    {
        let program = match &text {
            Err(m) => Err(Halt::Error(m.clone())),
            Ok(source) => {
                let mut lexer = Lexer::new(source.as_str());
                match lexer.tokenize() {
                    Err(m) => Err(Halt::Error(m)),
                    Ok(tokens) => {
                        let ghost ts = tokens@;
                        proof {
                            lemma_lex_tokens(source@, 0);
                            let last = (tokens@.len() - 1) as int;
                            assert(models(tokens@)[last] == tokens@[last].model());
                            assert(tag_of(tokens@[last].kind) == KindTag::Eof);
                        }
                        let mut parser = Parser::new(tokens);
                        let parsed = parser.parse_program();
                        let program = match parsed {
                            Ok(p) => Ok(p),
                            Err(e) => Err(Halt::Syntax(e)),
                        };
                        proof {
                            let pm = match &program {
                                Ok(p) => Ok::<Seq<StmtModel>, HaltModel>(p.model()),
                                Err(h) => Err::<Seq<StmtModel>, HaltModel>(h.model()),
                            };
                            assert(models(ts) == models(ts) && (forall|i: int| 0 <= i < ts.len() ==> (#[trigger] ts[i]).payload_is_lexeme())
                                && match parse_statements(ts, 0, seq![]) {
                                    Ok((statements, _)) => pm == Ok::<Seq<StmtModel>, HaltModel>(statements),
                                    Err(f) => match pm {
                                        Err(HaltModel::Syntax(e)) => e.describes(f, ts),
                                        _ => false,
                                    },
                                });
                            assert(program_of(Ok::<Seq<char>, Seq<char>>(source@), pm));
                        }
                        program
                    },
                }
            },
        };
        let ghost before = self.files@;
        let file = SourceFile { path, text, program };
        assert(program_of(file.model().text, file.model().program));
        self.files.push(file);
        assert(self@.files =~= old(self)@.files.push(file.model()));
        assert forall|i: int| 0 <= i < self@.files.len() implies program_of(#[trigger] self@.files[i].text, self@.files[i].program) by {
            if i < old(self)@.files.len() {
                assert(self@.files[i] == old(self)@.files[i]);
            }
        }
        assert(self@.numbers =~= old(self)@.numbers);
        assert(self@.files.drop_last() =~= old(self)@.files);
    }
}

impl Knowledge {
    /// Records the answer to a question about doubles.
    pub fn add_number(&mut self, query: Query, answer: u64)
        requires
            old(self).wf(),
        ensures
            final(self).wf(),
            knows_more(old(self)@, final(self)@),
            final(self)@.files == old(self)@.files,
            final(self)@.numbers == old(self)@.numbers.push((query.model(), answer)),
    {
        let ghost q = query.model();
        self.numbers.push((query, answer));
        assert(self@.numbers =~= old(self)@.numbers.push((q, answer)));
        assert(self@.files =~= old(self)@.files);
    }

    /// The index of the first file known under `path`.
    fn file_index(&self, path: &String) -> (r: Option<usize>)
        ensures
            match r {
                Some(i) => i < self@.files.len() && file_named(self@.files, path@) == Some(self@.files[i as int]),
                None => file_named(self@.files, path@) is None,
            },
    {
        let ghost fs = self@.files;
        let mut i: usize = 0;
        assert(fs.skip(0) =~= fs);
        while i < self.files.len()
            invariant
                fs == self@.files,
                fs.len() == self.files.len(),
                i <= self.files.len(),
                file_named(fs, path@) == file_named(fs.skip(i as int), path@),
            decreases self.files.len() - i,
        {
            assert(fs.skip(i as int).drop_first() =~= fs.skip(i + 1));
            assert(fs[i as int] == self.files@[i as int].model());
            if self.files[i].path == *path {
                return Some(i);
            }
            i += 1;
        }
        None
    }

    /// The first answer known to `query`.
    fn answer(&self, query: &Query) -> (r: Option<u64>)
        ensures
            r == answer_to(self@.numbers, query.model()),
    {
        let ghost ns = self@.numbers;
        let mut i: usize = 0;
        assert(ns.skip(0) =~= ns);
        while i < self.numbers.len()
            invariant
                ns == self@.numbers,
                ns.len() == self.numbers.len(),
                i <= self.numbers.len(),
                answer_to(ns, query.model()) == answer_to(ns.skip(i as int), query.model()),
            decreases self.numbers.len() - i,
        {
            assert(ns.skip(i as int).drop_first() =~= ns.skip(i + 1));
            if same_query(&self.numbers[i].0, query) {
                return Some(self.numbers[i].1);
            }
            i += 1;
        }
        None
    }
}

/// The statements of a file that `k` knows never stop to ask for a file or
/// an answer: a file that cannot be read, lexed or parsed stops with an error.
pub proof fn lemma_known_programs(k: &Knowledge)
    requires
        k.wf(),
    ensures
        programs_ask_nothing(k@),
{
    assert forall|i: int| 0 <= i < k@.files.len() implies asks_nothing(#[trigger] k@.files[i].program) by {
        assert(program_of(k@.files[i].text, k@.files[i].program));
    }
}

fn same_query(a: &Query, b: &Query) -> (r: bool)
    ensures
        r == (a.model() == b.model()),
{
    match (a, b) {
        (Query::Literal(x), Query::Literal(y)) => *x == *y,
        (Query::Arithmetic(o1, x1, y1), Query::Arithmetic(o2, x2, y2)) => *o1 == *o2 && *x1 == *x2 && *y1 == *y2,
        _ => false,
    }
}

impl Query {
    /// Returns a copy of this question.
    pub fn duplicate(&self) -> (r: Query)
        ensures
            r.model() == self.model(),
    {
        match self {
            Query::Literal(s) => Query::Literal(s.clone()),
            Query::Arithmetic(op, a, b) => Query::Arithmetic(*op, *a, *b),
        }
    }
}

impl Halt {
    /// Returns a copy of this halt.
    pub fn duplicate(&self) -> (r: Halt)
        ensures
            r.model() == self.model(),
    {
        match self {
            Halt::Error(m) => Halt::Error(m.clone()),
            Halt::Syntax(e) => Halt::Syntax(e.duplicate()),
            Halt::TooDeep => Halt::TooDeep,
            Halt::NeedFile(p) => Halt::NeedFile(p.clone()),
            Halt::NeedNumber(q) => Halt::NeedNumber(q.duplicate()),
        }
    }
}

// ---------------------------------------------------------------------
// The interpreter.
// ---------------------------------------------------------------------

/// A function as the interpreter keeps it.
struct Function {
    params: Vec<String>,
    body: Vec<Stmt>,
}

impl Function {
    spec fn model(self) -> FunctionModel {
        FunctionModel { params: names_model(self.params@), body: stmts_model(self.body@) }
    }
}

/// Runs programs statement by statement, keeping variables, functions,
/// structs and the values printed so far.
pub struct Interpreter {
    variables: Vec<(String, Value)>,
    functions: Vec<(String, Function)>,
    structs: Vec<(String, Vec<String>)>,
    output: Vec<Value>,
}

impl View for Interpreter {
    type V = State;

    closed spec fn view(&self) -> State {
        State {
            variables: entries_model(self.variables@),
            functions: self.functions@.map_values(|e: (String, Function)| (e.0@, e.1.model())),
            structs: self.structs@.map_values(|e: (String, Vec<String>)| (e.0@, names_model(e.1@))),
            output: values_model(self.output@),
        }
    }
}

/// The model of a result that is a value.
pub open spec fn value_outcome(r: Result<Value, Halt>) -> Result<ValueModel, HaltModel> {
    match r {
        Ok(v) => Ok(v.model()),
        Err(h) => Err(h.model()),
    }
}

/// The model of a result that may be the value of a `return`.
pub open spec fn return_outcome(r: Result<Option<Value>, Halt>) -> Result<Option<ValueModel>, HaltModel> {
    match r {
        Ok(Some(v)) => Ok(Some(v.model())),
        Ok(None) => Ok(None),
        Err(h) => Err(h.model()),
    }
}

/// The model of a result that holds nothing.
pub open spec fn unit_outcome(r: Result<(), Halt>) -> Result<(), HaltModel> {
    match r {
        Ok(_) => Ok(()),
        Err(h) => Err(h.model()),
    }
}

/// `before`, then `name`, then `after`.
fn quote(before: &str, name: &String, after: &str) -> (r: String)
    ensures
        r@ == quoted(before@, name@, after@),
{
    let mut s = String::from_str(before);
    s.append(name.as_str());
    s.append(after);
    s
}

/// Sets the entry named `key` to `v`, in place if there is one, else at the end.
fn put_value(entries: &mut Vec<(String, Value)>, key: String, v: Value)
    ensures
        entries_model(final(entries)@) == put(entries_model(old(entries)@), key@, v.model()),
{
    let ghost k = key@;
    let ghost m = v.model();
    proof {
        lemma_entry_names(entries@);
        lemma_first_index(string_names(entries@), k);
    }
    let ghost before = entries@;
    put_entry(entries, key, v);
    proof {
        match first_index(string_names(before), k) {
            Some(i) => {
                assert(entries_model(entries@) =~= entries_model(before).update(i as int, (k, m)));
            },
            None => {
                assert(entries_model(entries@) =~= entries_model(before).push((k, m)));
            },
        }
    }
}

/// `a op b`; `+`, `-`, `*`, `/` and `%` on two numbers take their result
/// from what `k` knows.
fn evaluate_binary(a: Value, op: BinaryOp, b: Value, k: &Knowledge) -> (r: Result<Value, Halt>)
    ensures
        value_outcome(r) == binary(a.model(), op, b.model(), k@),
{
    match (&a, &b) {
        (Value::Number(x), Value::Number(y)) => {
            if op == BinaryOp::Equal {
                return Ok(Value::Boolean(values_eq(&a, &b)));
            }
            let q = Query::Arithmetic(op, *x, *y);
            match k.answer(&q) {
                Some(bits) => Ok(Value::Number(bits)),
                None => Err(Halt::NeedNumber(q)),
            }
        },
        _ => {
            if op == BinaryOp::Equal {
                Ok(Value::Boolean(values_eq(&a, &b)))
            } else {
                Err(Halt::Error(String::from_str("invalid binary operation")))
            }
        },
    }
}

/// `op v`: negation or unary plus of a number.
fn evaluate_unary(op: UnaryOp, v: Value) -> (r: Result<Value, Halt>)
    ensures
        value_outcome(r) == unary(op, v.model()),
{
    match (op, &v) {
        (UnaryOp::Negate, Value::Number(x)) => Ok(Value::Number(number_neg(*x))),
        (UnaryOp::Plus, Value::Number(x)) => Ok(Value::Number(*x)),
        _ => Err(Halt::Error(String::from_str("invalid unary operation"))),
    }
}

/// The field `name` of a struct value.
fn field_value(object: Value, name: &String) -> (r: Result<Value, Halt>)
    ensures
        value_outcome(r) == field_of(object.model(), name@),
{
    match &object {
        Value::Struct { name: struct_name, fields } => {
            proof {
                lemma_struct_value_model(*struct_name, *fields);
                lemma_entry_names(fields@);
                lemma_first_index(string_names(fields@), name@);
            }
            match find_key(fields, name) {
                Some(i) => Ok(fields[i].1.copy()),
                None => {
                    let mut m = quote("struct `", struct_name, "` has no field `");
                    m.append(name.as_str());
                    m.append("`");
                    Err(Halt::Error(m))
                },
            }
        },
        _ => Err(Halt::Error(quote("cannot access field `", name, "` on non-struct value"))),
    }
}

impl Interpreter {
    /// An interpreter with nothing defined and nothing printed.
    pub fn new() -> (r: Interpreter)
        ensures
            r@ == empty_state(),
    {
        let r = Interpreter { variables: Vec::new(), functions: Vec::new(), structs: Vec::new(), output: Vec::new() };
        assert(r@ =~= empty_state());
        r
    }

    /// The values printed so far, in order.
    pub fn output(&self) -> (r: &Vec<Value>)
        ensures
            values_model(r@) == self@.output,
    {
        &self.output
    }

    fn set_variable(&mut self, name: String, v: Value)
        ensures
            final(self)@ == with_variable(old(self)@, name@, v.model()),
    {
        let ghost n = name@;
        let ghost m = v.model();
        put_value(&mut self.variables, name, v);
        assert(self@ =~= with_variable(old(self)@, n, m));
    }

    fn set_function(&mut self, name: String, f: Function)
        ensures
            final(self)@ == with_function(old(self)@, name@, f.model()),
    {
        let ghost n = name@;
        let ghost fm = f.model();
        let ghost before = self@.functions;
        assert(names_of(before) =~= string_names(self.functions@));
        proof { lemma_first_index(string_names(self.functions@), n); }
        let ghost found = first_index(string_names(self.functions@), n);
        put_entry(&mut self.functions, name, f);
        proof {
            match found {
                Some(i) => assert(self@.functions =~= before.update(i as int, (n, fm))),
                None => assert(self@.functions =~= before.push((n, fm))),
            }
        }
        assert(self@ =~= with_function(old(self)@, n, fm));
    }

    fn set_struct(&mut self, name: String, fields: Vec<String>)
        ensures
            final(self)@ == with_struct(old(self)@, name@, names_model(fields@)),
    {
        let ghost n = name@;
        let ghost fm = names_model(fields@);
        let ghost before = self@.structs;
        assert(names_of(before) =~= string_names(self.structs@));
        proof { lemma_first_index(string_names(self.structs@), n); }
        let ghost found = first_index(string_names(self.structs@), n);
        put_entry(&mut self.structs, name, fields);
        proof {
            match found {
                Some(i) => assert(self@.structs =~= before.update(i as int, (n, fm))),
                None => assert(self@.structs =~= before.push((n, fm))),
            }
        }
        assert(self@ =~= with_struct(old(self)@, n, fm));
    }

    /// Whether a struct named `name` is defined.
    fn has_struct(&self, name: &String) -> (r: bool)
        ensures
            r == lookup(self@.structs, name@) is Some,
    {
        assert(names_of(self@.structs) =~= string_names(self.structs@));
        find_key(&self.structs, name).is_some()
    }

    /// Evaluates an expression.
    fn evaluate(&mut self, expr: &Expr, k: &Knowledge, fuel: usize) -> (r: Result<Value, Halt>)
        ensures
            eval(expr.model(), old(self)@, k@, fuel as nat) == (final(self)@, value_outcome(r)),
        decreases fuel, expr_size(expr.model()), 2int,
    {
        match expr {
            Expr::Number(text) => {
                let q = Query::Literal(text.clone());
                match k.answer(&q) {
                    Some(bits) => Ok(Value::Number(bits)),
                    None => Err(Halt::NeedNumber(q)),
                }
            },
            Expr::String(text) => Ok(Value::String(text.clone())),
            Expr::Boolean(b) => Ok(Value::Boolean(*b)),
            Expr::EnumValue { .. } => Ok(Value::Null),
            Expr::Variable(name) => {
                proof {
                    lemma_entry_names(self.variables@);
                    lemma_first_index(string_names(self.variables@), name@);
                }
                match find_key(&self.variables, name) {
                    Some(i) => Ok(self.variables[i].1.copy()),
                    None => Err(Halt::Error(quote("undefined variable `", name, "`"))),
                }
            },
            Expr::Array(items) => {
                proof { lemma_array_model(*items); }
                match self.evaluate_items(items, k, fuel) {
                    Ok(values) => {
                        proof { lemma_array_value_model(values); }
                        Ok(Value::Array(values))
                    },
                    Err(h) => Err(h),
                }
            },
            Expr::Binary { left, op, right } => {
                let a = match self.evaluate(left, k, fuel) {
                    Ok(v) => v,
                    Err(h) => return Err(h),
                };
                let b = match self.evaluate(right, k, fuel) {
                    Ok(v) => v,
                    Err(h) => return Err(h),
                };
                evaluate_binary(a, *op, b, k)
            },
            Expr::Unary { op, expr: inner } => {
                match self.evaluate(inner, k, fuel) {
                    Ok(v) => evaluate_unary(*op, v),
                    Err(h) => Err(h),
                }
            },
            Expr::Call { name, args } => {
                proof { lemma_call_model(*name, *args); }
                if self.has_struct(name) {
                    self.construct_struct(name, args, k, fuel)
                } else {
                    self.call_function(name, args, k, fuel)
                }
            },
            Expr::Field { object, name } => {
                match self.evaluate(object, k, fuel) {
                    Ok(v) => field_value(v, name),
                    Err(h) => Err(h),
                }
            },
            Expr::Import(path) => {
                match self.evaluate(path, k, fuel) {
                    Ok(Value::String(p)) => self.import_file(&p, k, fuel),
                    Ok(_) => Err(Halt::Error(String::from_str("import path must be a string"))),
                    Err(h) => Err(h),
                }
            },
            Expr::ImportStr(path) => {
                match self.evaluate(path, k, fuel) {
                    Ok(Value::String(p)) => {
                        match k.file_index(&p) {
                            Some(i) => match &k.files[i].text {
                                Ok(text) => Ok(Value::String(text.clone())),
                                Err(message) => Err(Halt::Error(message.clone())),
                            },
                            None => Err(Halt::NeedFile(p)),
                        }
                    },
                    Ok(_) => Err(Halt::Error(String::from_str("import$str path must be a string"))),
                    Err(h) => Err(h),
                }
            },
            Expr::Declare(path) => {
                match self.evaluate(path, k, fuel) {
                    Ok(Value::String(p)) => match self.declare_file(&p, k, fuel) {
                        Ok(()) => Ok(Value::Null),
                        Err(h) => Err(h),
                    },
                    Ok(_) => Err(Halt::Error(String::from_str("declare path must be a string"))),
                    Err(h) => Err(h),
                }
            },
        }
    }

    /// Evaluates `items` in order.
    #[verifier::loop_isolation(false)]
    fn evaluate_items(&mut self, items: &Vec<Expr>, k: &Knowledge, fuel: usize) -> (r: Result<Vec<Value>, Halt>)
        ensures
            ({
                let (st, res) = eval_items(exprs_model(items@), seq![], old(self)@, k@, fuel as nat);
                &&& st == final(self)@
                &&& match r {
                    Ok(values) => res == Ok::<Seq<ValueModel>, HaltModel>(values_model(values@)),
                    Err(h) => res == Err::<Seq<ValueModel>, HaltModel>(h.model()),
                }
            }),
        decreases fuel, exprs_size(exprs_model(items@)), 3int,
    {
        let ghost ms = exprs_model(items@);
        let ghost whole = eval_items(ms, seq![], self@, k@, fuel as nat);
        let mut values: Vec<Value> = Vec::new();
        let mut i: usize = 0;
        assert(ms.skip(0) =~= ms);
        assert(values_model(values@) =~= Seq::<ValueModel>::empty());
        while i < items.len()
            invariant
                ms == exprs_model(items@),
                ms.len() == items.len(),
                i <= items.len(),
                whole == eval_items(ms.skip(i as int), values_model(values@), self@, k@, fuel as nat),
            decreases items.len() - i,
        {
            proof { lemma_expr_size_at(ms, i as int); }
            assert(ms.skip(i as int)[0] == ms[i as int]);
            assert(ms.skip(i as int).drop_first() =~= ms.skip(i + 1));
            match self.evaluate(&items[i], k, fuel) {
                Ok(v) => {
                    let ghost before = values_model(values@);
                    let ghost vm = v.model();
                    values.push(v);
                    assert(values_model(values@) =~= before.push(vm));
                },
                Err(h) => return Err(h),
            }
            i += 1;
        }
        assert(ms.skip(i as int) =~= Seq::<ExprModel>::empty());
        Ok(values)
    }

    /// Builds a value of the struct `name` from `args`.
    #[verifier::loop_isolation(false)]
    fn construct_struct(&mut self, name: &String, args: &Vec<Expr>, k: &Knowledge, fuel: usize) -> (r: Result<Value, Halt>)
        requires
            lookup(old(self)@.structs, name@) is Some,
        ensures
            construct(name@, exprs_model(args@), old(self)@, k@, fuel as nat) == (final(self)@, value_outcome(r)),
        decreases fuel, exprs_size(exprs_model(args@)), 5int,
    {
        assert(names_of(self@.structs) =~= string_names(self.structs@));
        proof { lemma_first_index(string_names(self.structs@), name@); }
        let fields = match find_key(&self.structs, name) {
            Some(i) => copy_names(&self.structs[i].1),
            None => Vec::new(),
        };
        let ghost fm = names_model(fields@);
        assert(lookup(self@.structs, name@) == Some(fm));
        if args.len() != fields.len() {
            let mut m = quote("struct `", name, "` expected ");
            push_decimal(&mut m, fields.len());
            m.append(" fields, got ");
            push_decimal(&mut m, args.len());
            return Err(Halt::Error(m));
        }
        let ghost ms = exprs_model(args@);
        let ghost whole = bind_fields(fm, ms, seq![], self@, k@, fuel as nat);
        let mut values: Vec<(String, Value)> = Vec::new();
        let mut i: usize = 0;
        assert(ms.skip(0) =~= ms);
        assert(fm.skip(0) =~= fm);
        assert(entries_model(values@) =~= Seq::<(Seq<char>, ValueModel)>::empty());
        while i < args.len()
            invariant
                ms == exprs_model(args@),
                fm == names_model(fields@),
                ms.len() == args.len(),
                fm.len() == fields.len(),
                args.len() == fields.len(),
                i <= args.len(),
                whole == bind_fields(fm.skip(i as int), ms.skip(i as int), entries_model(values@), self@, k@, fuel as nat),
            decreases args.len() - i,
        {
            proof { lemma_expr_size_at(ms, i as int); }
            assert(ms.skip(i as int)[0] == ms[i as int]);
            assert(fm.skip(i as int)[0] == fm[i as int]);
            assert(ms.skip(i as int).drop_first() =~= ms.skip(i + 1));
            assert(fm.skip(i as int).drop_first() =~= fm.skip(i + 1));
            match self.evaluate(&args[i], k, fuel) {
                Ok(v) => {
                    put_value(&mut values, fields[i].clone(), v);
                },
                Err(h) => return Err(h),
            }
            i += 1;
        }
        assert(ms.skip(i as int) =~= Seq::<ExprModel>::empty());
        let result_name = name.clone();
        proof { lemma_struct_value_model(result_name, values); }
        Ok(Value::Struct { name: result_name, fields: values })
    }

    /// Calls the function `name` with `args`.
    #[verifier::loop_isolation(false)]
    fn call_function(&mut self, name: &String, args: &Vec<Expr>, k: &Knowledge, fuel: usize) -> (r: Result<Value, Halt>)
        ensures
            call(name@, exprs_model(args@), old(self)@, k@, fuel as nat) == (final(self)@, value_outcome(r)),
        decreases fuel, exprs_size(exprs_model(args@)), 5int,
    {
        let ghost fs = self@.functions;
        assert(names_of(fs) =~= string_names(self.functions@));
        proof { lemma_first_index(string_names(self.functions@), name@); }
        let (params, body) = match find_key(&self.functions, name) {
            Some(i) => (copy_names(&self.functions[i].1.params), copy_statements(&self.functions[i].1.body)),
            None => return Err(Halt::Error(quote("undefined function `", name, "`"))),
        };
        let ghost pm = names_model(params@);
        assert(lookup(fs, name@) == Some(FunctionModel { params: pm, body: stmts_model(body@) }));
        if args.len() != params.len() {
            let mut m = quote("function `", name, "` expected ");
            push_decimal(&mut m, params.len());
            m.append(" arguments, got ");
            push_decimal(&mut m, args.len());
            return Err(Halt::Error(m));
        }
        let ghost ms = exprs_model(args@);
        let ghost whole = bind_params(pm, ms, self@, k@, fuel as nat);
        let mut i: usize = 0;
        assert(ms.skip(0) =~= ms);
        assert(pm.skip(0) =~= pm);
        while i < args.len()
            invariant
                ms == exprs_model(args@),
                pm == names_model(params@),
                ms.len() == args.len(),
                pm.len() == params.len(),
                args.len() == params.len(),
                i <= args.len(),
                whole == bind_params(pm.skip(i as int), ms.skip(i as int), self@, k@, fuel as nat),
            decreases args.len() - i,
        {
            proof { lemma_expr_size_at(ms, i as int); }
            assert(ms.skip(i as int)[0] == ms[i as int]);
            assert(pm.skip(i as int)[0] == pm[i as int]);
            assert(ms.skip(i as int).drop_first() =~= ms.skip(i + 1));
            assert(pm.skip(i as int).drop_first() =~= pm.skip(i + 1));
            match self.evaluate(&args[i], k, fuel) {
                Ok(v) => {
                    self.set_variable(params[i].clone(), v);
                },
                Err(h) => return Err(h),
            }
            i += 1;
        }
        assert(ms.skip(i as int) =~= Seq::<ExprModel>::empty());
        if fuel == 0 {
            return Err(Halt::TooDeep);
        }
        match self.execute_body(&body, k, fuel - 1) {
            Ok(Some(v)) => Ok(v),
            Ok(None) => Ok(Value::Null),
            Err(h) => Err(h),
        }
    }

    /// Runs the statements of the file at `path` one level deeper.
    fn import_file(&mut self, path: &String, k: &Knowledge, fuel: usize) -> (r: Result<Value, Halt>)
        ensures
            import_file(path@, old(self)@, k@, fuel as nat) == (final(self)@, value_outcome(r)),
        decreases fuel, 0nat, 0int,
    {
        match k.file_index(path) {
            None => Err(Halt::NeedFile(path.clone())),
            Some(i) => match &k.files[i].program {
                Err(h) => Err(h.duplicate()),
                Ok(program) => {
                    if fuel == 0 {
                        return Err(Halt::TooDeep);
                    }
                    match self.execute_all(&program.statements, k, fuel - 1) {
                        Ok(()) => Ok(Value::Null),
                        Err(h) => Err(h),
                    }
                },
            },
        }
    }

    /// Takes the declarations of the file at `path`, one level deeper.
    fn declare_file(&mut self, path: &String, k: &Knowledge, fuel: usize) -> (r: Result<(), Halt>)
        ensures
            declare_file(path@, old(self)@, k@, fuel as nat) == (final(self)@, unit_outcome(r)),
        decreases fuel, 0nat, 0int,
    {
        match k.file_index(path) {
            None => Err(Halt::NeedFile(path.clone())),
            Some(i) => match &k.files[i].program {
                Err(h) => Err(h.duplicate()),
                Ok(program) => {
                    if fuel == 0 {
                        return Err(Halt::TooDeep);
                    }
                    self.declare_all(&program.statements, path, k, fuel - 1)
                },
            },
        }
    }

    /// Executes one statement; `Some` holds the value of a `return`.
    fn execute(&mut self, statement: &Stmt, k: &Knowledge, fuel: usize) -> (r: Result<Option<Value>, Halt>)
        ensures
            exec_stmt(statement.model(), old(self)@, k@, fuel as nat) == (final(self)@, return_outcome(r)),
        decreases fuel, stmt_size(statement.model()), 10int,
    {
        match statement {
            Stmt::Var { name, value } => match self.evaluate(value, k, fuel) {
                Ok(v) => {
                    self.set_variable(name.clone(), v);
                    Ok(None)
                },
                Err(h) => Err(h),
            },
            Stmt::Assign { name, value } => match self.evaluate(value, k, fuel) {
                Ok(v) => {
                    self.set_variable(name.clone(), v);
                    Ok(None)
                },
                Err(h) => Err(h),
            },
            Stmt::Print(e) => match self.evaluate(e, k, fuel) {
                Ok(v) => {
                    let ghost before = self@;
                    let ghost vm = v.model();
                    self.output.push(v);
                    assert(values_model(self.output@) =~= before.output.push(vm));
                    assert(self@ =~= State { output: before.output.push(vm), ..before });
                    Ok(None)
                },
                Err(h) => Err(h),
            },
            Stmt::Expr(e) => match self.evaluate(e, k, fuel) {
                Ok(_) => Ok(None),
                Err(h) => Err(h),
            },
            Stmt::Return(e) => match self.evaluate(e, k, fuel) {
                Ok(v) => Ok(Some(v)),
                Err(h) => Err(h),
            },
            Stmt::Struct { name, fields } => {
                self.set_struct(name.clone(), copy_names(fields));
                Ok(None)
            },
            Stmt::Void { name, params, body } => {
                proof { lemma_void_model(*name, *params, *body); }
                let f = Function { params: copy_names(params), body: copy_statements(body) };
                self.set_function(name.clone(), f);
                Ok(None)
            },
            Stmt::Enum { .. } => Ok(None),
            Stmt::If { condition, body, else_body } => {
                proof { lemma_if_model(*condition, *body, *else_body); }
                match self.evaluate(condition, k, fuel) {
                    Ok(Value::Boolean(true)) => self.execute_body(body, k, fuel),
                    Ok(Value::Boolean(false)) => match else_body {
                        Some(b) => self.execute_body(b, k, fuel),
                        None => Ok(None),
                    },
                    Ok(_) => Err(Halt::Error(String::from_str("if condition must be a boolean"))),
                    Err(h) => Err(h),
                }
            },
        }
    }

    /// Executes statements in order until one returns a value.
    #[verifier::loop_isolation(false)]
    fn execute_body(&mut self, statements: &Vec<Stmt>, k: &Knowledge, fuel: usize) -> (r: Result<Option<Value>, Halt>)
        ensures
            exec_body(stmts_model(statements@), old(self)@, k@, fuel as nat) == (final(self)@, return_outcome(r)),
        decreases fuel, stmts_size(stmts_model(statements@)), 11int,
    {
        let ghost ms = stmts_model(statements@);
        let ghost whole = exec_body(ms, self@, k@, fuel as nat);
        let mut i: usize = 0;
        assert(ms.skip(0) =~= ms);
        while i < statements.len()
            invariant
                ms == stmts_model(statements@),
                ms.len() == statements.len(),
                i <= statements.len(),
                whole == exec_body(ms.skip(i as int), self@, k@, fuel as nat),
            decreases statements.len() - i,
        {
            proof { lemma_stmt_size_at(ms, i as int); }
            assert(ms.skip(i as int)[0] == ms[i as int]);
            assert(ms.skip(i as int).drop_first() =~= ms.skip(i + 1));
            match self.execute(&statements[i], k, fuel) {
                Ok(Some(v)) => return Ok(Some(v)),
                Ok(None) => {},
                Err(h) => return Err(h),
            }
            i += 1;
        }
        assert(ms.skip(i as int) =~= Seq::<StmtModel>::empty());
        Ok(None)
    }

    /// Executes all statements in order; the value of a `return` is dropped.
    #[verifier::loop_isolation(false)]
    fn execute_all(&mut self, statements: &Vec<Stmt>, k: &Knowledge, fuel: usize) -> (r: Result<(), Halt>)
        ensures
            exec_all(stmts_model(statements@), old(self)@, k@, fuel as nat) == (final(self)@, unit_outcome(r)),
        decreases fuel, stmts_size(stmts_model(statements@)), 11int,
    {
        let ghost ms = stmts_model(statements@);
        let ghost whole = exec_all(ms, self@, k@, fuel as nat);
        let mut i: usize = 0;
        assert(ms.skip(0) =~= ms);
        while i < statements.len()
            invariant
                ms == stmts_model(statements@),
                ms.len() == statements.len(),
                i <= statements.len(),
                whole == exec_all(ms.skip(i as int), self@, k@, fuel as nat),
            decreases statements.len() - i,
        {
            proof { lemma_stmt_size_at(ms, i as int); }
            assert(ms.skip(i as int)[0] == ms[i as int]);
            assert(ms.skip(i as int).drop_first() =~= ms.skip(i + 1));
            match self.execute(&statements[i], k, fuel) {
                Ok(_) => {},
                Err(h) => return Err(h),
            }
            i += 1;
        }
        assert(ms.skip(i as int) =~= Seq::<StmtModel>::empty());
        Ok(())
    }

    /// Takes the declarations among `statements`, read from `path`.
    #[verifier::loop_isolation(false)]
    fn declare_all(&mut self, statements: &Vec<Stmt>, path: &String, k: &Knowledge, fuel: usize) -> (r: Result<(), Halt>)
        ensures
            declare_all(stmts_model(statements@), path@, old(self)@, k@, fuel as nat) == (final(self)@, unit_outcome(r)),
        decreases fuel, stmts_size(stmts_model(statements@)), 11int,
    {
        let ghost ms = stmts_model(statements@);
        let ghost whole = declare_all(ms, path@, self@, k@, fuel as nat);
        let mut i: usize = 0;
        assert(ms.skip(0) =~= ms);
        while i < statements.len()
            invariant
                ms == stmts_model(statements@),
                ms.len() == statements.len(),
                i <= statements.len(),
                whole == declare_all(ms.skip(i as int), path@, self@, k@, fuel as nat),
            decreases statements.len() - i,
        {
            proof { lemma_stmt_size_at(ms, i as int); }
            assert(ms.skip(i as int)[0] == ms[i as int]);
            assert(ms.skip(i as int).drop_first() =~= ms.skip(i + 1));
            match &statements[i] {
                Stmt::Var { name, value } => match self.evaluate(value, k, fuel) {
                    Ok(v) => self.set_variable(name.clone(), v),
                    Err(h) => return Err(h),
                },
                Stmt::Void { name, params, body } => {
                    proof { lemma_void_model(*name, *params, *body); }
                    let f = Function { params: copy_names(params), body: copy_statements(body) };
                    self.set_function(name.clone(), f);
                },
                Stmt::Struct { name, fields } => {
                    self.set_struct(name.clone(), copy_names(fields));
                },
                _ => return Err(Halt::Error(quote("cannot declare this statement from `", path, "`"))),
            }
            i += 1;
        }
        assert(ms.skip(i as int) =~= Seq::<StmtModel>::empty());
        Ok(())
    }

    /// Runs a program's statements in order, one after the other, with what
    /// `k` knows of files and doubles, and calls and imports nested at most
    /// `depth` deep.
    pub fn run(&mut self, program: &Program, k: &Knowledge, depth: usize) -> (r: Result<(), Halt>)
        ensures
            exec_all(program.model(), old(self)@, k@, depth as nat) == (final(self)@, unit_outcome(r)),
    {
        self.execute_all(&program.statements, k, depth)
    }
}

// EXEC_PART
} // verus!
