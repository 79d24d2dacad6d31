use vstd::prelude::*;

use crate::ast::{ExprModel, StmtModel};
use crate::entries::{lemma_put_lookup, lookup};
use crate::semantics::{
    answer_to, binary, bind_fields, bind_params, call, construct, declare_all, declare_file, eval, eval_items,
    exec_all, exec_body, exec_stmt, file_named, import_file, lemma_expr_size_positive, lemma_stmt_size_positive,
    with_variable, FileModel, HaltModel, KnowledgeModel, QueryModel, State,
};
use crate::value::ValueModel;

verus! {

// Properties of the semantics that span several of its functions.

/// `after` holds everything that `before` had printed, in the same order,
/// and possibly more after it.
pub open spec fn output_kept(before: State, after: State) -> bool {
    &&& before.output.len() <= after.output.len()
    &&& forall|i: int| 0 <= i < before.output.len() ==> #[trigger] after.output[i] == before.output[i]
}

/// After `var name = value;`, reading `name` gives the value that `value`
/// evaluated to, and reading any other variable gives what it gave before;
/// if `value` stops, the statement stops in the same way.
pub proof fn lemma_var_then_read(
    name: Seq<char>,
    value: ExprModel,
    other: Seq<char>,
    st: State,
    k: KnowledgeModel,
    fuel: nat,
)
    ensures
        match eval(value, st, k, fuel) {
            (s1, Ok(v)) => {
                let s2 = with_variable(s1, name, v);
                &&& exec_stmt(StmtModel::Var { name, value }, st, k, fuel) == (s2, Ok::<Option<ValueModel>, HaltModel>(None))
                &&& eval(ExprModel::Variable(name), s2, k, fuel) == (s2, Ok::<ValueModel, HaltModel>(v))
                &&& other != name ==> eval(ExprModel::Variable(other), s2, k, fuel).1 == eval(
                    ExprModel::Variable(other),
                    s1,
                    k,
                    fuel,
                ).1
            },
            (s1, Err(h)) => exec_stmt(StmtModel::Var { name, value }, st, k, fuel) == (
                s1,
                Err::<Option<ValueModel>, HaltModel>(h),
            ),
        },
{
    match eval(value, st, k, fuel) {
        (s1, Ok(v)) => {
            lemma_put_lookup(s1.variables, name, v, other);
        },
        (s1, Err(h)) => {},
    }
}

/// Evaluating an expression never takes back what was printed.
pub proof fn lemma_eval_keeps_output(e: ExprModel, st: State, k: KnowledgeModel, fuel: nat)
    ensures
        output_kept(st, eval(e, st, k, fuel).0),
    decreases fuel, crate::semantics::expr_size(e), 2int,
{
    match e {
        ExprModel::Array(items) => {
            lemma_items_keep_output(items, seq![], st, k, fuel);
        },
        ExprModel::Binary { left, right, .. } => {
            lemma_eval_keeps_output(*left, st, k, fuel);
            let s1 = eval(*left, st, k, fuel).0;
            lemma_eval_keeps_output(*right, s1, k, fuel);
        },
        ExprModel::Unary { expr, .. } => {
            lemma_eval_keeps_output(*expr, st, k, fuel);
        },
        ExprModel::Field { object, .. } => {
            lemma_eval_keeps_output(*object, st, k, fuel);
        },
        ExprModel::Call { name, args } => {
            lemma_construct_keeps_output(name, args, st, k, fuel);
            lemma_call_keeps_output(name, args, st, k, fuel);
        },
        ExprModel::Import(path) => {
            lemma_eval_keeps_output(*path, st, k, fuel);
            match eval(*path, st, k, fuel) {
                (s1, Ok(ValueModel::Str(p))) => lemma_import_keeps_output(p, s1, k, fuel),
                _ => {},
            }
        },
        ExprModel::ImportStr(path) => {
            lemma_eval_keeps_output(*path, st, k, fuel);
        },
        ExprModel::Declare(path) => {
            lemma_eval_keeps_output(*path, st, k, fuel);
            match eval(*path, st, k, fuel) {
                (s1, Ok(ValueModel::Str(p))) => lemma_declare_keeps_output(p, s1, k, fuel),
                _ => {},
            }
        },
        _ => {},
    }
}

/// Importing a file never takes back what was printed.
pub proof fn lemma_import_keeps_output(path: Seq<char>, st: State, k: KnowledgeModel, fuel: nat)
    ensures
        output_kept(st, import_file(path, st, k, fuel).0),
    decreases fuel, 0nat, 0int,
{
    if fuel > 0 {
        match crate::semantics::file_named(k.files, path) {
            Some(f) => match f.program {
                Ok(statements) => lemma_all_keep_output(statements, st, k, (fuel - 1) as nat),
                Err(_) => {},
            },
            None => {},
        }
    }
}

/// Declaring a file never takes back what was printed.
pub proof fn lemma_declare_keeps_output(path: Seq<char>, st: State, k: KnowledgeModel, fuel: nat)
    ensures
        output_kept(st, declare_file(path, st, k, fuel).0),
    decreases fuel, 0nat, 0int,
{
    if fuel > 0 {
        match crate::semantics::file_named(k.files, path) {
            Some(f) => match f.program {
                Ok(statements) => lemma_declarations_keep_output(statements, path, st, k, (fuel - 1) as nat),
                Err(_) => {},
            },
            None => {},
        }
    }
}

/// Evaluating a list of expressions never takes back what was printed.
pub proof fn lemma_items_keep_output(
    items: Seq<ExprModel>,
    acc: Seq<ValueModel>,
    st: State,
    k: KnowledgeModel,
    fuel: nat,
)
    ensures
        output_kept(st, eval_items(items, acc, st, k, fuel).0),
    decreases fuel, crate::semantics::exprs_size(items), 3int,
{
    if items.len() > 0 {
        lemma_expr_size_positive(items[0]);
        lemma_eval_keeps_output(items[0], st, k, fuel);
        match eval(items[0], st, k, fuel) {
            (s1, Ok(v)) => lemma_items_keep_output(items.drop_first(), acc.push(v), s1, k, fuel),
            _ => {},
        }
    }
}

/// Building a struct value never takes back what was printed.
pub proof fn lemma_construct_keeps_output(name: Seq<char>, args: Seq<ExprModel>, st: State, k: KnowledgeModel, fuel: nat)
    ensures
        output_kept(st, construct(name, args, st, k, fuel).0),
    decreases fuel, crate::semantics::exprs_size(args), 5int,
{
    let fields = crate::entries::lookup(st.structs, name)->Some_0;
    lemma_fields_keep_output(fields, args, seq![], st, k, fuel);
}

/// Evaluating the fields of a struct value never takes back what was printed.
pub proof fn lemma_fields_keep_output(
    names: Seq<Seq<char>>,
    args: Seq<ExprModel>,
    acc: Seq<(Seq<char>, ValueModel)>,
    st: State,
    k: KnowledgeModel,
    fuel: nat,
)
    ensures
        output_kept(st, bind_fields(names, args, acc, st, k, fuel).0),
    decreases fuel, crate::semantics::exprs_size(args), 4int,
{
    if args.len() > 0 && names.len() > 0 {
        lemma_expr_size_positive(args[0]);
        lemma_eval_keeps_output(args[0], st, k, fuel);
        match eval(args[0], st, k, fuel) {
            (s1, Ok(v)) => lemma_fields_keep_output(
                names.drop_first(),
                args.drop_first(),
                crate::entries::put(acc, names[0], v),
                s1,
                k,
                fuel,
            ),
            _ => {},
        }
    }
}

/// Calling a function never takes back what was printed.
pub proof fn lemma_call_keeps_output(name: Seq<char>, args: Seq<ExprModel>, st: State, k: KnowledgeModel, fuel: nat)
    ensures
        output_kept(st, call(name, args, st, k, fuel).0),
    decreases fuel, crate::semantics::exprs_size(args), 5int,
{
    match crate::entries::lookup(st.functions, name) {
        Some(f) => {
            lemma_params_keep_output(f.params, args, st, k, fuel);
            let s1 = bind_params(f.params, args, st, k, fuel).0;
            if fuel > 0 {
                lemma_body_keeps_output(f.body, s1, k, (fuel - 1) as nat);
            }
        },
        None => {},
    }
}

/// Binding the parameters of a call never takes back what was printed.
pub proof fn lemma_params_keep_output(
    names: Seq<Seq<char>>,
    args: Seq<ExprModel>,
    st: State,
    k: KnowledgeModel,
    fuel: nat,
)
    ensures
        output_kept(st, bind_params(names, args, st, k, fuel).0),
    decreases fuel, crate::semantics::exprs_size(args), 4int,
{
    if args.len() > 0 && names.len() > 0 {
        lemma_expr_size_positive(args[0]);
        lemma_eval_keeps_output(args[0], st, k, fuel);
        match eval(args[0], st, k, fuel) {
            (s1, Ok(v)) => lemma_params_keep_output(
                names.drop_first(),
                args.drop_first(),
                with_variable(s1, names[0], v),
                k,
                fuel,
            ),
            _ => {},
        }
    }
}

/// Executing a statement never takes back what was printed; a `print`
/// adds its value at the end.
pub proof fn lemma_stmt_keeps_output(s: StmtModel, st: State, k: KnowledgeModel, fuel: nat)
    ensures
        output_kept(st, exec_stmt(s, st, k, fuel).0),
    decreases fuel, crate::semantics::stmt_size(s), 10int,
{
    match s {
        StmtModel::Var { value, .. } => lemma_eval_keeps_output(value, st, k, fuel),
        StmtModel::Assign { value, .. } => lemma_eval_keeps_output(value, st, k, fuel),
        StmtModel::Print(e) => lemma_eval_keeps_output(e, st, k, fuel),
        StmtModel::Expr(e) => lemma_eval_keeps_output(e, st, k, fuel),
        StmtModel::Return(e) => lemma_eval_keeps_output(e, st, k, fuel),
        StmtModel::If { condition, body, else_body } => {
            lemma_eval_keeps_output(condition, st, k, fuel);
            let s1 = eval(condition, st, k, fuel).0;
            lemma_body_keeps_output(body, s1, k, fuel);
            match else_body {
                Some(b) => lemma_body_keeps_output(b, s1, k, fuel),
                None => {},
            }
        },
        _ => {},
    }
}

/// Executing a body never takes back what was printed.
pub proof fn lemma_body_keeps_output(ss: Seq<StmtModel>, st: State, k: KnowledgeModel, fuel: nat)
    ensures
        output_kept(st, exec_body(ss, st, k, fuel).0),
    decreases fuel, crate::semantics::stmts_size(ss), 11int,
{
    if ss.len() > 0 {
        lemma_stmt_size_positive(ss[0]);
        lemma_stmt_keeps_output(ss[0], st, k, fuel);
        let s1 = exec_stmt(ss[0], st, k, fuel).0;
        lemma_body_keeps_output(ss.drop_first(), s1, k, fuel);
    }
}

/// Running statements never takes back what was printed.
pub proof fn lemma_all_keep_output(ss: Seq<StmtModel>, st: State, k: KnowledgeModel, fuel: nat)
    ensures
        output_kept(st, exec_all(ss, st, k, fuel).0),
    decreases fuel, crate::semantics::stmts_size(ss), 11int,
{
    if ss.len() > 0 {
        lemma_stmt_size_positive(ss[0]);
        lemma_stmt_keeps_output(ss[0], st, k, fuel);
        let s1 = exec_stmt(ss[0], st, k, fuel).0;
        lemma_all_keep_output(ss.drop_first(), s1, k, fuel);
    }
}

/// Taking declarations never takes back what was printed.
pub proof fn lemma_declarations_keep_output(
    ss: Seq<StmtModel>,
    path: Seq<char>,
    st: State,
    k: KnowledgeModel,
    fuel: nat,
)
    ensures
        output_kept(st, declare_all(ss, path, st, k, fuel).0),
    decreases fuel, crate::semantics::stmts_size(ss), 11int,
{
    if ss.len() > 0 {
        lemma_stmt_size_positive(ss[0]);
        match ss[0] {
            StmtModel::Var { name, value } => {
                lemma_eval_keeps_output(value, st, k, fuel);
                match eval(value, st, k, fuel) {
                    (s1, Ok(v)) => lemma_declarations_keep_output(
                        ss.drop_first(),
                        path,
                        with_variable(s1, name, v),
                        k,
                        fuel,
                    ),
                    _ => {},
                }
            },
            StmtModel::Void { name, params, body } => lemma_declarations_keep_output(
                ss.drop_first(),
                path,
                crate::semantics::with_function(st, name, crate::semantics::FunctionModel { params, body }),
                k,
                fuel,
            ),
            StmtModel::Struct { name, fields } => lemma_declarations_keep_output(
                ss.drop_first(),
                path,
                crate::semantics::with_struct(st, name, fields),
                k,
                fuel,
            ),
            _ => {},
        }
    }
}

// ---------------------------------------------------------------------
// A run that asks for nothing gives the same with more knowledge.
// ---------------------------------------------------------------------

/// `more` knows everything that `k` knows: its files and its answers begin
/// with those of `k`.
pub open spec fn knows_more(k: KnowledgeModel, more: KnowledgeModel) -> bool {
    &&& k.files.len() <= more.files.len()
    &&& forall|i: int| 0 <= i < k.files.len() ==> #[trigger] more.files[i] == k.files[i]
    &&& k.numbers.len() <= more.numbers.len()
    &&& forall|i: int| 0 <= i < k.numbers.len() ==> #[trigger] more.numbers[i] == k.numbers[i]
}

/// The result does not stop to ask for a file or an answer.
pub open spec fn asks_nothing<X>(r: Result<X, HaltModel>) -> bool {
    match r {
        Err(HaltModel::NeedFile(_)) => false,
        Err(HaltModel::NeedNumber(_)) => false,
        _ => true,
    }
}

/// A file found among some files is found the same among more files that
/// begin with them.
pub proof fn lemma_file_named_more(files: Seq<FileModel>, more: Seq<FileModel>, path: Seq<char>)
    requires
        files.len() <= more.len(),
        forall|i: int| 0 <= i < files.len() ==> #[trigger] more[i] == files[i],
        file_named(files, path) is Some,
    ensures
        file_named(more, path) == file_named(files, path),
    decreases files.len(),
{
    assert(more[0] == files[0]);
    if files[0].path != path {
        assert forall|i: int| 0 <= i < files.drop_first().len() implies #[trigger] more.drop_first()[i] == files.drop_first()[i] by {
            assert(more[i + 1] == files[i + 1]);
        }
        lemma_file_named_more(files.drop_first(), more.drop_first(), path);
    }
}

/// An answer found among some answers is found the same among more answers
/// that begin with them.
pub proof fn lemma_answer_to_more(numbers: Seq<(QueryModel, u64)>, more: Seq<(QueryModel, u64)>, q: QueryModel)
    requires
        numbers.len() <= more.len(),
        forall|i: int| 0 <= i < numbers.len() ==> #[trigger] more[i] == numbers[i],
        answer_to(numbers, q) is Some,
    ensures
        answer_to(more, q) == answer_to(numbers, q),
    decreases numbers.len(),
{
    assert(more[0] == numbers[0]);
    if numbers[0].0 != q {
        assert forall|i: int| 0 <= i < numbers.drop_first().len() implies #[trigger] more.drop_first()[i] == numbers.drop_first()[i] by {
            assert(more[i + 1] == numbers[i + 1]);
        }
        lemma_answer_to_more(numbers.drop_first(), more.drop_first(), q);
    }
}

/// An operator that asks for nothing gives the same with more answers.
pub proof fn lemma_binary_more(a: ValueModel, op: crate::ast::BinaryOp, b: ValueModel, k: KnowledgeModel, more: KnowledgeModel)
    requires
        knows_more(k, more),
        asks_nothing(binary(a, op, b, k)),
    ensures
        binary(a, op, b, more) == binary(a, op, b, k),
{
    if let (ValueModel::Number(x), ValueModel::Number(y)) = (a, b) {
        if op != crate::ast::BinaryOp::Equal {
            lemma_answer_to_more(k.numbers, more.numbers, QueryModel::Arithmetic(op, x, y));
        }
    }
}

/// An evaluation that asks for nothing gives the same with more knowledge.
pub proof fn lemma_eval_more(e: ExprModel, st: State, k: KnowledgeModel, more: KnowledgeModel, fuel: nat)
    requires
        knows_more(k, more),
        asks_nothing(eval(e, st, k, fuel).1),
    ensures
        eval(e, st, more, fuel) == eval(e, st, k, fuel),
    decreases fuel, crate::semantics::expr_size(e), 2int,
{
    match e {
        ExprModel::Number(text) => {
            lemma_answer_to_more(k.numbers, more.numbers, QueryModel::Literal(text));
        },
        ExprModel::Array(items) => {
            lemma_items_more(items, seq![], st, k, more, fuel);
        },
        ExprModel::Binary { left, op, right } => {
            lemma_eval_more(*left, st, k, more, fuel);
            if let (s1, Ok(a)) = eval(*left, st, k, fuel) {
                lemma_eval_more(*right, s1, k, more, fuel);
                if let (s2, Ok(b)) = eval(*right, s1, k, fuel) {
                    lemma_binary_more(a, op, b, k, more);
                }
            }
        },
        ExprModel::Unary { expr, .. } => {
            lemma_eval_more(*expr, st, k, more, fuel);
        },
        ExprModel::Field { object, .. } => {
            lemma_eval_more(*object, st, k, more, fuel);
        },
        ExprModel::Call { name, args } => {
            if crate::entries::lookup(st.structs, name) is Some {
                lemma_construct_more(name, args, st, k, more, fuel);
            } else {
                lemma_call_more(name, args, st, k, more, fuel);
            }
        },
        ExprModel::Import(path) => {
            lemma_eval_more(*path, st, k, more, fuel);
            if let (s1, Ok(ValueModel::Str(p))) = eval(*path, st, k, fuel) {
                lemma_import_more(p, s1, k, more, fuel);
            }
        },
        ExprModel::ImportStr(path) => {
            lemma_eval_more(*path, st, k, more, fuel);
            if let (s1, Ok(ValueModel::Str(p))) = eval(*path, st, k, fuel) {
                lemma_file_named_more(k.files, more.files, p);
            }
        },
        ExprModel::Declare(path) => {
            lemma_eval_more(*path, st, k, more, fuel);
            if let (s1, Ok(ValueModel::Str(p))) = eval(*path, st, k, fuel) {
                lemma_declare_more(p, s1, k, more, fuel);
            }
        },
        _ => {},
    }
}

/// An import that asks for nothing gives the same with more knowledge.
pub proof fn lemma_import_more(path: Seq<char>, st: State, k: KnowledgeModel, more: KnowledgeModel, fuel: nat)
    requires
        knows_more(k, more),
        asks_nothing(import_file(path, st, k, fuel).1),
    ensures
        import_file(path, st, more, fuel) == import_file(path, st, k, fuel),
    decreases fuel, 0nat, 0int,
{
    lemma_file_named_more(k.files, more.files, path);
    if fuel > 0 {
        if let Some(f) = file_named(k.files, path) {
            if let Ok(statements) = f.program {
                lemma_all_more(statements, st, k, more, (fuel - 1) as nat);
            }
        }
    }
}

/// A declaration of a file that asks for nothing gives the same with more
/// knowledge.
pub proof fn lemma_declare_more(path: Seq<char>, st: State, k: KnowledgeModel, more: KnowledgeModel, fuel: nat)
    requires
        knows_more(k, more),
        asks_nothing(declare_file(path, st, k, fuel).1),
    ensures
        declare_file(path, st, more, fuel) == declare_file(path, st, k, fuel),
    decreases fuel, 0nat, 0int,
{
    lemma_file_named_more(k.files, more.files, path);
    if fuel > 0 {
        if let Some(f) = file_named(k.files, path) {
            if let Ok(statements) = f.program {
                lemma_declarations_more(statements, path, st, k, more, (fuel - 1) as nat);
            }
        }
    }
}

/// Evaluating a list that asks for nothing gives the same with more knowledge.
pub proof fn lemma_items_more(
    items: Seq<ExprModel>,
    acc: Seq<ValueModel>,
    st: State,
    k: KnowledgeModel,
    more: KnowledgeModel,
    fuel: nat,
)
    requires
        knows_more(k, more),
        asks_nothing(eval_items(items, acc, st, k, fuel).1),
    ensures
        eval_items(items, acc, st, more, fuel) == eval_items(items, acc, st, k, fuel),
    decreases fuel, crate::semantics::exprs_size(items), 3int,
{
    if items.len() > 0 {
        lemma_expr_size_positive(items[0]);
        lemma_eval_more(items[0], st, k, more, fuel);
        if let (s1, Ok(v)) = eval(items[0], st, k, fuel) {
            lemma_items_more(items.drop_first(), acc.push(v), s1, k, more, fuel);
        }
    }
}

/// Building a struct value that asks for nothing gives the same with more
/// knowledge.
pub proof fn lemma_construct_more(
    name: Seq<char>,
    args: Seq<ExprModel>,
    st: State,
    k: KnowledgeModel,
    more: KnowledgeModel,
    fuel: nat,
)
    requires
        knows_more(k, more),
        asks_nothing(construct(name, args, st, k, fuel).1),
    ensures
        construct(name, args, st, more, fuel) == construct(name, args, st, k, fuel),
    decreases fuel, crate::semantics::exprs_size(args), 5int,
{
    let fields = crate::entries::lookup(st.structs, name)->Some_0;
    if args.len() == fields.len() {
        lemma_fields_more(fields, args, seq![], st, k, more, fuel);
    }
}

/// Evaluating the fields of a struct value that asks for nothing gives the
/// same with more knowledge.
pub proof fn lemma_fields_more(
    names: Seq<Seq<char>>,
    args: Seq<ExprModel>,
    acc: Seq<(Seq<char>, ValueModel)>,
    st: State,
    k: KnowledgeModel,
    more: KnowledgeModel,
    fuel: nat,
)
    requires
        knows_more(k, more),
        asks_nothing(bind_fields(names, args, acc, st, k, fuel).1),
    ensures
        bind_fields(names, args, acc, st, more, fuel) == bind_fields(names, args, acc, st, k, fuel),
    decreases fuel, crate::semantics::exprs_size(args), 4int,
{
    if args.len() > 0 && names.len() > 0 {
        lemma_expr_size_positive(args[0]);
        lemma_eval_more(args[0], st, k, more, fuel);
        if let (s1, Ok(v)) = eval(args[0], st, k, fuel) {
            lemma_fields_more(names.drop_first(), args.drop_first(), crate::entries::put(acc, names[0], v), s1, k, more, fuel);
        }
    }
}

/// A call that asks for nothing gives the same with more knowledge.
pub proof fn lemma_call_more(name: Seq<char>, args: Seq<ExprModel>, st: State, k: KnowledgeModel, more: KnowledgeModel, fuel: nat)
    requires
        knows_more(k, more),
        asks_nothing(call(name, args, st, k, fuel).1),
    ensures
        call(name, args, st, more, fuel) == call(name, args, st, k, fuel),
    decreases fuel, crate::semantics::exprs_size(args), 5int,
{
    if let Some(f) = crate::entries::lookup(st.functions, name) {
        if args.len() == f.params.len() {
            lemma_params_more(f.params, args, st, k, more, fuel);
            if let (s1, Ok(_)) = bind_params(f.params, args, st, k, fuel) {
                if fuel > 0 {
                    lemma_body_more(f.body, s1, k, more, (fuel - 1) as nat);
                }
            }
        }
    }
}

/// Binding parameters in a way that asks for nothing gives the same with
/// more knowledge.
pub proof fn lemma_params_more(
    names: Seq<Seq<char>>,
    args: Seq<ExprModel>,
    st: State,
    k: KnowledgeModel,
    more: KnowledgeModel,
    fuel: nat,
)
    requires
        knows_more(k, more),
        asks_nothing(bind_params(names, args, st, k, fuel).1),
    ensures
        bind_params(names, args, st, more, fuel) == bind_params(names, args, st, k, fuel),
    decreases fuel, crate::semantics::exprs_size(args), 4int,
{
    if args.len() > 0 && names.len() > 0 {
        lemma_expr_size_positive(args[0]);
        lemma_eval_more(args[0], st, k, more, fuel);
        if let (s1, Ok(v)) = eval(args[0], st, k, fuel) {
            lemma_params_more(names.drop_first(), args.drop_first(), with_variable(s1, names[0], v), k, more, fuel);
        }
    }
}

/// A statement that asks for nothing gives the same with more knowledge.
pub proof fn lemma_stmt_more(s: StmtModel, st: State, k: KnowledgeModel, more: KnowledgeModel, fuel: nat)
    requires
        knows_more(k, more),
        asks_nothing(exec_stmt(s, st, k, fuel).1),
    ensures
        exec_stmt(s, st, more, fuel) == exec_stmt(s, st, k, fuel),
    decreases fuel, crate::semantics::stmt_size(s), 10int,
{
    match s {
        StmtModel::Var { value, .. } => lemma_eval_more(value, st, k, more, fuel),
        StmtModel::Assign { value, .. } => lemma_eval_more(value, st, k, more, fuel),
        StmtModel::Print(e) => lemma_eval_more(e, st, k, more, fuel),
        StmtModel::Expr(e) => lemma_eval_more(e, st, k, more, fuel),
        StmtModel::Return(e) => lemma_eval_more(e, st, k, more, fuel),
        StmtModel::If { condition, body, else_body } => {
            lemma_eval_more(condition, st, k, more, fuel);
            match eval(condition, st, k, fuel) {
                (s1, Ok(ValueModel::Boolean(true))) => lemma_body_more(body, s1, k, more, fuel),
                (s1, Ok(ValueModel::Boolean(false))) => {
                    if let Some(b) = else_body {
                        lemma_body_more(b, s1, k, more, fuel);
                    }
                },
                _ => {},
            }
        },
        _ => {},
    }
}

/// A body that asks for nothing gives the same with more knowledge.
pub proof fn lemma_body_more(ss: Seq<StmtModel>, st: State, k: KnowledgeModel, more: KnowledgeModel, fuel: nat)
    requires
        knows_more(k, more),
        asks_nothing(exec_body(ss, st, k, fuel).1),
    ensures
        exec_body(ss, st, more, fuel) == exec_body(ss, st, k, fuel),
    decreases fuel, crate::semantics::stmts_size(ss), 11int,
{
    if ss.len() > 0 {
        lemma_stmt_size_positive(ss[0]);
        lemma_stmt_more(ss[0], st, k, more, fuel);
        if let (s1, Ok(None)) = exec_stmt(ss[0], st, k, fuel) {
            lemma_body_more(ss.drop_first(), s1, k, more, fuel);
        }
    }
}

/// Statements that ask for nothing give the same with more knowledge.
pub proof fn lemma_all_more(ss: Seq<StmtModel>, st: State, k: KnowledgeModel, more: KnowledgeModel, fuel: nat)
    requires
        knows_more(k, more),
        asks_nothing(exec_all(ss, st, k, fuel).1),
    ensures
        exec_all(ss, st, more, fuel) == exec_all(ss, st, k, fuel),
    decreases fuel, crate::semantics::stmts_size(ss), 11int,
{
    if ss.len() > 0 {
        lemma_stmt_size_positive(ss[0]);
        lemma_stmt_more(ss[0], st, k, more, fuel);
        if let (s1, Ok(_)) = exec_stmt(ss[0], st, k, fuel) {
            lemma_all_more(ss.drop_first(), s1, k, more, fuel);
        }
    }
}

/// Declarations that ask for nothing give the same with more knowledge.
pub proof fn lemma_declarations_more(
    ss: Seq<StmtModel>,
    path: Seq<char>,
    st: State,
    k: KnowledgeModel,
    more: KnowledgeModel,
    fuel: nat,
)
    requires
        knows_more(k, more),
        asks_nothing(declare_all(ss, path, st, k, fuel).1),
    ensures
        declare_all(ss, path, st, more, fuel) == declare_all(ss, path, st, k, fuel),
    decreases fuel, crate::semantics::stmts_size(ss), 11int,
{
    if ss.len() > 0 {
        lemma_stmt_size_positive(ss[0]);
        match ss[0] {
            StmtModel::Var { name, value } => {
                lemma_eval_more(value, st, k, more, fuel);
                if let (s1, Ok(v)) = eval(value, st, k, fuel) {
                    lemma_declarations_more(ss.drop_first(), path, with_variable(s1, name, v), k, more, fuel);
                }
            },
            StmtModel::Void { name, params, body } => lemma_declarations_more(
                ss.drop_first(),
                path,
                crate::semantics::with_function(st, name, crate::semantics::FunctionModel { params, body }),
                k,
                more,
                fuel,
            ),
            StmtModel::Struct { name, fields } => lemma_declarations_more(
                ss.drop_first(),
                path,
                crate::semantics::with_struct(st, name, fields),
                k,
                more,
                fuel,
            ),
            _ => {},
        }
    }
}


// ---------------------------------------------------------------------
// A run asks only for what it does not know.
// ---------------------------------------------------------------------

/// If the result asks for a file or an answer, `k` does not hold it.
pub open spec fn asks_unknown<X>(r: Result<X, HaltModel>, k: KnowledgeModel) -> bool {
    match r {
        Err(HaltModel::NeedFile(p)) => file_named(k.files, p) is None,
        Err(HaltModel::NeedNumber(q)) => answer_to(k.numbers, q) is None,
        _ => true,
    }
}

/// No known file's statements stop to ask for something.
pub open spec fn programs_ask_nothing(k: KnowledgeModel) -> bool {
    forall|i: int| 0 <= i < k.files.len() ==> asks_nothing(#[trigger] k.files[i].program)
}

/// The file found under a path is one of the files.
pub proof fn lemma_file_named_in(files: Seq<FileModel>, path: Seq<char>)
    ensures
        file_named(files, path) matches Some(f) ==> exists|i: int| 0 <= i < files.len() && #[trigger] files[i] == f,
    decreases files.len(),
{
    if files.len() > 0 && files[0].path != path {
        lemma_file_named_in(files.drop_first(), path);
        if let Some(f) = file_named(files.drop_first(), path) {
            let i = choose|i: int| 0 <= i < files.drop_first().len() && #[trigger] files.drop_first()[i] == f;
            assert(files[i + 1] == f);
        }
    }
}

/// An evaluation asks only for what `k` does not hold.
pub proof fn lemma_eval_asks_unknown(e: ExprModel, st: State, k: KnowledgeModel, fuel: nat)
    requires
        programs_ask_nothing(k),
    ensures
        asks_unknown(eval(e, st, k, fuel).1, k),
    decreases fuel, crate::semantics::expr_size(e), 2int,
{
    match e {
        ExprModel::Array(items) => lemma_items_ask_unknown(items, seq![], st, k, fuel),
        ExprModel::Binary { left, right, .. } => {
            lemma_eval_asks_unknown(*left, st, k, fuel);
            lemma_eval_asks_unknown(*right, eval(*left, st, k, fuel).0, k, fuel);
        },
        ExprModel::Unary { expr, .. } => lemma_eval_asks_unknown(*expr, st, k, fuel),
        ExprModel::Field { object, .. } => lemma_eval_asks_unknown(*object, st, k, fuel),
        ExprModel::Call { name, args } => {
            lemma_construct_asks_unknown(name, args, st, k, fuel);
            lemma_call_asks_unknown(name, args, st, k, fuel);
        },
        ExprModel::Import(path) => {
            lemma_eval_asks_unknown(*path, st, k, fuel);
            if let (s1, Ok(ValueModel::Str(p))) = eval(*path, st, k, fuel) {
                lemma_import_asks_unknown(p, s1, k, fuel);
            }
        },
        ExprModel::ImportStr(path) => lemma_eval_asks_unknown(*path, st, k, fuel),
        ExprModel::Declare(path) => {
            lemma_eval_asks_unknown(*path, st, k, fuel);
            if let (s1, Ok(ValueModel::Str(p))) = eval(*path, st, k, fuel) {
                lemma_declare_asks_unknown(p, s1, k, fuel);
            }
        },
        _ => {},
    }
}

/// An import asks only for what `k` does not hold.
pub proof fn lemma_import_asks_unknown(path: Seq<char>, st: State, k: KnowledgeModel, fuel: nat)
    requires
        programs_ask_nothing(k),
    ensures
        asks_unknown(import_file(path, st, k, fuel).1, k),
    decreases fuel, 0nat, 0int,
{
    lemma_file_named_in(k.files, path);
    if fuel > 0 {
        if let Some(f) = file_named(k.files, path) {
            if let Ok(statements) = f.program {
                lemma_all_ask_unknown(statements, st, k, (fuel - 1) as nat);
            }
        }
    }
}

/// A declaration of a file asks only for what `k` does not hold.
pub proof fn lemma_declare_asks_unknown(path: Seq<char>, st: State, k: KnowledgeModel, fuel: nat)
    requires
        programs_ask_nothing(k),
    ensures
        asks_unknown(declare_file(path, st, k, fuel).1, k),
    decreases fuel, 0nat, 0int,
{
    lemma_file_named_in(k.files, path);
    if fuel > 0 {
        if let Some(f) = file_named(k.files, path) {
            if let Ok(statements) = f.program {
                lemma_declarations_ask_unknown(statements, path, st, k, (fuel - 1) as nat);
            }
        }
    }
}

/// Evaluating a list asks only for what `k` does not hold.
pub proof fn lemma_items_ask_unknown(items: Seq<ExprModel>, acc: Seq<ValueModel>, st: State, k: KnowledgeModel, fuel: nat)
    requires
        programs_ask_nothing(k),
    ensures
        asks_unknown(eval_items(items, acc, st, k, fuel).1, k),
    decreases fuel, crate::semantics::exprs_size(items), 3int,
{
    if items.len() > 0 {
        lemma_expr_size_positive(items[0]);
        lemma_eval_asks_unknown(items[0], st, k, fuel);
        if let (s1, Ok(v)) = eval(items[0], st, k, fuel) {
            lemma_items_ask_unknown(items.drop_first(), acc.push(v), s1, k, fuel);
        }
    }
}

/// Building a struct value asks only for what `k` does not hold.
pub proof fn lemma_construct_asks_unknown(name: Seq<char>, args: Seq<ExprModel>, st: State, k: KnowledgeModel, fuel: nat)
    requires
        programs_ask_nothing(k),
    ensures
        asks_unknown(construct(name, args, st, k, fuel).1, k),
    decreases fuel, crate::semantics::exprs_size(args), 5int,
{
    let fields = crate::entries::lookup(st.structs, name)->Some_0;
    lemma_fields_ask_unknown(fields, args, seq![], st, k, fuel);
}

/// Evaluating the fields of a struct value asks only for what `k` does not hold.
pub proof fn lemma_fields_ask_unknown(
    names: Seq<Seq<char>>,
    args: Seq<ExprModel>,
    acc: Seq<(Seq<char>, ValueModel)>,
    st: State,
    k: KnowledgeModel,
    fuel: nat,
)
    requires
        programs_ask_nothing(k),
    ensures
        asks_unknown(bind_fields(names, args, acc, st, k, fuel).1, k),
    decreases fuel, crate::semantics::exprs_size(args), 4int,
{
    if args.len() > 0 && names.len() > 0 {
        lemma_expr_size_positive(args[0]);
        lemma_eval_asks_unknown(args[0], st, k, fuel);
        if let (s1, Ok(v)) = eval(args[0], st, k, fuel) {
            lemma_fields_ask_unknown(names.drop_first(), args.drop_first(), crate::entries::put(acc, names[0], v), s1, k, fuel);
        }
    }
}

/// A call asks only for what `k` does not hold.
pub proof fn lemma_call_asks_unknown(name: Seq<char>, args: Seq<ExprModel>, st: State, k: KnowledgeModel, fuel: nat)
    requires
        programs_ask_nothing(k),
    ensures
        asks_unknown(call(name, args, st, k, fuel).1, k),
    decreases fuel, crate::semantics::exprs_size(args), 5int,
{
    if let Some(f) = crate::entries::lookup(st.functions, name) {
        lemma_params_ask_unknown(f.params, args, st, k, fuel);
        if fuel > 0 {
            lemma_body_asks_unknown(f.body, bind_params(f.params, args, st, k, fuel).0, k, (fuel - 1) as nat);
        }
    }
}

/// Binding parameters asks only for what `k` does not hold.
pub proof fn lemma_params_ask_unknown(names: Seq<Seq<char>>, args: Seq<ExprModel>, st: State, k: KnowledgeModel, fuel: nat)
    requires
        programs_ask_nothing(k),
    ensures
        asks_unknown(bind_params(names, args, st, k, fuel).1, k),
    decreases fuel, crate::semantics::exprs_size(args), 4int,
{
    if args.len() > 0 && names.len() > 0 {
        lemma_expr_size_positive(args[0]);
        lemma_eval_asks_unknown(args[0], st, k, fuel);
        if let (s1, Ok(v)) = eval(args[0], st, k, fuel) {
            lemma_params_ask_unknown(names.drop_first(), args.drop_first(), with_variable(s1, names[0], v), k, fuel);
        }
    }
}

/// A statement asks only for what `k` does not hold.
pub proof fn lemma_stmt_asks_unknown(s: StmtModel, st: State, k: KnowledgeModel, fuel: nat)
    requires
        programs_ask_nothing(k),
    ensures
        asks_unknown(exec_stmt(s, st, k, fuel).1, k),
    decreases fuel, crate::semantics::stmt_size(s), 10int,
{
    match s {
        StmtModel::Var { value, .. } => lemma_eval_asks_unknown(value, st, k, fuel),
        StmtModel::Assign { value, .. } => lemma_eval_asks_unknown(value, st, k, fuel),
        StmtModel::Print(e) => lemma_eval_asks_unknown(e, st, k, fuel),
        StmtModel::Expr(e) => lemma_eval_asks_unknown(e, st, k, fuel),
        StmtModel::Return(e) => lemma_eval_asks_unknown(e, st, k, fuel),
        StmtModel::If { condition, body, else_body } => {
            lemma_eval_asks_unknown(condition, st, k, fuel);
            let s1 = eval(condition, st, k, fuel).0;
            lemma_body_asks_unknown(body, s1, k, fuel);
            if let Some(b) = else_body {
                lemma_body_asks_unknown(b, s1, k, fuel);
            }
        },
        _ => {},
    }
}

/// A body asks only for what `k` does not hold.
pub proof fn lemma_body_asks_unknown(ss: Seq<StmtModel>, st: State, k: KnowledgeModel, fuel: nat)
    requires
        programs_ask_nothing(k),
    ensures
        asks_unknown(exec_body(ss, st, k, fuel).1, k),
    decreases fuel, crate::semantics::stmts_size(ss), 11int,
{
    if ss.len() > 0 {
        lemma_stmt_size_positive(ss[0]);
        lemma_stmt_asks_unknown(ss[0], st, k, fuel);
        lemma_body_asks_unknown(ss.drop_first(), exec_stmt(ss[0], st, k, fuel).0, k, fuel);
    }
}

/// Running statements asks only for what `k` does not hold.
pub proof fn lemma_all_ask_unknown(ss: Seq<StmtModel>, st: State, k: KnowledgeModel, fuel: nat)
    requires
        programs_ask_nothing(k),
    ensures
        asks_unknown(exec_all(ss, st, k, fuel).1, k),
    decreases fuel, crate::semantics::stmts_size(ss), 11int,
{
    if ss.len() > 0 {
        lemma_stmt_size_positive(ss[0]);
        lemma_stmt_asks_unknown(ss[0], st, k, fuel);
        lemma_all_ask_unknown(ss.drop_first(), exec_stmt(ss[0], st, k, fuel).0, k, fuel);
    }
}

/// Taking declarations asks only for what `k` does not hold.
pub proof fn lemma_declarations_ask_unknown(ss: Seq<StmtModel>, path: Seq<char>, st: State, k: KnowledgeModel, fuel: nat)
    requires
        programs_ask_nothing(k),
    ensures
        asks_unknown(declare_all(ss, path, st, k, fuel).1, k),
    decreases fuel, crate::semantics::stmts_size(ss), 11int,
{
    if ss.len() > 0 {
        lemma_stmt_size_positive(ss[0]);
        match ss[0] {
            StmtModel::Var { name, value } => {
                lemma_eval_asks_unknown(value, st, k, fuel);
                if let (s1, Ok(v)) = eval(value, st, k, fuel) {
                    lemma_declarations_ask_unknown(ss.drop_first(), path, with_variable(s1, name, v), k, fuel);
                }
            },
            StmtModel::Void { name, params, body } => lemma_declarations_ask_unknown(
                ss.drop_first(),
                path,
                crate::semantics::with_function(st, name, crate::semantics::FunctionModel { params, body }),
                k,
                fuel,
            ),
            StmtModel::Struct { name, fields } => lemma_declarations_ask_unknown(
                ss.drop_first(),
                path,
                crate::semantics::with_struct(st, name, fields),
                k,
                fuel,
            ),
            _ => {},
        }
    }
}


// ---------------------------------------------------------------------
// Returns, calls and imports.
// ---------------------------------------------------------------------

/// A `return` ends a block with its value: a block that begins with
/// `return e` gives the value of `e` and runs nothing after it.
pub proof fn lemma_return_ends_block(e: ExprModel, rest: Seq<StmtModel>, st: State, k: KnowledgeModel, fuel: nat)
    ensures
        match eval(e, st, k, fuel) {
            (s1, Ok(v)) => exec_body(seq![StmtModel::Return(e)] + rest, st, k, fuel) == (
                s1,
                Ok::<Option<ValueModel>, HaltModel>(Some(v)),
            ),
            (s1, Err(h)) => exec_body(seq![StmtModel::Return(e)] + rest, st, k, fuel) == (
                s1,
                Err::<Option<ValueModel>, HaltModel>(h),
            ),
        },
{
    let ss = seq![StmtModel::Return(e)] + rest;
    assert(ss[0] == StmtModel::Return(e));
    assert(ss.len() > 0);
    lemma_stmt_size_positive(ss[0]);
    match eval(e, st, k, fuel) {
        (s1, Ok(v)) => {
            assert(exec_stmt(ss[0], st, k, fuel) == (s1, Ok::<Option<ValueModel>, HaltModel>(Some(v))));
        },
        (s1, Err(h)) => {
            assert(exec_stmt(ss[0], st, k, fuel) == (s1, Err::<Option<ValueModel>, HaltModel>(h)));
        },
    }
}

/// An `if` gives exactly what the block it picks gives, a `return`'s value
/// included: the first block when the condition is true, the `else` block
/// (or nothing) when it is false.
pub proof fn lemma_if_gives_its_block(
    condition: ExprModel,
    body: Seq<StmtModel>,
    else_body: Option<Seq<StmtModel>>,
    st: State,
    k: KnowledgeModel,
    fuel: nat,
)
    ensures
        eval(condition, st, k, fuel) matches (s1, Ok(ValueModel::Boolean(true))) ==> exec_stmt(
            StmtModel::If { condition, body, else_body },
            st,
            k,
            fuel,
        ) == exec_body(body, s1, k, fuel),
        eval(condition, st, k, fuel) matches (s1, Ok(ValueModel::Boolean(false))) ==> exec_stmt(
            StmtModel::If { condition, body, else_body },
            st,
            k,
            fuel,
        ) == match else_body {
            Some(b) => exec_body(b, s1, k, fuel),
            None => (s1, Ok::<Option<ValueModel>, HaltModel>(None)),
        },
{
}

/// A `return` inside the `else` block of an `if` whose condition is false
/// returns from the enclosing block with its value, and one inside the first
/// block of an `if` whose condition is true does the same.
pub proof fn lemma_return_in_branch(
    condition: ExprModel,
    e: ExprModel,
    other: Seq<StmtModel>,
    rest: Seq<StmtModel>,
    st: State,
    k: KnowledgeModel,
    fuel: nat,
)
    ensures
        eval(condition, st, k, fuel) matches (s1, Ok(ValueModel::Boolean(false))) ==> (eval(e, s1, k, fuel) matches (
            s2,
            Ok(v),
        ) ==> exec_stmt(
            StmtModel::If { condition, body: other, else_body: Some(seq![StmtModel::Return(e)] + rest) },
            st,
            k,
            fuel,
        ) == (s2, Ok::<Option<ValueModel>, HaltModel>(Some(v)))),
        eval(condition, st, k, fuel) matches (s1, Ok(ValueModel::Boolean(true))) ==> (eval(e, s1, k, fuel) matches (
            s2,
            Ok(v),
        ) ==> exec_stmt(
            StmtModel::If { condition, body: seq![StmtModel::Return(e)] + rest, else_body: Some(other) },
            st,
            k,
            fuel,
        ) == (s2, Ok::<Option<ValueModel>, HaltModel>(Some(v)))),
{
    let s1 = eval(condition, st, k, fuel).0;
    lemma_return_ends_block(e, rest, s1, k, fuel);
    lemma_if_gives_its_block(condition, other, Some(seq![StmtModel::Return(e)] + rest), st, k, fuel);
    lemma_if_gives_its_block(condition, seq![StmtModel::Return(e)] + rest, Some(other), st, k, fuel);
}

/// Binding parameters to arguments whose values do not depend on the state
/// (and whose evaluation changes nothing) binds them in order: with distinct
/// names, the i-th parameter holds the value of the i-th argument, and every
/// other variable keeps its value.
pub proof fn lemma_params_bound_in_order(
    names: Seq<Seq<char>>,
    args: Seq<ExprModel>,
    vals: Seq<ValueModel>,
    st: State,
    k: KnowledgeModel,
    fuel: nat,
)
    requires
        names.len() == args.len(),
        args.len() == vals.len(),
        names.no_duplicates(),
        forall|i: int, s: State| 0 <= i < args.len() ==> #[trigger] eval(args[i], s, k, fuel) == (
            s,
            Ok::<ValueModel, HaltModel>(vals[i]),
        ),
    ensures
        bind_params(names, args, st, k, fuel).1 == Ok::<(), HaltModel>(()),
        forall|i: int| 0 <= i < names.len() ==> lookup(bind_params(names, args, st, k, fuel).0.variables, #[trigger] names[i]) == Some(vals[i]),
        forall|x: Seq<char>| !names.contains(x) ==> #[trigger] lookup(bind_params(names, args, st, k, fuel).0.variables, x) == lookup(
            st.variables,
            x,
        ),
    decreases names.len(),
{
    if names.len() > 0 {
        assert(eval(args[0], st, k, fuel) == (st, Ok::<ValueModel, HaltModel>(vals[0])));
        let s1 = with_variable(st, names[0], vals[0]);
        let (ns, as_, vs) = (names.drop_first(), args.drop_first(), vals.drop_first());
        assert forall|i: int, s: State| 0 <= i < as_.len() implies #[trigger] eval(as_[i], s, k, fuel) == (
            s,
            Ok::<ValueModel, HaltModel>(vs[i]),
        ) by {
            assert(as_[i] == args[i + 1]);
            assert(eval(args[i + 1], s, k, fuel) == (s, Ok::<ValueModel, HaltModel>(vals[i + 1])));
        }
        assert(ns.no_duplicates()) by {
            assert forall|i: int, j: int| 0 <= i < ns.len() && 0 <= j < ns.len() && i != j implies ns[i] != ns[j] by {
                assert(ns[i] == names[i + 1] && ns[j] == names[j + 1]);
            }
        }
        lemma_params_bound_in_order(ns, as_, vs, s1, k, fuel);
        let fin = bind_params(ns, as_, s1, k, fuel).0;
        assert(bind_params(names, args, st, k, fuel) == bind_params(ns, as_, s1, k, fuel));
        assert(!ns.contains(names[0])) by {
            if ns.contains(names[0]) {
                let j = choose|j: int| 0 <= j < ns.len() && ns[j] == names[0];
                assert(names[j + 1] == names[0]);
            }
        }
        assert forall|i: int| 0 <= i < names.len() implies lookup(fin.variables, #[trigger] names[i]) == Some(vals[i]) by {
            if i == 0 {
                lemma_put_lookup(st.variables, names[0], vals[0], names[0]);
            } else {
                assert(names[i] == ns[i - 1] && vals[i] == vs[i - 1]);
            }
        }
        assert forall|x: Seq<char>| !names.contains(x) implies #[trigger] lookup(fin.variables, x) == lookup(st.variables, x) by {
            assert(x != names[0]);
            if ns.contains(x) {
                let j = choose|j: int| 0 <= j < ns.len() && ns[j] == x;
                assert(names[j + 1] == x);
            }
            lemma_put_lookup(st.variables, names[0], vals[0], x);
        }
    }
}

/// Importing a file leaves the state exactly as running the file's
/// statements left it (its functions, structs and variables included); the
/// import's value is null, or it stops as the statements stopped.
pub proof fn lemma_import_keeps_file_state(path: Seq<char>, st: State, k: KnowledgeModel, fuel: nat)
    requires
        fuel > 0,
        file_named(k.files, path) matches Some(f) && f.program is Ok,
    ensures
        ({
            let statements = file_named(k.files, path)->Some_0.program->Ok_0;
            let (s1, r) = exec_all(statements, st, k, (fuel - 1) as nat);
            &&& import_file(path, st, k, fuel).0 == s1
            &&& r is Ok ==> import_file(path, st, k, fuel).1 == Ok::<ValueModel, HaltModel>(ValueModel::Null)
            &&& r matches Err(h) ==> import_file(path, st, k, fuel).1 == Err::<ValueModel, HaltModel>(h)
        }),
{
}

/// A function that an imported file declares is defined after the import.
pub proof fn lemma_import_defines(
    path: Seq<char>,
    name: Seq<char>,
    params: Seq<Seq<char>>,
    body: Seq<StmtModel>,
    st: State,
    k: KnowledgeModel,
    fuel: nat,
)
    requires
        fuel > 0,
        file_named(k.files, path) matches Some(f) && f.program == Ok::<Seq<StmtModel>, HaltModel>(
            seq![StmtModel::Void { name, params, body }],
        ),
    ensures
        import_file(path, st, k, fuel).1 == Ok::<ValueModel, HaltModel>(ValueModel::Null),
        lookup(import_file(path, st, k, fuel).0.functions, name) == Some(
            crate::semantics::FunctionModel { params, body },
        ),
        import_file(path, st, k, fuel).0.variables == st.variables,
{
    let ss = seq![StmtModel::Void { name, params, body }];
    let f = crate::semantics::FunctionModel { params, body };
    let s1 = crate::semantics::with_function(st, name, f);
    assert(ss[0] == StmtModel::Void { name, params, body });
    assert(ss.drop_first() =~= Seq::<StmtModel>::empty());
    lemma_stmt_size_positive(ss[0]);
    assert(exec_stmt(ss[0], st, k, (fuel - 1) as nat) == (s1, Ok::<Option<ValueModel>, HaltModel>(None)));
    assert(exec_all(ss.drop_first(), s1, k, (fuel - 1) as nat) == (s1, Ok::<(), HaltModel>(())));
    assert(exec_all(ss, st, k, (fuel - 1) as nat) == (s1, Ok::<(), HaltModel>(())));
    lemma_put_lookup(st.functions, name, f, name);
}

} // verus!
