use vstd::prelude::*;

use crate::entries::{find_key, lemma_first_index, lemma_first_index_unique, lookup, names_of, string_names};

verus! {

/// A runtime value.
///
/// A number is held as the bit pattern of an IEEE 754 double (`f64::to_bits`).
/// The fields of a struct value are kept in the order they were first set,
/// each name once.
#[derive(Debug)]
pub enum Value {
    Number(u64),
    String(String),
    Boolean(bool),
    Array(Vec<Value>),
    Null,
    Struct { name: String, fields: Vec<(String, Value)> },
}

/// The mathematical value of a runtime value.
pub enum ValueModel {
    Number(u64),
    Str(Seq<char>),
    Boolean(bool),
    Array(Seq<ValueModel>),
    Null,
    Struct { name: Seq<char>, fields: Seq<(Seq<char>, ValueModel)> },
}

impl Value {
    /// The mathematical value of this value.
    pub open spec fn model(self) -> ValueModel
        decreases self,
    {
        match self {
            Value::Number(n) => ValueModel::Number(n),
            Value::String(s) => ValueModel::Str(s@),
            Value::Boolean(b) => ValueModel::Boolean(b),
            Value::Array(v) => ValueModel::Array(
                Seq::new(v.len() as nat, |i: int| if 0 <= i < v.len() { v@[i].model() } else { ValueModel::Null }),
            ),
            Value::Null => ValueModel::Null,
            Value::Struct { name, fields } => ValueModel::Struct {
                name: name@,
                fields: Seq::new(
                    fields.len() as nat,
                    |i: int| if 0 <= i < fields.len() { (fields@[i].0@, fields@[i].1.model()) } else { (Seq::empty(), ValueModel::Null) },
                ),
            },
        }
    }
}

/// The models of a list of values.
pub open spec fn values_model(v: Seq<Value>) -> Seq<ValueModel> {
    v.map_values(|x: Value| x.model())
}

/// The models of a list of named values.
pub open spec fn entries_model(v: Seq<(String, Value)>) -> Seq<(Seq<char>, ValueModel)> {
    v.map_values(|e: (String, Value)| (e.0@, e.1.model()))
}

/// The model of an array value is the array of its items' models.
pub proof fn lemma_array_value_model(v: Vec<Value>)
    ensures
        Value::Array(v).model() == ValueModel::Array(values_model(v@)),
{
    if let ValueModel::Array(s) = Value::Array(v).model() {
        assert(s =~= values_model(v@));
    }
}

/// The model of a struct value holds its fields' models.
pub proof fn lemma_struct_value_model(name: String, fields: Vec<(String, Value)>)
    ensures
        (Value::Struct { name, fields }).model() == (ValueModel::Struct { name: name@, fields: entries_model(fields@) }),
{
    if let ValueModel::Struct { fields: s, .. } = (Value::Struct { name, fields }).model() {
        assert(s =~= entries_model(fields@));
    }
}

// ---------------------------------------------------------------------
// Numbers: the few operations on doubles that are plain bit operations.
// ---------------------------------------------------------------------

/// The double is a NaN: all exponent bits set and a nonzero fraction.
pub open spec fn is_nan(x: u64) -> bool {
    (x & 0x7ff0_0000_0000_0000u64) == 0x7ff0_0000_0000_0000u64 && (x & 0x000f_ffff_ffff_ffffu64) != 0
}

/// Equality of doubles as IEEE 754 defines it: no NaN equals anything, and
/// the two zeros are equal.
pub open spec fn float_eq(x: u64, y: u64) -> bool {
    &&& !is_nan(x)
    &&& !is_nan(y)
    &&& (x == y || ((x & 0x7fff_ffff_ffff_ffffu64) == 0 && (y & 0x7fff_ffff_ffff_ffffu64) == 0))
}

/// The negation of a double: its sign bit flipped.
pub open spec fn float_neg(x: u64) -> u64 {
    x ^ 0x8000_0000_0000_0000u64
}

/// Equality of doubles (`==` on `f64`), on their bit patterns.
pub fn number_eq(x: u64, y: u64) -> (r: bool)
    ensures
        r == float_eq(x, y),
{
    let x_nan = (x & 0x7ff0_0000_0000_0000u64) == 0x7ff0_0000_0000_0000u64 && (x & 0x000f_ffff_ffff_ffffu64) != 0;
    let y_nan = (y & 0x7ff0_0000_0000_0000u64) == 0x7ff0_0000_0000_0000u64 && (y & 0x000f_ffff_ffff_ffffu64) != 0;
    !x_nan && !y_nan && (x == y || ((x & 0x7fff_ffff_ffff_ffffu64) == 0 && (y & 0x7fff_ffff_ffff_ffffu64) == 0))
}

/// Negation of a double (`-x` on `f64`), on its bit pattern.
pub fn number_neg(x: u64) -> (r: u64)
    ensures
        r == float_neg(x),
{
    x ^ 0x8000_0000_0000_0000u64
}

// ---------------------------------------------------------------------
// Equality of values: numbers as doubles compare, strings and booleans by
// content, arrays element by element, and struct values by name and by
// fields compared as maps (as many fields, and every field of the first
// equal to the field of that name in the second).
// ---------------------------------------------------------------------

/// Whether two values are equal.
pub open spec fn values_equal(a: ValueModel, b: ValueModel) -> bool
    decreases a,
{
    match (a, b) {
        (ValueModel::Number(x), ValueModel::Number(y)) => float_eq(x, y),
        (ValueModel::Str(x), ValueModel::Str(y)) => x == y,
        (ValueModel::Boolean(x), ValueModel::Boolean(y)) => x == y,
        (ValueModel::Null, ValueModel::Null) => true,
        (ValueModel::Array(xs), ValueModel::Array(ys)) => xs.len() == ys.len() && lists_equal(xs, ys),
        (ValueModel::Struct { name: n1, fields: f1 }, ValueModel::Struct { name: n2, fields: f2 }) => {
            n1 == n2 && f1.len() == f2.len() && fields_found(f1, f2)
        },
        _ => false,
    }
}

/// `xs[i]` equals `ys[i]` at every index of `xs`.
pub open spec fn lists_equal(xs: Seq<ValueModel>, ys: Seq<ValueModel>) -> bool
    decreases xs,
{
    if xs.len() == 0 {
        true
    } else {
        ys.len() > 0 && values_equal(xs[0], ys[0]) && lists_equal(xs.drop_first(), ys.drop_first())
    }
}

/// Every entry of `f1` has an entry of its name in `f2` with an equal value.
pub open spec fn fields_found(f1: Seq<(Seq<char>, ValueModel)>, f2: Seq<(Seq<char>, ValueModel)>) -> bool
    decreases f1,
{
    if f1.len() == 0 {
        true
    } else {
        match lookup(f2, f1[0].0) {
            Some(v) => values_equal(f1[0].1, v) && fields_found(f1.drop_first(), f2),
            None => false,
        }
    }
}

/// The names of a value's entries are the views of its strings' names.
pub proof fn lemma_entry_names(v: Seq<(String, Value)>)
    ensures
        names_of(entries_model(v)) == string_names(v),
{
    assert(names_of(entries_model(v)) =~= string_names(v));
}

/// Negating a double twice gives it back.
pub proof fn lemma_neg_neg(x: u64)
    ensures
        float_neg(float_neg(x)) == x,
{
    assert(x ^ 0x8000_0000_0000_0000u64 ^ 0x8000_0000_0000_0000u64 == x) by (bit_vector);
}

/// Equality of doubles is symmetric; a NaN equals nothing, itself included;
/// any other double equals itself.
pub proof fn lemma_float_eq(x: u64, y: u64)
    ensures
        float_eq(x, y) == float_eq(y, x),
        is_nan(x) ==> !float_eq(x, y),
        !is_nan(x) ==> float_eq(x, x),
{
}

/// No NaN stands anywhere in the value, and the fields of each struct value
/// in it have distinct names.
pub open spec fn comparable(v: ValueModel) -> bool
    decreases v,
{
    match v {
        ValueModel::Number(x) => !is_nan(x),
        ValueModel::Array(xs) => all_comparable(xs),
        ValueModel::Struct { fields, .. } => names_of(fields).no_duplicates() && fields_comparable(fields),
        _ => true,
    }
}

/// Every value of the list is comparable.
pub open spec fn all_comparable(xs: Seq<ValueModel>) -> bool
    decreases xs,
{
    if xs.len() == 0 {
        true
    } else {
        comparable(xs[0]) && all_comparable(xs.drop_first())
    }
}

/// The value of every entry of the list is comparable.
pub open spec fn fields_comparable(fs: Seq<(Seq<char>, ValueModel)>) -> bool
    decreases fs,
{
    if fs.len() == 0 {
        true
    } else {
        comparable(fs[0].1) && fields_comparable(fs.drop_first())
    }
}

/// A value equals itself unless a NaN stands in it.
pub proof fn lemma_values_equal_reflexive(v: ValueModel)
    requires
        comparable(v),
    ensures
        values_equal(v, v),
    decreases v,
{
    match v {
        ValueModel::Array(xs) => lemma_lists_equal_reflexive(xs),
        ValueModel::Struct { fields, .. } => {
            assert(fields.skip(0) =~= fields);
            lemma_fields_found_reflexive(fields, fields, 0);
        },
        _ => {},
    }
}

proof fn lemma_lists_equal_reflexive(xs: Seq<ValueModel>)
    requires
        all_comparable(xs),
    ensures
        lists_equal(xs, xs),
    decreases xs,
{
    if xs.len() > 0 {
        lemma_values_equal_reflexive(xs[0]);
        lemma_lists_equal_reflexive(xs.drop_first());
    }
}

proof fn lemma_fields_found_reflexive(g: Seq<(Seq<char>, ValueModel)>, f: Seq<(Seq<char>, ValueModel)>, n: nat)
    requires
        n <= f.len(),
        g == f.skip(n as int),
        names_of(f).no_duplicates(),
        fields_comparable(g),
    ensures
        fields_found(g, f),
    decreases g,
{
    if g.len() > 0 {
        let names = names_of(f);
        assert(g[0] == f[n as int]);
        assert forall|j: int| 0 <= j < n implies names[j] != names[n as int] by {
            assert(names[j] == f[j].0);
        }
        lemma_first_index_unique(names, f[n as int].0, Some(n));
        lemma_values_equal_reflexive(g[0].1);
        assert(g.drop_first() =~= f.skip(n + 1int));
        lemma_fields_found_reflexive(g.drop_first(), f, n + 1);
    }
}

impl Value {
    /// A copy of this value, nested values included.
    pub fn copy(&self) -> (r: Value)
        ensures
            r.model() == self.model(),
        decreases self,
    {
        match self {
            Value::Number(n) => Value::Number(*n),
            Value::String(s) => Value::String(s.clone()),
            Value::Boolean(b) => Value::Boolean(*b),
            Value::Null => Value::Null,
            Value::Array(items) => {
                let mut out: Vec<Value> = Vec::new();
                let mut i: usize = 0;
                while i < items.len()
                    invariant
                        *self == Value::Array(*items),
                        i <= items.len(),
                        out.len() == i,
                        values_model(out@) == values_model(items@).take(i as int),
                    decreases items.len() - i,
                {
                    let ghost before = out@;
                    assert(decreases_to!(*self => items@[i as int])) by {
                        assert(decreases_to!(*self => self->Array_0));
                        assert(decreases_to!(self->Array_0 => items@));
                        assert(decreases_to!(items@ => items@[i as int]));
                    }
                    let item = items[i].copy();
                    out.push(item);
                    assert(out@[i as int].model() == items@[i as int].model());
                    assert(values_model(out@) =~= values_model(items@).take(i + 1));
                    i += 1;
                }
                assert(values_model(items@).take(items.len() as int) =~= values_model(items@));
                proof {
                    lemma_array_value_model(out);
                    lemma_array_value_model(*items);
                }
                Value::Array(out)
            },
            Value::Struct { name, fields } => {
                let mut out: Vec<(String, Value)> = Vec::new();
                let mut i: usize = 0;
                while i < fields.len()
                    invariant
                        *self == (Value::Struct { name: *name, fields: *fields }),
                        i <= fields.len(),
                        out.len() == i,
                        entries_model(out@) == entries_model(fields@).take(i as int),
                    decreases fields.len() - i,
                {
                    assert(decreases_to!(*self => fields@[i as int].1)) by {
                        assert(decreases_to!(*self => self->fields));
                        assert(decreases_to!(self->fields => fields@));
                        assert(decreases_to!(fields@ => fields@[i as int]));
                        assert(decreases_to!(fields@[i as int] => fields@[i as int].1));
                    }
                    let value = fields[i].1.copy();
                    let key = fields[i].0.clone();
                    out.push((key, value));
                    assert(out@[i as int].1.model() == fields@[i as int].1.model());
                    assert(entries_model(out@) =~= entries_model(fields@).take(i + 1));
                    i += 1;
                }
                assert(entries_model(fields@).take(fields.len() as int) =~= entries_model(fields@));
                let copied_name = name.clone();
                proof {
                    lemma_struct_value_model(copied_name, out);
                    lemma_struct_value_model(*name, *fields);
                }
                Value::Struct { name: copied_name, fields: out }
            },
        }
    }
}

/// Whether two values are equal (see `values_equal`).
pub fn values_eq(a: &Value, b: &Value) -> (r: bool)
    ensures
        r == values_equal(a.model(), b.model()),
    decreases a,
{
    match (a, b) {
        (Value::Number(x), Value::Number(y)) => number_eq(*x, *y),
        (Value::String(x), Value::String(y)) => *x == *y,
        (Value::Boolean(x), Value::Boolean(y)) => *x == *y,
        (Value::Null, Value::Null) => true,
        (Value::Array(xs), Value::Array(ys)) => {
            proof {
                lemma_array_value_model(*xs);
                lemma_array_value_model(*ys);
            }
            let ghost mx = values_model(xs@);
            let ghost my = values_model(ys@);
            if xs.len() != ys.len() {
                return false;
            }
            let mut i: usize = 0;
            assert(mx.skip(0) =~= mx);
            assert(my.skip(0) =~= my);
            while i < xs.len()
                invariant
                    *a == Value::Array(*xs),
                    values_equal(a.model(), b.model()) == lists_equal(mx, my),
                    mx == values_model(xs@),
                    my == values_model(ys@),
                    xs.len() == ys.len(),
                    i <= xs.len(),
                    lists_equal(mx, my) == lists_equal(mx.skip(i as int), my.skip(i as int)),
                decreases xs.len() - i,
            {
                assert(decreases_to!(*a => xs@[i as int])) by {
                    assert(decreases_to!(*a => a->Array_0));
                    assert(decreases_to!(a->Array_0 => xs@));
                    assert(decreases_to!(xs@ => xs@[i as int]));
                }
                let same = values_eq(&xs[i], &ys[i]);
                assert(mx.skip(i as int).drop_first() =~= mx.skip(i + 1));
                assert(my.skip(i as int).drop_first() =~= my.skip(i + 1));
                if !same {
                    return false;
                }
                i += 1;
            }
            assert(mx.skip(xs.len() as int) =~= Seq::<ValueModel>::empty());
            true
        },
        (Value::Struct { name: n1, fields: f1 }, Value::Struct { name: n2, fields: f2 }) => {
            proof {
                lemma_struct_value_model(*n1, *f1);
                lemma_struct_value_model(*n2, *f2);
                lemma_entry_names(f2@);
            }
            let ghost m1 = entries_model(f1@);
            let ghost m2 = entries_model(f2@);
            if *n1 != *n2 || f1.len() != f2.len() {
                return false;
            }
            let mut i: usize = 0;
            assert(m1.skip(0) =~= m1);
            while i < f1.len()
                invariant
                    *a == (Value::Struct { name: *n1, fields: *f1 }),
                    values_equal(a.model(), b.model()) == fields_found(m1, m2),
                    m1 == entries_model(f1@),
                    m2 == entries_model(f2@),
                    names_of(m2) == string_names(f2@),
                    i <= f1.len(),
                    fields_found(m1, m2) == fields_found(m1.skip(i as int), m2),
                decreases f1.len() - i,
            {
                assert(m1.skip(i as int).drop_first() =~= m1.skip(i + 1));
                match find_key(f2, &f1[i].0) {
                    Some(j) => {
                        proof { lemma_first_index(string_names(f2@), f1@[i as int].0@); }
                        assert(decreases_to!(*a => f1@[i as int].1)) by {
                            assert(decreases_to!(*a => a->fields));
                            assert(decreases_to!(a->fields => f1@));
                            assert(decreases_to!(f1@ => f1@[i as int]));
                            assert(decreases_to!(f1@[i as int] => f1@[i as int].1));
                        }
                        if !values_eq(&f1[i].1, &f2[j].1) {
                            return false;
                        }
                    },
                    None => {
                        return false;
                    },
                }
                i += 1;
            }
            assert(m1.skip(f1.len() as int) =~= Seq::<(Seq<char>, ValueModel)>::empty());
            true
        },
        _ => false,
    }
}

} // verus!
