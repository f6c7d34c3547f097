//! The in-memory form of a document: a dynamic structured value with
//! object, array and scalar variants, compared by structural equality.

use vstd::prelude::*;

verus! {

broadcast use vstd::std_specs::vec::group_vec_axioms;

/// Mathematical model of a [`Value`]: the same shape over `Seq` and `int`.
#[verifier::ext_equal]
pub enum ValModel {
    Null,
    Bool(bool),
    Int(int),
    Str(Seq<char>),
    Arr(Seq<ValModel>),
    Obj(Seq<(Seq<char>, ValModel)>),
}

/// A structured document value: the closed set of shapes a stored document
/// (or any of its fields) can take.
pub enum Value {
    Null,
    Bool(bool),
    Int(i64),
    Str(String),
    Arr(Vec<Value>),
    Obj(Vec<(String, Value)>),
}

/// The models of a sequence of array elements.
pub open spec fn values_view(items: Seq<Value>) -> Seq<ValModel>
    decreases items,
{
    Seq::new(
        items.len(),
        |i: int|
            if 0 <= i < items.len() {
                items[i]@
            } else {
                ValModel::Null
            },
    )
}

/// The models of a sequence of object entries.
pub open spec fn entries_view(entries: Seq<(String, Value)>) -> Seq<(Seq<char>, ValModel)>
    decreases entries,
{
    Seq::new(
        entries.len(),
        |i: int|
            if 0 <= i < entries.len() {
                (entries[i].0@, entries[i].1@)
            } else {
                (Seq::empty(), ValModel::Null)
            },
    )
}

impl View for Value {
    type V = ValModel;

    open spec fn view(&self) -> ValModel
        decreases self,
    {
        match self {
            Value::Null => ValModel::Null,
            Value::Bool(b) => ValModel::Bool(*b),
            Value::Int(n) => ValModel::Int(*n as int),
            Value::Str(s) => ValModel::Str(s@),
            Value::Arr(items) => ValModel::Arr(values_view(items@)),
            Value::Obj(entries) => ValModel::Obj(entries_view(entries@)),
        }
    }
}

/// The value stored under field name `f` among object entries `es`: the first
/// entry whose key is `f`, or `Null` when no entry has that key.
pub open spec fn lookup_entries(es: Seq<(Seq<char>, ValModel)>, f: Seq<char>) -> ValModel
    decreases es.len(),
{
    if es.len() == 0 {
        ValModel::Null
    } else if es[0].0 == f {
        es[0].1
    } else {
        lookup_entries(es.drop_first(), f)
    }
}

/// Reading field `f` of a value: the stored entry of an object, and `Null`
/// both for a missing field and for a non-object value.
pub open spec fn lookup_field(v: ValModel, f: Seq<char>) -> ValModel {
    match v {
        ValModel::Obj(es) => lookup_entries(es, f),
        _ => ValModel::Null,
    }
}

/// Object entries after storing `v` under key `f`: the first entry keyed `f`
/// is replaced, and a missing key is appended at the end.
pub open spec fn set_entries(
    es: Seq<(Seq<char>, ValModel)>,
    f: Seq<char>,
    v: ValModel,
) -> Seq<(Seq<char>, ValModel)>
    decreases es.len(),
{
    if es.len() == 0 {
        seq![(f, v)]
    } else if es[0].0 == f {
        seq![(f, v)] + es.drop_first()
    } else {
        seq![es[0]] + set_entries(es.drop_first(), f, v)
    }
}

/// A value after storing `x` under field name `f`: objects get the entry
/// written through [`set_entries`], any other value is left as it is.
pub open spec fn with_field(v: ValModel, f: Seq<char>, x: ValModel) -> ValModel {
    match v {
        ValModel::Obj(es) => ValModel::Obj(set_entries(es, f, x)),
        _ => v,
    }
}

/// Storing under one key leaves every other key's first entry alone.
pub proof fn lemma_set_entries_keeps_others(
    es: Seq<(Seq<char>, ValModel)>,
    f: Seq<char>,
    x: ValModel,
    g: Seq<char>,
)
    requires
        g != f,
    ensures
        lookup_entries(set_entries(es, f, x), g) == lookup_entries(es, g),
    decreases es.len(),
{
    if es.len() == 0 {
        assert(set_entries(es, f, x)[0] == (f, x));
        assert(set_entries(es, f, x).drop_first() =~= Seq::<(Seq<char>, ValModel)>::empty());
    } else if es[0].0 == f {
        assert(set_entries(es, f, x)[0] == (f, x));
        assert(set_entries(es, f, x).drop_first() =~= es.drop_first());
    } else {
        assert(set_entries(es, f, x)[0] == es[0]);
        assert(set_entries(es, f, x).drop_first() =~= set_entries(es.drop_first(), f, x));
        lemma_set_entries_keeps_others(es.drop_first(), f, x, g);
    }
}

/// Writing field `f` leaves the reading of every other field `g` alone.
pub proof fn lemma_with_field_keeps_others(v: ValModel, f: Seq<char>, x: ValModel, g: Seq<char>)
    requires
        g != f,
    ensures
        lookup_field(with_field(v, f, x), g) == lookup_field(v, g),
{
    match v {
        ValModel::Obj(es) => {
            lemma_set_entries_keeps_others(es, f, x, g);
        },
        _ => {},
    }
}

/// Relies on `str`'s `PartialEq`: two string slices are equal exactly when
/// their character sequences are equal.
#[verifier::external_body]
pub fn str_eq(a: &str, b: &str) -> (r: bool)
    ensures
        r == (a@ == b@),
{
    a == b
}

/// Whether this value is exactly `Null`.
pub fn is_null(v: &Value) -> (r: bool)
    ensures
        r == (v@ == ValModel::Null),
{
    match v {
        Value::Null => true,
        _ => false,
    }
}

/// Read field `field` of `v`: `Some` of the first entry with that key when
/// `v` is an object holding it, `None` otherwise (the field then reads as
/// `Null`).
#[verifier::loop_isolation(false)]
pub fn get_field<'a>(v: &'a Value, field: &str) -> (r: Option<&'a Value>)
    ensures
        match r {
            Some(x) => lookup_field(v@, field@) == x@,
            None => lookup_field(v@, field@) == ValModel::Null,
        },
{
    match v {
        Value::Obj(entries) => {
            let ghost es = entries_view(entries@);
            proof {
                assert(es.skip(0) =~= es);
            }
            let mut i: usize = 0;
            while i < entries.len()
                invariant
                    i <= entries.len(),
                    es == entries_view(entries@),
                    lookup_entries(es, field@) == lookup_entries(es.skip(i as int), field@),
                decreases entries.len() - i,
            {
                proof {
                    assert(es.skip(i as int)[0] == es[i as int]);
                }
                if str_eq(entries[i].0.as_str(), field) {
                    assert(lookup_entries(es.skip(i as int), field@) == es[i as int].1);
                    return Some(&entries[i].1);
                }
                proof {
                    assert(es.skip(i as int).drop_first() =~= es.skip(i as int + 1));
                }
                i += 1;
            }
            proof {
                assert(es.skip(i as int) =~= Seq::empty());
            }
            None
        },
        _ => None,
    }
}

/// Store `v` under key `field` in the entry list: replace the first entry
/// with that key, or append a new entry when the key is absent.
#[verifier::loop_isolation(false)]
pub fn set_field(entries: &mut Vec<(String, Value)>, field: String, v: Value)
    ensures
        entries_view(final(entries)@) == set_entries(entries_view(old(entries)@), field@, v@),
{
    let ghost es = entries_view(entries@);
    let mut i: usize = 0;
    while i < entries.len()
        invariant
            i <= entries.len(),
            es == entries_view(entries@),
            es == entries_view(old(entries)@),
            forall|k: int| 0 <= k < i ==> es[k].0 != field@,
        decreases entries.len() - i,
    {
        if str_eq(entries[i].0.as_str(), field.as_str()) {
            entries[i] = (field, v);
            proof {
                lemma_set_entries_replaces(es, field@, v@, i as int);
                assert(entries_view(entries@) =~= es.update(i as int, (field@, v@)));
            }
            return ;
        }
        i += 1;
    }
    entries.push((field, v));
    proof {
        lemma_set_entries_appends(es, field@, v@);
        assert(entries_view(entries@) =~= es.push((field@, v@)));
    }
}

proof fn lemma_set_entries_replaces(es: Seq<(Seq<char>, ValModel)>, f: Seq<char>, v: ValModel, i: int)
    requires
        0 <= i < es.len(),
        es[i].0 == f,
        forall|k: int| 0 <= k < i ==> es[k].0 != f,
    ensures
        set_entries(es, f, v) == es.update(i, (f, v)),
    decreases i,
{
    if i == 0 {
        assert(set_entries(es, f, v) =~= es.update(0, (f, v)));
    } else {
        assert(es.drop_first()[i - 1] == es[i]);
        assert(forall|k: int| 0 <= k < i - 1 ==> es.drop_first()[k] == es[k + 1]);
        lemma_set_entries_replaces(es.drop_first(), f, v, i - 1);
        assert(set_entries(es, f, v) =~= es.update(i, (f, v)));
    }
}

proof fn lemma_set_entries_appends(es: Seq<(Seq<char>, ValModel)>, f: Seq<char>, v: ValModel)
    requires
        forall|k: int| 0 <= k < es.len() ==> es[k].0 != f,
    ensures
        set_entries(es, f, v) == es.push((f, v)),
    decreases es.len(),
{
    if es.len() == 0 {
        assert(set_entries(es, f, v) =~= es.push((f, v)));
    } else {
        assert(forall|k: int| 0 <= k < es.drop_first().len() ==> es.drop_first()[k] == es[k + 1]);
        lemma_set_entries_appends(es.drop_first(), f, v);
        assert(set_entries(es, f, v) =~= es.push((f, v)));
    }
}

/// Structural equality of two values: equality of their models.
#[verifier::loop_isolation(false)]
pub fn value_eq(a: &Value, b: &Value) -> (r: bool)
    ensures
        r == (a@ == b@),
    decreases *a,
{
    match (a, b) {
        (Value::Null, Value::Null) => true,
        (Value::Bool(x), Value::Bool(y)) => x == y,
        (Value::Int(x), Value::Int(y)) => x == y,
        (Value::Str(x), Value::Str(y)) => str_eq(x.as_str(), y.as_str()),
        (Value::Arr(xs), Value::Arr(ys)) => {
            if xs.len() != ys.len() {
                assert(values_view(xs@).len() != values_view(ys@).len());
                return false;
            }
            let mut j: usize = 0;
            while j < xs.len()
                invariant
                    j <= xs.len(),
                    xs@.len() == ys@.len(),
                    a@ == ValModel::Arr(values_view(xs@)),
                    b@ == ValModel::Arr(values_view(ys@)),
                    forall|k: int| 0 <= k < j ==> values_view(xs@)[k] == values_view(ys@)[k],
                decreases xs.len() - j,
            {
                proof {
                    assert(decreases_to!(*a => *xs));
                    assert(decreases_to!(*xs => xs@[j as int]));
                }
                if !value_eq(&xs[j], &ys[j]) {
                    assert(values_view(xs@)[j as int] != values_view(ys@)[j as int]);
                    return false;
                }
                j += 1;
            }
            proof {
                assert(values_view(xs@) =~= values_view(ys@));
            }
            true
        },
        (Value::Obj(xs), Value::Obj(ys)) => {
            if xs.len() != ys.len() {
                assert(entries_view(xs@).len() != entries_view(ys@).len());
                return false;
            }
            let mut j: usize = 0;
            while j < xs.len()
                invariant
                    j <= xs.len(),
                    xs@.len() == ys@.len(),
                    a@ == ValModel::Obj(entries_view(xs@)),
                    b@ == ValModel::Obj(entries_view(ys@)),
                    forall|k: int| 0 <= k < j ==> entries_view(xs@)[k] == entries_view(ys@)[k],
                decreases xs.len() - j,
            {
                if !str_eq(xs[j].0.as_str(), ys[j].0.as_str()) {
                    assert(entries_view(xs@)[j as int] != entries_view(ys@)[j as int]);
                    return false;
                }
                proof {
                    assert(decreases_to!(*a => *xs));
                    assert(decreases_to!(*xs => xs@[j as int]));
                    assert(decreases_to!(xs@[j as int] => xs@[j as int].1));
                }
                if !value_eq(&xs[j].1, &ys[j].1) {
                    assert(entries_view(xs@)[j as int] != entries_view(ys@)[j as int]);
                    return false;
                }
                j += 1;
            }
            proof {
                assert(entries_view(xs@) =~= entries_view(ys@));
            }
            true
        },
        _ => {
            assert(a@ != b@);
            false
        },
    }
}

} // verus!
