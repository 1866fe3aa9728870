//! The uniform raw-value representation threaded through a call.
//!
//! Every argument, context bag, request envelope and result is one [`Value`]:
//! a JSON-like tree. Its mathematical model is [`SpecVal`], over which all
//! contracts in this crate are stated.

use vstd::prelude::*;

verus! {

/// Mathematical model of a raw value: the ghost counterpart of [`Value`].
pub enum SpecVal {
    Null,
    Bool(bool),
    Int(int),
    Str(Seq<char>),
    Arr(Seq<SpecVal>),
    Obj(Seq<(Seq<char>, SpecVal)>),
}

/// A JSON-like raw value: the uniform representation carried across the call
/// boundary, threaded through the middleware chain, and handed to resolvers.
/// Object fields keep their insertion order.
#[derive(Debug, PartialEq, Eq)]
pub enum Value {
    Null,
    Bool(bool),
    Int(i64),
    Str(String),
    Arr(Vec<Value>),
    Obj(Vec<(String, Value)>),
}

/// Model of a value, by structural recursion.
pub open spec fn spec_of_value(v: Value) -> SpecVal
    decreases v,
{
    match v {
        Value::Null => SpecVal::Null,
        Value::Bool(b) => SpecVal::Bool(b),
        Value::Int(i) => SpecVal::Int(i as int),
        Value::Str(s) => SpecVal::Str(s@),
        Value::Arr(items) => SpecVal::Arr(spec_of_items(items@)),
        Value::Obj(fields) => SpecVal::Obj(spec_of_entries(fields@)),
    }
}

/// Model of the elements of an array value.
pub open spec fn spec_of_items(items: Seq<Value>) -> Seq<SpecVal>
    decreases items,
{
    Seq::new(
        items.len(),
        |i: int| if 0 <= i < items.len() {
            spec_of_value(items[i])
        } else {
            SpecVal::Null
        },
    )
}

/// Model of the fields of an object value.
pub open spec fn spec_of_entries(fields: Seq<(String, Value)>) -> Seq<(Seq<char>, SpecVal)>
    decreases fields,
{
    Seq::new(
        fields.len(),
        |i: int| if 0 <= i < fields.len() {
            (fields[i].0@, spec_of_value(fields[i].1))
        } else {
            (Seq::empty(), SpecVal::Null)
        },
    )
}

impl View for Value {
    type V = SpecVal;

    open spec fn view(&self) -> SpecVal {
        spec_of_value(*self)
    }
}

/// First-match lookup in an association list keyed by strings; the shared
/// model for object fields, cache entries and registry partitions.
pub open spec fn assoc_lookup<T>(entries: Seq<(Seq<char>, T)>, key: Seq<char>) -> Option<T>
    decreases entries.len(),
{
    if entries.len() == 0 {
        Option::None
    } else if entries[0].0 == key {
        Option::Some(entries[0].1)
    } else {
        assoc_lookup(entries.drop_first(), key)
    }
}

/// A prefix of entries none of whose keys is `key` does not change the lookup.
pub proof fn lemma_assoc_lookup_skip<T>(entries: Seq<(Seq<char>, T)>, key: Seq<char>, i: int)
    requires
        0 <= i <= entries.len(),
        forall|j: int| 0 <= j < i ==> entries[j].0 != key,
    ensures
        assoc_lookup(entries, key) == assoc_lookup(entries.skip(i), key),
    decreases i,
{
    if i > 0 {
        assert(forall|j: int| 0 <= j < i - 1 ==> entries.drop_first()[j].0 == entries[j + 1].0);
        lemma_assoc_lookup_skip(entries.drop_first(), key, i - 1);
        assert(entries.drop_first().skip(i - 1) =~= entries.skip(i));
    } else {
        assert(entries.skip(0) =~= entries);
    }
}

/// Appending an entry does not hide an existing key, and a fresh key is found
/// exactly when the appended entry carries it.
pub proof fn lemma_assoc_lookup_push<T>(entries: Seq<(Seq<char>, T)>, key: Seq<char>, e: (Seq<char>, T))
    ensures
        assoc_lookup(entries, key) is Some ==>
            assoc_lookup(entries.push(e), key) == assoc_lookup(entries, key),
        assoc_lookup(entries, key) is None && key == e.0 ==>
            assoc_lookup(entries.push(e), key) == Option::Some(e.1),
        assoc_lookup(entries, key) is None && key != e.0 ==>
            assoc_lookup(entries.push(e), key) is None,
    decreases entries.len(),
{
    if entries.len() == 0 {
        let empty: Seq<(Seq<char>, T)> = Seq::empty();
        assert(entries.push(e).drop_first() =~= empty);
        assert(assoc_lookup(empty, key) is None);
    } else {
        assert(entries.push(e)[0] == entries[0]);
        if entries[0].0 != key {
            lemma_assoc_lookup_push(entries.drop_first(), key, e);
            assert(entries.push(e).drop_first() =~= entries.drop_first().push(e));
        }
    }
}

/// Field lookup on an object value; `None` on any other value shape.
pub open spec fn spec_get_field(v: SpecVal, key: Seq<char>) -> Option<SpecVal> {
    match v {
        SpecVal::Obj(fields) => assoc_lookup(fields, key),
        _ => Option::None,
    }
}

/// Looks a key up among object fields, returning the first match.
pub fn obj_get<'a>(fields: &'a Vec<(String, Value)>, key: &String) -> (r: Option<&'a Value>)
    ensures
        match r {
            Option::Some(v) => assoc_lookup(spec_of_entries(fields@), key@) == Option::Some(v@),
            Option::None => assoc_lookup(spec_of_entries(fields@), key@) is None,
        },
{
    let ghost entries: Seq<(Seq<char>, SpecVal)> = spec_of_entries(fields@);
    let mut i: usize = 0;
    while i < fields.len()
        invariant
            0 <= i <= fields.len(),
            entries == spec_of_entries(fields@),
            forall|j: int| 0 <= j < i ==> entries[j].0 != key@,
        decreases fields.len() - i,
    {
        proof {
            assert(entries[i as int] == (fields@[i as int].0@, spec_of_value(fields@[i as int].1)));
        }
        if fields[i].0 == *key {
            proof {
                lemma_assoc_lookup_skip(entries, key@, i as int);
                assert(entries.skip(i as int)[0] == entries[i as int]);
            }
            return Option::Some(&fields[i].1);
        }
        i = i + 1;
    }
    proof {
        lemma_assoc_lookup_skip(entries, key@, fields@.len() as int);
        assert(entries.skip(entries.len() as int) =~= Seq::<(Seq<char>, SpecVal)>::empty());
    }
    Option::None
}

/// Deep structural equality of two raw values, decided against the model.
pub fn value_eq(a: &Value, b: &Value) -> (r: bool)
    ensures
        r == (a@ == b@),
    decreases a,
{
    match a {
        Value::Null => matches!(b, Value::Null),
        Value::Bool(x) => match b {
            Value::Bool(y) => *x == *y,
            _ => false,
        },
        Value::Int(x) => match b {
            Value::Int(y) => *x == *y,
            _ => false,
        },
        Value::Str(x) => match b {
            Value::Str(y) => *x == *y,
            _ => false,
        },
        Value::Arr(xs) => match b {
            Value::Arr(ys) => {
                proof {
                    assert(a@ == SpecVal::Arr(spec_of_items(xs@)));
                    assert(b@ == SpecVal::Arr(spec_of_items(ys@)));
                    assert(spec_of_items(xs@).len() == xs@.len());
                    assert(spec_of_items(ys@).len() == ys@.len());
                }
                if xs.len() != ys.len() {
                    return false;
                }
                let mut i: usize = 0;
                while i < xs.len()
                    invariant
                        0 <= i <= xs.len(),
                        xs@.len() == ys@.len(),
                        a@ == SpecVal::Arr(spec_of_items(xs@)),
                        b@ == SpecVal::Arr(spec_of_items(ys@)),
                        a == Value::Arr(*xs),
                        forall|j: int| 0 <= j < i ==> spec_of_value(xs@[j]) == spec_of_value(ys@[j]),
                    decreases xs.len() - i,
                {
                    proof {
                        assert(a->Arr_0 == *xs);
                        vstd::std_specs::vec::axiom_vec_index_decreases(*xs, i as int);
                        assert(decreases_to!(a => xs@[i as int]));
                    }
                    if !value_eq(&xs[i], &ys[i]) {
                        assert(spec_of_items(xs@)[i as int] != spec_of_items(ys@)[i as int]);
                        return false;
                    }
                    i = i + 1;
                }
                proof {
                    assert(spec_of_items(xs@) =~= spec_of_items(ys@));
                }
                true
            },
            _ => false,
        },
        Value::Obj(xs) => match b {
            Value::Obj(ys) => {
                proof {
                    assert(a@ == SpecVal::Obj(spec_of_entries(xs@)));
                    assert(b@ == SpecVal::Obj(spec_of_entries(ys@)));
                    assert(spec_of_entries(xs@).len() == xs@.len());
                    assert(spec_of_entries(ys@).len() == ys@.len());
                }
                if xs.len() != ys.len() {
                    return false;
                }
                let mut i: usize = 0;
                while i < xs.len()
                    invariant
                        0 <= i <= xs.len(),
                        xs@.len() == ys@.len(),
                        a@ == SpecVal::Obj(spec_of_entries(xs@)),
                        b@ == SpecVal::Obj(spec_of_entries(ys@)),
                        a == Value::Obj(*xs),
                        forall|j: int| 0 <= j < i ==>
                            xs@[j].0@ == ys@[j].0@
                            && spec_of_value(xs@[j].1) == spec_of_value(ys@[j].1),
                    decreases xs.len() - i,
                {
                    if !(xs[i].0 == ys[i].0) {
                        assert(spec_of_entries(xs@)[i as int] != spec_of_entries(ys@)[i as int]);
                        return false;
                    }
                    proof {
                        assert(a->Obj_0 == *xs);
                        vstd::std_specs::vec::axiom_vec_index_decreases(*xs, i as int);
                        assert(decreases_to!(a => xs@[i as int].1));
                    }
                    if !value_eq(&xs[i].1, &ys[i].1) {
                        assert(spec_of_entries(xs@)[i as int] != spec_of_entries(ys@)[i as int]);
                        return false;
                    }
                    i = i + 1;
                }
                proof {
                    assert(spec_of_entries(xs@) =~= spec_of_entries(ys@));
                }
                true
            },
            _ => false,
        },
    }
}

/// Deep copy of a raw value, equal to the original in the model.
pub fn clone_value(v: &Value) -> (r: Value)
    ensures
        r@ == v@,
    decreases v,
{
    match v {
        Value::Null => Value::Null,
        Value::Bool(b) => Value::Bool(*b),
        Value::Int(i) => Value::Int(*i),
        Value::Str(s) => Value::Str(s.clone()),
        Value::Arr(items) => {
            let mut out: Vec<Value> = Vec::new();
            let mut i: usize = 0;
            while i < items.len()
                invariant
                    0 <= i <= items.len(),
                    out@.len() == i,
                    v == Value::Arr(*items),
                    forall|j: int| 0 <= j < i ==> spec_of_value(out@[j]) == spec_of_value(items@[j]),
                decreases items.len() - i,
            {
                proof {
                    assert(v->Arr_0 == *items);
                    vstd::std_specs::vec::axiom_vec_index_decreases(*items, i as int);
                    assert(decreases_to!(v => items@[i as int]));
                }
                out.push(clone_value(&items[i]));
                i = i + 1;
            }
            let r = Value::Arr(out);
            proof {
                assert(spec_of_items(out@) =~= spec_of_items(items@));
            }
            r
        },
        Value::Obj(fields) => {
            let mut out: Vec<(String, Value)> = Vec::new();
            let mut i: usize = 0;
            while i < fields.len()
                invariant
                    0 <= i <= fields.len(),
                    out@.len() == i,
                    v == Value::Obj(*fields),
                    forall|j: int| 0 <= j < i ==>
                        out@[j].0@ == fields@[j].0@
                        && spec_of_value(out@[j].1) == spec_of_value(fields@[j].1),
                decreases fields.len() - i,
            {
                proof {
                    assert(v->Obj_0 == *fields);
                    vstd::std_specs::vec::axiom_vec_index_decreases(*fields, i as int);
                    assert(decreases_to!(v => fields@[i as int].1));
                }
                out.push((fields[i].0.clone(), clone_value(&fields[i].1)));
                i = i + 1;
            }
            let r = Value::Obj(out);
            proof {
                assert(spec_of_entries(out@) =~= spec_of_entries(fields@));
            }
            r
        },
    }
}

} // verus!
