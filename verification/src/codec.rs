//! Checking and carrying values across shape boundaries.
//!
//! A raw value that reaches a chain boundary is checked against the expected
//! descriptor; a mismatch is a dispatch error attributed to argument
//! decoding. Encoding a result back to the raw representation is the identity
//! on the value model — the wire codec itself is an external collaborator —
//! so the decode of an encoded value reproduces a structurally equal value.

use vstd::prelude::*;

use crate::cache::TypeCache;
use crate::descriptor::{
    obj_fields_match, spec_of_desc, spec_of_desc_fields, value_matches, Descriptor, SpecCache,
    SpecDesc,
};
use crate::errors::{DispatchError, SpecDispatchError};
use crate::value::{assoc_lookup, clone_value, spec_of_entries, spec_of_items, spec_of_value, SpecVal, Value};

verus! {

/// Decides whether `v` has shape `d`, resolving named shapes through `cache`.
pub fn check_value(cache: &TypeCache, d: &Descriptor, v: &Value) -> (r: bool)
    ensures
        r == value_matches(cache@, d@, v@),
    decreases v, d,
{
    match d {
        Descriptor::Null => matches!(v, Value::Null),
        Descriptor::Bool => matches!(v, Value::Bool(_)),
        Descriptor::Int => matches!(v, Value::Int(_)),
        Descriptor::Str => matches!(v, Value::Str(_)),
        Descriptor::List(d1) => match v {
            Value::Arr(items) => {
                let ghost sitems = spec_of_items(items@);
                proof {
                    assert(v@ == SpecVal::Arr(sitems));
                    assert(d@ == SpecDesc::List(Box::new(spec_of_desc(**d1))));
                }
                let mut i: usize = 0;
                while i < items.len()
                    invariant
                        0 <= i <= items.len(),
                        v == Value::Arr(*items),
                        d == Descriptor::List(*d1),
                        v@ == SpecVal::Arr(sitems),
                        d@ == SpecDesc::List(Box::new(spec_of_desc(**d1))),
                        sitems == spec_of_items(items@),
                        sitems.len() == items@.len(),
                        forall|j: int| 0 <= j < i ==> value_matches(cache@, d1@, #[trigger] sitems[j]),
                    decreases items.len() - i,
                {
                    proof {
                        assert(v->Arr_0 == *items);
                        vstd::std_specs::vec::axiom_vec_index_decreases(*items, i as int);
                        assert(decreases_to!(v, d => items@[i as int], **d1));
                        assert(sitems[i as int] == spec_of_value(items@[i as int]));
                    }
                    if !check_value(cache, d1, &items[i]) {
                        proof {
                            assert((v@->Arr_0)[i as int] == sitems[i as int]);
                            assert(!value_matches(cache@, d1@, sitems[i as int]));
                            assert(!value_matches(cache@, d@, v@));
                        }
                        return false;
                    }
                    i = i + 1;
                }
                proof {
                    assert forall|j: int| 0 <= j < (v@->Arr_0).len()
                        implies value_matches(cache@, d1@, #[trigger] (v@->Arr_0)[j]) by {
                        assert((v@->Arr_0)[j] == sitems[j]);
                    }
                    assert(value_matches(cache@, d@, v@));
                }
                true
            },
            _ => false,
        },
        Descriptor::Optional(d1) => match v {
            Value::Null => true,
            _ => check_value(cache, d1, v),
        },
        Descriptor::Object(dfs) => match v {
            Value::Obj(vfs) => {
                let ghost svfs = spec_of_entries(vfs@);
                let ghost sfields = spec_of_desc_fields(dfs@);
                proof {
                    assert(v@ == SpecVal::Obj(svfs));
                    assert(d@ == SpecDesc::Object(sfields));
                    assert(v@->Obj_0 == svfs);
                    assert(d@->Object_0 == sfields);
                    assert(svfs.len() == vfs@.len());
                    assert(sfields.len() == dfs@.len());
                }
                if vfs.len() != dfs.len() {
                    proof {
                        assert(!value_matches(cache@, d@, v@));
                    }
                    return false;
                }
                let mut i: usize = 0;
                while i < dfs.len()
                    invariant
                        0 <= i <= dfs.len(),
                        v == Value::Obj(*vfs),
                        d == Descriptor::Object(*dfs),
                        v@ == SpecVal::Obj(svfs),
                        d@ == SpecDesc::Object(sfields),
                        svfs == spec_of_entries(vfs@),
                        sfields == spec_of_desc_fields(dfs@),
                        svfs.len() == vfs@.len(),
                        sfields.len() == dfs@.len(),
                        vfs@.len() == dfs@.len(),
                        obj_fields_match(cache@, sfields, svfs, 0)
                            == obj_fields_match(cache@, sfields, svfs, i as int),
                    decreases dfs.len() - i,
                {
                    proof {
                        assert(svfs[i as int] == (vfs@[i as int].0@, spec_of_value(vfs@[i as int].1)));
                        assert(sfields[i as int]
                            == (dfs@[i as int].0@, spec_of_desc(dfs@[i as int].1)));
                        assert(obj_fields_match(cache@, sfields, svfs, i as int)
                            == (svfs[i as int].0 == sfields[i as int].0
                                && value_matches(cache@, sfields[i as int].1, svfs[i as int].1)
                                && obj_fields_match(cache@, sfields, svfs, i + 1)));
                    }
                    if !(vfs[i].0 == dfs[i].0) {
                        proof {
                            assert(!obj_fields_match(cache@, sfields, svfs, 0));
                            assert(!value_matches(cache@, d@, v@));
                        }
                        return false;
                    }
                    proof {
                        assert(v->Obj_0 == *vfs);
                        assert(d->Object_0 == *dfs);
                        vstd::std_specs::vec::axiom_vec_index_decreases(*vfs, i as int);
                        vstd::std_specs::vec::axiom_vec_index_decreases(*dfs, i as int);
                        assert(decreases_to!(v, d => vfs@[i as int].1, dfs@[i as int].1));
                    }
                    if !check_value(cache, &dfs[i].1, &vfs[i].1) {
                        proof {
                            assert(!obj_fields_match(cache@, sfields, svfs, 0));
                            assert(!value_matches(cache@, d@, v@));
                        }
                        return false;
                    }
                    i = i + 1;
                }
                proof {
                    assert(obj_fields_match(cache@, sfields, svfs, dfs@.len() as int));
                    assert(value_matches(cache@, d@, v@));
                }
                true
            },
            _ => false,
        },
        Descriptor::Ref(n) => match cache.lookup(n) {
            Option::Some(dfs) => match v {
                Value::Obj(vfs) => {
                    let ghost svfs = spec_of_entries(vfs@);
                    let ghost sfields = spec_of_desc_fields(dfs@);
                    proof {
                        assert(v@ == SpecVal::Obj(svfs));
                        assert(d@ == SpecDesc::Ref(n@));
                        assert(v@->Obj_0 == svfs);
                        assert(assoc_lookup(cache@, n@)->Some_0 == sfields);
                        assert(svfs.len() == vfs@.len());
                        assert(sfields.len() == dfs@.len());
                    }
                    if vfs.len() != dfs.len() {
                        proof {
                            assert(!value_matches(cache@, d@, v@));
                        }
                        return false;
                    }
                    let mut i: usize = 0;
                    while i < dfs.len()
                        invariant
                            0 <= i <= dfs.len(),
                            v == Value::Obj(*vfs),
                            v@ == SpecVal::Obj(svfs),
                            d@ == SpecDesc::Ref(n@),
                            assoc_lookup(cache@, n@) == Option::Some(sfields),
                            svfs == spec_of_entries(vfs@),
                            sfields == spec_of_desc_fields(dfs@),
                            svfs.len() == vfs@.len(),
                            sfields.len() == dfs@.len(),
                            vfs@.len() == dfs@.len(),
                            obj_fields_match(cache@, sfields, svfs, 0)
                                == obj_fields_match(cache@, sfields, svfs, i as int),
                        decreases dfs.len() - i,
                    {
                        proof {
                            assert(svfs[i as int]
                                == (vfs@[i as int].0@, spec_of_value(vfs@[i as int].1)));
                            assert(sfields[i as int]
                                == (dfs@[i as int].0@, spec_of_desc(dfs@[i as int].1)));
                            assert(obj_fields_match(cache@, sfields, svfs, i as int)
                                == (svfs[i as int].0 == sfields[i as int].0
                                    && value_matches(cache@, sfields[i as int].1, svfs[i as int].1)
                                    && obj_fields_match(cache@, sfields, svfs, i + 1)));
                        }
                        if !(vfs[i].0 == dfs[i].0) {
                            proof {
                                assert(!obj_fields_match(cache@, sfields, svfs, 0));
                                assert(!value_matches(cache@, d@, v@));
                            }
                            return false;
                        }
                        proof {
                            assert(v->Obj_0 == *vfs);
                            vstd::std_specs::vec::axiom_vec_index_decreases(*vfs, i as int);
                            assert(decreases_to!(v, d => vfs@[i as int].1, dfs@[i as int].1));
                        }
                        if !check_value(cache, &dfs[i].1, &vfs[i].1) {
                            proof {
                                assert(!obj_fields_match(cache@, sfields, svfs, 0));
                                assert(!value_matches(cache@, d@, v@));
                            }
                            return false;
                        }
                        i = i + 1;
                    }
                    proof {
                        assert(obj_fields_match(cache@, sfields, svfs, dfs@.len() as int));
                        assert(value_matches(cache@, d@, v@));
                    }
                    true
                },
                _ => false,
            },
            Option::None => false,
        },
    }
}

/// What decoding yields: the value itself when it has the shape, else a
/// decoding error.
pub open spec fn spec_decode(cache: SpecCache, d: SpecDesc, v: SpecVal) -> Result<SpecVal, SpecDispatchError> {
    if value_matches(cache, d, v) {
        Result::Ok(v)
    } else {
        Result::Err(SpecDispatchError::Decoding)
    }
}

/// What encoding back to the raw representation yields: the identity on the
/// value model, guarded by the same shape check.
pub open spec fn spec_encode(cache: SpecCache, d: SpecDesc, v: SpecVal) -> Result<SpecVal, SpecDispatchError> {
    if value_matches(cache, d, v) {
        Result::Ok(v)
    } else {
        Result::Err(SpecDispatchError::Decoding)
    }
}

/// Checks `v` against `d` and hands it through.
pub fn decode(cache: &TypeCache, d: &Descriptor, v: &Value) -> (r: Result<Value, DispatchError>)
    ensures
        match r {
            Result::Ok(w) => spec_decode(cache@, d@, v@) == Result::<SpecVal, SpecDispatchError>::Ok(w@),
            Result::Err(e) => spec_decode(cache@, d@, v@) == Result::<SpecVal, SpecDispatchError>::Err(e@),
        },
{
    if check_value(cache, d, v) {
        Result::Ok(clone_value(v))
    } else {
        Result::Err(DispatchError::Decoding)
    }
}

/// Checks a result value against its descriptor and hands it back to the raw
/// representation.
pub fn encode(cache: &TypeCache, d: &Descriptor, v: &Value) -> (r: Result<Value, DispatchError>)
    ensures
        match r {
            Result::Ok(w) => spec_encode(cache@, d@, v@) == Result::<SpecVal, SpecDispatchError>::Ok(w@),
            Result::Err(e) => spec_encode(cache@, d@, v@) == Result::<SpecVal, SpecDispatchError>::Err(e@),
        },
{
    if check_value(cache, d, v) {
        Result::Ok(clone_value(v))
    } else {
        Result::Err(DispatchError::Decoding)
    }
}

/// Law: for a value of the descriptor's shape — primitive, object, sequence
/// or optional alike — encoding succeeds and decoding the encoded value with
/// the same descriptor reproduces a structurally equal value.
pub proof fn lemma_codec_round_trip(cache: SpecCache, d: SpecDesc, v: SpecVal)
    requires
        value_matches(cache, d, v),
    ensures
        spec_encode(cache, d, v) == Result::<SpecVal, SpecDispatchError>::Ok(v),
        spec_decode(cache, d, spec_encode(cache, d, v)->Ok_0) == Result::<SpecVal, SpecDispatchError>::Ok(v),
{
}

} // verus!
