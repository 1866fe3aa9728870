//! Resolvers: the application-supplied business logic of one procedure.
//!
//! In this dynamic model a resolver is data interpreted by the dispatcher: a
//! function from the final context and the decoded typed argument to a single
//! result value (queries and mutations) or a list of values (subscriptions).
//! A resolver's own fallible outcome is an application-level error, kept
//! distinct from every framework-internal error.

use vstd::prelude::*;

use crate::descriptor::{Descriptor, SpecDesc};
use crate::value::{clone_value, obj_get, spec_get_field, SpecVal, Value};

verus! {

/// Ghost model of resolver logic.
pub enum SpecResolverLogic {
    Echo,
    Const(SpecVal),
    IntTable(Seq<(int, SpecVal)>),
    CtxField(Seq<char>),
    Fail(Seq<char>),
}

/// What a resolver computes from (context, argument).
#[derive(Debug)]
pub enum ResolverLogic {
    /// Returns the typed argument unchanged.
    Echo,
    /// Returns a fixed value.
    Const(Value),
    /// Looks an integer argument up in a table; a missing key is the
    /// resolver's own error.
    IntTable(Vec<(i64, Value)>),
    /// Returns a field of the final context bag; a missing field is the
    /// resolver's own error.
    CtxField(String),
    /// Always fails with an application-level error.
    Fail(String),
}

/// Model of an integer table.
pub open spec fn int_table_view(t: Seq<(i64, Value)>) -> Seq<(int, SpecVal)> {
    Seq::new(t.len(), |i: int| (t[i].0 as int, t[i].1@))
}

impl View for ResolverLogic {
    type V = SpecResolverLogic;

    open spec fn view(&self) -> SpecResolverLogic {
        match self {
            ResolverLogic::Echo => SpecResolverLogic::Echo,
            ResolverLogic::Const(v) => SpecResolverLogic::Const(v@),
            ResolverLogic::IntTable(t) => SpecResolverLogic::IntTable(int_table_view(t@)),
            ResolverLogic::CtxField(k) => SpecResolverLogic::CtxField(k@),
            ResolverLogic::Fail(m) => SpecResolverLogic::Fail(m@),
        }
    }
}

/// Ghost model of a resolver definition.
pub struct SpecResolverDef {
    pub logic: SpecResolverLogic,
    pub arg_shape: SpecDesc,
    pub result_shape: SpecDesc,
}

/// A resolver with its declared argument and result shapes.
#[derive(Debug)]
pub struct ResolverDef {
    pub logic: ResolverLogic,
    pub arg_shape: Descriptor,
    pub result_shape: Descriptor,
}

impl View for ResolverDef {
    type V = SpecResolverDef;

    open spec fn view(&self) -> SpecResolverDef {
        SpecResolverDef {
            logic: self.logic@,
            arg_shape: self.arg_shape@,
            result_shape: self.result_shape@,
        }
    }
}

/// First-match lookup in an integer table.
pub open spec fn int_lookup(t: Seq<(int, SpecVal)>, k: int) -> Option<SpecVal>
    decreases t.len(),
{
    if t.len() == 0 {
        Option::None
    } else if t[0].0 == k {
        Option::Some(t[0].1)
    } else {
        int_lookup(t.drop_first(), k)
    }
}

/// A prefix of entries with other keys does not change an integer lookup.
proof fn lemma_int_lookup_skip(t: Seq<(int, SpecVal)>, k: int, i: int)
    requires
        0 <= i <= t.len(),
        forall|j: int| 0 <= j < i ==> t[j].0 != k,
    ensures
        int_lookup(t, k) == int_lookup(t.skip(i), k),
    decreases i,
{
    if i > 0 {
        assert(forall|j: int| 0 <= j < i - 1 ==> t.drop_first()[j].0 == t[j + 1].0);
        lemma_int_lookup_skip(t.drop_first(), k, i - 1);
        assert(t.drop_first().skip(i - 1) =~= t.skip(i));
    } else {
        assert(t.skip(0) =~= t);
    }
}

/// What a resolver yields on the final context and decoded argument.
pub open spec fn spec_resolve(logic: SpecResolverLogic, ctx: SpecVal, arg: SpecVal) -> Result<
    SpecVal,
    Seq<char>,
> {
    match logic {
        SpecResolverLogic::Echo => Result::Ok(arg),
        SpecResolverLogic::Const(v) => Result::Ok(v),
        SpecResolverLogic::IntTable(t) => match arg {
            SpecVal::Int(k) => match int_lookup(t, k) {
                Option::Some(v) => Result::Ok(v),
                Option::None => Result::Err("no entry for key"@),
            },
            _ => Result::Err("integer argument required"@),
        },
        SpecResolverLogic::CtxField(k) => match spec_get_field(ctx, k) {
            Option::Some(v) => Result::Ok(v),
            Option::None => Result::Err("missing context field"@),
        },
        SpecResolverLogic::Fail(m) => Result::Err(m),
    }
}

/// Runs a resolver on the final context and decoded argument.
pub fn resolve(logic: &ResolverLogic, ctx: &Value, arg: &Value) -> (r: Result<Value, String>)
    ensures
        match r {
            Result::Ok(v) => spec_resolve(logic@, ctx@, arg@) == Result::<SpecVal, Seq<char>>::Ok(v@),
            Result::Err(m) => spec_resolve(logic@, ctx@, arg@) == Result::<SpecVal, Seq<char>>::Err(m@),
        },
{
    match logic {
        ResolverLogic::Echo => Result::Ok(clone_value(arg)),
        ResolverLogic::Const(v) => Result::Ok(clone_value(v)),
        ResolverLogic::IntTable(t) => match arg {
            Value::Int(k) => {
                let ghost st = int_table_view(t@);
                let mut i: usize = 0;
                while i < t.len()
                    invariant
                        0 <= i <= t.len(),
                        st == int_table_view(t@),
                        logic == ResolverLogic::IntTable(*t),
                        arg == Value::Int(*k),
                        forall|j: int| 0 <= j < i ==> st[j].0 != *k as int,
                    decreases t.len() - i,
                {
                    proof {
                        assert(st[i as int] == (t@[i as int].0 as int, t@[i as int].1@));
                    }
                    if t[i].0 == *k {
                        proof {
                            lemma_int_lookup_skip(st, *k as int, i as int);
                            assert(st.skip(i as int)[0] == st[i as int]);
                        }
                        return Result::Ok(clone_value(&t[i].1));
                    }
                    i = i + 1;
                }
                proof {
                    lemma_int_lookup_skip(st, *k as int, st.len() as int);
                    assert(st.skip(st.len() as int) =~= Seq::<(int, SpecVal)>::empty());
                }
                Result::Err("no entry for key".to_owned())
            },
            _ => Result::Err("integer argument required".to_owned()),
        },
        ResolverLogic::CtxField(key) => match ctx {
            Value::Obj(fields) => match obj_get(fields, key) {
                Option::Some(v) => Result::Ok(clone_value(v)),
                Option::None => Result::Err("missing context field".to_owned()),
            },
            _ => Result::Err("missing context field".to_owned()),
        },
        ResolverLogic::Fail(m) => Result::Err(m.clone()),
    }
}

} // verus!
