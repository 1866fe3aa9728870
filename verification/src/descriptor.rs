//! Structural type descriptors.
//!
//! A [`Descriptor`] is the shape of an argument or result as exported for
//! client code generation, and the shape raw values are checked against at
//! every chain boundary. Named shapes are referenced by [`Descriptor::Ref`]
//! and resolved through the type cache, which is what keeps self-referential
//! shapes finite.

use vstd::prelude::*;

use crate::value::{assoc_lookup, SpecVal, Value};

verus! {

/// Mathematical model of a descriptor: the ghost counterpart of [`Descriptor`].
pub enum SpecDesc {
    Null,
    Bool,
    Int,
    Str,
    List(Box<SpecDesc>),
    Optional(Box<SpecDesc>),
    Object(Seq<(Seq<char>, SpecDesc)>),
    Ref(Seq<char>),
}

/// The structural shape of a value: primitives, homogeneous lists, optional
/// values, anonymous objects with ordered fields, and references to named
/// shapes held by the type cache.
#[derive(Debug, PartialEq, Eq)]
pub enum Descriptor {
    Null,
    Bool,
    Int,
    Str,
    List(Box<Descriptor>),
    Optional(Box<Descriptor>),
    Object(Vec<(String, Descriptor)>),
    Ref(String),
}

/// Model of a descriptor, by structural recursion.
pub open spec fn spec_of_desc(d: Descriptor) -> SpecDesc
    decreases d,
{
    match d {
        Descriptor::Null => SpecDesc::Null,
        Descriptor::Bool => SpecDesc::Bool,
        Descriptor::Int => SpecDesc::Int,
        Descriptor::Str => SpecDesc::Str,
        Descriptor::List(d1) => SpecDesc::List(Box::new(spec_of_desc(*d1))),
        Descriptor::Optional(d1) => SpecDesc::Optional(Box::new(spec_of_desc(*d1))),
        Descriptor::Object(fields) => SpecDesc::Object(spec_of_desc_fields(fields@)),
        Descriptor::Ref(n) => SpecDesc::Ref(n@),
    }
}

/// Model of an ordered descriptor field list.
pub open spec fn spec_of_desc_fields(fields: Seq<(String, Descriptor)>) -> Seq<(Seq<char>, SpecDesc)>
    decreases fields,
{
    Seq::new(
        fields.len(),
        |i: int| if 0 <= i < fields.len() {
            (fields[i].0@, spec_of_desc(fields[i].1))
        } else {
            (Seq::empty(), SpecDesc::Null)
        },
    )
}

impl View for Descriptor {
    type V = SpecDesc;

    open spec fn view(&self) -> SpecDesc {
        spec_of_desc(*self)
    }
}

/// The model of a type cache: named object shapes, in insertion order.
pub type SpecCache = Seq<(Seq<char>, Seq<(Seq<char>, SpecDesc)>)>;

/// Whether value `v` has shape `d`, resolving named references through
/// `cache`. A reference to a name the cache does not hold matches nothing.
pub open spec fn value_matches(cache: SpecCache, d: SpecDesc, v: SpecVal) -> bool
    decreases v, d, 0int,
{
    match d {
        SpecDesc::Null => v is Null,
        SpecDesc::Bool => v is Bool,
        SpecDesc::Int => v is Int,
        SpecDesc::Str => v is Str,
        SpecDesc::List(d1) => match v {
            SpecVal::Arr(items) => forall|i: int|
                0 <= i < items.len() ==> value_matches(cache, *d1, #[trigger] items[i]),
            _ => false,
        },
        SpecDesc::Optional(d1) => v is Null || value_matches(cache, *d1, v),
        SpecDesc::Object(fields) => match v {
            SpecVal::Obj(vfs) => vfs.len() == fields.len()
                && obj_fields_match(cache, fields, vfs, 0),
            _ => false,
        },
        SpecDesc::Ref(n) => match assoc_lookup(cache, n) {
            Option::Some(fields) => match v {
                SpecVal::Obj(vfs) => vfs.len() == fields.len()
                    && obj_fields_match(cache, fields, vfs, 0),
                _ => false,
            },
            Option::None => false,
        },
    }
}

/// Whether every field of object value `vfs` from index `i` on carries its
/// declared name and matches its declared shape.
pub open spec fn obj_fields_match(
    cache: SpecCache,
    fields: Seq<(Seq<char>, SpecDesc)>,
    vfs: Seq<(Seq<char>, SpecVal)>,
    i: int,
) -> bool
    decreases vfs, fields, fields.len() - i,
{
    if 0 <= i < fields.len() && i < vfs.len() {
        vfs[i].0 == fields[i].0 && value_matches(cache, fields[i].1, vfs[i].1)
            && obj_fields_match(cache, fields, vfs, i + 1)
    } else {
        true
    }
}

/// Deep copy of a descriptor, equal to the original in the model.
pub fn clone_descriptor(d: &Descriptor) -> (r: Descriptor)
    ensures
        r@ == d@,
    decreases d, 1int,
{
    match d {
        Descriptor::Null => Descriptor::Null,
        Descriptor::Bool => Descriptor::Bool,
        Descriptor::Int => Descriptor::Int,
        Descriptor::Str => Descriptor::Str,
        Descriptor::List(d1) => Descriptor::List(Box::new(clone_descriptor(d1))),
        Descriptor::Optional(d1) => Descriptor::Optional(Box::new(clone_descriptor(d1))),
        Descriptor::Object(fields) => Descriptor::Object(clone_desc_fields(d, fields)),
        Descriptor::Ref(n) => Descriptor::Ref(n.clone()),
    }
}

/// Deep copy of a descriptor field list. `owner` is the descriptor the list
/// belongs to; it only carries the termination measure.
fn clone_desc_fields(owner: &Descriptor, fields: &Vec<(String, Descriptor)>) -> (r: Vec<(String, Descriptor)>)
    requires
        *owner == Descriptor::Object(*fields),
    ensures
        spec_of_desc_fields(r@) == spec_of_desc_fields(fields@),
    decreases owner, 0int,
{
    let mut out: Vec<(String, Descriptor)> = Vec::new();
    let mut i: usize = 0;
    while i < fields.len()
        invariant
            0 <= i <= fields.len(),
            out@.len() == i,
            *owner == Descriptor::Object(*fields),
            forall|j: int| 0 <= j < i ==>
                out@[j].0@ == fields@[j].0@ && spec_of_desc(out@[j].1) == spec_of_desc(fields@[j].1),
        decreases fields.len() - i,
    {
        proof {
            assert(owner->Object_0 == *fields);
            vstd::std_specs::vec::axiom_vec_index_decreases(*fields, i as int);
            assert(decreases_to!(owner, 0int => fields@[i as int].1, 1int));
        }
        out.push((fields[i].0.clone(), clone_descriptor(&fields[i].1)));
        i = i + 1;
    }
    proof {
        assert(spec_of_desc_fields(out@) =~= spec_of_desc_fields(fields@));
    }
    out
}

} // verus!
