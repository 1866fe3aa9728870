//! The memoizing type cache.
//!
//! Named shapes are supplied as [`TypeDef`]s by the application (the
//! reflection mechanism proper is an external collaborator). During the build
//! phase, [`describe`] walks every named shape a descriptor references and
//! records its object shape in the shared [`TypeCache`], each name at most
//! once. A name enters the cache before its own fields are explored, so a
//! shape that references itself — directly or through a cycle — is recorded
//! once and terminates, rather than recursing forever.

use vstd::prelude::*;
use vstd::seq_lib::seq_to_set_is_finite;

use crate::descriptor::{clone_descriptor, spec_of_desc, spec_of_desc_fields, Descriptor, SpecCache, SpecDesc};
use crate::errors::{ConfigurationError, SpecConfigError};
use crate::value::{assoc_lookup, lemma_assoc_lookup_push, lemma_assoc_lookup_skip};

verus! {

/// A named object shape, as handed over by the application: the input of
/// descriptor computation.
#[derive(Debug)]
pub struct TypeDef {
    pub name: String,
    pub fields: Vec<(String, Descriptor)>,
}

/// Model of a definition list: an association from names to object shapes.
pub open spec fn def_entries(defs: Seq<TypeDef>) -> SpecCache {
    Seq::new(defs.len(), |i: int| (defs[i].name@, spec_of_desc_fields(defs[i].fields@)))
}

/// The memoizing registry from type name to structural object shape. Mutable
/// only during the build phase; its entries, in insertion order, are the full
/// deduplicated set of named descriptors referenced by any built procedure.
#[derive(Debug)]
pub struct TypeCache {
    pub entries: Vec<(String, Vec<(String, Descriptor)>)>,
}

/// Model of cache entries.
pub open spec fn cache_view_of(es: Seq<(String, Vec<(String, Descriptor)>)>) -> SpecCache {
    Seq::new(es.len(), |i: int| (es[i].0@, spec_of_desc_fields(es[i].1@)))
}

impl View for TypeCache {
    type V = SpecCache;

    open spec fn view(&self) -> SpecCache {
        cache_view_of(self.entries@)
    }
}

/// The names a descriptor references, in left-to-right order.
pub open spec fn ref_names(d: SpecDesc) -> Seq<Seq<char>>
    decreases d, 0int,
{
    match d {
        SpecDesc::Null => Seq::empty(),
        SpecDesc::Bool => Seq::empty(),
        SpecDesc::Int => Seq::empty(),
        SpecDesc::Str => Seq::empty(),
        SpecDesc::List(d1) => ref_names(*d1),
        SpecDesc::Optional(d1) => ref_names(*d1),
        SpecDesc::Object(fields) => ref_names_fields(fields, 0),
        SpecDesc::Ref(n) => seq![n],
    }
}

/// The names referenced by the fields of an object shape, from index `i` on.
pub open spec fn ref_names_fields(fields: Seq<(Seq<char>, SpecDesc)>, i: int) -> Seq<Seq<char>>
    decreases fields, fields.len() - i,
{
    if 0 <= i < fields.len() {
        ref_names(fields[i].1) + ref_names_fields(fields, i + 1)
    } else {
        Seq::empty()
    }
}

/// Every name in `ns` is bound in `env`.
pub open spec fn names_defined(ns: Seq<Seq<char>>, env: SpecCache) -> bool {
    forall|j: int| 0 <= j < ns.len() ==> assoc_lookup(env, #[trigger] ns[j]) is Some
}

/// Every definition's fields reference only defined names.
pub open spec fn defs_closed(env: SpecCache) -> bool {
    forall|i: int| 0 <= i < env.len() ==>
        names_defined(ref_names_fields(#[trigger] env[i].1, 0), env)
}

/// Every cache entry repeats its definition exactly.
pub open spec fn cache_consistent(cache: SpecCache, env: SpecCache) -> bool {
    forall|i: int| 0 <= i < cache.len() ==>
        assoc_lookup(env, #[trigger] cache[i].0) == Option::Some(cache[i].1)
}

/// Every name referenced from inside the cache is itself cached, so shape
/// checking never runs off the edge of the cache.
pub open spec fn cache_closed(cache: SpecCache) -> bool {
    forall|i: int| 0 <= i < cache.len() ==>
        names_defined(ref_names_fields(#[trigger] cache[i].1, 0), cache)
}

/// The views of a list of names.
pub open spec fn names_view(s: Seq<String>) -> Seq<Seq<char>> {
    Seq::new(s.len(), |i: int| s[i]@)
}

/// Every name in `ns` is cached already or still waiting in `pnames`.
pub open spec fn all_covered(ns: Seq<Seq<char>>, cache: SpecCache, pnames: Seq<Seq<char>>) -> bool {
    forall|j: int| 0 <= j < ns.len() ==>
        assoc_lookup(cache, #[trigger] ns[j]) is Some || pnames.contains(ns[j])
}

/// The keys of an association list.
pub open spec fn keys_of(c: SpecCache) -> Seq<Seq<char>> {
    Seq::new(c.len(), |i: int| c[i].0)
}

/// How many defined names the cache has not started yet: the termination
/// measure of descriptor computation.
pub open spec fn unstarted(env: SpecCache, cache: SpecCache) -> nat {
    keys_of(env).to_set().difference(keys_of(cache).to_set()).len()
}

/// A lookup succeeds exactly when some entry carries the key.
pub proof fn lemma_assoc_lookup_membership<T>(entries: Seq<(Seq<char>, T)>, key: Seq<char>)
    ensures
        (assoc_lookup(entries, key) is Some)
            <==> (exists|i: int| 0 <= i < entries.len() && entries[i].0 == key),
    decreases entries.len(),
{
    if entries.len() > 0 && entries[0].0 != key {
        lemma_assoc_lookup_membership(entries.drop_first(), key);
        if exists|i: int| 0 <= i < entries.len() && entries[i].0 == key {
            let i = choose|i: int| 0 <= i < entries.len() && entries[i].0 == key;
            assert(entries.drop_first()[i - 1] == entries[i]);
        }
        if assoc_lookup(entries.drop_first(), key) is Some {
            let i = choose|i: int|
                0 <= i < entries.drop_first().len() && entries.drop_first()[i].0 == key;
            assert(entries[i + 1].0 == key);
        }
    }
}

impl TypeCache {
    /// Distinct entries carry distinct names: each identity is computed at
    /// most once.
    pub open spec fn wf(&self) -> bool {
        forall|i: int, j: int| 0 <= i < j < self@.len() ==> self@[i].0 != self@[j].0
    }

    /// The empty cache.
    pub fn new() -> (c: TypeCache)
        ensures
            c@ == Seq::<(Seq<char>, Seq<(Seq<char>, SpecDesc)>)>::empty(),
            c.wf(),
    {
        let c = TypeCache { entries: Vec::new() };
        proof {
            assert(c@ =~= Seq::<(Seq<char>, Seq<(Seq<char>, SpecDesc)>)>::empty());
        }
        c
    }

    /// Finds the object shape cached under a name, if any.
    pub fn lookup(&self, name: &String) -> (r: Option<&Vec<(String, Descriptor)>>)
        ensures
            match r {
                Option::Some(f) => assoc_lookup(self@, name@)
                    == Option::Some(spec_of_desc_fields(f@)),
                Option::None => assoc_lookup(self@, name@) is None,
            },
    {
        let ghost entries = self@;
        let mut i: usize = 0;
        while i < self.entries.len()
            invariant
                0 <= i <= self.entries.len(),
                entries == self@,
                forall|j: int| 0 <= j < i ==> entries[j].0 != name@,
            decreases self.entries.len() - i,
        {
            proof {
                assert(entries[i as int]
                    == (self.entries@[i as int].0@, spec_of_desc_fields(self.entries@[i as int].1@)));
            }
            if self.entries[i].0 == *name {
                proof {
                    lemma_assoc_lookup_skip(entries, name@, i as int);
                    assert(entries.skip(i as int)[0] == entries[i as int]);
                }
                return Option::Some(&self.entries[i].1);
            }
            i = i + 1;
        }
        proof {
            lemma_assoc_lookup_skip(entries, name@, entries.len() as int);
            assert(entries.skip(entries.len() as int)
                =~= Seq::<(Seq<char>, Seq<(Seq<char>, SpecDesc)>)>::empty());
        }
        Option::None
    }
}

/// Finds a definition by name.
fn find_def<'a>(defs: &'a Vec<TypeDef>, name: &String) -> (r: Option<&'a Vec<(String, Descriptor)>>)
    ensures
        match r {
            Option::Some(f) => assoc_lookup(def_entries(defs@), name@)
                == Option::Some(spec_of_desc_fields(f@)),
            Option::None => assoc_lookup(def_entries(defs@), name@) is None,
        },
{
    let ghost entries = def_entries(defs@);
    let mut i: usize = 0;
    while i < defs.len()
        invariant
            0 <= i <= defs.len(),
            entries == def_entries(defs@),
            forall|j: int| 0 <= j < i ==> entries[j].0 != name@,
        decreases defs.len() - i,
    {
        proof {
            assert(entries[i as int]
                == (defs@[i as int].name@, spec_of_desc_fields(defs@[i as int].fields@)));
        }
        if defs[i].name == *name {
            proof {
                lemma_assoc_lookup_skip(entries, name@, i as int);
                assert(entries.skip(i as int)[0] == entries[i as int]);
            }
            return Option::Some(&defs[i].fields);
        }
        i = i + 1;
    }
    proof {
        lemma_assoc_lookup_skip(entries, name@, entries.len() as int);
        assert(entries.skip(entries.len() as int)
            =~= Seq::<(Seq<char>, Seq<(Seq<char>, SpecDesc)>)>::empty());
    }
    Option::None
}

/// Appends every name referenced by `d` to `out`.
fn collect_refs(d: &Descriptor, out: &mut Vec<String>)
    ensures
        names_view(final(out)@) == names_view(old(out)@) + ref_names(d@),
    decreases d, 1int,
{
    match d {
        Descriptor::Null => {
            proof {
                assert(names_view(out@) =~= names_view(old(out)@) + ref_names(d@));
            }
        },
        Descriptor::Bool => {
            proof {
                assert(names_view(out@) =~= names_view(old(out)@) + ref_names(d@));
            }
        },
        Descriptor::Int => {
            proof {
                assert(names_view(out@) =~= names_view(old(out)@) + ref_names(d@));
            }
        },
        Descriptor::Str => {
            proof {
                assert(names_view(out@) =~= names_view(old(out)@) + ref_names(d@));
            }
        },
        Descriptor::List(d1) => {
            collect_refs(d1, out);
        },
        Descriptor::Optional(d1) => {
            collect_refs(d1, out);
        },
        Descriptor::Object(fields) => {
            collect_field_refs(d, fields, out);
        },
        Descriptor::Ref(n) => {
            out.push(n.clone());
            proof {
                assert(names_view(out@) =~= names_view(old(out)@) + ref_names(d@));
            }
        },
    }
}

/// Appends every name referenced by an object's fields to `out`. `owner` is
/// the descriptor the fields belong to; it only carries the termination
/// measure.
fn collect_field_refs(owner: &Descriptor, fields: &Vec<(String, Descriptor)>, out: &mut Vec<String>)
    requires
        *owner == Descriptor::Object(*fields),
    ensures
        names_view(final(out)@) == names_view(old(out)@)
            + ref_names_fields(spec_of_desc_fields(fields@), 0),
    decreases owner, 0int,
{
    let ghost fspec = spec_of_desc_fields(fields@);
    let mut i: usize = 0;
    while i < fields.len()
        invariant
            0 <= i <= fields.len(),
            fspec == spec_of_desc_fields(fields@),
            *owner == Descriptor::Object(*fields),
            names_view(old(out)@) + ref_names_fields(fspec, 0)
                == names_view(out@) + ref_names_fields(fspec, i as int),
        decreases fields.len() - i,
    {
        let ghost out_before = out@;
        proof {
            assert(owner->Object_0 == *fields);
            vstd::std_specs::vec::axiom_vec_index_decreases(*fields, i as int);
            assert(decreases_to!(owner, 0int => fields@[i as int].1, 1int));
            assert(fspec[i as int].1 == spec_of_desc(fields@[i as int].1));
        }
        collect_refs(&fields[i].1, out);
        proof {
            assert(ref_names_fields(fspec, i as int)
                == ref_names(fspec[i as int].1) + ref_names_fields(fspec, i + 1));
            assert(names_view(old(out)@) + ref_names_fields(fspec, 0)
                =~= names_view(out@) + ref_names_fields(fspec, i + 1));
        }
        i = i + 1;
    }
    proof {
        assert(ref_names_fields(fspec, fields@.len() as int)
            =~= Seq::<Seq<char>>::empty());
        assert(names_view(old(out)@) + ref_names_fields(fspec, 0) =~= names_view(out@));
    }
}

/// Deep copy of a definition's field list.
fn clone_fields(fields: &Vec<(String, Descriptor)>) -> (r: Vec<(String, Descriptor)>)
    ensures
        spec_of_desc_fields(r@) == spec_of_desc_fields(fields@),
{
    let mut out: Vec<(String, Descriptor)> = Vec::new();
    let mut i: usize = 0;
    while i < fields.len()
        invariant
            0 <= i <= fields.len(),
            out@.len() == i,
            forall|j: int| 0 <= j < i ==>
                out@[j].0@ == fields@[j].0@ && spec_of_desc(out@[j].1) == spec_of_desc(fields@[j].1),
        decreases fields.len() - i,
    {
        out.push((fields[i].0.clone(), clone_descriptor(&fields[i].1)));
        i = i + 1;
    }
    proof {
        assert(spec_of_desc_fields(out@) =~= spec_of_desc_fields(fields@));
    }
    out
}

/// Computes the cache entries backing a descriptor: records, once each, the
/// object shape of every named type the descriptor references, directly or
/// through other named types. Returns `UnsupportedShape` for a name that has
/// no definition, leaving the cache exactly as it was. A name is recorded
/// before its fields are explored, so self-referential shapes terminate.
pub fn describe(d: &Descriptor, defs: &Vec<TypeDef>, cache: &mut TypeCache) -> (r: Result<
    (),
    ConfigurationError,
>)
    requires
        old(cache).wf(),
        cache_consistent(old(cache)@, def_entries(defs@)),
        cache_closed(old(cache)@),
    ensures
        final(cache).wf(),
        cache_consistent(final(cache)@, def_entries(defs@)),
        cache_closed(final(cache)@),
        old(cache)@.is_prefix_of(final(cache)@),
        r is Ok ==> names_defined(ref_names(d@), final(cache)@),
        match r {
            Result::Ok(()) => true,
            Result::Err(e) => final(cache)@ == old(cache)@
                && (e@ matches SpecConfigError::UnsupportedShape(n)
                    && assoc_lookup(def_entries(defs@), n) is None),
        },
        defs_closed(def_entries(defs@)) && names_defined(ref_names(d@), def_entries(defs@))
            ==> r is Ok,
{
    let ghost denv = def_entries(defs@);
    let ghost orig = cache@;
    let orig_len: usize = cache.entries.len();
    let ghost cond = defs_closed(denv) && names_defined(ref_names(d@), denv);

    let mut pending: Vec<String> = Vec::new();
    collect_refs(d, &mut pending);
    proof {
        assert(names_view(pending@) =~= ref_names(d@));
        assert(orig.is_prefix_of(cache@));
    }

    while pending.len() > 0
        invariant
            cache.wf(),
            cache_consistent(cache@, denv),
            orig.is_prefix_of(cache@),
            orig == old(cache)@,
            cache_closed(orig),
            cond == (defs_closed(denv) && names_defined(ref_names(d@), denv)),
            orig == cache_view_of(cache.entries@.subrange(0, orig_len as int)),
            orig_len <= cache.entries.len(),
            denv == def_entries(defs@),
            forall|i: int| 0 <= i < cache@.len() ==>
                all_covered(ref_names_fields(#[trigger] cache@[i].1, 0), cache@, names_view(pending@)),
            all_covered(ref_names(d@), cache@, names_view(pending@)),
            cond ==> names_defined(names_view(pending@), denv),
        decreases unstarted(denv, cache@), pending@.len(),
    {
        let ghost cache0 = cache@;
        let ghost pnames0 = names_view(pending@);
        let n = pending.pop().unwrap();
        let ghost pnames1 = names_view(pending@);
        proof {
            assert(pnames1 =~= pnames0.drop_last());
            assert(pnames0[pnames0.len() - 1] == n@);
            assert(pnames0.contains(n@));
            assert forall|x: Seq<char>| pnames0.contains(x) && x != n@ implies pnames1.contains(x) by {
                let j = choose|j: int| 0 <= j < pnames0.len() && pnames0[j] == x;
                assert(pnames1[j] == x);
            }
        }
        let already = cache.lookup(&n);
        if already.is_some() {
            proof {
                assert forall|x: Seq<char>|
                    (assoc_lookup(cache@, x) is Some || pnames0.contains(x))
                    implies (assoc_lookup(cache@, x) is Some || pnames1.contains(x)) by {
                    if assoc_lookup(cache@, x) is None && pnames0.contains(x) {
                        if x == n@ {
                            assert(false);
                        } else {
                            assert(pnames1.contains(x));
                        }
                    }
                }
            }
            continue;
        }
        match find_def(defs, &n) {
            Option::None => {
                proof {
                    if cond {
                        assert(pnames0.contains(n@));
                        let j = choose|j: int| 0 <= j < pnames0.len() && pnames0[j] == n@;
                        assert(assoc_lookup(denv, pnames0[j]) is Some);
                        assert(false);
                    }
                }
                let ghost pre_entries = cache.entries@;
                cache.entries.truncate(orig_len);
                proof {
                    assert(cache.entries@ == pre_entries.subrange(0, orig_len as int));
                    assert(cache@ =~= cache_view_of(pre_entries.subrange(0, orig_len as int)));
                    assert(cache@ == orig);
                    assert(orig == old(cache)@);
                    assert(old(cache)@.is_prefix_of(cache@)) by {
                        assert(cache@.subrange(0, old(cache)@.len() as int) =~= old(cache)@);
                    }
                }
                return Result::Err(ConfigurationError::UnsupportedShape(n));
            },
            Option::Some(def_fields) => {
                let cloned = clone_fields(def_fields);
                let ghost fview = spec_of_desc_fields(def_fields@);
                let entry_name = n.clone();
                cache.entries.push((entry_name, cloned));
                proof {
                    assert(cache@ =~= cache0.push((n@, fview)));
                    lemma_assoc_lookup_membership(cache0, n@);
                    assert(forall|i: int| 0 <= i < cache0.len() ==> cache0[i].0 != n@);
                    // well-formedness and consistency of the extended cache
                    assert(forall|i: int| 0 <= i < cache0.len() ==> cache@[i] == cache0[i]);
                    // the measure strictly decreases: n is defined and was not cached
                    lemma_assoc_lookup_membership(denv, n@);
                    let i_def = choose|i: int| 0 <= i < denv.len() && denv[i].0 == n@;
                    assert(keys_of(denv)[i_def] == n@);
                    assert(keys_of(denv).contains(n@));
                    assert(keys_of(denv).to_set().contains(n@));
                    assert(!keys_of(cache0).contains(n@)) by {
                        if keys_of(cache0).contains(n@) {
                            let j = choose|j: int|
                                0 <= j < keys_of(cache0).len() && keys_of(cache0)[j] == n@;
                            assert(cache0[j].0 == n@);
                        }
                    }
                    assert(!keys_of(cache0).to_set().contains(n@));
                    seq_to_set_is_finite(keys_of(denv));
                    assert(keys_of(cache@) =~= keys_of(cache0).push(n@));
                    assert(keys_of(cache@).to_set() =~= keys_of(cache0).to_set().insert(n@)) by {
                        assert forall|x: Seq<char>| keys_of(cache@).contains(x)
                            implies keys_of(cache0).to_set().insert(n@).contains(x) by {
                            let j = choose|j: int|
                                0 <= j < keys_of(cache@).len() && keys_of(cache@)[j] == x;
                            if j < keys_of(cache0).len() {
                                assert(keys_of(cache0)[j] == x);
                            }
                        }
                        assert forall|x: Seq<char>| keys_of(cache0).to_set().insert(n@).contains(x)
                            implies keys_of(cache@).contains(x) by {
                            if keys_of(cache0).contains(x) {
                                let j = choose|j: int|
                                    0 <= j < keys_of(cache0).len() && keys_of(cache0)[j] == x;
                                assert(keys_of(cache@)[j] == x);
                            } else {
                                assert(keys_of(cache@)[keys_of(cache0).len() as int] == n@);
                            }
                        }
                    }
                    keys_of(denv).to_set().lemma_set_insert_diff_decreases(
                        keys_of(cache0).to_set(),
                        n@,
                    );
                }
                let ghost pnames_before_refs = names_view(pending@);
                collect_field_refs_plain(def_fields, &mut pending);
                proof {
                    let pnames2 = names_view(pending@);
                    assert(pnames2 == pnames_before_refs + ref_names_fields(fview, 0));
                    // previously covered names stay covered
                    assert forall|x: Seq<char>|
                        (assoc_lookup(cache0, x) is Some || pnames0.contains(x))
                        implies (assoc_lookup(cache@, x) is Some || pnames2.contains(x)) by {
                        if assoc_lookup(cache0, x) is Some {
                            lemma_assoc_lookup_push(cache0, x, (n@, fview));
                        } else if pnames0.contains(x) {
                            if x == n@ {
                                lemma_assoc_lookup_push(cache0, x, (n@, fview));
                            } else {
                                assert(pnames1.contains(x));
                                let j = choose|j: int|
                                    0 <= j < pnames1.len() && pnames1[j] == x;
                                assert(pnames2[j] == x);
                            }
                        }
                    }
                    // the fresh entry's references are all pending
                    assert forall|j: int| 0 <= j < ref_names_fields(fview, 0).len()
                        implies (assoc_lookup(cache@, #[trigger] ref_names_fields(fview, 0)[j]) is Some
                            || pnames2.contains(ref_names_fields(fview, 0)[j])) by {
                        assert(pnames2[pnames_before_refs.len() + j]
                            == ref_names_fields(fview, 0)[j]);
                    }
                    // the cache stays consistent: the fresh entry equals its definition
                    assert(cache@[cache0.len() as int] == (n@, fview));
                    // pending names stay defined under the closure hypothesis
                    if cond {
                        assert(names_defined(ref_names_fields(fview, 0), denv)) by {
                            lemma_assoc_lookup_value(denv, n@);
                            let i_def = choose|i: int|
                                0 <= i < denv.len() && denv[i].0 == n@ && denv[i].1 == fview;
                            assert(names_defined(ref_names_fields(denv[i_def].1, 0), denv));
                        }
                        assert forall|j: int| 0 <= j < pnames2.len()
                            implies assoc_lookup(denv, #[trigger] pnames2[j]) is Some by {
                            if j < pnames_before_refs.len() {
                                assert(pnames_before_refs[j] == pnames1[j]);
                                assert(pnames1.contains(pnames1[j]));
                                let jj = choose|jj: int|
                                    0 <= jj < pnames0.len() && pnames0[jj] == pnames1[j];
                                assert(assoc_lookup(denv, pnames0[jj]) is Some);
                            } else {
                                assert(pnames2[j]
                                    == ref_names_fields(fview, 0)[j - pnames_before_refs.len()]);
                            }
                        }
                    }
                }
            },
        }
    }
    proof {
        assert(names_view(pending@) =~= Seq::<Seq<char>>::empty());
        assert forall|i: int| 0 <= i < cache@.len()
            implies names_defined(ref_names_fields(#[trigger] cache@[i].1, 0), cache@) by {
            assert(all_covered(ref_names_fields(cache@[i].1, 0), cache@, names_view(pending@)));
        }
    }
    Result::Ok(())
}

/// A successful lookup returns the value of some entry carrying the key.
proof fn lemma_assoc_lookup_value<T>(entries: Seq<(Seq<char>, T)>, key: Seq<char>)
    requires
        assoc_lookup(entries, key) is Some,
    ensures
        exists|i: int| 0 <= i < entries.len() && entries[i].0 == key
            && entries[i].1 == assoc_lookup(entries, key)->Some_0,
    decreases entries.len(),
{
    if entries.len() > 0 && entries[0].0 != key {
        lemma_assoc_lookup_value(entries.drop_first(), key);
        let i = choose|i: int|
            0 <= i < entries.drop_first().len() && entries.drop_first()[i].0 == key
                && entries.drop_first()[i].1 == assoc_lookup(entries.drop_first(), key)->Some_0;
        assert(entries[i + 1].0 == key);
    }
}

/// Appends every name referenced by a definition's fields to `out`.
fn collect_field_refs_plain(fields: &Vec<(String, Descriptor)>, out: &mut Vec<String>)
    ensures
        names_view(final(out)@) == names_view(old(out)@)
            + ref_names_fields(spec_of_desc_fields(fields@), 0),
{
    let ghost fspec = spec_of_desc_fields(fields@);
    let mut i: usize = 0;
    while i < fields.len()
        invariant
            0 <= i <= fields.len(),
            fspec == spec_of_desc_fields(fields@),
            names_view(old(out)@) + ref_names_fields(fspec, 0)
                == names_view(out@) + ref_names_fields(fspec, i as int),
        decreases fields.len() - i,
    {
        proof {
            assert(fspec[i as int].1 == spec_of_desc(fields@[i as int].1));
        }
        collect_refs(&fields[i].1, out);
        proof {
            assert(ref_names_fields(fspec, i as int)
                == ref_names(fspec[i as int].1) + ref_names_fields(fspec, i + 1));
            assert(names_view(old(out)@) + ref_names_fields(fspec, 0)
                =~= names_view(out@) + ref_names_fields(fspec, i + 1));
        }
        i = i + 1;
    }
    proof {
        assert(ref_names_fields(fspec, fields@.len() as int) =~= Seq::<Seq<char>>::empty());
        assert(names_view(old(out)@) + ref_names_fields(fspec, 0) =~= names_view(out@));
    }
}

} // verus!
