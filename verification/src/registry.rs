//! The procedure registry.
//!
//! Three partitions — one per [`ProcedureKind`] — each mapping an endpoint
//! key to its built entry, in insertion order. A key is unique within its
//! partition: inserting a duplicate is an error, never a silent overwrite.
//! The registry is filled single-threaded during the build phase and is read
//! only once calls are dispatched.

use vstd::prelude::*;

use crate::descriptor::{Descriptor, SpecDesc};
use crate::errors::{ConfigurationError, SpecConfigError};
use crate::middleware::{Layer, SpecLayer};
use crate::resolver::{ResolverDef, SpecResolverDef};
use crate::value::{assoc_lookup, lemma_assoc_lookup_push, lemma_assoc_lookup_skip};

verus! {

/// The kind of a procedure, fixed when its resolver is attached. It decides
/// the result shape (single value or stream) and the registry partition.
#[derive(Clone, Copy, Debug, PartialEq, Eq, Structural)]
pub enum ProcedureKind {
    Query,
    Mutation,
    Subscription,
}

/// Ghost model of a registry entry.
pub struct SpecEntry {
    pub key: Seq<char>,
    pub kind: ProcedureKind,
    pub chain: Seq<SpecLayer>,
    pub resolver: SpecResolverDef,
    pub arg_descriptor: SpecDesc,
    pub result_descriptor: SpecDesc,
}

/// One built procedure: its key, kind, executable parts (the chain and the
/// resolver the dispatcher interprets) and the two descriptors exported for
/// client generation. The argument descriptor is the outer combined shape,
/// before any argument mapper narrows it.
#[derive(Debug)]
pub struct Entry {
    pub key: String,
    pub kind: ProcedureKind,
    pub chain: Vec<Layer>,
    pub resolver: ResolverDef,
    pub arg_descriptor: Descriptor,
    pub result_descriptor: Descriptor,
}

/// Model of a middleware chain.
pub open spec fn chain_view(chain: Seq<Layer>) -> Seq<SpecLayer> {
    Seq::new(chain.len(), |i: int| chain[i]@)
}

impl View for Entry {
    type V = SpecEntry;

    open spec fn view(&self) -> SpecEntry {
        SpecEntry {
            key: self.key@,
            kind: self.kind,
            chain: chain_view(self.chain@),
            resolver: self.resolver@,
            arg_descriptor: self.arg_descriptor@,
            result_descriptor: self.result_descriptor@,
        }
    }
}

/// Model of one partition: an association from key to entry.
pub open spec fn partition_view(es: Seq<Entry>) -> Seq<(Seq<char>, SpecEntry)> {
    Seq::new(es.len(), |i: int| (es[i].key@, es[i]@))
}

/// The per-kind mappings from endpoint key to built entry.
#[derive(Debug)]
pub struct Registry {
    pub queries: Vec<Entry>,
    pub mutations: Vec<Entry>,
    pub subscriptions: Vec<Entry>,
}

impl Registry {
    /// The model of the partition serving `kind`.
    pub open spec fn spec_partition(&self, kind: ProcedureKind) -> Seq<(Seq<char>, SpecEntry)> {
        match kind {
            ProcedureKind::Query => partition_view(self.queries@),
            ProcedureKind::Mutation => partition_view(self.mutations@),
            ProcedureKind::Subscription => partition_view(self.subscriptions@),
        }
    }

    /// Keys are unique within each partition, and every entry sits in the
    /// partition of its own kind under its own key.
    pub open spec fn wf(&self) -> bool {
        forall|kind: ProcedureKind, i: int, j: int|
            0 <= i < j < self.spec_partition(kind).len()
                ==> (#[trigger] self.spec_partition(kind)[i]).0
                    != (#[trigger] self.spec_partition(kind)[j]).0
    }

    /// The empty registry.
    pub fn new() -> (r: Registry)
        ensures
            r.spec_partition(ProcedureKind::Query) == Seq::<(Seq<char>, SpecEntry)>::empty(),
            r.spec_partition(ProcedureKind::Mutation) == Seq::<(Seq<char>, SpecEntry)>::empty(),
            r.spec_partition(ProcedureKind::Subscription) == Seq::<(Seq<char>, SpecEntry)>::empty(),
            r.wf(),
    {
        let r = Registry { queries: Vec::new(), mutations: Vec::new(), subscriptions: Vec::new() };
        proof {
            assert(r.spec_partition(ProcedureKind::Query) =~= Seq::<(Seq<char>, SpecEntry)>::empty());
            assert(r.spec_partition(ProcedureKind::Mutation) =~= Seq::<(Seq<char>, SpecEntry)>::empty());
            assert(r.spec_partition(ProcedureKind::Subscription) =~= Seq::<(Seq<char>, SpecEntry)>::empty());
        }
        r
    }

    /// Inserts a built entry into the partition of its kind. Fails — and
    /// leaves every partition untouched — exactly when the key is already
    /// taken there; the other partitions never change.
    pub fn append(&mut self, entry: Entry) -> (r: Result<(), ConfigurationError>)
        requires
            old(self).wf(),
        ensures
            final(self).wf(),
            r is Ok <==> assoc_lookup(old(self).spec_partition(entry.kind), entry.key@) is None,
            r is Ok ==> final(self).spec_partition(entry.kind)
                == old(self).spec_partition(entry.kind).push((entry.key@, entry@)),
            r is Ok ==> forall|k: ProcedureKind| k != entry.kind
                ==> final(self).spec_partition(k) == old(self).spec_partition(k),
            match r {
                Result::Ok(()) => true,
                Result::Err(e) => e@ == SpecConfigError::DuplicateKey(entry.key@)
                    && forall|k: ProcedureKind|
                        final(self).spec_partition(k) == old(self).spec_partition(k),
            },
    {
        let ghost kind = entry.kind;
        let ghost part0 = self.spec_partition(entry.kind);
        let taken = {
            let existing = self.get(&entry.key, entry.kind);
            existing.is_some()
        };
        if taken {
            return Result::Err(ConfigurationError::DuplicateKey(entry.key.clone()));
        }
        proof {
            assert(assoc_lookup(part0, entry.key@) is None);
        }
        let ghost e_pair = (entry.key@, entry@);
        match entry.kind {
            ProcedureKind::Query => self.queries.push(entry),
            ProcedureKind::Mutation => self.mutations.push(entry),
            ProcedureKind::Subscription => self.subscriptions.push(entry),
        }
        proof {
            assert(self.spec_partition(kind) =~= part0.push(e_pair));
            assert forall|k: ProcedureKind| k != kind
                implies self.spec_partition(k) == old(self).spec_partition(k) by {
                assert(self.spec_partition(k) =~= old(self).spec_partition(k));
            }
            assert(self.wf()) by {
                lemma_assoc_lookup_membership_keys(part0, entry.key@);
            }
        }
        Result::Ok(())
    }

    /// Looks an endpoint up by key in the partition serving `kind`.
    pub fn get(&self, key: &String, kind: ProcedureKind) -> (r: Option<&Entry>)
        ensures
            match r {
                Option::Some(e) => assoc_lookup(self.spec_partition(kind), key@)
                    == Option::Some(e@),
                Option::None => assoc_lookup(self.spec_partition(kind), key@) is None,
            },
    {
        let part: &Vec<Entry> = match kind {
            ProcedureKind::Query => &self.queries,
            ProcedureKind::Mutation => &self.mutations,
            ProcedureKind::Subscription => &self.subscriptions,
        };
        let ghost entries = self.spec_partition(kind);
        proof {
            assert(entries == partition_view(part@));
        }
        let mut i: usize = 0;
        while i < part.len()
            invariant
                0 <= i <= part.len(),
                entries == partition_view(part@),
                entries == self.spec_partition(kind),
                forall|j: int| 0 <= j < i ==> entries[j].0 != key@,
            decreases part.len() - i,
        {
            proof {
                assert(entries[i as int] == (part@[i as int].key@, part@[i as int]@));
            }
            if part[i].key == *key {
                proof {
                    lemma_assoc_lookup_skip(entries, key@, i as int);
                    assert(entries.skip(i as int)[0] == entries[i as int]);
                }
                return Option::Some(&part[i]);
            }
            i = i + 1;
        }
        proof {
            lemma_assoc_lookup_skip(entries, key@, entries.len() as int);
            assert(entries.skip(entries.len() as int) =~= Seq::<(Seq<char>, SpecEntry)>::empty());
        }
        Option::None
    }

    /// The entries of one partition, in insertion order: the introspection
    /// and type-export surface.
    pub fn enumerate(&self, kind: ProcedureKind) -> (r: &Vec<Entry>)
        ensures
            partition_view(r@) == self.spec_partition(kind),
    {
        match kind {
            ProcedureKind::Query => &self.queries,
            ProcedureKind::Mutation => &self.mutations,
            ProcedureKind::Subscription => &self.subscriptions,
        }
    }
}

/// No key occurs twice among `entries` extended by a fresh key.
proof fn lemma_assoc_lookup_membership_keys(entries: Seq<(Seq<char>, SpecEntry)>, key: Seq<char>)
    requires
        assoc_lookup(entries, key) is None,
    ensures
        forall|i: int| 0 <= i < entries.len() ==> #[trigger] entries[i].0 != key,
{
    crate::cache::lemma_assoc_lookup_membership(entries, key);
}

/// Law: once a key is admitted into a partition, the same key is taken there
/// — a second insertion under the same kind is refused as a duplicate — while
/// every other partition is left as it was, so the same key under another
/// kind is admitted exactly as before.
pub proof fn lemma_duplicate_key_scope(part: Seq<(Seq<char>, SpecEntry)>, key: Seq<char>, e: SpecEntry)
    requires
        assoc_lookup(part, key) is None,
    ensures
        assoc_lookup(part.push((key, e)), key) == Option::Some(e),
    decreases part.len(),
{
    lemma_assoc_lookup_push(part, key, (key, e));
}

} // verus!
