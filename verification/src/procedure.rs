//! Phase-gated construction of one procedure.
//!
//! A [`Procedure`] starts unresolved: middleware may be appended. Attaching a
//! resolver — choosing query, mutation or subscription — resolves it exactly
//! once and fixes the kind; appending middleware or a second resolver after
//! that fails fast. `build` consumes a resolved procedure: it computes the
//! externally visible argument shape (the outer combined shape, before any
//! argument mapper narrows it), records every referenced named shape in the
//! shared type cache, and inserts the entry into the registry partition of
//! its kind.

use vstd::prelude::*;

use crate::cache::{
    cache_closed, cache_consistent, def_entries, defs_closed, describe, names_defined, ref_names,
    TypeCache, TypeDef,
};
use crate::descriptor::{clone_descriptor, Descriptor, SpecDesc};
use crate::errors::{ConfigurationError, SpecConfigError};
use crate::middleware::{spec_combined_shape, Layer, LayerBehavior, SpecLayer, SpecLayerBehavior};
use crate::registry::{chain_view, Entry, ProcedureKind, Registry, SpecEntry};
use crate::resolver::{ResolverDef, SpecResolverDef};
use crate::value::assoc_lookup;

verus! {

/// Marker for a procedure that has no resolver attached yet.
#[derive(Debug, PartialEq, Eq, Structural)]
pub struct MissingResolver;

impl Default for MissingResolver {
    fn default() -> (r: Self)
        ensures
            r == MissingResolver,
    {
        MissingResolver
    }
}

/// Ghost model of the resolver slot.
pub enum SpecResolverSlot {
    Missing,
    Resolved(SpecResolverDef, ProcedureKind),
}

/// The resolver slot of a procedure under construction: the phase tag.
/// `Missing` admits further middleware; `Resolved` fixes the resolver and kind.
#[derive(Debug)]
pub enum ResolverSlot {
    Missing(MissingResolver),
    Resolved(ResolverDef, ProcedureKind),
}

impl View for ResolverSlot {
    type V = SpecResolverSlot;

    open spec fn view(&self) -> SpecResolverSlot {
        match self {
            ResolverSlot::Missing(_) => SpecResolverSlot::Missing,
            ResolverSlot::Resolved(rd, kind) => SpecResolverSlot::Resolved(rd@, *kind),
        }
    }
}

/// Ghost model of a procedure under construction.
pub struct SpecProcedure {
    pub resolver: SpecResolverSlot,
    pub mw: Seq<SpecLayer>,
}

/// One procedure under construction: its resolver slot and middleware chain.
#[derive(Debug)]
pub struct Procedure {
    pub resolver: ResolverSlot,
    pub mw: Vec<Layer>,
}

impl View for Procedure {
    type V = SpecProcedure;

    open spec fn view(&self) -> SpecProcedure {
        SpecProcedure { resolver: self.resolver@, mw: chain_view(self.mw@) }
    }
}

/// Whether a chain admits a layer: the layer's declared input-context tag
/// must match the chain's current output-context tag. The first layer's
/// input context is the caller's base context and is unconstrained.
pub open spec fn accepts_layer(mw: Seq<SpecLayer>, l: SpecLayer) -> bool {
    mw.len() == 0 || mw.last().output_tag == l.input_tag
}

/// The externally visible argument shape of a chain wrapped around `inner`:
/// each layer's argument mapper, outermost first, widens the shape the rest
/// of the chain sees to its combined shape.
pub open spec fn spec_outer_arg(chain: Seq<SpecLayer>, inner: SpecDesc) -> SpecDesc
    decreases chain.len(),
{
    if chain.len() == 0 {
        inner
    } else {
        match chain[0].behavior {
            SpecLayerBehavior::MapArg(m) => spec_combined_shape(
                m,
                spec_outer_arg(chain.drop_first(), inner),
            ),
            _ => spec_outer_arg(chain.drop_first(), inner),
        }
    }
}

/// The entry that building a resolved procedure produces.
pub open spec fn built_entry(
    key: Seq<char>,
    rd: SpecResolverDef,
    kind: ProcedureKind,
    mw: Seq<SpecLayer>,
) -> SpecEntry {
    SpecEntry {
        key: key,
        kind: kind,
        chain: mw,
        resolver: rd,
        arg_descriptor: spec_outer_arg(mw, rd.arg_shape),
        result_descriptor: rd.result_shape,
    }
}

/// The shared state of one build phase: the registry being filled, the
/// memoizing type cache, and the named shape definitions the application
/// registered. Frozen once every procedure is built, before any call is
/// dispatched.
#[derive(Debug)]
pub struct BuildCtx {
    pub registry: Registry,
    pub cache: TypeCache,
    pub defs: Vec<TypeDef>,
}

impl BuildCtx {
    /// Everything a build step assumes and preserves about the shared state.
    pub open spec fn wf(&self) -> bool {
        self.registry.wf() && self.cache.wf()
            && cache_consistent(self.cache@, def_entries(self.defs@))
            && cache_closed(self.cache@)
    }

    /// An empty build context over the given named shape definitions.
    pub fn new(defs: Vec<TypeDef>) -> (r: BuildCtx)
        ensures
            r.wf(),
            r.defs == defs,
            r.registry.spec_partition(ProcedureKind::Query)
                == Seq::<(Seq<char>, SpecEntry)>::empty(),
            r.registry.spec_partition(ProcedureKind::Mutation)
                == Seq::<(Seq<char>, SpecEntry)>::empty(),
            r.registry.spec_partition(ProcedureKind::Subscription)
                == Seq::<(Seq<char>, SpecEntry)>::empty(),
            r.cache@ == Seq::<(Seq<char>, Seq<(Seq<char>, SpecDesc)>)>::empty(),
    {
        BuildCtx { registry: Registry::new(), cache: TypeCache::new(), defs }
    }
}

impl Procedure {
    /// A procedure from a resolver slot and a middleware chain.
    pub fn new(resolver: ResolverSlot, mw: Vec<Layer>) -> (p: Procedure)
        ensures
            p@.resolver == resolver@,
            p@.mw == chain_view(mw@),
    {
        Procedure { resolver, mw }
    }

    /// Appends one constrained middleware layer: callable only while no
    /// resolver is attached, and only when the layer's declared input-context
    /// tag matches the chain's current output-context tag.
    pub fn with(self, mw: Layer) -> (r: Result<Procedure, ConfigurationError>)
        ensures
            match r {
                Result::Ok(p) => self@.resolver is Missing && accepts_layer(self@.mw, mw@)
                    && p@.resolver is Missing && p@.mw == self@.mw.push(mw@),
                Result::Err(e) => (e@ == SpecConfigError::ResolverAlreadySet
                    && self@.resolver is Resolved)
                    || (e@ == SpecConfigError::ContextShapeMismatch
                        && self@.resolver is Missing && !accepts_layer(self@.mw, mw@)),
            },
    {
        match self.resolver {
            ResolverSlot::Resolved(_, _) => Result::Err(ConfigurationError::ResolverAlreadySet),
            ResolverSlot::Missing(marker) => {
                let compatible = if self.mw.len() == 0 {
                    true
                } else {
                    let last = &self.mw[self.mw.len() - 1];
                    last.output_tag == mw.input_tag
                };
                if compatible {
                    let mut layers = self.mw;
                    let ghost before = chain_view(layers@);
                    layers.push(mw);
                    proof {
                        assert(chain_view(layers@) =~= before.push(layers@.last()@));
                    }
                    Result::Ok(Procedure { resolver: ResolverSlot::Missing(marker), mw: layers })
                } else {
                    Result::Err(ConfigurationError::ContextShapeMismatch)
                }
            },
        }
    }

    /// Appends one unconstrained middleware layer: callable only while no
    /// resolver is attached; the context tags are not checked.
    pub fn with2(self, mw: Layer) -> (r: Result<Procedure, ConfigurationError>)
        ensures
            match r {
                Result::Ok(p) => self@.resolver is Missing
                    && p@.resolver is Missing && p@.mw == self@.mw.push(mw@),
                Result::Err(e) => e@ == SpecConfigError::ResolverAlreadySet
                    && self@.resolver is Resolved,
            },
    {
        match self.resolver {
            ResolverSlot::Resolved(_, _) => Result::Err(ConfigurationError::ResolverAlreadySet),
            ResolverSlot::Missing(marker) => {
                let mut layers = self.mw;
                let ghost before = chain_view(layers@);
                layers.push(mw);
                proof {
                    assert(chain_view(layers@) =~= before.push(layers@.last()@));
                }
                Result::Ok(Procedure { resolver: ResolverSlot::Missing(marker), mw: layers })
            },
        }
    }

    /// Attaches a query resolver, fixing the kind: callable exactly once.
    pub fn query(self, resolver: ResolverDef) -> (r: Result<Procedure, ConfigurationError>)
        ensures
            match r {
                Result::Ok(p) => self@.resolver is Missing && p@.mw == self@.mw
                    && p@.resolver == SpecResolverSlot::Resolved(resolver@, ProcedureKind::Query),
                Result::Err(e) => e@ == SpecConfigError::ResolverAlreadySet
                    && self@.resolver is Resolved,
            },
    {
        match self.resolver {
            ResolverSlot::Resolved(_, _) => Result::Err(ConfigurationError::ResolverAlreadySet),
            ResolverSlot::Missing(_) => Result::Ok(Procedure {
                resolver: ResolverSlot::Resolved(resolver, ProcedureKind::Query),
                mw: self.mw,
            }),
        }
    }

    /// Attaches a mutation resolver, fixing the kind: callable exactly once.
    pub fn mutation(self, resolver: ResolverDef) -> (r: Result<Procedure, ConfigurationError>)
        ensures
            match r {
                Result::Ok(p) => self@.resolver is Missing && p@.mw == self@.mw
                    && p@.resolver == SpecResolverSlot::Resolved(resolver@, ProcedureKind::Mutation),
                Result::Err(e) => e@ == SpecConfigError::ResolverAlreadySet
                    && self@.resolver is Resolved,
            },
    {
        match self.resolver {
            ResolverSlot::Resolved(_, _) => Result::Err(ConfigurationError::ResolverAlreadySet),
            ResolverSlot::Missing(_) => Result::Ok(Procedure {
                resolver: ResolverSlot::Resolved(resolver, ProcedureKind::Mutation),
                mw: self.mw,
            }),
        }
    }

    /// Attaches a subscription resolver, fixing the kind: callable exactly
    /// once, and only with a list-shaped result — a subscription produces a
    /// sequence of values, not a single one.
    pub fn subscription(self, resolver: ResolverDef) -> (r: Result<Procedure, ConfigurationError>)
        ensures
            match r {
                Result::Ok(p) => self@.resolver is Missing && resolver@.result_shape is List
                    && p@.mw == self@.mw
                    && p@.resolver == SpecResolverSlot::Resolved(resolver@, ProcedureKind::Subscription),
                Result::Err(e) => (e@ == SpecConfigError::ResolverAlreadySet
                    && self@.resolver is Resolved)
                    || (e@ == SpecConfigError::StreamResultRequired
                        && self@.resolver is Missing && !(resolver@.result_shape is List)),
            },
    {
        match self.resolver {
            ResolverSlot::Resolved(_, _) => Result::Err(ConfigurationError::ResolverAlreadySet),
            ResolverSlot::Missing(_) => {
                if matches!(&resolver.result_shape, Descriptor::List(_)) {
                    Result::Ok(Procedure {
                        resolver: ResolverSlot::Resolved(resolver, ProcedureKind::Subscription),
                        mw: self.mw,
                    })
                } else {
                    Result::Err(ConfigurationError::StreamResultRequired)
                }
            },
        }
    }

    /// Builds a resolved procedure under `key`: computes the exported
    /// argument and result descriptors — consulting and filling the shared
    /// type cache — and inserts the entry into the registry partition of the
    /// procedure's kind. Fails when no resolver is attached, when a
    /// referenced named shape has no definition, or when the key is already
    /// taken in that partition; no failure leaves a partially inserted entry
    /// behind.
    pub fn build(self, key: String, ctx: &mut BuildCtx) -> (r: Result<(), ConfigurationError>)
        requires
            old(ctx).wf(),
        ensures
            final(ctx).wf(),
            final(ctx).defs == old(ctx).defs,
            old(ctx).cache@.is_prefix_of(final(ctx).cache@),
            r is Ok ==> self@.resolver is Resolved,
            r is Ok ==> {
                let rd = self@.resolver->Resolved_0;
                let kind = self@.resolver->Resolved_1;
                assoc_lookup(old(ctx).registry.spec_partition(kind), key@) is None
                    && final(ctx).registry.spec_partition(kind)
                        == old(ctx).registry.spec_partition(kind).push(
                            (key@, built_entry(key@, rd, kind, self@.mw)),
                        )
                    && (forall|k: ProcedureKind| k != kind
                        ==> final(ctx).registry.spec_partition(k)
                            == old(ctx).registry.spec_partition(k))
            },
            match r {
                Result::Ok(()) => true,
                Result::Err(e) => (forall|k: ProcedureKind|
                    final(ctx).registry.spec_partition(k) == old(ctx).registry.spec_partition(k))
                    && ((e@ == SpecConfigError::ResolverMissing && self@.resolver is Missing)
                        || (self@.resolver is Resolved
                            && (e@ matches SpecConfigError::UnsupportedShape(n)
                                && assoc_lookup(def_entries(old(ctx).defs@), n) is None))
                        || (self@.resolver is Resolved
                            && e@ == SpecConfigError::DuplicateKey(key@)
                            && assoc_lookup(
                                old(ctx).registry.spec_partition(self@.resolver->Resolved_1),
                                key@,
                            ) is Some)),
            },
            self@.resolver is Resolved
                && defs_closed(def_entries(old(ctx).defs@))
                && names_defined(
                    ref_names(spec_outer_arg(self@.mw, self@.resolver->Resolved_0.arg_shape)),
                    def_entries(old(ctx).defs@),
                )
                && names_defined(
                    ref_names(self@.resolver->Resolved_0.result_shape),
                    def_entries(old(ctx).defs@),
                )
                && assoc_lookup(
                    old(ctx).registry.spec_partition(self@.resolver->Resolved_1),
                    key@,
                ) is None
                ==> r is Ok,
    {
        let Procedure { resolver, mw } = self;
        let ghost smw = chain_view(mw@);
        match resolver {
            ResolverSlot::Missing(_) => Result::Err(ConfigurationError::ResolverMissing),
            ResolverSlot::Resolved(rd, kind) => {
                let ghost srd = rd@;
                let mut shape = clone_descriptor(&rd.arg_shape);
                let mut i: usize = mw.len();
                proof {
                    assert(smw.skip(mw@.len() as int) =~= Seq::<SpecLayer>::empty());
                }
                while i > 0
                    invariant
                        0 <= i <= mw.len(),
                        smw == chain_view(mw@),
                        smw.len() == mw@.len(),
                        srd == rd@,
                        shape@ == spec_outer_arg(smw.skip(i as int), srd.arg_shape),
                    decreases i,
                {
                    i = i - 1;
                    let ghost inner = shape@;
                    proof {
                        assert(smw.skip(i as int).drop_first() =~= smw.skip(i + 1));
                        assert(smw.skip(i as int)[0] == smw[i as int]);
                        assert(smw[i as int] == mw@[i as int]@);
                    }
                    match &mw[i].behavior {
                        LayerBehavior::MapArg(m) => {
                            shape = m.combined_shape(shape);
                        },
                        _ => {},
                    }
                }
                proof {
                    assert(smw.skip(0) =~= smw);
                }
                match describe(&shape, &ctx.defs, &mut ctx.cache) {
                    Result::Err(e) => {
                        return Result::Err(e);
                    },
                    Result::Ok(()) => {},
                }
                match describe(&rd.result_shape, &ctx.defs, &mut ctx.cache) {
                    Result::Err(e) => {
                        return Result::Err(e);
                    },
                    Result::Ok(()) => {},
                }
                let result_descriptor = clone_descriptor(&rd.result_shape);
                let entry = Entry {
                    key,
                    kind,
                    chain: mw,
                    resolver: rd,
                    arg_descriptor: shape,
                    result_descriptor,
                };
                proof {
                    assert(entry@ == built_entry(entry.key@, srd, kind, smw));
                }
                match ctx.registry.append(entry) {
                    Result::Err(e) => Result::Err(e),
                    Result::Ok(()) => Result::Ok(()),
                }
            },
        }
    }
}

/// Law: a single argument-mapper layer exports exactly the mapper's combined
/// input shape — state field first, then the forwarded shape the resolver
/// declares — not the narrower forwarded shape.
pub proof fn lemma_mapper_exports_combined(l: SpecLayer, inner: SpecDesc)
    requires
        l.behavior is MapArg,
    ensures
        spec_outer_arg(seq![l], inner)
            == spec_combined_shape(l.behavior->MapArg_0, inner),
{
    assert(seq![l].drop_first() =~= Seq::<SpecLayer>::empty());
    assert(spec_outer_arg(seq![l].drop_first(), inner) == inner);
}

/// Law: a chain without argument mappers exports the resolver's own argument
/// shape unchanged.
pub proof fn lemma_no_mapper_exports_inner(chain: Seq<SpecLayer>, inner: SpecDesc)
    requires
        forall|i: int| 0 <= i < chain.len() ==> !(#[trigger] chain[i].behavior is MapArg),
    ensures
        spec_outer_arg(chain, inner) == inner,
    decreases chain.len(),
{
    if chain.len() > 0 {
        assert(forall|i: int| 0 <= i < chain.drop_first().len()
            ==> chain.drop_first()[i] == chain[i + 1]);
        lemma_no_mapper_exports_inner(chain.drop_first(), inner);
    }
}

} // verus!
