//! The call dispatcher.
//!
//! A call moves through lookup, the middleware chain, argument decoding, the
//! resolver, and result encoding. Layers run strictly in append order; a
//! layer's post-logic runs only after everything it wraps has finished — the
//! onion model — so the trace of one call is the pre-logic events in order,
//! the resolver event (at most once), and the post-logic events in reverse
//! order. The trace is returned with the outcome so instrumentation can
//! observe exactly that.

use vstd::prelude::*;

use crate::cache::TypeCache;
use crate::codec::check_value;
use crate::descriptor::value_matches;
use crate::descriptor::SpecCache;
use crate::errors::{DispatchError, SpecDispatchError};
use crate::middleware::{run_layer, spec_layer_step, LayerOut, SpecLayer, SpecLayerOut};
use crate::registry::{chain_view, ProcedureKind, Registry, SpecEntry};
use crate::resolver::{resolve, spec_resolve};
use crate::value::{assoc_lookup, spec_get_field, spec_of_items, SpecVal, Value};

verus! {

/// Ghost model of a trace event.
pub enum SpecEvent {
    Pre(int),
    Resolver,
    Post(int),
}

/// One observable step of a call: a layer's pre-logic, the resolver run, or
/// a layer's post-logic.
#[derive(Clone, Copy, Debug, PartialEq, Eq, Structural)]
pub enum Event {
    Pre(usize),
    Resolver,
    Post(usize),
}

impl View for Event {
    type V = SpecEvent;

    open spec fn view(&self) -> SpecEvent {
        match self {
            Event::Pre(i) => SpecEvent::Pre(*i as int),
            Event::Resolver => SpecEvent::Resolver,
            Event::Post(i) => SpecEvent::Post(*i as int),
        }
    }
}

/// Model of a list of events.
pub open spec fn events_view(s: Seq<Event>) -> Seq<SpecEvent> {
    Seq::new(s.len(), |i: int| s[i]@)
}

/// Model of a list of values.
pub open spec fn values_view(s: Seq<Value>) -> Seq<SpecVal> {
    Seq::new(s.len(), |i: int| s[i]@)
}

/// Ghost model of a call outcome.
pub enum SpecOutcome {
    Completed(SpecVal),
    CompletedStream(Seq<SpecVal>),
    Failed(SpecDispatchError),
}

/// How a call ends: one value (query or mutation), a finite produced
/// sequence of values (subscription), or a structured error.
#[derive(Debug)]
pub enum Outcome {
    Completed(Value),
    CompletedStream(Vec<Value>),
    Failed(DispatchError),
}

impl View for Outcome {
    type V = SpecOutcome;

    open spec fn view(&self) -> SpecOutcome {
        match self {
            Outcome::Completed(v) => SpecOutcome::Completed(v@),
            Outcome::CompletedStream(vs) => SpecOutcome::CompletedStream(values_view(vs@)),
            Outcome::Failed(e) => SpecOutcome::Failed(e@),
        }
    }
}

/// A call's outcome together with its event trace.
#[derive(Debug)]
pub struct CallResult {
    pub outcome: Outcome,
    pub trace: Vec<Event>,
}

/// Ghost model of where a chain run ends.
pub enum SpecChainOut {
    /// Layer `at` short-circuited with the given verdict.
    Blocked { at: int, verdict: SpecLayerOut },
    /// Every layer continued; the resolver sees this input and context.
    Through { input: SpecVal, ctx: SpecVal },
}

/// Threads input and context through the layers from index `i` on.
pub open spec fn spec_chain_run(
    chain: Seq<SpecLayer>,
    i: int,
    input: SpecVal,
    meta: SpecVal,
    ctx: SpecVal,
) -> SpecChainOut
    decreases chain.len() - i,
{
    if 0 <= i < chain.len() {
        match spec_layer_step(chain[i], input, meta, ctx) {
            SpecLayerOut::Continue(ni, nc) => spec_chain_run(chain, i + 1, ni, meta, nc),
            SpecLayerOut::Fail(e) => SpecChainOut::Blocked {
                at: i,
                verdict: SpecLayerOut::Fail(e),
            },
            SpecLayerOut::Serve(v) => SpecChainOut::Blocked {
                at: i,
                verdict: SpecLayerOut::Serve(v),
            },
        }
    } else {
        SpecChainOut::Through { input, ctx }
    }
}

/// The pre-logic events of layers `0..n`, in append order.
pub open spec fn spec_pres(n: int) -> Seq<SpecEvent> {
    Seq::new(if n >= 0 { n as nat } else { 0 }, |j: int| SpecEvent::Pre(j))
}

/// The post-logic events of layers `0..n`, in reverse order.
pub open spec fn spec_posts(n: int) -> Seq<SpecEvent> {
    Seq::new(if n >= 0 { n as nat } else { 0 }, |j: int| SpecEvent::Post(n - 1 - j))
}

/// What dispatching a looked-up entry yields: the outcome and the trace.
pub open spec fn spec_dispatch_entry(
    cache: SpecCache,
    entry: SpecEntry,
    arg: SpecVal,
    meta: SpecVal,
    base: SpecVal,
) -> (SpecOutcome, Seq<SpecEvent>) {
    let n = entry.chain.len() as int;
    match spec_chain_run(entry.chain, 0, arg, meta, base) {
        SpecChainOut::Blocked { at, verdict } => {
            let trace = spec_pres(at + 1) + spec_posts(at);
            match verdict {
                SpecLayerOut::Fail(e) => (SpecOutcome::Failed(e), trace),
                SpecLayerOut::Serve(v) => (SpecOutcome::Completed(v), trace),
                SpecLayerOut::Continue(_, _) => (
                    SpecOutcome::Failed(SpecDispatchError::Decoding),
                    trace,
                ),
            }
        },
        SpecChainOut::Through { input, ctx } => {
            if !value_matches(cache, entry.resolver.arg_shape, input) {
                (SpecOutcome::Failed(SpecDispatchError::Decoding), spec_pres(n) + spec_posts(n))
            } else {
                let full = spec_pres(n) + seq![SpecEvent::Resolver] + spec_posts(n);
                match spec_resolve(entry.resolver.logic, ctx, input) {
                    Result::Err(m) => (SpecOutcome::Failed(SpecDispatchError::Resolver(m)), full),
                    Result::Ok(rv) => if !value_matches(cache, entry.resolver.result_shape, rv) {
                        (SpecOutcome::Failed(SpecDispatchError::Decoding), full)
                    } else if entry.kind is Subscription {
                        match rv {
                            SpecVal::Arr(items) => (SpecOutcome::CompletedStream(items), full),
                            _ => (SpecOutcome::Failed(SpecDispatchError::Decoding), full),
                        }
                    } else {
                        (SpecOutcome::Completed(rv), full)
                    },
                }
            }
        },
    }
}

/// What a call yields: `NotFound` for an unknown key or a key under the
/// wrong kind, else the dispatch of the entry found.
pub open spec fn spec_invoke(
    reg: Registry,
    cache: SpecCache,
    key: Seq<char>,
    kind: ProcedureKind,
    arg: SpecVal,
    meta: SpecVal,
    base: SpecVal,
) -> (SpecOutcome, Seq<SpecEvent>) {
    match assoc_lookup(reg.spec_partition(kind), key) {
        Option::None => (
            SpecOutcome::Failed(SpecDispatchError::NotFound),
            Seq::<SpecEvent>::empty(),
        ),
        Option::Some(entry) => spec_dispatch_entry(cache, entry, arg, meta, base),
    }
}

/// Appends the post-logic events of layers `0..upto`, in reverse order.
fn push_posts(trace: &mut Vec<Event>, upto: usize)
    ensures
        events_view(final(trace)@) == events_view(old(trace)@) + spec_posts(upto as int),
{
    let mut j: usize = 0;
    while j < upto
        invariant
            0 <= j <= upto,
            trace@.len() == old(trace)@.len() + j,
            forall|t: int| 0 <= t < old(trace)@.len() ==> trace@[t] == old(trace)@[t],
            forall|t: int| 0 <= t < j ==> #[trigger] trace@[old(trace)@.len() + t]
                == Event::Post((upto - 1 - t) as usize),
        decreases upto - j,
    {
        trace.push(Event::Post(upto - 1 - j));
        j = j + 1;
    }
    proof {
        let pre = old(trace)@;
        assert forall|k: int| 0 <= k < trace@.len() implies
            events_view(trace@)[k] == (events_view(pre) + spec_posts(upto as int))[k] by {
            if pre.len() <= k {
                let t = k - pre.len();
                assert(trace@[pre.len() + t] == Event::Post((upto - 1 - t) as usize));
            }
        }
        assert(events_view(trace@) =~= events_view(old(trace)@) + spec_posts(upto as int));
    }
}

/// Executes one call against the frozen registry and type cache: looks the
/// key up under `kind`, threads the raw argument, request metadata and base
/// context through the entry's chain in order, decodes the final input
/// against the resolver's argument shape, runs the resolver, and encodes the
/// outcome — returning, with the outcome, the exact trace of pre-logic,
/// resolver and post-logic events.
pub fn invoke(
    reg: &Registry,
    cache: &TypeCache,
    key: &String,
    kind: ProcedureKind,
    arg: Value,
    meta: &Value,
    base: Value,
) -> (r: CallResult)
    ensures
        r.outcome@ == spec_invoke(*reg, cache@, key@, kind, arg@, meta@, base@).0,
        events_view(r.trace@) == spec_invoke(*reg, cache@, key@, kind, arg@, meta@, base@).1,
{
    let ghost arg0 = arg@;
    let ghost base0 = base@;
    let entry = match reg.get(key, kind) {
        Option::None => {
            let r = CallResult { outcome: Outcome::Failed(DispatchError::NotFound), trace: Vec::new() };
            proof {
                assert(events_view(r.trace@) =~= Seq::<SpecEvent>::empty());
            }
            return r;
        },
        Option::Some(e) => e,
    };
    let ghost sentry = entry@;
    let ghost schain = chain_view(entry.chain@);
    let n = entry.chain.len();
    let mut input = arg;
    let mut ctx = base;
    let mut trace: Vec<Event> = Vec::new();
    proof {
        assert(sentry.chain == schain);
    }
    let mut i: usize = 0;
    while i < n
        invariant
            0 <= i <= n,
            n == entry.chain.len(),
            schain == chain_view(entry.chain@),
            schain.len() == n,
            trace@.len() == i,
            forall|t: int| 0 <= t < i ==> trace@[t] == Event::Pre(t as usize),
            spec_chain_run(schain, 0, arg0, meta@, base0)
                == spec_chain_run(schain, i as int, input@, meta@, ctx@),
            assoc_lookup(reg.spec_partition(kind), key@) == Option::Some(sentry),
            sentry == entry@,
            sentry.chain == schain,
            arg0 == arg@,
            base0 == base@,
        decreases n - i,
    {
        trace.push(Event::Pre(i));
        proof {
            assert(events_view(trace@) =~= spec_pres(i + 1));
            assert(schain[i as int] == entry.chain@[i as int]@);
        }
        let ghost input0 = input@;
        let ghost ctx0 = ctx@;
        let verdict = run_layer(&entry.chain[i], input, meta, ctx);
        match verdict {
            LayerOut::Continue(ni, nc) => {
                input = ni;
                ctx = nc;
                proof {
                    assert(spec_chain_run(schain, i as int, input0, meta@, ctx0)
                        == spec_chain_run(schain, i + 1, input@, meta@, ctx@));
                }
            },
            LayerOut::Fail(e) => {
                proof {
                    assert(spec_chain_run(schain, i as int, input0, meta@, ctx0)
                        == SpecChainOut::Blocked {
                            at: i as int,
                            verdict: SpecLayerOut::Fail(e@),
                        });
                }
                push_posts(&mut trace, i);
                proof {
                    assert(events_view(trace@) =~= spec_pres(i + 1) + spec_posts(i as int));
                }
                return CallResult { outcome: Outcome::Failed(e), trace };
            },
            LayerOut::Serve(v) => {
                proof {
                    assert(spec_chain_run(schain, i as int, input0, meta@, ctx0)
                        == SpecChainOut::Blocked {
                            at: i as int,
                            verdict: SpecLayerOut::Serve(v@),
                        });
                }
                push_posts(&mut trace, i);
                proof {
                    assert(events_view(trace@) =~= spec_pres(i + 1) + spec_posts(i as int));
                }
                return CallResult { outcome: Outcome::Completed(v), trace };
            },
        }
        i = i + 1;
    }
    proof {
        assert(spec_chain_run(schain, n as int, input@, meta@, ctx@)
            == (SpecChainOut::Through { input: input@, ctx: ctx@ }));
        assert(spec_chain_run(schain, 0, arg0, meta@, base0)
            == (SpecChainOut::Through { input: input@, ctx: ctx@ }));
    }
    if !check_value(cache, &entry.resolver.arg_shape, &input) {
        push_posts(&mut trace, n);
        proof {
            assert(events_view(trace@) =~= spec_pres(n as int) + spec_posts(n as int));
        }
        return CallResult { outcome: Outcome::Failed(DispatchError::Decoding), trace };
    }
    trace.push(Event::Resolver);
    proof {
        assert(events_view(trace@) =~= spec_pres(n as int) + seq![SpecEvent::Resolver]);
    }
    let resolved = resolve(&entry.resolver.logic, &ctx, &input);
    push_posts(&mut trace, n);
    proof {
        assert(events_view(trace@) =~= spec_pres(n as int) + seq![SpecEvent::Resolver]
            + spec_posts(n as int));
    }
    match resolved {
        Result::Err(m) => CallResult { outcome: Outcome::Failed(DispatchError::Resolver(m)), trace },
        Result::Ok(rv) => {
            if !check_value(cache, &entry.resolver.result_shape, &rv) {
                return CallResult { outcome: Outcome::Failed(DispatchError::Decoding), trace };
            }
            match entry.kind {
                ProcedureKind::Subscription => match rv {
                    Value::Arr(items) => {
                        proof {
                            assert(rv@->Arr_0 == values_view(items@)) by {
                                assert(rv@ == SpecVal::Arr(spec_of_items(items@)));
                                assert(spec_of_items(items@) =~= values_view(items@));
                            }
                        }
                        CallResult { outcome: Outcome::CompletedStream(items), trace }
                    },
                    _ => CallResult { outcome: Outcome::Failed(DispatchError::Decoding), trace },
                },
                _ => CallResult { outcome: Outcome::Completed(rv), trace },
            }
        },
    }
}

/// How the consumption of a subscription's produced values ends: the
/// sequence ran out on its own, or the caller withdrew interest first.
/// Cancellation is deliberately not a [`DispatchError`], and in particular is
/// never reported as a resolver failure.
#[derive(Clone, Copy, Debug, PartialEq, Eq, Structural)]
pub enum StreamEnd {
    Exhausted,
    Cancelled,
}

/// Consumes a subscription's produced values with a caller that stays
/// interested in at most `budget` of them: the values delivered before the
/// caller withdrew, and how the stream ended.
pub fn drain_stream(items: Vec<Value>, budget: Option<usize>) -> (r: (Vec<Value>, StreamEnd))
    ensures
        match budget {
            Option::None => r.0 == items && r.1 == StreamEnd::Exhausted,
            Option::Some(b) => if b >= items.len() {
                r.0 == items && r.1 == StreamEnd::Exhausted
            } else {
                r.0@ == items@.subrange(0, b as int) && r.1 == StreamEnd::Cancelled
            },
        },
{
    match budget {
        Option::None => (items, StreamEnd::Exhausted),
        Option::Some(b) => {
            if b >= items.len() {
                (items, StreamEnd::Exhausted)
            } else {
                let mut taken = items;
                taken.truncate(b);
                (taken, StreamEnd::Cancelled)
            }
        },
    }
}

/// Law: a key with no entry in the partition of the requested kind — an
/// unknown key, or a known key under the wrong kind — fails with `NotFound`,
/// and nothing runs: the trace is empty.
pub proof fn lemma_unknown_key_not_found(
    reg: Registry,
    cache: SpecCache,
    key: Seq<char>,
    kind: ProcedureKind,
    arg: SpecVal,
    meta: SpecVal,
    base: SpecVal,
)
    requires
        assoc_lookup(reg.spec_partition(kind), key) is None,
    ensures
        spec_invoke(reg, cache, key, kind, arg, meta, base).0
            == SpecOutcome::Failed(SpecDispatchError::NotFound),
        spec_invoke(reg, cache, key, kind, arg, meta, base).1 == Seq::<SpecEvent>::empty(),
{
}

/// Layer `at` of a blocked run lies within the chain.
pub proof fn lemma_chain_blocked_range(
    chain: Seq<SpecLayer>,
    i: int,
    input: SpecVal,
    meta: SpecVal,
    ctx: SpecVal,
)
    requires
        spec_chain_run(chain, i, input, meta, ctx) is Blocked,
    ensures
        i <= spec_chain_run(chain, i, input, meta, ctx)->Blocked_at < chain.len(),
    decreases chain.len() - i,
{
    if 0 <= i < chain.len() {
        match spec_layer_step(chain[i], input, meta, ctx) {
            SpecLayerOut::Continue(ni, nc) => {
                lemma_chain_blocked_range(chain, i + 1, ni, meta, nc);
            },
            _ => {},
        }
    }
}

/// Law: when every layer lets a call through and the final input decodes,
/// the trace is exactly the pre-logic of layers `0..n` in append order, then
/// one resolver event, then the post-logic of layers `n-1..0` in reverse
/// order. In particular the resolver runs exactly once — the event at index
/// `n` and nowhere else — strictly after all pre-logic and strictly before
/// all post-logic.
pub proof fn lemma_middleware_order(
    cache: SpecCache,
    entry: SpecEntry,
    arg: SpecVal,
    meta: SpecVal,
    base: SpecVal,
)
    requires
        spec_chain_run(entry.chain, 0, arg, meta, base) is Through,
        value_matches(
            cache,
            entry.resolver.arg_shape,
            spec_chain_run(entry.chain, 0, arg, meta, base)->Through_input,
        ),
    ensures
        spec_dispatch_entry(cache, entry, arg, meta, base).1
            == spec_pres(entry.chain.len() as int) + seq![SpecEvent::Resolver]
                + spec_posts(entry.chain.len() as int),
        spec_dispatch_entry(cache, entry, arg, meta, base).1.len() == 2 * entry.chain.len() + 1,
        forall|j: int| 0 <= j < entry.chain.len()
            ==> spec_dispatch_entry(cache, entry, arg, meta, base).1[j] == SpecEvent::Pre(j),
        spec_dispatch_entry(cache, entry, arg, meta, base).1[entry.chain.len() as int]
            == SpecEvent::Resolver,
        forall|j: int| 0 <= j < entry.chain.len()
            ==> #[trigger] spec_dispatch_entry(cache, entry, arg, meta, base).1[
                entry.chain.len() + 1 + j
            ] == SpecEvent::Post(entry.chain.len() - 1 - j),
        forall|j: int| 0 <= j < spec_dispatch_entry(cache, entry, arg, meta, base).1.len()
            ==> ((spec_dispatch_entry(cache, entry, arg, meta, base).1[j] == SpecEvent::Resolver)
                <==> j == entry.chain.len()),
{
    let n = entry.chain.len() as int;
    let t = spec_dispatch_entry(cache, entry, arg, meta, base).1;
    assert(t == spec_pres(n) + seq![SpecEvent::Resolver] + spec_posts(n));
    assert(t.len() == 2 * n + 1);
    assert forall|j: int| 0 <= j < t.len() implies
        ((t[j] == SpecEvent::Resolver) <==> j == n) by {
        if j < n {
            assert(t[j] == spec_pres(n)[j]);
        } else if j == n {
            assert(t[j] == SpecEvent::Resolver);
        } else {
            assert(t[j] == spec_posts(n)[j - n - 1]);
        }
    }
}

/// Law: a layer that short-circuits with an error fails the call with that
/// very middleware error, and the resolver never runs: no resolver event
/// occurs in the trace.
pub proof fn lemma_short_circuit_skips_resolver(
    cache: SpecCache,
    entry: SpecEntry,
    arg: SpecVal,
    meta: SpecVal,
    base: SpecVal,
    e: SpecDispatchError,
)
    requires
        spec_chain_run(entry.chain, 0, arg, meta, base) matches SpecChainOut::Blocked {
            at: _,
            verdict: SpecLayerOut::Fail(err),
        } && err == e,
    ensures
        spec_dispatch_entry(cache, entry, arg, meta, base).0 == SpecOutcome::Failed(e),
        forall|j: int| 0 <= j < spec_dispatch_entry(cache, entry, arg, meta, base).1.len()
            ==> spec_dispatch_entry(cache, entry, arg, meta, base).1[j] != SpecEvent::Resolver,
{
    lemma_chain_blocked_range(entry.chain, 0, arg, meta, base);
    let at = spec_chain_run(entry.chain, 0, arg, meta, base)->Blocked_at;
    let t = spec_dispatch_entry(cache, entry, arg, meta, base).1;
    assert(t == spec_pres(at + 1) + spec_posts(at));
    assert forall|j: int| 0 <= j < t.len() implies t[j] != SpecEvent::Resolver by {
        if j < at + 1 {
            assert(t[j] == spec_pres(at + 1)[j]);
        } else {
            assert(t[j] == spec_posts(at)[j - at - 1]);
        }
    }
}

/// Law: a single argument-mapper layer hands the resolver only the forwarded
/// part of the combined input — the value under the mapper's data key — and
/// never the extracted state, which stays within the layer.
pub proof fn lemma_mapper_resolver_sees_forwarded(
    l: SpecLayer,
    input: SpecVal,
    meta: SpecVal,
    ctx: SpecVal,
)
    requires
        l.behavior is MapArg,
        spec_get_field(input, l.behavior->MapArg_0.data_key) is Some,
        spec_get_field(input, l.behavior->MapArg_0.state_key) is Some,
    ensures
        spec_chain_run(seq![l], 0, input, meta, ctx) == (SpecChainOut::Through {
            input: spec_get_field(input, l.behavior->MapArg_0.data_key)->Some_0,
            ctx: ctx,
        }),
{
    let fwd = spec_get_field(input, l.behavior->MapArg_0.data_key)->Some_0;
    assert(seq![l][0] == l);
    assert(spec_layer_step(l, input, meta, ctx) == SpecLayerOut::Continue(fwd, ctx));
    assert(spec_chain_run(seq![l], 1, fwd, meta, ctx) == (SpecChainOut::Through {
        input: fwd,
        ctx: ctx,
    }));
}

/// Law: the empty chain is the identity pass-through — the resolver sees the
/// raw argument and the base context unchanged.
pub proof fn lemma_empty_chain_identity(input: SpecVal, meta: SpecVal, ctx: SpecVal)
    ensures
        spec_chain_run(Seq::<SpecLayer>::empty(), 0, input, meta, ctx)
            == (SpecChainOut::Through { input, ctx }),
{
}

} // verus!
