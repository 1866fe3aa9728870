use rpc_core::cache::{TypeCache, TypeDef};
use rpc_core::codec::{check_value, decode, encode};
use rpc_core::descriptor::Descriptor;
use rpc_core::dispatch::{drain_stream, invoke, Event, Outcome, StreamEnd};
use rpc_core::errors::{ConfigurationError, DispatchError};
use rpc_core::middleware::{ArgMapper, Layer, LayerBehavior};
use rpc_core::procedure::{BuildCtx, MissingResolver, Procedure, ResolverSlot};
use rpc_core::registry::ProcedureKind;
use rpc_core::resolver::{ResolverDef, ResolverLogic};
use rpc_core::value::{clone_value, obj_get, value_eq, Value};

fn s(text: &str) -> String {
    text.to_owned()
}

fn obj(fields: Vec<(&str, Value)>) -> Value {
    Value::Obj(fields.into_iter().map(|(k, v)| (s(k), v)).collect())
}

fn unresolved() -> Procedure {
    Procedure::new(ResolverSlot::Missing(MissingResolver), Vec::new())
}

fn pass_layer(input_tag: &str, output_tag: &str) -> Layer {
    Layer { input_tag: s(input_tag), output_tag: s(output_tag), behavior: LayerBehavior::Pass }
}

fn echo_resolver(arg_shape: Descriptor, result_shape: Descriptor) -> ResolverDef {
    ResolverDef { logic: ResolverLogic::Echo, arg_shape, result_shape }
}

fn build_query(ctx: &mut BuildCtx, key: &str, rd: ResolverDef, chain: Vec<Layer>) {
    let mut p = unresolved();
    for layer in chain {
        p = p.with2(layer).unwrap();
    }
    let p = p.query(rd).unwrap();
    p.build(s(key), ctx).unwrap();
}

// ---- values ----

#[test]
fn value_equality_is_deep() {
    let a = obj(vec![("id", Value::Int(1)), ("tags", Value::Arr(vec![Value::Str(s("x"))]))]);
    let b = obj(vec![("id", Value::Int(1)), ("tags", Value::Arr(vec![Value::Str(s("x"))]))]);
    let c = obj(vec![("id", Value::Int(2)), ("tags", Value::Arr(vec![Value::Str(s("x"))]))]);
    assert!(value_eq(&a, &b));
    assert!(!value_eq(&a, &c));
    assert!(value_eq(&a, &clone_value(&a)));
}

#[test]
fn object_lookup_finds_first_match() {
    let fields = vec![(s("a"), Value::Int(1)), (s("b"), Value::Int(2))];
    assert_eq!(obj_get(&fields, &s("b")), Some(&Value::Int(2)));
    assert_eq!(obj_get(&fields, &s("missing")), None);
}

// ---- codec round trip (primitives, objects, sequences, optionals) ----

#[test]
fn round_trip_primitives() {
    let cache = TypeCache::new();
    for (d, v) in vec![
        (Descriptor::Int, Value::Int(7)),
        (Descriptor::Str, Value::Str(s("hi"))),
        (Descriptor::Bool, Value::Bool(true)),
        (Descriptor::Null, Value::Null),
    ] {
        let encoded = encode(&cache, &d, &v).unwrap();
        let decoded = decode(&cache, &d, &encoded).unwrap();
        assert!(value_eq(&decoded, &v));
    }
}

#[test]
fn round_trip_compound_values() {
    let cache = TypeCache::new();
    let d = Descriptor::Object(vec![
        (s("names"), Descriptor::List(Box::new(Descriptor::Str))),
        (s("note"), Descriptor::Optional(Box::new(Descriptor::Str))),
    ]);
    let v = obj(vec![
        ("names", Value::Arr(vec![Value::Str(s("a")), Value::Str(s("b"))])),
        ("note", Value::Null),
    ]);
    let encoded = encode(&cache, &d, &v).unwrap();
    let decoded = decode(&cache, &d, &encoded).unwrap();
    assert!(value_eq(&decoded, &v));
}

#[test]
fn decode_rejects_wrong_shape() {
    let cache = TypeCache::new();
    assert_eq!(decode(&cache, &Descriptor::Int, &Value::Str(s("no"))), Err(DispatchError::Decoding));
    assert!(!check_value(&cache, &Descriptor::List(Box::new(Descriptor::Int)), &Value::Int(3)));
}

// ---- builder phase gating ----

#[test]
fn resolver_can_be_attached_once() {
    let rd = echo_resolver(Descriptor::Int, Descriptor::Int);
    let p = unresolved().query(rd).unwrap();
    let again = echo_resolver(Descriptor::Int, Descriptor::Int);
    assert_eq!(p.mutation(again).unwrap_err(), ConfigurationError::ResolverAlreadySet);
}

#[test]
fn middleware_cannot_follow_resolver() {
    let rd = echo_resolver(Descriptor::Int, Descriptor::Int);
    let p = unresolved().query(rd).unwrap();
    assert_eq!(p.with(pass_layer("base", "base")).unwrap_err(), ConfigurationError::ResolverAlreadySet);
}

#[test]
fn constrained_middleware_checks_context_tags() {
    let p = unresolved().with(pass_layer("base", "authed")).unwrap();
    assert_eq!(
        p.with(pass_layer("base", "other")).unwrap_err(),
        ConfigurationError::ContextShapeMismatch
    );
    let p = unresolved().with(pass_layer("base", "authed")).unwrap();
    let p = p.with(pass_layer("authed", "tenant")).unwrap();
    // the unconstrained variant skips the tag check entirely
    p.with2(pass_layer("unrelated", "x")).unwrap();
}

#[test]
fn build_requires_a_resolver() {
    let mut ctx = BuildCtx::new(Vec::new());
    let r = unresolved().build(s("nope"), &mut ctx);
    assert_eq!(r.unwrap_err(), ConfigurationError::ResolverMissing);
}

#[test]
fn subscription_requires_list_result() {
    let rd = echo_resolver(Descriptor::Int, Descriptor::Int);
    assert_eq!(
        unresolved().subscription(rd).unwrap_err(),
        ConfigurationError::StreamResultRequired
    );
}

// ---- duplicate keys (same kind fails, another kind succeeds) ----

#[test]
fn duplicate_key_same_kind_fails() {
    let mut ctx = BuildCtx::new(Vec::new());
    build_query(&mut ctx, "ping", echo_resolver(Descriptor::Int, Descriptor::Int), Vec::new());
    let p = unresolved().query(echo_resolver(Descriptor::Int, Descriptor::Int)).unwrap();
    assert_eq!(
        p.build(s("ping"), &mut ctx).unwrap_err(),
        ConfigurationError::DuplicateKey(s("ping"))
    );
}

#[test]
fn same_key_under_other_kind_succeeds() {
    let mut ctx = BuildCtx::new(Vec::new());
    build_query(&mut ctx, "ping", echo_resolver(Descriptor::Int, Descriptor::Int), Vec::new());
    let p = unresolved().mutation(echo_resolver(Descriptor::Int, Descriptor::Int)).unwrap();
    p.build(s("ping"), &mut ctx).unwrap();
    assert!(ctx.registry.get(&s("ping"), ProcedureKind::Query).is_some());
    assert!(ctx.registry.get(&s("ping"), ProcedureKind::Mutation).is_some());
    assert!(ctx.registry.get(&s("ping"), ProcedureKind::Subscription).is_none());
}

// ---- dispatch ----

#[test]
fn unknown_key_is_not_found() {
    let mut ctx = BuildCtx::new(Vec::new());
    build_query(&mut ctx, "known", echo_resolver(Descriptor::Int, Descriptor::Int), Vec::new());
    let r = invoke(
        &ctx.registry, &ctx.cache, &s("unknown"), ProcedureKind::Query,
        Value::Int(1), &Value::Null, Value::Null,
    );
    assert!(matches!(r.outcome, Outcome::Failed(DispatchError::NotFound)));
    assert!(r.trace.is_empty());
}

#[test]
fn known_key_under_wrong_kind_is_not_found() {
    let mut ctx = BuildCtx::new(Vec::new());
    build_query(&mut ctx, "known", echo_resolver(Descriptor::Int, Descriptor::Int), Vec::new());
    let r = invoke(
        &ctx.registry, &ctx.cache, &s("known"), ProcedureKind::Mutation,
        Value::Int(1), &Value::Null, Value::Null,
    );
    assert!(matches!(r.outcome, Outcome::Failed(DispatchError::NotFound)));
}

#[test]
fn get_user_scenario() {
    let mut ctx = BuildCtx::new(Vec::new());
    let ann = obj(vec![("id", Value::Int(1)), ("name", Value::Str(s("Ann")))]);
    let result_shape = Descriptor::Object(vec![(s("id"), Descriptor::Int), (s("name"), Descriptor::Str)]);
    let rd = ResolverDef {
        logic: ResolverLogic::IntTable(vec![(1, ann)]),
        arg_shape: Descriptor::Int,
        result_shape,
    };
    build_query(&mut ctx, "getUser", rd, Vec::new());
    let r = invoke(
        &ctx.registry, &ctx.cache, &s("getUser"), ProcedureKind::Query,
        Value::Int(1), &Value::Null, Value::Null,
    );
    let expected = obj(vec![("id", Value::Int(1)), ("name", Value::Str(s("Ann")))]);
    match r.outcome {
        Outcome::Completed(v) => assert!(value_eq(&v, &expected)),
        other => panic!("expected completion, got {:?}", other),
    }
    // no middleware: the trace is just the resolver event
    assert_eq!(r.trace, vec![Event::Resolver]);
}

#[test]
fn resolver_miss_is_a_resolver_error() {
    let mut ctx = BuildCtx::new(Vec::new());
    let rd = ResolverDef {
        logic: ResolverLogic::IntTable(Vec::new()),
        arg_shape: Descriptor::Int,
        result_shape: Descriptor::Int,
    };
    build_query(&mut ctx, "lookup", rd, Vec::new());
    let r = invoke(
        &ctx.registry, &ctx.cache, &s("lookup"), ProcedureKind::Query,
        Value::Int(9), &Value::Null, Value::Null,
    );
    assert_eq!(
        match r.outcome { Outcome::Failed(e) => e, _ => panic!("expected failure") },
        DispatchError::Resolver(s("no entry for key"))
    );
}

#[test]
fn mismatched_argument_is_a_decoding_error() {
    let mut ctx = BuildCtx::new(Vec::new());
    build_query(&mut ctx, "ping", echo_resolver(Descriptor::Int, Descriptor::Int), Vec::new());
    let r = invoke(
        &ctx.registry, &ctx.cache, &s("ping"), ProcedureKind::Query,
        Value::Str(s("not an int")), &Value::Null, Value::Null,
    );
    assert!(matches!(r.outcome, Outcome::Failed(DispatchError::Decoding)));
    // the chain ran, but the resolver never did
    assert!(r.trace.iter().all(|e| *e != Event::Resolver));
}

#[test]
fn middleware_runs_in_append_order_around_the_resolver() {
    let mut ctx = BuildCtx::new(Vec::new());
    let chain = vec![pass_layer("base", "a"), pass_layer("a", "b")];
    build_query(&mut ctx, "ordered", echo_resolver(Descriptor::Int, Descriptor::Int), chain);
    let r = invoke(
        &ctx.registry, &ctx.cache, &s("ordered"), ProcedureKind::Query,
        Value::Int(5), &Value::Null, Value::Null,
    );
    assert!(matches!(r.outcome, Outcome::Completed(Value::Int(5))));
    assert_eq!(
        r.trace,
        vec![Event::Pre(0), Event::Pre(1), Event::Resolver, Event::Post(1), Event::Post(0)]
    );
    assert_eq!(r.trace.iter().filter(|e| **e == Event::Resolver).count(), 1);
}

#[test]
fn failed_authorization_short_circuits_before_the_resolver() {
    let mut ctx = BuildCtx::new(Vec::new());
    let gate = Layer {
        input_tag: s("base"),
        output_tag: s("base"),
        behavior: LayerBehavior::Gate {
            meta_key: s("authToken"),
            expected: Value::Str(s("secret")),
            error: s("unauthorized"),
        },
    };
    build_query(&mut ctx, "guarded", echo_resolver(Descriptor::Int, Descriptor::Int), vec![gate]);
    let meta = obj(vec![("authToken", Value::Str(s("wrong")))]);
    let r = invoke(
        &ctx.registry, &ctx.cache, &s("guarded"), ProcedureKind::Query,
        Value::Int(1), &meta, Value::Null,
    );
    assert_eq!(
        match r.outcome { Outcome::Failed(e) => e, _ => panic!("expected failure") },
        DispatchError::Middleware(s("unauthorized"))
    );
    // the instrumentation counter: the resolver was never invoked
    let resolver_runs = r.trace.iter().filter(|e| **e == Event::Resolver).count();
    assert_eq!(resolver_runs, 0);
    assert_eq!(r.trace, vec![Event::Pre(0)]);

    // with the right token the same call reaches the resolver
    let meta_ok = obj(vec![("authToken", Value::Str(s("secret")))]);
    let r = invoke(
        &ctx.registry, &ctx.cache, &s("guarded"), ProcedureKind::Query,
        Value::Int(1), &meta_ok, Value::Null,
    );
    assert!(matches!(r.outcome, Outcome::Completed(Value::Int(1))));
}

#[test]
fn argument_mapper_narrows_input_and_widens_descriptor() {
    let mut ctx = BuildCtx::new(Vec::new());
    let mapper_layer = Layer {
        input_tag: s("base"),
        output_tag: s("base"),
        behavior: LayerBehavior::MapArg(ArgMapper {
            state_key: s("tenantId"),
            state_shape: Descriptor::Str,
            data_key: s("data"),
        }),
    };
    let arg_shape = Descriptor::Object(vec![(s("x"), Descriptor::Int)]);
    build_query(&mut ctx, "tenant", echo_resolver(arg_shape, Descriptor::Object(vec![(s("x"), Descriptor::Int)])), vec![mapper_layer]);

    let combined = obj(vec![
        ("tenantId", Value::Str(s("t1"))),
        ("data", obj(vec![("x", Value::Int(1))])),
    ]);
    let r = invoke(
        &ctx.registry, &ctx.cache, &s("tenant"), ProcedureKind::Query,
        combined, &Value::Null, Value::Null,
    );
    // the resolver (an echo) observed only the forwarded `{x:1}`
    let expected = obj(vec![("x", Value::Int(1))]);
    match r.outcome {
        Outcome::Completed(v) => assert!(value_eq(&v, &expected)),
        other => panic!("expected completion, got {:?}", other),
    }

    // the exported argument descriptor is the combined shape, not the narrow one
    let entry = ctx.registry.get(&s("tenant"), ProcedureKind::Query).unwrap();
    let combined_shape = Descriptor::Object(vec![
        (s("tenantId"), Descriptor::Str),
        (s("data"), Descriptor::Object(vec![(s("x"), Descriptor::Int)])),
    ]);
    assert_eq!(entry.arg_descriptor, combined_shape);
}

#[test]
fn context_extension_reaches_the_resolver() {
    let mut ctx = BuildCtx::new(Vec::new());
    let add = Layer {
        input_tag: s("base"),
        output_tag: s("tenant"),
        behavior: LayerBehavior::AddCtx { key: s("tenant"), value: Value::Str(s("t1")) },
    };
    let rd = ResolverDef {
        logic: ResolverLogic::CtxField(s("tenant")),
        arg_shape: Descriptor::Null,
        result_shape: Descriptor::Str,
    };
    build_query(&mut ctx, "whoami", rd, vec![add]);
    let r = invoke(
        &ctx.registry, &ctx.cache, &s("whoami"), ProcedureKind::Query,
        Value::Null, &Value::Null, Value::Obj(Vec::new()),
    );
    assert!(matches!(r.outcome, Outcome::Completed(Value::Str(t)) if t == "t1"));
}

#[test]
fn bypass_layer_serves_without_the_resolver() {
    let mut ctx = BuildCtx::new(Vec::new());
    let serve = Layer {
        input_tag: s("base"),
        output_tag: s("base"),
        behavior: LayerBehavior::ServeFromMeta { meta_key: s("cached") },
    };
    build_query(&mut ctx, "maybe", echo_resolver(Descriptor::Int, Descriptor::Int), vec![serve]);
    let meta = obj(vec![("cached", Value::Int(42))]);
    let r = invoke(
        &ctx.registry, &ctx.cache, &s("maybe"), ProcedureKind::Query,
        Value::Int(1), &meta, Value::Null,
    );
    assert!(matches!(r.outcome, Outcome::Completed(Value::Int(42))));
    assert!(r.trace.iter().all(|e| *e != Event::Resolver));
}

// ---- subscriptions and cancellation ----

#[test]
fn subscription_streams_and_cancels() {
    let mut ctx = BuildCtx::new(Vec::new());
    let rd = ResolverDef {
        logic: ResolverLogic::Const(Value::Arr(vec![Value::Int(1), Value::Int(2), Value::Int(3)])),
        arg_shape: Descriptor::Null,
        result_shape: Descriptor::List(Box::new(Descriptor::Int)),
    };
    let p = unresolved().subscription(rd).unwrap();
    p.build(s("ticks"), &mut ctx).unwrap();
    let r = invoke(
        &ctx.registry, &ctx.cache, &s("ticks"), ProcedureKind::Subscription,
        Value::Null, &Value::Null, Value::Null,
    );
    let items = match r.outcome {
        Outcome::CompletedStream(items) => items,
        other => panic!("expected stream, got {:?}", other),
    };
    assert_eq!(items.len(), 3);

    let (all, end) = drain_stream(items, None);
    assert_eq!(end, StreamEnd::Exhausted);
    assert_eq!(all.len(), 3);

    let (some, end) = drain_stream(all, Some(2));
    assert_eq!(end, StreamEnd::Cancelled);
    assert_eq!(some, vec![Value::Int(1), Value::Int(2)]);
}

// ---- the type cache ----

#[test]
fn self_referential_shape_terminates_and_is_cached_once() {
    let defs = vec![TypeDef {
        name: s("Node"),
        fields: vec![(s("next"), Descriptor::Optional(Box::new(Descriptor::Ref(s("Node")))))],
    }];
    let mut ctx = BuildCtx::new(defs);
    let rd = echo_resolver(Descriptor::Ref(s("Node")), Descriptor::Ref(s("Node")));
    build_query(&mut ctx, "node", rd, Vec::new());
    assert_eq!(ctx.cache.entries.len(), 1);
    assert_eq!(ctx.cache.entries[0].0, s("Node"));

    // a second procedure over the same shape computes nothing anew
    let rd = echo_resolver(Descriptor::Ref(s("Node")), Descriptor::Null);
    build_query(&mut ctx, "node2", rd, Vec::new());
    assert_eq!(ctx.cache.entries.len(), 1);

    // and the self-referential value decodes against the cached shape
    let v = obj(vec![("next", obj(vec![("next", Value::Null)]))]);
    assert!(check_value(&ctx.cache, &Descriptor::Ref(s("Node")), &v));
}

#[test]
fn unknown_named_shape_fails_the_build() {
    let mut ctx = BuildCtx::new(Vec::new());
    let rd = echo_resolver(Descriptor::Ref(s("Ghostly")), Descriptor::Null);
    let p = unresolved().query(rd).unwrap();
    assert_eq!(
        p.build(s("bad"), &mut ctx).unwrap_err(),
        ConfigurationError::UnsupportedShape(s("Ghostly"))
    );
    assert!(ctx.registry.enumerate(ProcedureKind::Query).is_empty());
}

#[test]
fn enumerate_keeps_insertion_order() {
    let mut ctx = BuildCtx::new(Vec::new());
    build_query(&mut ctx, "b", echo_resolver(Descriptor::Int, Descriptor::Int), Vec::new());
    build_query(&mut ctx, "a", echo_resolver(Descriptor::Int, Descriptor::Int), Vec::new());
    let keys: Vec<&str> = ctx
        .registry
        .enumerate(ProcedureKind::Query)
        .iter()
        .map(|e| e.key.as_str())
        .collect();
    assert_eq!(keys, vec!["b", "a"]);
}

#[test]
fn nonconforming_result_is_a_decoding_error() {
    let mut ctx = BuildCtx::new(Vec::new());
    let rd = ResolverDef {
        logic: ResolverLogic::Const(Value::Str(s("oops"))),
        arg_shape: Descriptor::Null,
        result_shape: Descriptor::Int,
    };
    build_query(&mut ctx, "broken", rd, Vec::new());
    let r = invoke(
        &ctx.registry, &ctx.cache, &s("broken"), ProcedureKind::Query,
        Value::Null, &Value::Null, Value::Null,
    );
    assert!(matches!(r.outcome, Outcome::Failed(DispatchError::Decoding)));
    // the resolver did run before its result was refused
    assert_eq!(r.trace.iter().filter(|e| **e == Event::Resolver).count(), 1);
}

#[test]
fn mapper_rejects_input_without_its_keys() {
    let mut ctx = BuildCtx::new(Vec::new());
    let mapper_layer = Layer {
        input_tag: s("base"),
        output_tag: s("base"),
        behavior: LayerBehavior::MapArg(ArgMapper {
            state_key: s("tenantId"),
            state_shape: Descriptor::Str,
            data_key: s("data"),
        }),
    };
    build_query(&mut ctx, "tenant", echo_resolver(Descriptor::Int, Descriptor::Int), vec![mapper_layer]);
    let r = invoke(
        &ctx.registry, &ctx.cache, &s("tenant"), ProcedureKind::Query,
        obj(vec![("data", Value::Int(1))]), &Value::Null, Value::Null,
    );
    assert!(matches!(r.outcome, Outcome::Failed(DispatchError::Decoding)));
    assert!(r.trace.iter().all(|e| *e != Event::Resolver));
}

#[test]
fn named_shape_value_mismatch_is_rejected() {
    let defs = vec![TypeDef {
        name: s("Point"),
        fields: vec![(s("x"), Descriptor::Int), (s("y"), Descriptor::Int)],
    }];
    let mut ctx = BuildCtx::new(defs);
    build_query(
        &mut ctx,
        "plot",
        echo_resolver(Descriptor::Ref(s("Point")), Descriptor::Ref(s("Point"))),
        Vec::new(),
    );
    let good = obj(vec![("x", Value::Int(1)), ("y", Value::Int(2))]);
    let bad = obj(vec![("x", Value::Int(1)), ("y", Value::Str(s("two")))]);
    assert!(check_value(&ctx.cache, &Descriptor::Ref(s("Point")), &good));
    assert!(!check_value(&ctx.cache, &Descriptor::Ref(s("Point")), &bad));
    let r = invoke(
        &ctx.registry, &ctx.cache, &s("plot"), ProcedureKind::Query,
        bad, &Value::Null, Value::Null,
    );
    assert!(matches!(r.outcome, Outcome::Failed(DispatchError::Decoding)));
}
