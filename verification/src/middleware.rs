//! Middleware layers.
//!
//! A chain is an ordered list of [`Layer`]s. Each layer declares an
//! input-context and an output-context tag (checked when the layer is
//! appended) and one behavior: given the per-call envelope (raw input and
//! request metadata) and the current context bag, it either continues with a
//! possibly rewritten input and context, or short-circuits the call with a
//! terminal outcome — an error or a bypass value.

use vstd::prelude::*;

use crate::descriptor::{clone_descriptor, spec_of_desc, spec_of_desc_fields, Descriptor, SpecDesc};
use crate::errors::{DispatchError, SpecDispatchError};
use crate::value::{
    clone_value, obj_get, spec_get_field, spec_of_entries, spec_of_value, value_eq, SpecVal, Value,
};

verus! {

/// Ghost model of an argument mapper.
pub struct SpecArgMapper {
    pub state_key: Seq<char>,
    pub state_shape: SpecDesc,
    pub data_key: Seq<char>,
}

/// Splits one combined input object into a forwarded argument (under
/// `data_key`) and middleware-local state (under `state_key`). The state is
/// consumed by the owning layer alone and never reaches later layers or the
/// resolver; the shape exported for client generation is the combined shape.
#[derive(Debug)]
pub struct ArgMapper {
    pub state_key: String,
    pub state_shape: Descriptor,
    pub data_key: String,
}

impl View for ArgMapper {
    type V = SpecArgMapper;

    open spec fn view(&self) -> SpecArgMapper {
        SpecArgMapper {
            state_key: self.state_key@,
            state_shape: self.state_shape@,
            data_key: self.data_key@,
        }
    }
}

/// The combined input shape a mapper exports, wrapped around the shape `inner`
/// that the rest of the chain sees.
pub open spec fn spec_combined_shape(m: SpecArgMapper, inner: SpecDesc) -> SpecDesc {
    SpecDesc::Object(seq![(m.state_key, m.state_shape), (m.data_key, inner)])
}

impl ArgMapper {
    /// Builds the combined input shape around `inner`.
    pub fn combined_shape(&self, inner: Descriptor) -> (r: Descriptor)
        ensures
            r@ == spec_combined_shape(self@, inner@),
    {
        let mut fields: Vec<(String, Descriptor)> = Vec::new();
        fields.push((self.state_key.clone(), clone_descriptor(&self.state_shape)));
        fields.push((self.data_key.clone(), inner));
        proof {
            assert(fields@.len() == 2);
            assert(fields@[0].0@ == self@.state_key);
            assert(spec_of_desc(fields@[0].1) == self@.state_shape);
            assert(fields@[1].0@ == self@.data_key);
            assert(spec_of_desc_fields(fields@) =~= seq![
                (self@.state_key, self@.state_shape),
                (self@.data_key, spec_of_desc(fields@[1].1)),
            ]);
        }
        Descriptor::Object(fields)
    }
}

/// Ghost model of a layer behavior.
pub enum SpecLayerBehavior {
    Pass,
    Gate { meta_key: Seq<char>, expected: SpecVal, error: Seq<char> },
    MapArg(SpecArgMapper),
    AddCtx { key: Seq<char>, value: SpecVal },
    ServeFromMeta { meta_key: Seq<char> },
}

/// What one layer does with a call.
#[derive(Debug)]
pub enum LayerBehavior {
    /// Hands input and context through unchanged.
    Pass,
    /// Short-circuits with a middleware error unless the request metadata
    /// carries `expected` under `meta_key`: an authorization gate.
    Gate { meta_key: String, expected: Value, error: String },
    /// Rewrites the raw input through an [`ArgMapper`], forwarding only the
    /// narrow argument.
    MapArg(ArgMapper),
    /// Extends the context bag with one binding.
    AddCtx { key: String, value: Value },
    /// Short-circuits with a bypass value when the request metadata carries
    /// one under `meta_key`; continues untouched otherwise.
    ServeFromMeta { meta_key: String },
}

impl View for LayerBehavior {
    type V = SpecLayerBehavior;

    open spec fn view(&self) -> SpecLayerBehavior {
        match self {
            LayerBehavior::Pass => SpecLayerBehavior::Pass,
            LayerBehavior::Gate { meta_key, expected, error } => SpecLayerBehavior::Gate {
                meta_key: meta_key@,
                expected: expected@,
                error: error@,
            },
            LayerBehavior::MapArg(m) => SpecLayerBehavior::MapArg(m@),
            LayerBehavior::AddCtx { key, value } => SpecLayerBehavior::AddCtx {
                key: key@,
                value: value@,
            },
            LayerBehavior::ServeFromMeta { meta_key } => SpecLayerBehavior::ServeFromMeta {
                meta_key: meta_key@,
            },
        }
    }
}

/// Ghost model of a layer.
pub struct SpecLayer {
    pub input_tag: Seq<char>,
    pub output_tag: Seq<char>,
    pub behavior: SpecLayerBehavior,
}

/// One middleware layer: declared context tags plus a behavior.
#[derive(Debug)]
pub struct Layer {
    pub input_tag: String,
    pub output_tag: String,
    pub behavior: LayerBehavior,
}

impl View for Layer {
    type V = SpecLayer;

    open spec fn view(&self) -> SpecLayer {
        SpecLayer {
            input_tag: self.input_tag@,
            output_tag: self.output_tag@,
            behavior: self.behavior@,
        }
    }
}

/// Ghost model of a layer's verdict on a call.
pub enum SpecLayerOut {
    /// Hand the (possibly rewritten) input and context to the rest of the
    /// chain.
    Continue(SpecVal, SpecVal),
    /// Short-circuit the call with an error.
    Fail(SpecDispatchError),
    /// Short-circuit the call with a bypass value.
    Serve(SpecVal),
}

/// A layer's verdict on a call.
#[derive(Debug)]
pub enum LayerOut {
    Continue(Value, Value),
    Fail(DispatchError),
    Serve(Value),
}

impl View for LayerOut {
    type V = SpecLayerOut;

    open spec fn view(&self) -> SpecLayerOut {
        match self {
            LayerOut::Continue(input, ctx) => SpecLayerOut::Continue(input@, ctx@),
            LayerOut::Fail(e) => SpecLayerOut::Fail(e@),
            LayerOut::Serve(v) => SpecLayerOut::Serve(v@),
        }
    }
}

/// What one layer's pre-logic does: the model interpreted by the dispatcher.
pub open spec fn spec_layer_step(l: SpecLayer, input: SpecVal, meta: SpecVal, ctx: SpecVal) -> SpecLayerOut {
    match l.behavior {
        SpecLayerBehavior::Pass => SpecLayerOut::Continue(input, ctx),
        SpecLayerBehavior::Gate { meta_key, expected, error } => match spec_get_field(meta, meta_key) {
            Option::Some(found) => if found == expected {
                SpecLayerOut::Continue(input, ctx)
            } else {
                SpecLayerOut::Fail(SpecDispatchError::Middleware(error))
            },
            Option::None => SpecLayerOut::Fail(SpecDispatchError::Middleware(error)),
        },
        SpecLayerBehavior::MapArg(m) => match spec_get_field(input, m.data_key) {
            Option::Some(forwarded) => match spec_get_field(input, m.state_key) {
                Option::Some(_state) => SpecLayerOut::Continue(forwarded, ctx),
                Option::None => SpecLayerOut::Fail(SpecDispatchError::Decoding),
            },
            Option::None => SpecLayerOut::Fail(SpecDispatchError::Decoding),
        },
        SpecLayerBehavior::AddCtx { key, value } => match ctx {
            SpecVal::Obj(fields) => SpecLayerOut::Continue(
                input,
                SpecVal::Obj(fields.push((key, value))),
            ),
            _ => SpecLayerOut::Fail(SpecDispatchError::Decoding),
        },
        SpecLayerBehavior::ServeFromMeta { meta_key } => match spec_get_field(meta, meta_key) {
            Option::Some(found) => SpecLayerOut::Serve(found),
            Option::None => SpecLayerOut::Continue(input, ctx),
        },
    }
}

/// Runs one layer's pre-logic on the threaded input and context.
pub fn run_layer(l: &Layer, input: Value, meta: &Value, ctx: Value) -> (r: LayerOut)
    ensures
        r@ == spec_layer_step(l@, input@, meta@, ctx@),
{
    match &l.behavior {
        LayerBehavior::Pass => LayerOut::Continue(input, ctx),
        LayerBehavior::Gate { meta_key, expected, error } => match meta {
            Value::Obj(meta_fields) => match obj_get(meta_fields, meta_key) {
                Option::Some(found) => if value_eq(found, expected) {
                    LayerOut::Continue(input, ctx)
                } else {
                    LayerOut::Fail(DispatchError::Middleware(error.clone()))
                },
                Option::None => LayerOut::Fail(DispatchError::Middleware(error.clone())),
            },
            _ => LayerOut::Fail(DispatchError::Middleware(error.clone())),
        },
        LayerBehavior::MapArg(m) => match &input {
            Value::Obj(input_fields) => match obj_get(input_fields, &m.data_key) {
                Option::Some(forwarded) => match obj_get(input_fields, &m.state_key) {
                    Option::Some(_state) => LayerOut::Continue(clone_value(forwarded), ctx),
                    Option::None => LayerOut::Fail(DispatchError::Decoding),
                },
                Option::None => LayerOut::Fail(DispatchError::Decoding),
            },
            _ => LayerOut::Fail(DispatchError::Decoding),
        },
        LayerBehavior::AddCtx { key, value } => match ctx {
            Value::Obj(mut ctx_fields) => {
                let ghost before = ctx_fields@;
                ctx_fields.push((key.clone(), clone_value(value)));
                proof {
                    assert(spec_of_entries(ctx_fields@)
                        =~= spec_of_entries(before).push((key@, value@)));
                }
                LayerOut::Continue(input, Value::Obj(ctx_fields))
            },
            _ => LayerOut::Fail(DispatchError::Decoding),
        },
        LayerBehavior::ServeFromMeta { meta_key } => match meta {
            Value::Obj(meta_fields) => match obj_get(meta_fields, meta_key) {
                Option::Some(found) => LayerOut::Serve(clone_value(found)),
                Option::None => LayerOut::Continue(input, ctx),
            },
            _ => LayerOut::Continue(input, ctx),
        },
    }
}

} // verus!
