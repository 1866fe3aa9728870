//! The error taxonomy.
//!
//! Build-time failures ([`ConfigurationError`]) are fatal to startup: no
//! partially built registry is ever served. Call-time failures
//! ([`DispatchError`]) are scoped to their single call. Cancellation of a
//! subscription is not an error at all: it is a distinct stream ending
//! ([`crate::dispatch::StreamEnd::Cancelled`]), never reported as a resolver
//! failure.

use vstd::prelude::*;

verus! {

/// Ghost model of a build-time failure.
pub enum SpecConfigError {
    /// A resolver was attached twice, or middleware was appended after one.
    ResolverAlreadySet,
    /// `build` was reached with no resolver attached.
    ResolverMissing,
    /// A layer's declared input-context tag does not match the chain's
    /// current output-context tag.
    ContextShapeMismatch,
    /// A subscription resolver must declare a list-shaped result.
    StreamResultRequired,
    /// The key is already taken in the registry partition for this kind.
    DuplicateKey(Seq<char>),
    /// Descriptor computation hit a named shape with no definition.
    UnsupportedShape(Seq<char>),
}

/// A build-time failure, fatal to startup.
#[derive(Debug, PartialEq, Eq)]
pub enum ConfigurationError {
    ResolverAlreadySet,
    ResolverMissing,
    ContextShapeMismatch,
    StreamResultRequired,
    DuplicateKey(String),
    UnsupportedShape(String),
}

impl View for ConfigurationError {
    type V = SpecConfigError;

    open spec fn view(&self) -> SpecConfigError {
        match self {
            ConfigurationError::ResolverAlreadySet => SpecConfigError::ResolverAlreadySet,
            ConfigurationError::ResolverMissing => SpecConfigError::ResolverMissing,
            ConfigurationError::ContextShapeMismatch => SpecConfigError::ContextShapeMismatch,
            ConfigurationError::StreamResultRequired => SpecConfigError::StreamResultRequired,
            ConfigurationError::DuplicateKey(k) => SpecConfigError::DuplicateKey(k@),
            ConfigurationError::UnsupportedShape(n) => SpecConfigError::UnsupportedShape(n@),
        }
    }
}

/// Ghost model of a per-call failure.
pub enum SpecDispatchError {
    /// No entry under the key in the partition for the requested kind.
    NotFound,
    /// A raw value mismatched the expected shape at a chain boundary.
    Decoding,
    /// A layer short-circuited with an explicit error.
    Middleware(Seq<char>),
    /// The resolver's own fallible outcome: an application-level error,
    /// preserved distinctly from framework-internal errors.
    Resolver(Seq<char>),
}

/// A per-call failure, recoverable by the caller.
#[derive(Debug, PartialEq, Eq)]
pub enum DispatchError {
    NotFound,
    Decoding,
    Middleware(String),
    Resolver(String),
}

impl View for DispatchError {
    type V = SpecDispatchError;

    open spec fn view(&self) -> SpecDispatchError {
        match self {
            DispatchError::NotFound => SpecDispatchError::NotFound,
            DispatchError::Decoding => SpecDispatchError::Decoding,
            DispatchError::Middleware(m) => SpecDispatchError::Middleware(m@),
            DispatchError::Resolver(m) => SpecDispatchError::Resolver(m@),
        }
    }
}

} // verus!
