//! Core of a typed remote-procedure-call framework: named procedures are
//! assembled from a middleware chain plus a resolver, collected into an
//! immutable registry, and dispatched against at call time, while a shared
//! type cache memoizes the structural descriptors exported for client code
//! generation.

pub mod cache;
pub mod codec;
pub mod descriptor;
pub mod dispatch;
pub mod errors;
pub mod middleware;
pub mod procedure;
pub mod registry;
pub mod resolver;
pub mod value;
