//! Shared per-process state, generic over the connection pool and the
//! cache so that the request handlers stay testable.

use vstd::prelude::*;

verus! {

/// The state a request handler works with: a database pool and a
/// cache.
#[derive(Clone)]
pub struct AppStateGeneric<T, U> {
    pub pool: T,
    pub cache: U,
}

} // verus!
