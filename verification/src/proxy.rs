//! The gRPC proxy service.
use crate::cache::Cache;
use std::sync::{Arc, RwLock};
use vstd::prelude::*;

verus! {

/// The data proxy's gRPC service; it shares the key cache.
pub struct ProxyService {
    pub cache: Arc<RwLock<Cache>>,
}

impl ProxyService {
    /// A service over the given cache.
    pub fn _new(cache: Arc<RwLock<Cache>>) -> (res: Self)
        ensures
            res.cache == cache,
    {
        Self { cache }
    }
}

} // verus!
