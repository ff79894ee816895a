//! Health reports of the storage and cache back ends.

use vstd::prelude::*;

verus! {

/// State of the database connection pool.
#[derive(Clone, Debug)]
pub struct DbStatus {
    pub healthy: bool,
    pub error: Option<String>,
    pub active_connections: usize,
    pub idle_connections: usize,
    pub max_connections: usize,
    pub min_connections: usize,
}

/// State of the cache connection pool.
#[derive(Clone, Debug)]
pub struct CacheStatus {
    pub healthy: bool,
    pub error: Option<String>,
    pub pool_size: usize,
}

/// Health report of the whole engine.
#[derive(Clone, Debug)]
pub struct EngineStatus {
    pub commit: Option<String>,
    pub db: DbStatus,
    pub cache: CacheStatus,
}

impl DbStatus {
    /// The status of a pool that has not answered yet: not healthy, no error,
    /// no connections.
    pub fn new() -> (r: Self)
        ensures
            !r.healthy,
            r.error is None,
            r.active_connections == 0,
            r.idle_connections == 0,
            r.max_connections == 0,
            r.min_connections == 0,
    {
        DbStatus {
            healthy: false,
            error: None,
            active_connections: 0,
            idle_connections: 0,
            max_connections: 0,
            min_connections: 0,
        }
    }
}

impl CacheStatus {
    /// The status of a cache that has not answered yet.
    pub fn new() -> (r: Self)
        ensures
            !r.healthy,
            r.error is None,
            r.pool_size == 0,
    {
        CacheStatus { healthy: false, error: None, pool_size: 0 }
    }
}

impl EngineStatus {
    /// A report in which neither back end has answered yet.
    pub fn new() -> (r: Self)
        ensures
            r.commit is None,
            !r.db.healthy,
            r.db.error is None,
            r.db.active_connections == 0,
            r.db.idle_connections == 0,
            r.db.max_connections == 0,
            r.db.min_connections == 0,
            !r.cache.healthy,
            r.cache.error is None,
            r.cache.pool_size == 0,
            !r.spec_healthy(),
    {
        EngineStatus { commit: None, db: DbStatus::new(), cache: CacheStatus::new() }
    }

    /// The engine is healthy when both back ends say so and neither reports an error.
    pub open spec fn spec_healthy(&self) -> bool {
        &&& self.db.healthy
        &&& self.db.error is None
        &&& self.cache.healthy
        &&& self.cache.error is None
    }

    pub fn healthy(&self) -> (r: bool)
        ensures
            r == self.spec_healthy(),
    {
        self.db.healthy && self.db.error.is_none() && self.cache.healthy
            && self.cache.error.is_none()
    }
}

impl Default for DbStatus {
    fn default() -> (r: Self)
        ensures
            !r.healthy,
            r.error is None,
            r.active_connections == 0,
            r.idle_connections == 0,
            r.max_connections == 0,
            r.min_connections == 0,
    {
        DbStatus::new()
    }
}

impl Default for CacheStatus {
    fn default() -> (r: Self)
        ensures
            !r.healthy,
            r.error is None,
            r.pool_size == 0,
    {
        CacheStatus::new()
    }
}

impl Default for EngineStatus {
    fn default() -> (r: Self)
        ensures
            r.commit is None,
            !r.db.healthy,
            r.db.error is None,
            r.db.active_connections == 0,
            r.db.idle_connections == 0,
            r.db.max_connections == 0,
            r.db.min_connections == 0,
            !r.cache.healthy,
            r.cache.error is None,
            r.cache.pool_size == 0,
            !r.spec_healthy(),
    {
        EngineStatus::new()
    }
}

} // verus!
