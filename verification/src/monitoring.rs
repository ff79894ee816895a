//! Monitoring report of the storage and cache back ends.

use vstd::prelude::*;

verus! {

/// What the database pool reports.
#[derive(Clone, Debug)]
pub struct MonitoringDb {
    pub ok: bool,
    pub error: Option<String>,
    pub active_connections: usize,
    pub idle_connections: usize,
    pub max_connections: usize,
    pub min_connections: usize,
}

/// What the cache pool reports.
#[derive(Clone, Debug)]
pub struct MonitoringCache {
    pub ok: bool,
    pub error: Option<String>,
    pub pool_size: usize,
}

/// The monitoring report as a whole.
#[derive(Clone, Debug)]
pub struct Monitoring {
    pub commit: Option<String>,
    pub db: MonitoringDb,
    pub cache: MonitoringCache,
}

impl MonitoringDb {
    /// A report of a pool that has not answered yet: not ok, no error, no
    /// connections.
    pub fn new() -> (r: Self)
        ensures
            !r.ok,
            r.error is None,
            r.active_connections == 0,
            r.idle_connections == 0,
            r.max_connections == 0,
            r.min_connections == 0,
    {
        MonitoringDb {
            ok: false,
            error: None,
            active_connections: 0,
            idle_connections: 0,
            max_connections: 0,
            min_connections: 0,
        }
    }
}

impl MonitoringCache {
    /// A report of a cache that has not answered yet.
    pub fn new() -> (r: Self)
        ensures
            !r.ok,
            r.error is None,
            r.pool_size == 0,
    {
        MonitoringCache { ok: false, error: None, pool_size: 0 }
    }
}

impl Monitoring {
    /// A report in which neither back end has answered yet.
    pub fn new() -> (r: Self)
        ensures
            r.commit is None,
            !r.db.ok,
            r.db.error is None,
            r.db.active_connections == 0,
            r.db.idle_connections == 0,
            r.db.max_connections == 0,
            r.db.min_connections == 0,
            !r.cache.ok,
            r.cache.error is None,
            r.cache.pool_size == 0,
            !r.spec_ok(),
    {
        Monitoring { commit: None, db: MonitoringDb::new(), cache: MonitoringCache::new() }
    }

    /// Everything is in order when both back ends say so and neither reports
    /// an error.
    pub open spec fn spec_ok(&self) -> bool {
        &&& self.db.ok
        &&& self.db.error is None
        &&& self.cache.ok
        &&& self.cache.error is None
    }

    pub fn ok(&self) -> (r: bool)
        ensures
            r == self.spec_ok(),
    {
        self.db.ok && self.db.error.is_none() && self.cache.ok && self.cache.error.is_none()
    }
}

impl Default for MonitoringDb {
    fn default() -> (r: Self)
        ensures
            !r.ok,
            r.error is None,
            r.active_connections == 0,
            r.idle_connections == 0,
            r.max_connections == 0,
            r.min_connections == 0,
    {
        MonitoringDb::new()
    }
}

impl Default for MonitoringCache {
    fn default() -> (r: Self)
        ensures
            !r.ok,
            r.error is None,
            r.pool_size == 0,
    {
        MonitoringCache::new()
    }
}

impl Default for Monitoring {
    fn default() -> (r: Self)
        ensures
            r.commit is None,
            !r.db.ok,
            r.db.error is None,
            r.db.active_connections == 0,
            r.db.idle_connections == 0,
            r.db.max_connections == 0,
            r.db.min_connections == 0,
            !r.cache.ok,
            r.cache.error is None,
            r.cache.pool_size == 0,
            !r.spec_ok(),
    {
        Monitoring::new()
    }
}

} // verus!
