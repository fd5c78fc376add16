//! Bounded connection pool accounting.
//!
//! The pool is the sole synchronization point of the layer: every operation
//! checks one connection out and back in. Checkouts never exceed the
//! configured maximum; an exhausted pool yields a retryable timeout error
//! for the excess caller instead of blocking without bound.

use vstd::prelude::*;

use crate::config::DatabaseConfig;
use crate::error::IndexerError;
use crate::error::spec_retryable;

verus! {

/// The pool sizing is usable: at least one connection, and the warm
/// minimum within the maximum.
pub open spec fn pool_config_ok(c: DatabaseConfig) -> bool {
    c.max_connections >= 1 && c.min_connections <= c.max_connections
}

/// Accounting of a bounded set of database connections.
pub struct ConnectionPool {
    max_connections: u32,
    min_connections: u32,
    acquire_timeout_secs: u64,
    idle_timeout_secs: u64,
    max_lifetime_secs: u64,
    in_use: u32,
}

impl ConnectionPool {
    /// Connections checked out at the moment.
    pub closed spec fn spec_in_use(&self) -> u32 {
        self.in_use
    }

    /// The hard bound on concurrent checkouts.
    pub closed spec fn spec_max_connections(&self) -> u32 {
        self.max_connections
    }

    /// The warm minimum kept when idle.
    pub closed spec fn spec_min_connections(&self) -> u32 {
        self.min_connections
    }

    /// How long a checkout may wait before it fails with a timeout.
    pub closed spec fn spec_acquire_timeout_secs(&self) -> u64 {
        self.acquire_timeout_secs
    }

    /// How long a checked-in connection may sit unused before eviction.
    pub closed spec fn spec_idle_timeout_secs(&self) -> u64 {
        self.idle_timeout_secs
    }

    /// Maximum lifetime of any connection before it is retired.
    pub closed spec fn spec_max_lifetime_secs(&self) -> u64 {
        self.max_lifetime_secs
    }

    /// Checkouts never exceed the maximum, and the sizing is usable.
    pub open spec fn wf(&self) -> bool {
        self.spec_in_use() <= self.spec_max_connections() && self.spec_min_connections()
            <= self.spec_max_connections() && self.spec_max_connections() >= 1
    }

    /// Builds the pool from its configuration. Unusable sizing (no
    /// connection at all, or a warm minimum above the maximum) fails
    /// construction, since every other component depends on a working pool.
    pub fn new(config: &DatabaseConfig) -> (r: Result<ConnectionPool, IndexerError>)
        ensures
            match r {
                Ok(p) => pool_config_ok(*config) && p.wf() && p.spec_in_use() == 0
                    && p.spec_max_connections() == config.max_connections
                    && p.spec_min_connections() == config.min_connections
                    && p.spec_acquire_timeout_secs() == config.acquire_timeout_secs
                    && p.spec_idle_timeout_secs() == config.idle_timeout_secs
                    && p.spec_max_lifetime_secs() == config.max_lifetime_secs,
                Err(e) => !pool_config_ok(*config) && e is Database,
            },
    {
        if config.max_connections == 0 || config.min_connections > config.max_connections {
            return Err(IndexerError::Database("unusable pool sizing".to_owned()));
        }
        Ok(
            ConnectionPool {
                max_connections: config.max_connections,
                min_connections: config.min_connections,
                acquire_timeout_secs: config.acquire_timeout_secs,
                idle_timeout_secs: config.idle_timeout_secs,
                max_lifetime_secs: config.max_lifetime_secs,
                in_use: 0,
            },
        )
    }

    /// Checks one connection out. With the pool exhausted the call does not
    /// block without bound: it fails with a retryable database timeout
    /// error and leaves the pool untouched; otherwise the checkout is
    /// granted.
    pub fn acquire(&mut self) -> (r: Result<(), IndexerError>)
        requires
            old(self).wf(),
        ensures
            final(self).wf(),
            final(self).spec_max_connections() == old(self).spec_max_connections(),
            final(self).spec_min_connections() == old(self).spec_min_connections(),
            match r {
                Ok(()) => old(self).spec_in_use() < old(self).spec_max_connections()
                    && final(self).spec_in_use() == old(self).spec_in_use() + 1,
                Err(e) => old(self).spec_in_use() == old(self).spec_max_connections()
                    && final(self).spec_in_use() == old(self).spec_in_use() && e is Database
                    && spec_retryable(e),
            },
    {
        if self.in_use < self.max_connections {
            self.in_use = self.in_use + 1;
            Ok(())
        } else {
            Err(IndexerError::Database("pool acquire timed out".to_owned()))
        }
    }

    /// Checks a connection back in.
    pub fn release(&mut self)
        requires
            old(self).wf(),
            old(self).spec_in_use() > 0,
        ensures
            final(self).wf(),
            final(self).spec_in_use() == old(self).spec_in_use() - 1,
            final(self).spec_max_connections() == old(self).spec_max_connections(),
            final(self).spec_min_connections() == old(self).spec_min_connections(),
    {
        self.in_use = self.in_use - 1;
    }

    /// Connections checked out at the moment.
    pub fn in_use(&self) -> (r: u32)
        ensures
            r == self.spec_in_use(),
    {
        self.in_use
    }

    /// Connections still available before the pool is exhausted.
    pub fn available(&self) -> (r: u32)
        requires
            self.wf(),
        ensures
            r == self.spec_max_connections() - self.spec_in_use(),
    {
        self.max_connections - self.in_use
    }

    /// The hard bound on concurrent checkouts.
    pub fn max_connections(&self) -> (r: u32)
        ensures
            r == self.spec_max_connections(),
    {
        self.max_connections
    }

    /// How long a checkout may wait before it fails with a timeout.
    pub fn acquire_timeout_secs(&self) -> (r: u64)
        ensures
            r == self.spec_acquire_timeout_secs(),
    {
        self.acquire_timeout_secs
    }

    /// How long a checked-in connection may sit unused before eviction.
    pub fn idle_timeout_secs(&self) -> (r: u64)
        ensures
            r == self.spec_idle_timeout_secs(),
    {
        self.idle_timeout_secs
    }

    /// Maximum lifetime of any connection before it is retired.
    pub fn max_lifetime_secs(&self) -> (r: u64)
        ensures
            r == self.spec_max_lifetime_secs(),
    {
        self.max_lifetime_secs
    }
}

} // verus!
