//! Fixed configuration constants for the pipeline.
//!
//! These are tunables of the design: cache geometry, per-client rate limit,
//! and the global concurrency ceiling. Times are carried in milliseconds on
//! a monotonic clock supplied by the caller.

use vstd::prelude::*;

verus! {

/// Maximum number of entries the calendar cache may hold.
pub const CACHE_CAPACITY: usize = 100;

/// Time-to-live of a cache entry, in milliseconds.
pub const CACHE_TTL_MS: u64 = 30000;

/// Sustained per-client rate, in requests per second.
pub const RATE_PER_SECOND: u64 = 10;

/// Per-client burst capacity, in requests.
pub const BURST_CAPACITY: u64 = 20;

/// Global ceiling on simultaneously executing requests.
pub const CONCURRENCY_CEILING: u64 = 50;

} // verus!
