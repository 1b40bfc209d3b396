//! Request-admission and caching pipeline for a transit-line calendar service.
//!
//! The crate models the core of an HTTP edge layer that serves per-line
//! calendar feeds: a case-sensitive line validator, a bounded time-expiring
//! calendar cache, a per-client token-bucket rate limiter, a global in-flight
//! concurrency counter, and the request orchestrator that composes them
//! around a single opaque upstream fetch.

pub mod cache;
pub mod config;
pub mod inflight;
pub mod lines;
pub mod orchestrator;
pub mod ratelimit;
