//! Detour: a DNS forwarding proxy core with blocking, caching and upstream racing.
//!
//! - [`dns`]: wire codec for queries, sinkhole responses and TTL scans
//! - [`filter`]: the domain blocklist with parent-suffix matching
//! - [`cache`]: the TTL-aware response cache
//! - [`resolver`]: the block / cache / forward decision engine
//! - [`stats`]: request counters
//! - [`transport`]: the decision parts of the UDP and TCP front ends
pub mod cache;
pub mod dns;
pub mod filter;
pub mod resolver;
pub mod stats;
pub mod fx;
pub mod text;
pub mod transport;

use vstd::prelude::*;

verus! {

} // verus!
