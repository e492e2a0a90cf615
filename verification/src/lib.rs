//! A caching, load-balancing JSON-RPC reverse proxy core.
//!
//! The crate holds the verified logic of the proxy: the JSON-RPC data
//! model and its wire rendering, the deferred (local + remote)
//! rate-limiter decisions, the head-block-keyed response cache, and the
//! tiered dispatch decisions. Network transport, the async runtime and
//! the single-flight cache plumbing live outside the library and drive
//! these functions.

pub mod jsonrpc;
pub mod cache;
pub mod config;
pub mod dispatch;
pub mod frontend;
pub mod rate_limit;
pub mod render;

use vstd::prelude::*;

verus! {

} // verus!
