//! Filters over liquidity pools: blacklists by address, and thresholds on the
//! value a pool holds in a reference asset.
//!
//! The library works on snapshots of pools and on what a node answered. It
//! asks nothing itself: whoever talks to the node follows the steps that the
//! library decides and hands back what came.
//!
//! - `pool`, `primitives`, `errors`: the data.
//! - `address_map`: a hash map keyed by address.
//! - `filters::blacklist`: filters by token and pool address.
//! - `resolver`: the choice of the pool that prices a token.
//! - `cache`: the rates resolved during one pass.
//! - `batch_requests::filter_by_value`: the request for the values of a group
//!   of pools, and the reading of its answer.
//! - `filters::value`: the pass over all groups, and the threshold filters.

pub mod address_map;
pub mod batch_requests;
pub mod cache;
pub mod errors;
pub mod filters;
pub mod pool;
pub mod primitives;
pub mod resolver;
