//! Queries that ask the node about many pools in one round trip.

pub mod filter_by_value;
