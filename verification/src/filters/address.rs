//! The blacklist filters, under the name of what they filter by.

pub use crate::filters::blacklist::{
    filter_blacklisted_addresses,
    filter_blacklisted_pools,
    filter_blacklisted_tokens,
};
pub use crate::filters::get_tokens_from_pool;
