//! The filters proper, and what they share.

pub mod address;
pub mod blacklist;
pub mod value;

use vstd::prelude::*;
use crate::pool::Pool;
use crate::primitives::Address;

verus! {

/// The pool's two tokens, `token_a` first.
pub fn get_tokens_from_pool(pool: &Pool) -> (tokens: Vec<Address>)
    ensures
        tokens@ == pool.spec_tokens(),
{
    let mut tokens: Vec<Address> = Vec::new();
    match pool {
        Pool::UniswapV2(pool) => {
            tokens.push(pool.token_a);
            tokens.push(pool.token_b);
        },
        Pool::UniswapV3(pool) => {
            tokens.push(pool.token_a);
            tokens.push(pool.token_b);
        },
    }
    assert(tokens@ =~= pool.spec_tokens());
    tokens
}

} // verus!
