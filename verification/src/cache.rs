//! The rates resolved during one filter pass, remembered by token.
//!
//! A token's rate is resolved at most once in a pass: the first rate recorded
//! for a token stays, and every later lookup gives it back. The cache does
//! not look inside a rate; `R` is whatever the caller measures rates in.

use vstd::prelude::*;
use crate::address_map::AddressMap;
use crate::primitives::Address;

verus! {

/// The cache after `rate` was recorded for `token`: a token that has a rate
/// keeps it, a new token gets `rate`.
pub open spec fn recorded<R>(cache: Map<Address, R>, token: Address, rate: R) -> Map<Address, R> {
    if cache.contains_key(token) {
        cache
    } else {
        cache.insert(token, rate)
    }
}

/// A map from token address to the rate resolved for it.
pub struct PriceCache<R> {
    rates: AddressMap<R>,
}

impl<R> View for PriceCache<R> {
    type V = Map<Address, R>;

    closed spec fn view(&self) -> Map<Address, R> {
        self.rates@
    }
}

impl<R: Copy> PriceCache<R> {
    /// A cache without a rate.
    pub fn new() -> (cache: PriceCache<R>)
        ensures
            cache@ == Map::<Address, R>::empty(),
    {
        PriceCache { rates: AddressMap::new() }
    }

    /// The rate recorded for `token`, if there is one.
    pub fn get(&self, token: Address) -> (rate: Option<R>)
        ensures
            match rate {
                Some(r) => self@.contains_key(token) && self@[token] == r,
                None => !self@.contains_key(token),
            },
    {
        self.rates.get(token)
    }

    /// Records `rate` for `token` unless the token has a rate already, and
    /// returns the rate that the cache now holds for it.
    pub fn record(&mut self, token: Address, rate: R) -> (cached: R)
        ensures
            final(self)@ == recorded(old(self)@, token, rate),
            final(self)@.contains_key(token),
            cached == final(self)@[token],
    {
        self.rates.insert_if_absent(token, rate)
    }
}

/// A token is resolved at most once in a pass. Once a rate is recorded for
/// it, a lookup finds the token, so that nothing is left to resolve; a second
/// rate recorded for it changes nothing; and so both lookups give one rate.
pub proof fn lemma_resolved_once<R>(cache: Map<Address, R>, token: Address, first: R, second: R)
    ensures
        recorded(cache, token, first).contains_key(token),
        recorded(recorded(cache, token, first), token, second) == recorded(cache, token, first),
        recorded(recorded(cache, token, first), token, second)[token] == recorded(
            cache,
            token,
            first,
        )[token],
        !cache.contains_key(token) ==> recorded(cache, token, first)[token] == first,
        cache.contains_key(token) ==> recorded(cache, token, first) == cache,
{
}

} // verus!
