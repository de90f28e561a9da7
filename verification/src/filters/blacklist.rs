//! Filters that drop pools by address.

use vstd::prelude::*;
use crate::address_map::AddressMap;
use crate::pool::Pool;
use crate::primitives::Address;
use crate::filters::get_tokens_from_pool;

verus! {

/// Whether one of the pool's two tokens is on the blacklist.
pub open spec fn has_blacklisted_token(pool: Pool, blacklist: Seq<Address>) -> bool {
    blacklist.contains(pool.spec_token_a()) || blacklist.contains(pool.spec_token_b())
}

/// Whether the pool's own address is on the blacklist.
pub open spec fn is_blacklisted_pool(pool: Pool, blacklist: Seq<Address>) -> bool {
    blacklist.contains(pool.spec_address())
}

/// The pools without a blacklisted token, in their order.
pub open spec fn spec_filter_blacklisted_tokens(
    pools: Seq<Pool>,
    blacklist: Seq<Address>,
) -> Seq<Pool> {
    pools.filter(|pool: Pool| !has_blacklisted_token(pool, blacklist))
}

/// The pools whose own address is not blacklisted, in their order.
pub open spec fn spec_filter_blacklisted_pools(
    pools: Seq<Pool>,
    blacklist: Seq<Address>,
) -> Seq<Pool> {
    pools.filter(|pool: Pool| !is_blacklisted_pool(pool, blacklist))
}

/// The pools with neither a blacklisted token nor a blacklisted address of
/// their own, in their order.
pub open spec fn spec_filter_blacklisted_addresses(
    pools: Seq<Pool>,
    blacklist: Seq<Address>,
) -> Seq<Pool> {
    pools.filter(
        |pool: Pool|
            !has_blacklisted_token(pool, blacklist) && !is_blacklisted_pool(pool, blacklist),
    )
}

/// The blacklisted addresses as a set.
pub fn blacklist_of(blacklisted_addresses: &Vec<Address>) -> (blacklist: AddressMap<()>)
    ensures
        forall|address: Address|
            blacklist@.contains_key(address) <==> blacklisted_addresses@.contains(address),
{
    let mut blacklist: AddressMap<()> = AddressMap::new();
    let mut i: usize = 0;
    while i < blacklisted_addresses.len()
        invariant
            i <= blacklisted_addresses.len(),
            forall|address: Address|
                blacklist@.contains_key(address) <==> blacklisted_addresses@.take(
                    i as int,
                ).contains(address),
        decreases blacklisted_addresses.len() - i,
    {
        let ghost before = blacklisted_addresses@.take(i as int);
        let ghost after = blacklisted_addresses@.take(i as int + 1);
        blacklist.insert_if_absent(blacklisted_addresses[i], ());
        proof {
            assert(after =~= before.push(blacklisted_addresses[i as int]));
            assert forall|address: Address| blacklist@.contains_key(address) <==> after.contains(
                address,
            ) by {
                if before.contains(address) {
                    let k = before.index_of(address);
                    assert(after[k] == address);
                }
                if address == blacklisted_addresses[i as int] {
                    assert(after[i as int] == address);
                }
            }
        }
        i += 1;
    }
    assert(blacklisted_addresses@.take(i as int) =~= blacklisted_addresses@);
    blacklist
}

/// Whether one of the pool's tokens is on the blacklist.
fn pool_has_blacklisted_token(
    pool: &Pool,
    blacklist: &AddressMap<()>,
    Ghost(blacklisted_addresses): Ghost<Seq<Address>>,
) -> (found: bool)
    requires
        forall|address: Address|
            blacklist@.contains_key(address) <==> blacklisted_addresses.contains(address),
    ensures
        found == has_blacklisted_token(*pool, blacklisted_addresses),
{
    let tokens = get_tokens_from_pool(pool);
    let mut blacklisted_token_in_pool = false;
    let mut i: usize = 0;
    while i < tokens.len()
        invariant
            i <= tokens.len(),
            tokens@ == pool.spec_tokens(),
            forall|address: Address|
                blacklist@.contains_key(address) <==> blacklisted_addresses.contains(address),
            blacklisted_token_in_pool == (exists|k: int|
                0 <= k < i && blacklisted_addresses.contains(#[trigger] tokens[k])),
        decreases tokens.len() - i,
    {
        if blacklist.contains(tokens[i]) {
            blacklisted_token_in_pool = true;
        }
        i += 1;
    }
    proof {
        if has_blacklisted_token(*pool, blacklisted_addresses) {
            if blacklisted_addresses.contains(pool.spec_token_a()) {
                assert(blacklisted_addresses.contains(tokens[0]));
            } else {
                assert(blacklisted_addresses.contains(tokens[1]));
            }
        }
    }
    blacklisted_token_in_pool
}

/// Drops the pools of which a token is blacklisted. What stays is every pool
/// with neither token on the blacklist, in the order of `pools`.
pub fn filter_blacklisted_tokens(
    pools: Vec<Pool>,
    blacklisted_addresses: Vec<Address>,
) -> (filtered_pools: Vec<Pool>)
    ensures
        filtered_pools@ == spec_filter_blacklisted_tokens(pools@, blacklisted_addresses@),
        forall|i: int|
            0 <= i < filtered_pools.len() ==> !has_blacklisted_token(
                #[trigger] filtered_pools[i],
                blacklisted_addresses@,
            ),
        forall|i: int|
            0 <= i < pools.len() && !has_blacklisted_token(
                #[trigger] pools[i],
                blacklisted_addresses@,
            ) ==> filtered_pools@.contains(pools[i]),
{
    let ghost keep = |pool: Pool| !has_blacklisted_token(pool, blacklisted_addresses@);
    let mut filtered_pools: Vec<Pool> = Vec::new();
    let blacklist = blacklist_of(&blacklisted_addresses);
    let mut i: usize = 0;
    while i < pools.len()
        invariant
            i <= pools.len(),
            keep == |pool: Pool| !has_blacklisted_token(pool, blacklisted_addresses@),
            forall|address: Address|
                blacklist@.contains_key(address) <==> blacklisted_addresses@.contains(address),
            filtered_pools@ == pools@.take(i as int).filter(keep),
        decreases pools.len() - i,
    {
        proof {
            assert(pools@.take(i as int + 1) =~= pools@.take(i as int).push(pools[i as int]));
            pools@.take(i as int).lemma_filter_push(pools[i as int], keep);
        }
        if !pool_has_blacklisted_token(&pools[i], &blacklist, Ghost(blacklisted_addresses@)) {
            filtered_pools.push(pools[i]);
        }
        i += 1;
    }
    proof {
        assert(pools@.take(i as int) =~= pools@);
        lemma_filter_keeps(pools@, keep);
    }
    filtered_pools
}

/// Drops the pools whose own address is blacklisted. What stays is every
/// other pool, in the order of `pools`.
pub fn filter_blacklisted_pools(
    pools: Vec<Pool>,
    blacklisted_addresses: Vec<Address>,
) -> (filtered_pools: Vec<Pool>)
    ensures
        filtered_pools@ == spec_filter_blacklisted_pools(pools@, blacklisted_addresses@),
        forall|i: int|
            0 <= i < filtered_pools.len() ==> !is_blacklisted_pool(
                #[trigger] filtered_pools[i],
                blacklisted_addresses@,
            ),
        forall|i: int|
            0 <= i < pools.len() && !is_blacklisted_pool(
                #[trigger] pools[i],
                blacklisted_addresses@,
            ) ==> filtered_pools@.contains(pools[i]),
{
    let ghost keep = |pool: Pool| !is_blacklisted_pool(pool, blacklisted_addresses@);
    let mut filtered_pools: Vec<Pool> = Vec::new();
    let blacklist = blacklist_of(&blacklisted_addresses);
    let mut i: usize = 0;
    while i < pools.len()
        invariant
            i <= pools.len(),
            keep == |pool: Pool| !is_blacklisted_pool(pool, blacklisted_addresses@),
            forall|address: Address|
                blacklist@.contains_key(address) <==> blacklisted_addresses@.contains(address),
            filtered_pools@ == pools@.take(i as int).filter(keep),
        decreases pools.len() - i,
    {
        proof {
            assert(pools@.take(i as int + 1) =~= pools@.take(i as int).push(pools[i as int]));
            pools@.take(i as int).lemma_filter_push(pools[i as int], keep);
        }
        if !blacklist.contains(pools[i].address()) {
            filtered_pools.push(pools[i]);
        }
        i += 1;
    }
    proof {
        assert(pools@.take(i as int) =~= pools@);
        lemma_filter_keeps(pools@, keep);
    }
    filtered_pools
}

/// Drops the pools of which a token or the pool's own address is blacklisted.
/// What stays is every other pool, in the order of `pools`.
pub fn filter_blacklisted_addresses(
    pools: Vec<Pool>,
    blacklisted_addresses: Vec<Address>,
) -> (filtered_pools: Vec<Pool>)
    ensures
        filtered_pools@ == spec_filter_blacklisted_addresses(pools@, blacklisted_addresses@),
        forall|i: int|
            0 <= i < filtered_pools.len() ==> {
                &&& !has_blacklisted_token(#[trigger] filtered_pools[i], blacklisted_addresses@)
                &&& !is_blacklisted_pool(filtered_pools[i], blacklisted_addresses@)
            },
        forall|i: int|
            0 <= i < pools.len() && !has_blacklisted_token(
                #[trigger] pools[i],
                blacklisted_addresses@,
            ) && !is_blacklisted_pool(pools[i], blacklisted_addresses@)
                ==> filtered_pools@.contains(pools[i]),
{
    let ghost keep = |pool: Pool|
        !has_blacklisted_token(pool, blacklisted_addresses@) && !is_blacklisted_pool(
            pool,
            blacklisted_addresses@,
        );
    let mut filtered_pools: Vec<Pool> = Vec::new();
    let blacklist = blacklist_of(&blacklisted_addresses);
    let mut i: usize = 0;
    while i < pools.len()
        invariant
            i <= pools.len(),
            keep == |pool: Pool|
                !has_blacklisted_token(pool, blacklisted_addresses@) && !is_blacklisted_pool(
                    pool,
                    blacklisted_addresses@,
                ),
            forall|address: Address|
                blacklist@.contains_key(address) <==> blacklisted_addresses@.contains(address),
            filtered_pools@ == pools@.take(i as int).filter(keep),
        decreases pools.len() - i,
    {
        proof {
            assert(pools@.take(i as int + 1) =~= pools@.take(i as int).push(pools[i as int]));
            pools@.take(i as int).lemma_filter_push(pools[i as int], keep);
        }
        let mut blacklisted_address_in_pool = pool_has_blacklisted_token(
            &pools[i],
            &blacklist,
            Ghost(blacklisted_addresses@),
        );
        if blacklist.contains(pools[i].address()) {
            blacklisted_address_in_pool = true;
        }
        if !blacklisted_address_in_pool {
            filtered_pools.push(pools[i]);
        }
        i += 1;
    }
    proof {
        assert(pools@.take(i as int) =~= pools@);
        lemma_filter_keeps(pools@, keep);
    }
    filtered_pools
}

/// What the combined filter keeps, both the token filter and the pool filter
/// keep: the combined policy is the conjunction of the two.
pub proof fn lemma_combined_filter_is_conjunction(pools: Seq<Pool>, blacklist: Seq<Address>)
    ensures
        forall|pool: Pool| #[trigger]
            spec_filter_blacklisted_addresses(pools, blacklist).contains(pool) ==> {
                &&& spec_filter_blacklisted_tokens(pools, blacklist).contains(pool)
                &&& spec_filter_blacklisted_pools(pools, blacklist).contains(pool)
            },
        spec_filter_blacklisted_addresses(pools, blacklist) == spec_filter_blacklisted_pools(
            spec_filter_blacklisted_tokens(pools, blacklist),
            blacklist,
        ),
{
    let both = |pool: Pool|
        !has_blacklisted_token(pool, blacklist) && !is_blacklisted_pool(pool, blacklist);
    let by_token = |pool: Pool| !has_blacklisted_token(pool, blacklist);
    let by_pool = |pool: Pool| !is_blacklisted_pool(pool, blacklist);
    lemma_filter_keeps(pools, both);
    lemma_filter_keeps(pools, by_token);
    lemma_filter_keeps(pools, by_pool);
    assert forall|pool: Pool| #[trigger]
        spec_filter_blacklisted_addresses(pools, blacklist).contains(pool) implies {
        &&& spec_filter_blacklisted_tokens(pools, blacklist).contains(pool)
        &&& spec_filter_blacklisted_pools(pools, blacklist).contains(pool)
    } by {
        let kept = pools.filter(both);
        let j = choose|j: int| 0 <= j < kept.len() && kept[j] == pool;
        assert(both(kept[j]));
        pools.lemma_filter_contains_rev(both, pool);
        let k = choose|k: int| 0 <= k < pools.len() && pools[k] == pool;
        assert(by_token(pools[k]) && by_pool(pools[k]));
    }
    lemma_filter_twice(pools, blacklist);
}

/// A filtered sequence holds only what the predicate accepts, and all of it.
proof fn lemma_filter_keeps(pools: Seq<Pool>, keep: spec_fn(Pool) -> bool)
    ensures
        forall|i: int| 0 <= i < pools.filter(keep).len() ==> keep(#[trigger] pools.filter(keep)[i]),
        forall|i: int|
            0 <= i < pools.len() && keep(pools[i]) ==> pools.filter(keep).contains(
                #[trigger] pools[i],
            ),
{
    assert forall|i: int| 0 <= i < pools.filter(keep).len() implies keep(
        #[trigger] pools.filter(keep)[i],
    ) by {
        pools.lemma_filter_pred(keep, i);
    }
    assert forall|i: int| 0 <= i < pools.len() && keep(pools[i]) implies pools.filter(
        keep,
    ).contains(#[trigger] pools[i]) by {
        pools.lemma_filter_contains(keep, i);
    }
}

/// Filtering by token and then by pool address is filtering by both at once.
proof fn lemma_filter_twice(pools: Seq<Pool>, blacklist: Seq<Address>)
    ensures
        spec_filter_blacklisted_addresses(pools, blacklist) == spec_filter_blacklisted_pools(
            spec_filter_blacklisted_tokens(pools, blacklist),
            blacklist,
        ),
    decreases pools.len(),
{
    let both = |pool: Pool|
        !has_blacklisted_token(pool, blacklist) && !is_blacklisted_pool(pool, blacklist);
    let by_token = |pool: Pool| !has_blacklisted_token(pool, blacklist);
    let by_pool = |pool: Pool| !is_blacklisted_pool(pool, blacklist);
    reveal(Seq::filter);
    if pools.len() > 0 {
        let front = pools.drop_last();
        lemma_filter_twice(front, blacklist);
        assert(pools =~= front.push(pools.last()));
        front.lemma_filter_push(pools.last(), both);
        front.lemma_filter_push(pools.last(), by_token);
        if by_token(pools.last()) {
            front.filter(by_token).lemma_filter_push(pools.last(), by_pool);
        }
    }
}

} // verus!
