use pool_filters::filters::blacklist::{
    blacklist_of, filter_blacklisted_addresses, filter_blacklisted_pools,
    filter_blacklisted_tokens,
};
use pool_filters::filters::get_tokens_from_pool;
use pool_filters::pool::{Dex, DexVariant, Pool, UniswapV2Pool, UniswapV3Pool};
use pool_filters::primitives::Address;

fn address(n: u128) -> Address {
    Address { hi: 0, lo: n }
}

fn v2(pool: u128, token_a: u128, token_b: u128) -> Pool {
    Pool::UniswapV2(UniswapV2Pool {
        address: address(pool),
        token_a: address(token_a),
        token_a_decimals: 18,
        token_b: address(token_b),
        token_b_decimals: 18,
        reserve_0: 0,
        reserve_1: 0,
        fee: 300,
    })
}

fn v3(pool: u128, token_a: u128, token_b: u128) -> Pool {
    Pool::UniswapV3(UniswapV3Pool {
        address: address(pool),
        token_a: address(token_a),
        token_a_decimals: 6,
        token_b: address(token_b),
        token_b_decimals: 18,
        reserve_0: 0,
        reserve_1: 0,
        fee: 500,
    })
}

#[test]
fn token_filter_drops_pools_with_a_blacklisted_token() {
    let pools = vec![v2(1, 10, 11), v2(2, 12, 13), v3(3, 13, 10), v3(4, 11, 12)];
    let kept = filter_blacklisted_tokens(pools, vec![address(12)]);
    assert_eq!(kept, vec![v2(1, 10, 11), v3(3, 13, 10)]);
}

#[test]
fn token_filter_ignores_the_address_of_the_pool() {
    let pools = vec![v2(12, 10, 11)];
    let kept = filter_blacklisted_tokens(pools.clone(), vec![address(12)]);
    assert_eq!(kept, pools);
}

#[test]
fn token_filter_keeps_everything_with_an_empty_blacklist() {
    let pools = vec![v2(1, 10, 11), v3(2, 12, 13)];
    let kept = filter_blacklisted_tokens(pools.clone(), vec![]);
    assert_eq!(kept, pools);
}

#[test]
fn filters_give_nothing_for_no_pools() {
    assert_eq!(filter_blacklisted_tokens(vec![], vec![address(1)]), vec![]);
    assert_eq!(filter_blacklisted_pools(vec![], vec![address(1)]), vec![]);
    assert_eq!(filter_blacklisted_addresses(vec![], vec![address(1)]), vec![]);
}

#[test]
fn token_filter_tells_addresses_apart_by_their_high_word() {
    let pools = vec![v2(1, 10, 11)];
    let kept = filter_blacklisted_tokens(pools.clone(), vec![Address { hi: 1, lo: 10 }]);
    assert_eq!(kept, pools);
}

#[test]
fn pool_filter_drops_pools_by_their_own_address() {
    let pools = vec![v2(1, 10, 11), v3(2, 12, 13), v2(3, 13, 10)];
    let kept = filter_blacklisted_pools(pools, vec![address(2), address(10)]);
    assert_eq!(kept, vec![v2(1, 10, 11), v2(3, 13, 10)]);
}

#[test]
fn combined_filter_drops_by_token_and_by_pool_address() {
    let pools = vec![v2(1, 10, 11), v3(2, 12, 13), v2(3, 13, 14), v2(4, 15, 16)];
    let kept = filter_blacklisted_addresses(pools, vec![address(2), address(10), address(14)]);
    assert_eq!(kept, vec![v2(4, 15, 16)]);
}

#[test]
fn combined_filter_keeps_only_what_both_other_filters_keep() {
    let pools = vec![
        v2(1, 10, 11),
        v3(2, 12, 13),
        v2(3, 13, 14),
        v2(4, 15, 16),
        v3(5, 16, 17),
        v2(6, 2, 18),
    ];
    let blacklist = vec![address(2), address(10), address(14), address(5)];
    let by_token = filter_blacklisted_tokens(pools.clone(), blacklist.clone());
    let by_pool = filter_blacklisted_pools(pools.clone(), blacklist.clone());
    let combined = filter_blacklisted_addresses(pools, blacklist);
    assert_eq!(combined, vec![v2(4, 15, 16)]);
    for pool in &combined {
        assert!(by_token.contains(pool));
        assert!(by_pool.contains(pool));
    }
    let both: Vec<Pool> = by_token.iter().filter(|p| by_pool.contains(p)).copied().collect();
    assert_eq!(combined, both);
}

#[test]
fn filters_keep_duplicates_and_order() {
    let pools = vec![v2(3, 30, 31), v2(1, 10, 11), v2(3, 30, 31), v2(2, 20, 21)];
    let kept = filter_blacklisted_tokens(pools, vec![address(20)]);
    assert_eq!(kept, vec![v2(3, 30, 31), v2(1, 10, 11), v2(3, 30, 31)]);
}

#[test]
fn blacklist_membership() {
    let blacklist = blacklist_of(&vec![address(5), address(7), address(5)]);
    assert!(blacklist.contains(address(5)));
    assert!(blacklist.contains(address(7)));
    assert!(!blacklist.contains(address(6)));
    assert!(!blacklist.contains(Address { hi: 1, lo: 5 }));
    assert!(!blacklist_of(&vec![]).contains(address(6)));
}

#[test]
fn blacklist_tells_addresses_with_one_low_word_apart() {
    let blacklist = blacklist_of(&vec![
        Address { hi: 1, lo: 5 },
        Address { hi: 3, lo: 5 },
        Address { hi: 1, lo: 6 },
    ]);
    assert!(blacklist.contains(Address { hi: 1, lo: 5 }));
    assert!(blacklist.contains(Address { hi: 3, lo: 5 }));
    assert!(blacklist.contains(Address { hi: 1, lo: 6 }));
    assert!(!blacklist.contains(Address { hi: 2, lo: 5 }));
    assert!(!blacklist.contains(Address { hi: 3, lo: 6 }));
    let pools = vec![v2(1, 5, 11)];
    assert_eq!(
        filter_blacklisted_tokens(pools.clone(), vec![Address { hi: 1, lo: 5 }]),
        pools
    );
}

#[test]
fn tokens_of_a_pool_come_in_order() {
    assert_eq!(get_tokens_from_pool(&v2(1, 10, 11)), vec![address(10), address(11)]);
    assert_eq!(get_tokens_from_pool(&v3(1, 21, 20)), vec![address(21), address(20)]);
}

#[test]
fn pool_accessors() {
    let pool = Pool::UniswapV3(UniswapV3Pool {
        address: address(9),
        token_a: address(1),
        token_a_decimals: 6,
        token_b: address(2),
        token_b_decimals: 18,
        reserve_0: 44,
        reserve_1: 55,
        fee: 500,
    });
    assert_eq!(pool.address(), address(9));
    assert_eq!(pool.tokens(), vec![address(1), address(2)]);
    assert_eq!(pool.reserves(), (44, 55));
    assert_eq!(pool.decimals(), (6, 18));
    let inner = UniswapV2Pool {
        address: address(8),
        token_a: address(3),
        token_a_decimals: 18,
        token_b: address(4),
        token_b_decimals: 18,
        reserve_0: 1,
        reserve_1: 2,
        fee: 300,
    };
    assert_eq!(inner.address(), address(8));
    assert_eq!(inner.tokens(), vec![address(3), address(4)]);
    assert_eq!(Pool::UniswapV2(inner).reserves(), (1, 2));
}

#[test]
fn exchange_accessors() {
    let v2 = Dex { factory_address: address(1), variant: DexVariant::UniswapV2 };
    let v3 = Dex { factory_address: address(2), variant: DexVariant::UniswapV3 };
    let izi = Dex { factory_address: address(3), variant: DexVariant::IziSwap };
    assert_eq!(v2.factory_address(), address(1));
    assert_eq!(v3.variant(), DexVariant::UniswapV3);
    assert!(!v2.is_concentrated());
    assert!(v3.is_concentrated());
    assert!(izi.is_concentrated());
}

#[test]
fn address_filters_are_the_blacklist_filters() {
    let pools = vec![v2(1, 10, 11), v2(2, 12, 13)];
    assert_eq!(
        pool_filters::filters::address::filter_blacklisted_tokens(pools.clone(), vec![address(12)]),
        filter_blacklisted_tokens(pools, vec![address(12)])
    );
}
