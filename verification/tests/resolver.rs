use pool_filters::errors::FilterError;
use pool_filters::pool::{Pool, UniswapV2Pool, UniswapV3Pool};
use pool_filters::primitives::Address;
use pool_filters::resolver::{
    accept, get_token_to_weth_pool, next_step, observe, reference_reserve_of, resolve, DexAnswer,
    PriceSource, ResolveStep, SearchStep,
};

const WETH: Address = Address { hi: 0, lo: 1 };
const TOKEN: Address = Address { hi: 0, lo: 2 };

fn weth_first(pool: u128, weth_reserve: u128, token_reserve: u128) -> Pool {
    Pool::UniswapV2(UniswapV2Pool {
        address: Address { hi: 0, lo: pool },
        token_a: WETH,
        token_a_decimals: 18,
        token_b: TOKEN,
        token_b_decimals: 18,
        reserve_0: weth_reserve,
        reserve_1: token_reserve,
        fee: 300,
    })
}

fn weth_second(pool: u128, token_reserve: u128, weth_reserve: u128) -> Pool {
    Pool::UniswapV3(UniswapV3Pool {
        address: Address { hi: 0, lo: pool },
        token_a: TOKEN,
        token_a_decimals: 6,
        token_b: WETH,
        token_b_decimals: 18,
        reserve_0: token_reserve,
        reserve_1: weth_reserve,
        fee: 500,
    })
}

fn no_reference_pool() -> FilterError {
    FilterError::NoReferencePool { token: TOKEN, reference: WETH }
}

#[test]
fn reserve_of_the_reference_asset_is_found_on_either_side() {
    assert_eq!(reference_reserve_of(&weth_first(1, 500, 9), WETH), 500);
    assert_eq!(reference_reserve_of(&weth_second(1, 9, 700), WETH), 700);
}

#[test]
fn larger_reserve_wins_whatever_the_order_of_the_answers() {
    let a = weth_first(100, 500, 1_000_000);
    let b = weth_second(101, 1_000_000, 1500);
    let a_first = vec![DexAnswer::Pool(a), DexAnswer::Pool(b)];
    let b_first = vec![DexAnswer::Pool(b), DexAnswer::Pool(a)];
    assert_eq!(get_token_to_weth_pool(TOKEN, WETH, &a_first, 1000), Ok(b));
    assert_eq!(get_token_to_weth_pool(TOKEN, WETH, &b_first, 1000), Ok(b));
}

#[test]
fn pool_below_the_liquidity_threshold_is_never_the_source() {
    let only = vec![DexAnswer::Pool(weth_first(100, 999, 5))];
    assert_eq!(get_token_to_weth_pool(TOKEN, WETH, &only, 1000), Err(no_reference_pool()));
    let several = vec![
        DexAnswer::Pool(weth_first(100, 999, 5)),
        DexAnswer::NoPool,
        DexAnswer::Pool(weth_second(101, 5, 998)),
    ];
    assert_eq!(get_token_to_weth_pool(TOKEN, WETH, &several, 1000), Err(no_reference_pool()));
}

#[test]
fn pool_at_the_liquidity_threshold_is_accepted() {
    let pool = weth_first(100, 1000, 5);
    let answers = vec![DexAnswer::Pool(pool)];
    assert_eq!(get_token_to_weth_pool(TOKEN, WETH, &answers, 1000), Ok(pool));
}

#[test]
fn token_without_a_pool_anywhere_has_no_reference_pool() {
    let answers = vec![DexAnswer::NoPool, DexAnswer::ContractError, DexAnswer::NoPool];
    assert_eq!(get_token_to_weth_pool(TOKEN, WETH, &answers, 1000), Err(no_reference_pool()));
    assert_eq!(get_token_to_weth_pool(TOKEN, WETH, &answers, 0), Err(no_reference_pool()));
    assert_eq!(get_token_to_weth_pool(TOKEN, WETH, &vec![], 0), Err(no_reference_pool()));
}

#[test]
fn pool_without_reserves_is_the_source_at_threshold_zero() {
    let empty = weth_first(100, 0, 5);
    let answers = vec![DexAnswer::NoPool, DexAnswer::Pool(empty)];
    assert_eq!(get_token_to_weth_pool(TOKEN, WETH, &answers, 0), Ok(empty));
    assert_eq!(get_token_to_weth_pool(TOKEN, WETH, &answers, 1), Err(no_reference_pool()));
    assert_eq!(resolve(TOKEN, WETH, &answers, 0), Ok(PriceSource::Pool(empty)));
}

#[test]
fn first_of_pools_without_reserves_stays() {
    let first = weth_first(100, 0, 5);
    let second = weth_second(101, 5, 0);
    let answers = vec![DexAnswer::Pool(first), DexAnswer::Pool(second)];
    assert_eq!(get_token_to_weth_pool(TOKEN, WETH, &answers, 0), Ok(first));
    assert_eq!(observe(None, DexAnswer::Pool(first), WETH), SearchStep::Continue(Some(first)));
    assert_eq!(
        observe(Some(first), DexAnswer::Pool(second), WETH),
        SearchStep::Continue(Some(first))
    );
    assert_eq!(accept(Some(first), TOKEN, WETH, 0), Ok(first));
}

#[test]
fn pool_with_reserves_replaces_one_without() {
    let empty = weth_first(100, 0, 5);
    let funded = weth_second(101, 5, 1);
    let answers = vec![DexAnswer::Pool(empty), DexAnswer::Pool(funded)];
    assert_eq!(get_token_to_weth_pool(TOKEN, WETH, &answers, 0), Ok(funded));
    assert_eq!(get_token_to_weth_pool(TOKEN, WETH, &answers, 1), Ok(funded));
}

#[test]
fn first_of_equal_reserves_stays() {
    let first = weth_first(100, 1500, 5);
    let second = weth_second(101, 5, 1500);
    let answers = vec![DexAnswer::Pool(first), DexAnswer::Pool(second)];
    assert_eq!(get_token_to_weth_pool(TOKEN, WETH, &answers, 1000), Ok(first));
}

#[test]
fn contract_error_counts_as_no_pool() {
    let pool = weth_first(100, 2000, 5);
    let answers = vec![DexAnswer::ContractError, DexAnswer::Pool(pool), DexAnswer::ContractError];
    assert_eq!(get_token_to_weth_pool(TOKEN, WETH, &answers, 1000), Ok(pool));
}

#[test]
fn transport_error_ends_the_search_with_its_position() {
    let pool = weth_first(100, 2000, 5);
    let answers = vec![
        DexAnswer::Pool(pool),
        DexAnswer::NoPool,
        DexAnswer::TransportError,
        DexAnswer::TransportError,
    ];
    assert_eq!(
        get_token_to_weth_pool(TOKEN, WETH, &answers, 1000),
        Err(FilterError::TransportError { dex: 2 })
    );
}

#[test]
fn search_step_by_step() {
    let small = weth_first(100, 500, 5);
    let large = weth_second(101, 5, 1500);
    assert_eq!(observe(None, DexAnswer::NoPool, WETH), SearchStep::Continue(None));
    assert_eq!(observe(None, DexAnswer::Pool(small), WETH), SearchStep::Continue(Some(small)));
    assert_eq!(
        observe(Some(small), DexAnswer::Pool(large), WETH),
        SearchStep::Continue(Some(large))
    );
    assert_eq!(
        observe(Some(large), DexAnswer::Pool(small), WETH),
        SearchStep::Continue(Some(large))
    );
    assert_eq!(
        observe(Some(large), DexAnswer::ContractError, WETH),
        SearchStep::Continue(Some(large))
    );
    assert_eq!(observe(Some(large), DexAnswer::TransportError, WETH), SearchStep::Abort);
    assert_eq!(accept(Some(large), TOKEN, WETH, 1500), Ok(large));
    assert_eq!(accept(Some(large), TOKEN, WETH, 1501), Err(no_reference_pool()));
    assert_eq!(accept(None, TOKEN, WETH, 0), Err(no_reference_pool()));
}

#[test]
fn reference_asset_is_at_parity_with_itself() {
    let answers = vec![DexAnswer::TransportError];
    assert_eq!(resolve(WETH, WETH, &answers, 1000), Ok(PriceSource::Parity));
    assert_eq!(resolve(WETH, WETH, &vec![], u128::MAX), Ok(PriceSource::Parity));
}

#[test]
fn other_tokens_are_priced_by_the_best_pool() {
    let pool = weth_first(100, 2000, 5);
    let answers = vec![DexAnswer::NoPool, DexAnswer::Pool(pool)];
    assert_eq!(resolve(TOKEN, WETH, &answers, 1000), Ok(PriceSource::Pool(pool)));
    assert_eq!(resolve(TOKEN, WETH, &answers, 2001), Err(no_reference_pool()));
    assert_eq!(
        resolve(TOKEN, WETH, &vec![DexAnswer::TransportError], 1),
        Err(FilterError::TransportError { dex: 0 })
    );
}

#[test]
fn only_a_missing_reference_pool_lets_the_pass_go_on() {
    assert!(no_reference_pool().is_recoverable());
    assert!(!FilterError::ProtocolDecodeError.is_recoverable());
    assert!(!FilterError::TransportError { dex: 0 }.is_recoverable());
}

#[test]
fn resolution_asks_each_exchange_in_turn() {
    let pool = weth_first(100, 2000, 5);
    assert_eq!(next_step(TOKEN, WETH, 3, 0, None, 1000), ResolveStep::Ask(0));
    assert_eq!(next_step(TOKEN, WETH, 3, 2, Some(pool), 1000), ResolveStep::Ask(2));
    assert_eq!(
        next_step(TOKEN, WETH, 3, 3, Some(pool), 1000),
        ResolveStep::Found(PriceSource::Pool(pool))
    );
    assert_eq!(
        next_step(TOKEN, WETH, 3, 3, Some(pool), 2001),
        ResolveStep::Failed(no_reference_pool())
    );
    assert_eq!(next_step(TOKEN, WETH, 0, 0, None, 0), ResolveStep::Failed(no_reference_pool()));
}

#[test]
fn resolution_of_the_reference_asset_asks_nobody() {
    assert_eq!(next_step(WETH, WETH, 3, 0, None, 1000), ResolveStep::Found(PriceSource::Parity));
}

#[test]
fn step_by_step_resolution_agrees_with_the_whole() {
    let answers = vec![
        DexAnswer::Pool(weth_first(100, 500, 5)),
        DexAnswer::ContractError,
        DexAnswer::Pool(weth_second(101, 5, 1500)),
        DexAnswer::NoPool,
    ];
    let mut best = None;
    let mut asked = 0;
    let outcome = loop {
        match next_step(TOKEN, WETH, answers.len(), asked, best, 1000) {
            ResolveStep::Found(source) => break Ok(source),
            ResolveStep::Failed(error) => break Err(error),
            ResolveStep::Ask(dex) => match observe(best, answers[dex], WETH) {
                SearchStep::Continue(next) => {
                    best = next;
                    asked += 1;
                }
                SearchStep::Abort => panic!("no answer is a transport failure"),
            },
        }
    };
    assert_eq!(asked, 4);
    assert_eq!(outcome, resolve(TOKEN, WETH, &answers, 1000));
    assert_eq!(outcome, Ok(PriceSource::Pool(weth_second(101, 5, 1500))));
}
