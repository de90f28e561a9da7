//! Choosing the pool that prices a token in the reference asset.
//!
//! Each exchange is asked for its most liquid pool between the token and the
//! reference asset. Of the pools that come back, the one holding the most of
//! the reference asset is the price source, provided it holds at least the
//! minimum that the caller sets.

use vstd::prelude::*;
use crate::errors::FilterError;
use crate::pool::Pool;
use crate::primitives::Address;

verus! {

/// What one exchange said when asked for its most liquid pool of a pair.
#[derive(Clone, Copy, Debug, PartialEq, Eq, Structural)]
pub enum DexAnswer {
    /// The exchange has this pool.
    Pool(Pool),
    /// The exchange has no pool for the pair.
    NoPool,
    /// The exchange's contract rejected the query: it has no pool to offer.
    ContractError,
    /// The query failed on the way to the node or back.
    TransportError,
}

/// How a search goes on after one answer.
#[derive(Clone, Copy, Debug, PartialEq, Eq, Structural)]
pub enum SearchStep {
    /// Ask the next exchange; the best pool so far is inside.
    Continue(Option<Pool>),
    /// Stop: the answer was a transport failure.
    Abort,
}

/// Where the price of a token in the reference asset comes from.
#[derive(Clone, Copy, Debug, PartialEq, Eq, Structural)]
pub enum PriceSource {
    /// The token is the reference asset: one unit is worth one unit.
    Parity,
    /// The reserves of this pool give the price.
    Pool(Pool),
}

/// What a resolution does next.
#[derive(Clone, Copy, Debug, PartialEq, Eq, Structural)]
pub enum ResolveStep {
    /// Ask the exchange at this position for its most liquid pool.
    Ask(usize),
    /// The resolution has ended: the price comes from this source.
    Found(PriceSource),
    /// The resolution has ended: the token cannot be priced.
    Failed(FilterError),
}

/// How much of `reference` the pool holds: the reserve of `token_a` where that
/// is the reference asset, the reserve of `token_b` otherwise.
pub open spec fn reference_reserve(pool: Pool, reference: Address) -> u128 {
    if pool.spec_token_a() == reference {
        pool.spec_reserves().0
    } else {
        pool.spec_reserves().1
    }
}

/// How much of `reference` an answer offers: nothing unless it holds a pool.
pub open spec fn offer(answer: DexAnswer, reference: Address) -> u128 {
    match answer {
        DexAnswer::Pool(pool) => reference_reserve(pool, reference),
        _ => 0,
    }
}

/// The best pool after one more answer. The first pool that an exchange
/// returns is the best, whatever it holds. After that the answer's pool is the
/// best where it holds strictly more of `reference` than the best so far,
/// which otherwise stays. An answer without a pool changes nothing.
pub open spec fn spec_observe(
    best: Option<Pool>,
    answer: DexAnswer,
    reference: Address,
) -> Option<Pool> {
    match answer {
        DexAnswer::Pool(pool) => match best {
            Some(held) => {
                if reference_reserve(pool, reference) > reference_reserve(held, reference) {
                    Some(pool)
                } else {
                    best
                }
            },
            None => Some(pool),
        },
        _ => best,
    }
}

/// The best pool after all of `answers`, taken in order.
pub open spec fn best_after(answers: Seq<DexAnswer>, reference: Address) -> Option<Pool>
    decreases answers.len(),
{
    if answers.len() == 0 {
        None
    } else {
        spec_observe(best_after(answers.drop_last(), reference), answers.last(), reference)
    }
}

/// Answer `i` is the best offer: it holds a pool, every pool of an earlier
/// answer holds strictly less of `reference`, and no pool of a later answer
/// holds more. So no pool that was returned holds more than this one, and of
/// those that hold as much it came first.
pub open spec fn is_best_offer(answers: Seq<DexAnswer>, reference: Address, i: int) -> bool {
    &&& 0 <= i < answers.len()
    &&& answers[i] is Pool
    &&& forall|j: int|
        0 <= j < i && (#[trigger] answers[j]) is Pool ==> offer(answers[j], reference) < offer(
            answers[i],
            reference,
        )
    &&& forall|j: int|
        i <= j < answers.len() && (#[trigger] answers[j]) is Pool ==> offer(
            answers[j],
            reference,
        ) <= offer(answers[i], reference)
}

/// The position of the first transport failure among `answers`, if there is
/// one.
pub open spec fn first_failure(answers: Seq<DexAnswer>) -> Option<int>
    decreases answers.len(),
{
    if answers.len() == 0 {
        None
    } else {
        match first_failure(answers.drop_last()) {
            Some(i) => Some(i),
            None => if answers.last() is TransportError {
                Some(answers.len() - 1)
            } else {
                None
            },
        }
    }
}

/// The verdict on the best pool found: it is the price source if it holds at
/// least `threshold` of `reference`. A best pool that holds less, and no pool
/// at all, leave the token without a reference pool.
pub open spec fn spec_accept(
    best: Option<Pool>,
    token: Address,
    reference: Address,
    threshold: u128,
) -> Result<Pool, FilterError> {
    match best {
        Some(pool) => if reference_reserve(pool, reference) >= threshold {
            Ok(pool)
        } else {
            Err(FilterError::NoReferencePool { token, reference })
        },
        None => Err(FilterError::NoReferencePool { token, reference }),
    }
}

/// The outcome of a whole search: the first transport failure if there is
/// one, else the verdict on the best pool of all answers.
pub open spec fn spec_get_token_to_weth_pool(
    token: Address,
    reference: Address,
    answers: Seq<DexAnswer>,
    threshold: u128,
) -> Result<Pool, FilterError> {
    match first_failure(answers) {
        Some(i) => Err(FilterError::TransportError { dex: i as usize }),
        None => spec_accept(best_after(answers, reference), token, reference, threshold),
    }
}

/// The outcome of resolving a token's price source: parity for the reference
/// asset itself, whatever the exchanges say; else the outcome of the search.
pub open spec fn spec_resolve(
    token: Address,
    reference: Address,
    answers: Seq<DexAnswer>,
    threshold: u128,
) -> Result<PriceSource, FilterError> {
    if token == reference {
        Ok(PriceSource::Parity)
    } else {
        match spec_get_token_to_weth_pool(token, reference, answers, threshold) {
            Ok(pool) => Ok(PriceSource::Pool(pool)),
            Err(e) => Err(e),
        }
    }
}

/// What a resolution does next, `asked` of `dexes` exchanges having answered
/// without a transport failure and `best` being the best pool among their
/// answers. The reference asset itself is at parity and no exchange is asked.
/// For another token each exchange is asked in turn; after the last one the
/// verdict on the best pool is the outcome.
pub open spec fn spec_next_step(
    token: Address,
    reference: Address,
    dexes: nat,
    asked: nat,
    best: Option<Pool>,
    threshold: u128,
) -> ResolveStep {
    if token == reference {
        ResolveStep::Found(PriceSource::Parity)
    } else if asked < dexes {
        ResolveStep::Ask(asked as usize)
    } else {
        match spec_accept(best, token, reference, threshold) {
            Ok(pool) => ResolveStep::Found(PriceSource::Pool(pool)),
            Err(e) => ResolveStep::Failed(e),
        }
    }
}

/// The first transport failure is a transport failure, and none comes before
/// it; where there is none, no answer is a transport failure.
pub proof fn lemma_first_failure(answers: Seq<DexAnswer>)
    ensures
        match first_failure(answers) {
            Some(i) => {
                &&& 0 <= i < answers.len()
                &&& answers[i] is TransportError
                &&& forall|j: int| 0 <= j < i ==> !(#[trigger] answers[j] is TransportError)
            },
            None => forall|j: int|
                0 <= j < answers.len() ==> !(#[trigger] answers[j] is TransportError),
        },
    decreases answers.len(),
{
    if answers.len() > 0 {
        let front = answers.drop_last();
        lemma_first_failure(front);
        assert(forall|j: int| 0 <= j < front.len() ==> front[j] == answers[j]);
    }
}

/// The best pool after all answers is the pool of the best offer; there is
/// none exactly when no answer holds a pool.
pub proof fn lemma_best_after(answers: Seq<DexAnswer>, reference: Address)
    ensures
        match best_after(answers, reference) {
            Some(pool) => exists|i: int|
                is_best_offer(answers, reference, i) && #[trigger] answers[i] == DexAnswer::Pool(
                    pool,
                ),
            None => forall|j: int| 0 <= j < answers.len() ==> !(#[trigger] answers[j] is Pool),
        },
    decreases answers.len(),
{
    if answers.len() > 0 {
        let front = answers.drop_last();
        let last = answers.last();
        let n = answers.len() - 1;
        lemma_best_after(front, reference);
        assert(forall|j: int| 0 <= j < front.len() ==> front[j] == answers[j]);
        let before = best_after(front, reference);
        let after = best_after(answers, reference);
        match before {
            Some(old_pool) => {
                let i = choose|i: int|
                    is_best_offer(front, reference, i) && #[trigger] front[i] == DexAnswer::Pool(
                        old_pool,
                    );
                assert(answers[i] == DexAnswer::Pool(old_pool));
                if last is Pool && offer(last, reference) > reference_reserve(
                    old_pool,
                    reference,
                ) {
                    assert(is_best_offer(answers, reference, n));
                    assert(answers[n] == DexAnswer::Pool(after->0));
                } else {
                    assert(is_best_offer(answers, reference, i));
                }
            },
            None => {
                if last is Pool {
                    assert(is_best_offer(answers, reference, n));
                    assert(answers[n] == DexAnswer::Pool(after->0));
                }
            },
        }
    }
}

/// How much of `reference` the pool holds.
pub fn reference_reserve_of(pool: &Pool, reference: Address) -> (r: u128)
    ensures
        r == reference_reserve(*pool, reference),
{
    let (reserve_0, reserve_1) = pool.reserves();
    let token_a = match pool {
        Pool::UniswapV2(p) => p.token_a,
        Pool::UniswapV3(p) => p.token_a,
    };
    if token_a == reference {
        reserve_0
    } else {
        reserve_1
    }
}

/// Takes one exchange's answer into a running search. The first pool that
/// comes is the best, whatever it holds; after that a pool that holds strictly
/// more of `weth_address` than the best so far becomes the best. An exchange
/// without a pool, or whose contract rejected the query, changes nothing; a
/// transport failure ends the search.
pub fn observe(best: Option<Pool>, answer: DexAnswer, weth_address: Address) -> (step: SearchStep)
    ensures
        answer is TransportError ==> step == SearchStep::Abort,
        !(answer is TransportError) ==> step == SearchStep::Continue(
            spec_observe(best, answer, weth_address),
        ),
{
    match answer {
        DexAnswer::Pool(pool) => match best {
            Some(held) => {
                if reference_reserve_of(&pool, weth_address) > reference_reserve_of(
                    &held,
                    weth_address,
                ) {
                    SearchStep::Continue(Some(pool))
                } else {
                    SearchStep::Continue(best)
                }
            },
            None => SearchStep::Continue(Some(pool)),
        },
        DexAnswer::NoPool => SearchStep::Continue(best),
        DexAnswer::ContractError => SearchStep::Continue(best),
        DexAnswer::TransportError => SearchStep::Abort,
    }
}

/// Ends a search: the best pool found is the price source if it holds at least
/// `token_weth_pool_min_weth_threshold` of `weth_address`. A pool below the
/// threshold is never returned, even where it is the only one. Without any
/// pool the token has no reference pool, at every threshold.
pub fn accept(
    best: Option<Pool>,
    token_a: Address,
    weth_address: Address,
    token_weth_pool_min_weth_threshold: u128,
) -> (r: Result<Pool, FilterError>)
    ensures
        r == spec_accept(best, token_a, weth_address, token_weth_pool_min_weth_threshold),
        r matches Ok(pool) ==> reference_reserve(pool, weth_address)
            >= token_weth_pool_min_weth_threshold,
{
    match best {
        Some(pool) => {
            if reference_reserve_of(&pool, weth_address) >= token_weth_pool_min_weth_threshold {
                Ok(pool)
            } else {
                Err(FilterError::NoReferencePool { token: token_a, reference: weth_address })
            }
        },
        None => Err(FilterError::NoReferencePool { token: token_a, reference: weth_address }),
    }
}

/// Finds the pool that prices `token_a` in `weth_address`, given what each
/// exchange answered, in the order in which the exchanges were asked.
///
/// The first transport failure ends the search with its position. Without one,
/// the result is the pool of the best offer, if that pool holds at least
/// `token_weth_pool_min_weth_threshold` of `weth_address`: that is so exactly
/// when some pool that was returned holds that much. Else the token has no
/// reference pool: no pool was returned, or each holds less than the
/// threshold.
pub fn get_token_to_weth_pool(
    token_a: Address,
    weth_address: Address,
    answers: &Vec<DexAnswer>,
    token_weth_pool_min_weth_threshold: u128,
) -> (r: Result<Pool, FilterError>)
    ensures
        r == spec_get_token_to_weth_pool(
            token_a,
            weth_address,
            answers@,
            token_weth_pool_min_weth_threshold,
        ),
        match r {
            Ok(pool) => {
                &&& forall|j: int| 0 <= j < answers.len() ==> !(#[trigger] answers[j] is TransportError)
                &&& exists|i: int|
                    is_best_offer(answers@, weth_address, i) && #[trigger] answers[i]
                        == DexAnswer::Pool(pool)
                &&& reference_reserve(pool, weth_address) >= token_weth_pool_min_weth_threshold
            },
            Err(FilterError::TransportError { dex }) => {
                &&& dex < answers.len()
                &&& answers[dex as int] is TransportError
                &&& forall|j: int| 0 <= j < dex ==> !(#[trigger] answers[j] is TransportError)
            },
            Err(FilterError::NoReferencePool { token, reference }) => {
                &&& token == token_a
                &&& reference == weth_address
                &&& forall|j: int| 0 <= j < answers.len() ==> !(#[trigger] answers[j] is TransportError)
                &&& forall|j: int|
                    0 <= j < answers.len() && (#[trigger] answers[j]) is Pool ==> offer(
                        answers[j],
                        weth_address,
                    ) < token_weth_pool_min_weth_threshold
            },
            Err(FilterError::ProtocolDecodeError) => false,
        },
        r is Ok <==> {
            &&& forall|j: int| 0 <= j < answers.len() ==> !(#[trigger] answers[j] is TransportError)
            &&& exists|j: int|
                0 <= j < answers.len() && (#[trigger] answers[j]) is Pool && offer(
                    answers[j],
                    weth_address,
                ) >= token_weth_pool_min_weth_threshold
        },
        r matches Ok(pool) ==> forall|j: int|
            0 <= j < answers.len() && (#[trigger] answers[j]) is Pool ==> offer(
                answers[j],
                weth_address,
            ) <= reference_reserve(pool, weth_address),
{
    let mut best: Option<Pool> = None;
    let mut i: usize = 0;
    while i < answers.len()
        invariant
            i <= answers.len(),
            first_failure(answers@.take(i as int)) is None,
            best == best_after(answers@.take(i as int), weth_address),
        decreases answers.len() - i,
    {
        proof {
            assert(answers@.take(i as int + 1).drop_last() =~= answers@.take(i as int));
            assert(answers@.take(i as int + 1).last() == answers[i as int]);
        }
        match observe(best, answers[i], weth_address) {
            SearchStep::Continue(next) => {
                best = next;
            },
            SearchStep::Abort => {
                proof {
                    lemma_first_failure_extends(answers@, i as int + 1);
                    lemma_first_failure(answers@);
                }
                return Err(FilterError::TransportError { dex: i });
            },
        }
        i += 1;
    }
    proof {
        assert(answers@.take(i as int) =~= answers@);
        lemma_first_failure(answers@);
        lemma_best_after(answers@, weth_address);
    }
    accept(best, token_a, weth_address, token_weth_pool_min_weth_threshold)
}

/// A transport failure among the first `n` answers is the first one of all.
pub proof fn lemma_first_failure_extends(answers: Seq<DexAnswer>, n: int)
    requires
        0 <= n <= answers.len(),
        first_failure(answers.take(n)) is Some,
    ensures
        first_failure(answers) == first_failure(answers.take(n)),
    decreases answers.len() - n,
{
    if n < answers.len() {
        assert(answers.take(n + 1).drop_last() =~= answers.take(n));
        lemma_first_failure_extends(answers, n + 1);
    } else {
        assert(answers.take(n) =~= answers);
    }
}

/// Decides what a resolution does next, `asked` of `dexes` exchanges having
/// answered and `best` being the best pool among their answers.
pub fn next_step(
    token: Address,
    weth_address: Address,
    dexes: usize,
    asked: usize,
    best: Option<Pool>,
    token_weth_pool_min_weth_threshold: u128,
) -> (step: ResolveStep)
    ensures
        step == spec_next_step(
            token,
            weth_address,
            dexes as nat,
            asked as nat,
            best,
            token_weth_pool_min_weth_threshold,
        ),
{
    if token == weth_address {
        ResolveStep::Found(PriceSource::Parity)
    } else if asked < dexes {
        ResolveStep::Ask(asked)
    } else {
        match accept(best, token, weth_address, token_weth_pool_min_weth_threshold) {
            Ok(pool) => ResolveStep::Found(PriceSource::Pool(pool)),
            Err(e) => ResolveStep::Failed(e),
        }
    }
}

/// Resolves where the price of `token` in `weth_address` comes from, given
/// what each exchange answers when asked. The reference asset itself is at
/// parity, and then no answer is looked at. For any other token the source is
/// the pool that `get_token_to_weth_pool` finds.
///
/// The resolution goes step by step, as `next_step` and `observe` decide: so
/// whoever asks the exchanges one after the other and follows the two comes to
/// the same outcome.
pub fn resolve(
    token: Address,
    weth_address: Address,
    answers: &Vec<DexAnswer>,
    token_weth_pool_min_weth_threshold: u128,
) -> (r: Result<PriceSource, FilterError>)
    ensures
        r == spec_resolve(token, weth_address, answers@, token_weth_pool_min_weth_threshold),
        token == weth_address ==> r == Ok::<PriceSource, FilterError>(PriceSource::Parity),
        r matches Ok(PriceSource::Pool(pool)) ==> reference_reserve(pool, weth_address)
            >= token_weth_pool_min_weth_threshold,
{
    let mut best: Option<Pool> = None;
    let mut asked: usize = 0;
    loop
        invariant
            asked <= answers.len(),
            token != weth_address ==> first_failure(answers@.take(asked as int)) is None,
            token != weth_address ==> best == best_after(answers@.take(asked as int), weth_address),
        decreases answers.len() - asked,
    {
        match next_step(
            token,
            weth_address,
            answers.len(),
            asked,
            best,
            token_weth_pool_min_weth_threshold,
        ) {
            ResolveStep::Found(source) => {
                proof {
                    if token != weth_address {
                        assert(answers@.take(asked as int) =~= answers@);
                    }
                }
                return Ok(source);
            },
            ResolveStep::Failed(e) => {
                assert(answers@.take(asked as int) =~= answers@);
                return Err(e);
            },
            ResolveStep::Ask(dex) => {
                proof {
                    assert(answers@.take(dex as int + 1).drop_last() =~= answers@.take(dex as int));
                    assert(answers@.take(dex as int + 1).last() == answers[dex as int]);
                }
                match observe(best, answers[dex], weth_address) {
                    SearchStep::Continue(next) => {
                        best = next;
                        asked = asked + 1;
                    },
                    SearchStep::Abort => {
                        proof {
                            lemma_first_failure_extends(answers@, dex as int + 1);
                        }
                        return Err(FilterError::TransportError { dex });
                    },
                }
            },
        }
    }
}

} // verus!
