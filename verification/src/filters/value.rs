//! Filters that drop pools by the value they hold.
//!
//! The values come from the node in groups: the pools are cut into groups of
//! at most `step`, one request is made for each group, and the answers are
//! joined in the order of the groups. A pool is kept if its value is at least
//! the threshold.

use vstd::prelude::*;
use vstd::arithmetic::div_mod::*;
use vstd::arithmetic::mul::*;
use crate::batch_requests::filter_by_value::{
    abi_decoded_uint_array,
    decode_batch_values,
    spec_batch_values,
};
use crate::errors::FilterError;
use crate::pool::Pool;
use crate::primitives::{u256_10_pow_18, TEN_POW_18, U256};

verus! {

/// The smaller of two numbers.
pub open spec fn least(a: nat, b: nat) -> nat {
    if a <= b {
        a
    } else {
        b
    }
}

/// The number of groups of at most `step` that `total` pools make: `total`
/// divided by `step`, rounded up.
pub open spec fn group_count(total: nat, step: nat) -> nat {
    if total % step == 0 {
        total / step
    } else {
        total / step + 1
    }
}

/// The position of the first pool of group `g`.
pub open spec fn group_start(total: nat, step: nat, g: nat) -> nat {
    least(g * step, total)
}

/// The position after the last pool of group `g`: a full step after the
/// group's start, or the end of the pools where that comes first.
pub open spec fn group_end(total: nat, step: nat, g: nat) -> nat {
    least((g + 1) * step, total)
}

/// The number of pools in group `g`.
pub open spec fn group_len(total: nat, step: nat, g: nat) -> nat {
    (group_end(total, step, g) - group_start(total, step, g)) as nat
}

/// What a pass has collected so far.
pub struct ValuePassView {
    /// The number of pools to value.
    pub total: nat,
    /// The largest number of pools in one request.
    pub step: nat,
    /// The values of the pools of the groups answered so far, in order.
    pub collected: Seq<U256>,
}

impl ValuePassView {
    /// Whole groups have been collected, and no more values than pools.
    pub open spec fn wf(self) -> bool {
        &&& self.step > 0
        &&& self.collected.len() <= self.total
        &&& (self.collected.len() % self.step == 0 || self.collected.len() == self.total)
    }

    /// The bounds of the next group to ask about: from the first pool without
    /// a value, for `step` pools or to the last pool. `None` when every pool
    /// has its value.
    pub open spec fn next_group(self) -> Option<(nat, nat)> {
        if self.collected.len() < self.total {
            Some((self.collected.len(), least(self.collected.len() + self.step, self.total)))
        } else {
            None
        }
    }

    /// The number of groups answered so far.
    pub open spec fn round_trips(self) -> nat {
        group_count(self.collected.len(), self.step)
    }

    /// The pass after the answer `return_data` to the request for the next
    /// group: the group's values are added if the answer holds one for each
    /// pool of the group. An answer of another shape, or one that comes when
    /// nothing was asked, is a protocol error.
    pub open spec fn accepted(self, return_data: Seq<u8>) -> Result<ValuePassView, FilterError> {
        match self.next_group() {
            Some((from, to)) => match spec_batch_values(
                abi_decoded_uint_array(return_data),
                (to - from) as nat,
            ) {
                Ok(values) => Ok(
                    ValuePassView {
                        total: self.total,
                        step: self.step,
                        collected: self.collected + values,
                    },
                ),
                Err(e) => Err(e),
            },
            None => Err(FilterError::ProtocolDecodeError),
        }
    }
}

/// A pass over `total` pools in groups of at most `step`, which collects the
/// values that the node sends for each group.
pub struct ValuePass {
    total: usize,
    step: usize,
    values: Vec<U256>,
}

impl View for ValuePass {
    type V = ValuePassView;

    closed spec fn view(&self) -> ValuePassView {
        ValuePassView {
            total: self.total as nat,
            step: self.step as nat,
            collected: self.values@,
        }
    }
}

impl ValuePass {
    #[verifier::type_invariant]
    spec fn well_formed(self) -> bool {
        self@.wf()
    }

    /// A pass over `total` pools that has collected nothing yet.
    pub fn new(total: usize, step: usize) -> (pass: ValuePass)
        requires
            step > 0,
        ensures
            pass@ == (ValuePassView {
                total: total as nat,
                step: step as nat,
                collected: Seq::empty(),
            }),
            pass@.wf(),
    {
        ValuePass { total, step, values: Vec::new() }
    }

    /// The bounds of the next group to ask about, or `None` when every pool
    /// has its value. The group ends a full step after its start, or at the
    /// last pool where that comes first.
    pub fn next_group(&self) -> (group: Option<(usize, usize)>)
        ensures
            self@.wf(),
            match group {
                Some((from, to)) => self@.next_group() == Some((from as nat, to as nat)),
                None => self@.next_group() is None,
            },
    {
        proof {
            use_type_invariant(self);
        }
        let from = self.values.len();
        if from < self.total {
            let to = if self.step > self.total - from {
                self.total
            } else {
                from + self.step
            };
            Some((from, to))
        } else {
            None
        }
    }

    /// The number of groups answered so far.
    pub fn round_trips(&self) -> (n: usize)
        ensures
            n == self@.round_trips(),
    {
        proof {
            use_type_invariant(self);
        }
        let len = self.values.len();
        if len % self.step == 0 {
            len / self.step
        } else {
            proof {
                let q = len as int / self.step as int;
                let r = len as int % self.step as int;
                lemma_fundamental_div_mod(len as int, self.step as int);
                lemma_div_pos_is_pos(len as int, self.step as int);
                assert(q < len) by (nonlinear_arith)
                    requires
                        len == self.step * q + r,
                        r > 0,
                        self.step >= 1,
                        q >= 0,
                ;
            }
            len / self.step + 1
        }
    }

    /// Takes the node's answer to the request for the next group. The pass
    /// gains the group's values if the answer holds one for each pool of the
    /// group; else it stays as it was and the answer is a protocol error.
    pub fn accept(&mut self, return_data: &[u8]) -> (r: Result<(), FilterError>)
        ensures
            final(self)@.wf(),
            match r {
                Ok(()) => old(self)@.accepted(return_data@) == Ok::<ValuePassView, FilterError>(
                    final(self)@,
                ),
                Err(e) => old(self)@.accepted(return_data@) == Err::<ValuePassView, FilterError>(e)
                    && final(self)@ == old(self)@,
            },
            r is Ok ==> final(self)@.round_trips() == old(self)@.round_trips() + 1,
    {
        proof {
            use_type_invariant(&*self);
            lemma_accepted_is_one_round_trip(self@, return_data@);
        }
        match self.next_group() {
            Some((from, to)) => {
                match decode_batch_values(return_data, to - from) {
                    Ok(mut values) => {
                        proof {
                            lemma_whole_groups(from as nat, self.step as nat, self.total as nat);
                        }
                        let mut collected: Vec<U256> = Vec::new();
                        core::mem::swap(&mut self.values, &mut collected);
                        collected.append(&mut values);
                        self.values = collected;
                        Ok(())
                    },
                    Err(e) => Err(e),
                }
            },
            None => Err(FilterError::ProtocolDecodeError),
        }
    }

    /// The values collected, in the order of the pools.
    pub fn into_values(self) -> (values: Vec<U256>)
        ensures
            values@ == self@.collected,
    {
        self.values
    }
}

/// After one more group the values collected are still whole groups.
proof fn lemma_whole_groups(len: nat, step: nat, total: nat)
    requires
        step > 0,
        len < total,
        len % step == 0,
    ensures
        least(len + step, total) % step == 0 || least(len + step, total) == total,
{
    lemma_mod_add_multiples_vanish(len as int, step as int);
}

/// `group_count` rounds up: it is the least number of groups of `step` that
/// hold `total` pools.
pub proof fn lemma_group_count_is_ceiling(total: nat, step: nat)
    requires
        step > 0,
    ensures
        group_count(total, step) * step >= total,
        total > 0 ==> (group_count(total, step) - 1) * step < total,
        total == 0 ==> group_count(total, step) == 0,
{
    let q = total as int / step as int;
    let r = total as int % step as int;
    lemma_fundamental_div_mod(total as int, step as int);
    lemma_mod_bound(total as int, step as int);
    lemma_div_pos_is_pos(total as int, step as int);
    if r == 0 {
        assert(q * step >= total && (total > 0 ==> (q - 1) * step < total)) by (nonlinear_arith)
            requires
                total == step * q + r,
                r == 0,
                step > 0,
        ;
        assert(total == 0 ==> q == 0) by (nonlinear_arith)
            requires
                total == step * q + r,
                r == 0,
                step > 0,
        ;
    } else {
        assert((q + 1) * step >= total && q * step < total) by (nonlinear_arith)
            requires
                total == step * q + r,
                0 < r < step,
        ;
    }
}

/// A number of groups holds all pools exactly when it is at least
/// `group_count`.
pub proof fn lemma_group_count_is_least(total: nat, step: nat, g: nat)
    requires
        step > 0,
    ensures
        g * step >= total <==> g >= group_count(total, step),
{
    lemma_group_count_is_ceiling(total, step);
    let c = group_count(total, step);
    if g >= c {
        lemma_mul_inequality(c as int, g as int, step as int);
    } else if total > 0 {
        lemma_mul_inequality(g as int, c as int - 1, step as int);
    }
}

/// The groups follow one another without a gap and end with the last pool:
/// each group before the last is a full step, the last group is not empty,
/// and after it comes nothing.
pub proof fn lemma_groups_partition(total: nat, step: nat, g: nat)
    requires
        step > 0,
    ensures
        group_start(total, step, 0) == 0,
        group_end(total, step, g) == group_start(total, step, g + 1),
        g < group_count(total, step) ==> group_start(total, step, g) == g * step && 0
            < group_len(total, step, g) <= step,
        group_end(total, step, g) == least(g * step + step, total),
        g + 1 < group_count(total, step) ==> group_len(total, step, g) == step,
        g >= group_count(total, step) ==> group_start(total, step, g) == total,
{
    lemma_group_count_is_least(total, step, g);
    lemma_group_count_is_least(total, step, g + 1);
    lemma_mul_is_distributive_add_other_way(step as int, g as int, 1);
    assert(0 * step == 0) by (nonlinear_arith);
}

/// Each answer that a pass accepts is one round trip more, and leaves whole
/// groups collected. So a pass over `total` pools is complete after
/// `group_count(total, step)` round trips, and not before.
pub proof fn lemma_accepted_is_one_round_trip(pass: ValuePassView, return_data: Seq<u8>)
    requires
        pass.wf(),
    ensures
        pass.accepted(return_data) matches Ok(after) ==> {
            &&& after.wf()
            &&& after.round_trips() == pass.round_trips() + 1
            &&& after.round_trips() <= group_count(pass.total, pass.step)
        },
        pass.next_group() is None <==> pass.round_trips() == group_count(pass.total, pass.step),
{
    let len = pass.collected.len();
    let q = len as int / pass.step as int;
    lemma_fundamental_div_mod(len as int, pass.step as int);
    lemma_div_pos_is_pos(len as int, pass.step as int);
    lemma_mul_is_commutative(pass.step as int, q);
    lemma_group_count_is_least(pass.total, pass.step, group_count(len, pass.step));
    lemma_group_count_is_ceiling(len, pass.step);
    lemma_group_count_is_ceiling(pass.total, pass.step);
    if len < pass.total {
        lemma_whole_groups(len, pass.step, pass.total);
        let grown = least(len + pass.step, pass.total);
        lemma_mul_is_distributive_add_other_way(pass.step as int, q, 1);
        lemma_group_count_is_least(grown, pass.step, q as nat);
        lemma_group_count_is_least(grown, pass.step, (q + 1) as nat);
        lemma_group_count_is_least(pass.total, pass.step, q as nat);
        if pass.accepted(return_data) is Ok {
            assert(pass.accepted(return_data)->Ok_0.collected.len() == grown);
        }
    }
}

/// The answer to the request for group `g`, read as the values of the group's
/// pools.
pub open spec fn group_answer(
    total: nat,
    step: nat,
    responses: Seq<Vec<u8>>,
    g: int,
) -> Result<Seq<U256>, FilterError> {
    spec_batch_values(abi_decoded_uint_array(responses[g]@), group_len(total, step, g as nat))
}

/// There is one answer for each group, and each holds one value for each pool
/// of its group.
pub open spec fn every_group_answered(total: nat, step: nat, responses: Seq<Vec<u8>>) -> bool {
    &&& responses.len() == group_count(total, step)
    &&& forall|g: int|
        0 <= g < responses.len() ==> #[trigger] group_answer(total, step, responses, g) is Ok
}

/// The value of pool `i`: the one at its place in the answer for its group.
pub open spec fn value_at(total: nat, step: nat, responses: Seq<Vec<u8>>, i: int) -> U256 {
    group_answer(total, step, responses, i / (step as int))->Ok_0[i % (step as int)]
}

/// Pool `i` of group `g` has the place `i - g * step` in its group.
proof fn lemma_place_in_group(i: int, step: int, g: int)
    requires
        step > 0,
        g * step <= i < g * step + step,
    ensures
        i / step == g,
        i % step == i - g * step,
{
    lemma_fundamental_div_mod_converse(i, step, g, i - g * step);
}

/// Joins the values of `amms.len()` pools from the answers to the requests
/// for their groups of at most `step`, `responses[g]` being the answer for
/// group `g`.
///
/// The result is `Ok` exactly when there is one answer for each of the
/// `group_count` groups and each holds one value for each pool of its group.
/// Then pool `i` has the value at its place in the answer for its group:
/// nothing is reordered or dropped. Anything else is a protocol error.
pub fn get_weth_values_in_amms(
    amms: &[Pool],
    step: usize,
    responses: &Vec<Vec<u8>>,
) -> (r: Result<Vec<U256>, FilterError>)
    requires
        step > 0,
    ensures
        match r {
            Ok(values) => {
                &&& every_group_answered(amms@.len(), step as nat, responses@)
                &&& values.len() == amms.len()
                &&& forall|i: int|
                    0 <= i < values.len() ==> #[trigger] values[i] == value_at(
                        amms@.len(),
                        step as nat,
                        responses@,
                        i,
                    )
            },
            Err(e) => e == FilterError::ProtocolDecodeError && !every_group_answered(
                amms@.len(),
                step as nat,
                responses@,
            ),
        },
{
    let ghost total = amms@.len();
    let ghost k = step as nat;
    let mut aggregate_weth_values_in_amms = ValuePass::new(amms.len(), step);
    let mut g: usize = 0;
    loop
        invariant
            step > 0,
            total == amms@.len(),
            k == step as nat,
            aggregate_weth_values_in_amms@.total == total,
            aggregate_weth_values_in_amms@.step == k,
            aggregate_weth_values_in_amms@.wf(),
            g <= responses.len(),
            g <= group_count(total, k),
            aggregate_weth_values_in_amms@.collected.len() == group_start(total, k, g as nat),
            forall|j: int| 0 <= j < g ==> #[trigger] group_answer(total, k, responses@, j) is Ok,
            forall|i: int|
                0 <= i < aggregate_weth_values_in_amms@.collected.len()
                    ==> #[trigger] aggregate_weth_values_in_amms@.collected[i] == value_at(
                    total,
                    k,
                    responses@,
                    i,
                ),
        ensures
            g == group_count(total, k),
            aggregate_weth_values_in_amms@.collected.len() == total,
            forall|j: int| 0 <= j < g ==> #[trigger] group_answer(total, k, responses@, j) is Ok,
            forall|i: int|
                0 <= i < aggregate_weth_values_in_amms@.collected.len()
                    ==> #[trigger] aggregate_weth_values_in_amms@.collected[i] == value_at(
                    total,
                    k,
                    responses@,
                    i,
                ),
        decreases group_count(total, k) - g,
    {
        proof {
            lemma_group_count_is_least(total, k, g as nat);
            lemma_groups_partition(total, k, g as nat);
        }
        match aggregate_weth_values_in_amms.next_group() {
            Some((idx_from, idx_to)) => {
                if g >= responses.len() {
                    return Err(FilterError::ProtocolDecodeError);
                }
                let ghost before = aggregate_weth_values_in_amms@;
                assert(before.next_group() == Some((idx_from as nat, idx_to as nat)));
                assert((idx_to - idx_from) as nat == group_len(total, k, g as nat));
                let return_data = responses[g].as_slice();
                assert(return_data@ == responses[g as int]@);
                match aggregate_weth_values_in_amms.accept(return_data) {
                    Ok(()) => {
                        proof {
                            let after = aggregate_weth_values_in_amms@;
                            let values = group_answer(total, k, responses@, g as int)->Ok_0;
                            assert(after.collected == before.collected + values);
                            assert forall|i: int| 0 <= i < after.collected.len() implies #[trigger] after.collected[i]
                                == value_at(total, k, responses@, i) by {
                                if i >= before.collected.len() {
                                    lemma_place_in_group(i, k as int, g as int);
                                }
                            }
                        }
                    },
                    Err(e) => {
                        assert(group_answer(total, k, responses@, g as int) is Err);
                        return Err(e);
                    },
                }
                g += 1;
            },
            None => {
                break ;
            },
        }
    }
    if g != responses.len() {
        return Err(FilterError::ProtocolDecodeError);
    }
    Ok(aggregate_weth_values_in_amms.into_values())
}

/// Where the answers for groups of `step` hold the values `values` in order,
/// the joined result is `values`, whatever `step` is: batching neither
/// reorders nor drops a value.
pub proof fn lemma_batching_preserves_values(
    values: Seq<U256>,
    step: nat,
    responses: Seq<Vec<u8>>,
)
    requires
        step > 0,
        responses.len() == group_count(values.len(), step),
        forall|g: int|
            0 <= g < responses.len() ==> #[trigger] group_answer(values.len(), step, responses, g)
                == Ok::<Seq<U256>, FilterError>(
                values.subrange(
                    group_start(values.len(), step, g as nat) as int,
                    group_end(values.len(), step, g as nat) as int,
                ),
            ),
    ensures
        every_group_answered(values.len(), step, responses),
        forall|i: int|
            0 <= i < values.len() ==> #[trigger] value_at(values.len(), step, responses, i)
                == values[i],
{
    let total = values.len();
    assert forall|i: int| 0 <= i < total implies #[trigger] value_at(total, step, responses, i)
        == values[i] by {
        let g = i / (step as int);
        lemma_fundamental_div_mod(i, step as int);
        lemma_mul_is_commutative(step as int, g);
        lemma_div_pos_is_pos(i, step as int);
        lemma_mod_bound(i, step as int);
        lemma_group_count_is_least(total, step, g as nat);
        lemma_groups_partition(total, step, g as nat);
        lemma_mul_is_distributive_add_other_way(step as int, g, 1);
        assert(group_answer(total, step, responses, g) is Ok);
    }
}

/// The pools at the positions that `keep` marks, in their order. A position
/// beyond the end of `keep` is not marked.
pub open spec fn selected(pools: Seq<Pool>, keep: Seq<bool>) -> Seq<Pool>
    decreases pools.len(),
{
    if pools.len() == 0 {
        Seq::empty()
    } else {
        let before = selected(pools.drop_last(), keep);
        let i = pools.len() - 1;
        if i < keep.len() && keep[i] {
            before.push(pools.last())
        } else {
            before
        }
    }
}

/// For each value, whether it is at least `threshold`.
pub open spec fn meets_threshold(values: Seq<U256>, threshold: U256) -> Seq<bool> {
    Seq::new(values.len(), |i: int| values[i]@ >= threshold@)
}

/// The pools marked in `keep`, in their order: `amms[i]` stays exactly when
/// `keep[i]` is there and true.
pub fn select(amms: Vec<Pool>, keep: &Vec<bool>) -> (filtered_amms: Vec<Pool>)
    ensures
        filtered_amms@ == selected(amms@, keep@),
{
    let mut filtered_amms: Vec<Pool> = Vec::new();
    let mut i: usize = 0;
    while i < amms.len()
        invariant
            i <= amms.len(),
            filtered_amms@ == selected(amms@.take(i as int), keep@),
        decreases amms.len() - i,
    {
        proof {
            assert(amms@.take(i as int + 1).drop_last() =~= amms@.take(i as int));
        }
        if i < keep.len() && keep[i] {
            filtered_amms.push(amms[i]);
        }
        i += 1;
    }
    assert(amms@.take(i as int) =~= amms@);
    filtered_amms
}

/// Drops the pools that hold less than `weth_value_in_pool_threshold`, where
/// `weth_values_in_pools[i]` is the value of `amms[i]`. A pool stays exactly
/// when its value is at least the threshold; the pools that stay keep their
/// order. A pool without a value is dropped.
pub fn filter_amms_below_weth_threshold(
    amms: Vec<Pool>,
    weth_values_in_pools: &Vec<U256>,
    weth_value_in_pool_threshold: U256,
) -> (filtered_amms: Vec<Pool>)
    ensures
        filtered_amms@ == selected(
            amms@,
            meets_threshold(weth_values_in_pools@, weth_value_in_pool_threshold),
        ),
{
    let mut keep: Vec<bool> = Vec::new();
    let mut i: usize = 0;
    while i < weth_values_in_pools.len()
        invariant
            i <= weth_values_in_pools.len(),
            keep.len() == i,
            forall|j: int|
                0 <= j < i ==> keep[j] == (weth_values_in_pools[j]@
                    >= weth_value_in_pool_threshold@),
        decreases weth_values_in_pools.len() - i,
    {
        keep.push(weth_values_in_pools[i].ge(weth_value_in_pool_threshold));
        i += 1;
    }
    assert(keep@ =~= meets_threshold(weth_values_in_pools@, weth_value_in_pool_threshold));
    select(amms, &keep)
}

/// Drops the pools that are worth less than the threshold in fiat, where
/// `meets_usd_threshold[i]` says whether `amms[i]` is worth at least the
/// threshold. The pools that stay keep their order. A pool without a verdict
/// is dropped.
pub fn filter_amms_below_usd_threshold(
    amms: Vec<Pool>,
    meets_usd_threshold: &Vec<bool>,
) -> (filtered_amms: Vec<Pool>)
    ensures
        filtered_amms@ == selected(amms@, meets_usd_threshold@),
{
    select(amms, meets_usd_threshold)
}

/// Splits `weth_value`, an amount in the smallest unit of the reference asset,
/// of which a whole one has `TEN_POW_18`: the whole units, and what is left
/// over in the smallest unit. Nothing of the amount is lost: it is the whole
/// units times `TEN_POW_18` plus the rest.
pub fn split_weth_value(weth_value: U256) -> (parts: (U256, u64))
    ensures
        parts.0@ == weth_value@ / (TEN_POW_18 as nat),
        parts.1 == weth_value@ % (TEN_POW_18 as nat),
        weth_value@ == parts.0@ * TEN_POW_18 + parts.1,
{
    let unit = u256_10_pow_18();
    let whole = weth_value.checked_div(unit).unwrap();
    let rest = weth_value.checked_rem(unit).unwrap();
    proof {
        lemma_fundamental_div_mod(weth_value@ as int, TEN_POW_18 as int);
        lemma_mod_bound(weth_value@ as int, TEN_POW_18 as int);
    }
    (whole, rest.to_u64().unwrap())
}

/// The selection from the first `n` pools is the start of the selection from
/// all: what comes later changes nothing before it.
pub proof fn lemma_selected_prefix(pools: Seq<Pool>, keep: Seq<bool>, n: int)
    requires
        0 <= n <= pools.len(),
    ensures
        selected(pools.take(n), keep).is_prefix_of(selected(pools, keep)),
    decreases pools.len() - n,
{
    if n < pools.len() {
        lemma_selected_prefix(pools, keep, n + 1);
        assert(pools.take(n + 1).drop_last() =~= pools.take(n));
    } else {
        assert(pools.take(n) =~= pools);
    }
}

/// The threshold is inclusive. A pool whose value is the threshold itself
/// stays: it comes right after what was selected before it. A pool whose value
/// is one below the threshold is dropped: the selection up to it and with it
/// is the selection before it.
pub proof fn lemma_threshold_is_inclusive(
    pools: Seq<Pool>,
    values: Seq<U256>,
    threshold: U256,
    i: int,
)
    requires
        0 <= i < pools.len(),
        i < values.len(),
    ensures
        values[i]@ >= threshold@ ==> selected(
            pools.take(i + 1),
            meets_threshold(values, threshold),
        ) == selected(pools.take(i), meets_threshold(values, threshold)).push(pools[i]),
        values[i]@ < threshold@ ==> selected(pools.take(i + 1), meets_threshold(values, threshold))
            == selected(pools.take(i), meets_threshold(values, threshold)),
        selected(pools.take(i + 1), meets_threshold(values, threshold)).is_prefix_of(
            selected(pools, meets_threshold(values, threshold)),
        ),
{
    assert(pools.take(i + 1).drop_last() =~= pools.take(i));
    lemma_selected_prefix(pools, meets_threshold(values, threshold), i + 1);
}

} // verus!
