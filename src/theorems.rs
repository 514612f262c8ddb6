use vstd::prelude::*;

use crate::pending::{supply_map, validators_keyed, PendingBlock, Validator};
use crate::rate::{unbonded_spec, BaseRate};
use crate::transition::{
    abs, apply_writes, epoch_fold, epoch_inputs_match, epoch_plan, lemma_fold_keys, held_rate, is_held, net_delta, revealed_notes, step_spec, unslashed,
    EpochInputs, QuarantinedNote,
};
use crate::validator::{
    active_indices, distinct_keys, lemma_active_within_limit, next_state_spec, rotate_spec, ValidatorState,
};
use crate::worker::reverted_notes;

verus! {

/// Staking tokens that validator `v`'s net delegation change `delta` takes out of the
/// staking supply: the unbonded value of a net delegation, the negated unbonded value of a
/// net undelegation, and nothing for a validator whose rate is held.
pub open spec fn signed_unbonded(v: Validator, delta: int) -> int {
    if is_held(v.status.state) || abs(delta) > u64::MAX {
        0
    } else {
        match unbonded_spec(v.rate_data, abs(delta) as u64) {
            Some(u) => if delta > 0 {
                u as int
            } else {
                -(u as int)
            },
            None => 0,
        }
    }
}

/// Sum of `signed_unbonded` over the first `n` validators.
pub open spec fn net_unbonded(vals: Seq<Validator>, inputs: EpochInputs, pending: Seq<(u64, i64)>, n: int) -> int
    decreases n,
{
    if n <= 0 {
        0
    } else {
        net_unbonded(vals, inputs, pending, n - 1) + signed_unbonded(
            vals[n - 1],
            net_delta(inputs.persisted_changes@, pending, vals[n - 1].identity_key),
        )
    }
}

/// Supply conservation over an epoch's close: the change of the staking supply plus the
/// signed unbonded values of all validators' net delegation changes is zero.
pub proof fn lemma_staking_supply_conserved(
    vals: Seq<Validator>,
    inputs: EpochInputs,
    pending: Seq<(u64, i64)>,
    next: BaseRate,
    n: int,
)
    requires
        0 <= n,
        epoch_fold(vals, inputs, pending, next, n) is Ok,
    ensures
        epoch_fold(vals, inputs, pending, next, n)->Ok_0.staking_supply - inputs.staking_supply
            + net_unbonded(vals, inputs, pending, n) == 0,
    decreases n,
{
    if n > 0 {
        lemma_staking_supply_conserved(vals, inputs, pending, next, n - 1);
    }
}

/// Supply conservation for one validator: a validator whose rate moves stages a
/// delegation-token supply that differs from the previous one by exactly its net
/// delegation change.
pub proof fn lemma_delegation_supply_follows_delta(
    v: Validator,
    streams: Seq<crate::rate::FundingStream>,
    dsupply: u64,
    delta: int,
    staking: u64,
    next: BaseRate,
    cur: BaseRate,
)
    requires
        !is_held(v.status.state),
        step_spec(v, streams, dsupply, delta, staking, next, cur) is Ok,
    ensures
        step_spec(v, streams, dsupply, delta, staking, next, cur)->Ok_0.delegation_supply == Some(
            (dsupply + delta) as u64,
        ),
        dsupply + delta <= u64::MAX,
        0 <= dsupply + delta,
{
}

/// Slashed terminality at an epoch's close: a slashed validator keeps its status and its
/// rates, with only the epoch index moving on, and the rotation leaves it slashed.
pub proof fn lemma_slashed_is_terminal(
    v: Validator,
    streams: Seq<crate::rate::FundingStream>,
    dsupply: u64,
    delta: int,
    staking: u64,
    next: BaseRate,
    cur: BaseRate,
    top: bool,
    current_epoch: u64,
    unbond_at: u64,
)
    requires
        v.status.state is Slashed,
    ensures
        step_spec(v, streams, dsupply, delta, staking, next, cur) == Ok::<crate::transition::StepOut, crate::pending::WorkerError>(
            crate::transition::StepOut {
                rate: held_rate(v.rate_data, next.epoch_index),
                status: v.status,
                delegation_supply: None,
                staking_supply: staking,
                rewards: Seq::empty(),
            },
        ),
        held_rate(v.rate_data, next.epoch_index).validator_exchange_rate == v.rate_data.validator_exchange_rate,
        held_rate(v.rate_data, next.epoch_index).validator_reward_rate == v.rate_data.validator_reward_rate,
        next_state_spec(v.status.state, top, current_epoch, unbond_at) == ValidatorState::Slashed,
{
}

/// Revert beats reveal: a quarantined note of a validator slashed in the block is among the
/// notes that the block reverts, and every note that the epoch's close releases comes from
/// a validator that is not slashed, so none of that validator's notes is released.
pub proof fn lemma_revert_beats_reveal(b: PendingBlock, q: Seq<QuarantinedNote>, height: u64, k: int)
    requires
        b.wf(),
        0 <= k < q.len(),
        b.slashed_validators@.contains(q[k].validator),
    ensures
        reverted_notes(q, b.slashed_validators@).contains(q[k].commitment),
        !unslashed(b.validators@, q[k].validator),
        forall|c: u64| #[trigger] revealed_notes(q, b.validators@, height).contains(c) ==> exists|j: int|
            0 <= j < q.len() && q[j].commitment == c && unslashed(b.validators@, q[j].validator),
{
    lemma_reverted_contains(q, b.slashed_validators@, k);
    let i = choose|i: int| 0 <= i < b.validators@.len() && b.validators@[i].identity_key == q[k].validator
        && (#[trigger] b.validators@[i]).status.state is Slashed;
    assert forall|i2: int| 0 <= i2 < b.validators@.len() && b.validators@[i2].identity_key == q[k].validator
        implies b.validators@[i2].status.state is Slashed by {
        if i2 != i {
            assert(b.validators@[i2].identity_key != b.validators@[i].identity_key);
        }
    }
    lemma_revealed_sources(q, b.validators@, height);
}

proof fn lemma_reverted_contains(q: Seq<QuarantinedNote>, slashed: Seq<u64>, k: int)
    requires
        0 <= k < q.len(),
        slashed.contains(q[k].validator),
    ensures
        reverted_notes(q, slashed).contains(q[k].commitment),
    decreases q.len(),
{
    let r = reverted_notes(q.drop_last(), slashed);
    if k == q.len() - 1 {
        assert(reverted_notes(q, slashed) == r.push(q[k].commitment));
        assert(r.push(q[k].commitment)[r.len() as int] == q[k].commitment);
    } else {
        lemma_reverted_contains(q.drop_last(), slashed, k);
        let j = choose|j: int| 0 <= j < r.len() && r[j] == q[k].commitment;
        if slashed.contains(q.last().validator) {
            assert(r.push(q.last().commitment)[j] == q[k].commitment);
        }
    }
}

proof fn lemma_revealed_sources(q: Seq<QuarantinedNote>, vals: Seq<Validator>, height: u64)
    ensures
        forall|c: u64| #[trigger] revealed_notes(q, vals, height).contains(c) ==> exists|j: int|
            0 <= j < q.len() && q[j].commitment == c && unslashed(vals, q[j].validator),
    decreases q.len(),
{
    if q.len() > 0 {
        let p = q.drop_last();
        lemma_revealed_sources(p, vals, height);
        let r = revealed_notes(p, vals, height);
        assert forall|c: u64| #[trigger] revealed_notes(q, vals, height).contains(c) implies exists|j: int|
            0 <= j < q.len() && q[j].commitment == c && unslashed(vals, q[j].validator) by {
            let t = revealed_notes(q, vals, height);
            let m = choose|m: int| 0 <= m < t.len() && t[m] == c;
            if m < r.len() {
                assert(r[m] == c);
                assert(r.contains(c));
                let j = choose|j: int| 0 <= j < p.len() && p[j].commitment == c && unslashed(vals, p[j].validator);
                assert(q[j] == p[j]);
            } else {
                assert(q[q.len() - 1].commitment == c);
            }
        }
    }
}

/// Validator-limit cap: after an epoch's close at most `validator_limit` validators are
/// active among the statuses it stages.
pub proof fn lemma_epoch_active_within_limit(b: PendingBlock, inputs: EpochInputs)
    requires
        b.wf(),
        epoch_plan(b, inputs) is Ok,
    ensures
        ({
            let (current, nb, acc, unbond_at) = epoch_plan(b, inputs)->Ok_0;
            active_indices(rotate_spec(acc.statuses, inputs.validator_limit, current, unbond_at)).len()
                <= inputs.validator_limit
        }),
{
    let (current, nb, acc, unbond_at) = epoch_plan(b, inputs)->Ok_0;
    let vals = b.validators@;
    lemma_fold_keys(vals, inputs, b.delegation_changes@, nb, vals.len() as int);
    assert(distinct_keys(acc.statuses)) by {
        assert forall|i: int, j: int| 0 <= i < acc.statuses.len() && 0 <= j < acc.statuses.len() && i != j
            implies #[trigger] acc.statuses[i].identity_key != #[trigger] acc.statuses[j].identity_key by {
            assert(vals[i].identity_key != vals[j].identity_key);
        }
    }
    lemma_active_within_limit(acc.statuses, inputs.validator_limit, current, unbond_at);
}

/// Ranking determinism: closing an epoch twice from the same block and the same store
/// inputs yields the same rates, base rate, statuses, supplies and rewards.
pub proof fn lemma_epoch_deterministic(b1: PendingBlock, b2: PendingBlock, i1: EpochInputs, i2: EpochInputs)
    requires
        b1 == b2,
        i1 == i2,
    ensures
        epoch_plan(b1, i1) == epoch_plan(b2, i2),
        epoch_plan(b1, i1) matches Ok((c, nb, acc, u)) ==> rotate_spec(acc.statuses, i1.validator_limit, c, u)
            == rotate_spec(acc.statuses, i2.validator_limit, c, u),
{
}

/// Each delegation-token write of the first `n` validators stands in the supply table
/// after all of them: none overwrites another validator's.
proof fn lemma_writes_hold(
    vals: Seq<Validator>,
    inputs: EpochInputs,
    pending: Seq<(u64, i64)>,
    next: BaseRate,
    m: Map<u64, (Seq<char>, u64)>,
    n: int,
    k: int,
)
    requires
        validators_keyed(vals),
        0 <= k < n <= vals.len(),
        epoch_fold(vals, inputs, pending, next, n) is Ok,
        !is_held(vals[k].status.state),
    ensures
        ({
            let t = apply_writes(m, epoch_fold(vals, inputs, pending, next, n)->Ok_0.writes);
            &&& t.contains_key(vals[k].delegation_asset_id)
            &&& t[vals[k].delegation_asset_id] == (
                vals[k].delegation_denom@,
                (inputs.delegation_supplies@[k] + net_delta(inputs.persisted_changes@, pending, vals[k].identity_key)) as u64,
            )
        }),
    decreases n,
{
    let acc = epoch_fold(vals, inputs, pending, next, n - 1)->Ok_0;
    let v = vals[n - 1];
    let w = epoch_fold(vals, inputs, pending, next, n)->Ok_0.writes;
    if n - 1 == k {
        lemma_delegation_supply_follows_delta(
            v,
            inputs.funding_streams@[n - 1]@,
            inputs.delegation_supplies@[n - 1],
            net_delta(inputs.persisted_changes@, pending, v.identity_key),
            acc.staking_supply,
            next,
            inputs.current_base_rate,
        );
        assert(w.drop_last() == acc.writes);
    } else {
        lemma_writes_hold(vals, inputs, pending, next, m, n - 1, k);
        assert(v.delegation_asset_id != vals[k].delegation_asset_id);
        if w.len() > acc.writes.len() {
            assert(w.drop_last() == acc.writes);
        } else {
            assert(w == acc.writes);
        }
    }
}

/// Delegation supply per validator over an epoch's close: each validator whose rate moves
/// ends with its delegation-token supply staged at its previous supply plus its net
/// delegation change.
pub proof fn lemma_delegation_supply_staged(b: PendingBlock, inputs: EpochInputs, k: int)
    requires
        b.wf(),
        epoch_inputs_match(b, inputs),
        epoch_plan(b, inputs) is Ok,
        0 <= k < b.validators@.len(),
        !is_held(b.validators@[k].status.state),
    ensures
        ({
            let (current, nb, acc, unbond_at) = epoch_plan(b, inputs)->Ok_0;
            let t = apply_writes(supply_map(b.supply_updates@), acc.writes).insert(
                inputs.staking_asset_id,
                (inputs.staking_denom@, acc.staking_supply),
            );
            let v = b.validators@[k];
            t[v.delegation_asset_id] == (
                v.delegation_denom@,
                (inputs.delegation_supplies@[k] + net_delta(inputs.persisted_changes@, b.delegation_changes@, v.identity_key)) as u64,
            )
        }),
{
    let (current, nb, acc, unbond_at) = epoch_plan(b, inputs)->Ok_0;
    let vals = b.validators@;
    lemma_writes_hold(vals, inputs, b.delegation_changes@, nb, supply_map(b.supply_updates@), vals.len() as int, k);
    assert(vals[k].delegation_asset_id != inputs.staking_asset_id);
}

} // verus!
