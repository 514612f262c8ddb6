use vstd::prelude::*;

use crate::pending::{delta_sum, insert_unique, supply_map, PendingBlock, RewardNote, Validator, WorkerError};
use crate::rate::{
    commission_bps, next_base_rate_spec, next_rate_spec, reward_amount_spec, unbonded_spec, voting_power_spec, BaseRate,
    FundingStream, RateData, BPS_SCALE,
};
use crate::validator::{rotate, rotate_spec, ValidatorState, ValidatorStatus};

verus! {

/// What the store supplies for the close of an epoch.
#[derive(Clone, Debug)]
pub struct EpochInputs {
    /// Base rate of the epoch that starts.
    pub current_base_rate: BaseRate,
    /// Staking-token supply before the transition.
    pub staking_supply: u64,
    pub staking_asset_id: u64,
    pub staking_denom: String,
    /// Delegation changes committed during the epoch that closes.
    pub persisted_changes: Vec<(u64, i64)>,
    /// Funding streams of each validator, in the order of the state machine.
    pub funding_streams: Vec<Vec<FundingStream>>,
    /// Delegation-token supply of each validator, in the order of the state machine.
    pub delegation_supplies: Vec<u64>,
    pub unbonding_epochs: u64,
    pub validator_limit: u64,
}

/// The outcome of one validator at the close of an epoch.
pub struct StepOut {
    pub rate: RateData,
    pub status: ValidatorStatus,
    /// The validator's new delegation-token supply, when its rate moved.
    pub delegation_supply: Option<u64>,
    pub staking_supply: u64,
    pub rewards: Seq<(u64, Seq<char>)>,
}

/// Commission payouts of the first `n` of `streams` on a pool of `supply` tokens.
pub open spec fn rewards_spec(streams: Seq<FundingStream>, n: int, supply: u64, next: BaseRate, cur: BaseRate) -> Option<Seq<(u64, Seq<char>)>>
    decreases n,
{
    if n <= 0 {
        Some(Seq::empty())
    } else {
        match rewards_spec(streams, n - 1, supply, next, cur) {
            Some(rs) => match reward_amount_spec(streams[n - 1].rate_bps, supply, next, cur) {
                Some(a) => Some(rs.push((a, streams[n - 1].address@))),
                None => None,
            },
            None => None,
        }
    }
}

/// A rate held over into the epoch `next_epoch`.
pub open spec fn held_rate(r: RateData, next_epoch: u64) -> RateData {
    RateData { epoch_index: next_epoch, ..r }
}

/// Magnitude of a signed delegation change.
pub open spec fn abs(d: int) -> int {
    if d < 0 {
        -d
    } else {
        d
    }
}

/// A validator in this state keeps its rate and status over an epoch boundary.
pub open spec fn is_held(st: ValidatorState) -> bool {
    st is Slashed || st is Inactive
}

/// The outcome of validator `v` whose net delegation change is `delta`, with the staking
/// supply at `staking` before it.
pub open spec fn step_spec(
    v: Validator,
    streams: Seq<FundingStream>,
    dsupply: u64,
    delta: int,
    staking: u64,
    next: BaseRate,
    cur: BaseRate,
) -> Result<StepOut, WorkerError> {
    if is_held(v.status.state) {
        Ok(
            StepOut {
                rate: held_rate(v.rate_data, next.epoch_index),
                status: v.status,
                delegation_supply: None,
                staking_supply: staking,
                rewards: Seq::empty(),
            },
        )
    } else if abs(delta) > u64::MAX {
        Err(WorkerError::Overflow)
    } else if commission_bps(streams) > BPS_SCALE {
        Err(WorkerError::InvalidCommission)
    } else {
        let amount = abs(delta) as u64;
        match (next_rate_spec(v.rate_data, next, streams), unbonded_spec(v.rate_data, amount)) {
            (Some(nr), Some(u)) => {
                let (s2, d2) = if delta > 0 {
                    (staking - u, dsupply + amount)
                } else {
                    (staking + u, dsupply - amount)
                };
                if s2 < 0 || s2 > u64::MAX || d2 < 0 || d2 > u64::MAX {
                    Err(WorkerError::Overflow)
                } else {
                    match (
                        voting_power_spec(nr, d2 as u64, next),
                        rewards_spec(streams, streams.len() as int, d2 as u64, next, cur),
                    ) {
                        (Some(vp), Some(rw)) => Ok(
                            StepOut {
                                rate: nr,
                                status: ValidatorStatus {
                                    identity_key: v.identity_key,
                                    voting_power: vp,
                                    state: v.status.state,
                                },
                                delegation_supply: Some(d2 as u64),
                                staking_supply: s2 as u64,
                                rewards: rw,
                            },
                        ),
                        _ => Err(WorkerError::Overflow),
                    }
                }
            },
            _ => Err(WorkerError::Overflow),
        }
    }
}

/// Reward payouts as the pending block holds them.
pub open spec fn reward_view(s: Seq<RewardNote>) -> Seq<(u64, Seq<char>)> {
    s.map_values(|r: RewardNote| (r.amount, r.address@))
}

/// Computes the commission payouts of `streams` on a pool of `supply` tokens.
fn rewards(streams: &Vec<FundingStream>, supply: u64, next: &BaseRate, cur: &BaseRate) -> (r: Option<Vec<RewardNote>>)
    ensures
        match rewards_spec(streams@, streams@.len() as int, supply, *next, *cur) {
            Some(rs) => r matches Some(v) && reward_view(v@) == rs,
            None => r is None,
        },
{
    let mut out: Vec<RewardNote> = Vec::new();
    let mut i: usize = 0;
    while i < streams.len()
        invariant
            i <= streams.len(),
            rewards_spec(streams@, i as int, supply, *next, *cur) == Some(reward_view(out@)),
        decreases streams.len() - i,
    {
        match streams[i].reward_amount(supply, next, cur) {
            Some(a) => {
                let ghost before = out@;
                out.push(RewardNote { amount: a, address: streams[i].address.clone() });
                assert(reward_view(out@) == reward_view(before).push((a, streams@[i as int].address@)));
            },
            None => {
                proof { lemma_rewards_none(streams@, i as int + 1, streams@.len() as int, supply, *next, *cur); }
                return None;
            },
        }
        i = i + 1;
    }
    Some(out)
}

proof fn lemma_rewards_none(s: Seq<FundingStream>, n: int, m: int, supply: u64, next: BaseRate, cur: BaseRate)
    requires
        0 < n <= m,
        rewards_spec(s, n, supply, next, cur) is None,
    ensures
        rewards_spec(s, m, supply, next, cur) is None,
    decreases m - n,
{
    if n < m {
        lemma_rewards_none(s, n + 1, m, supply, next, cur);
    }
}

/// Computes the outcome of one validator at the close of an epoch.
fn step(
    v: &Validator,
    streams: &Vec<FundingStream>,
    dsupply: u64,
    delta: i128,
    staking: u64,
    next: &BaseRate,
    cur: &BaseRate,
) -> (r: Result<(RateData, ValidatorStatus, Option<u64>, u64, Vec<RewardNote>), WorkerError>)
    requires
        delta > i128::MIN,
    ensures
        match step_spec(*v, streams@, dsupply, delta as int, staking, *next, *cur) {
            Ok(o) => r matches Ok((rate, status, ds, st, rw)) && rate == o.rate && status == o.status
                && ds == o.delegation_supply && st == o.staking_supply && reward_view(rw@) == o.rewards,
            Err(e) => r == Err::<(RateData, ValidatorStatus, Option<u64>, u64, Vec<RewardNote>), WorkerError>(e),
        },
{
    let state = v.status.state;
    let held = match state {
        ValidatorState::Slashed | ValidatorState::Inactive => true,
        _ => false,
    };
    if held {
        let rate = RateData { epoch_index: next.epoch_index, ..v.rate_data };
        let rw: Vec<RewardNote> = Vec::new();
        assert(reward_view(rw@) == Seq::<(u64, Seq<char>)>::empty());
        return Ok((rate, v.status, None, staking, rw));
    }
    let mag: i128 = if delta < 0 { -delta } else { delta };
    if mag > u64::MAX as i128 {
        return Err(WorkerError::Overflow);
    }
    let nr = v.rate_data.next(next, streams);
    let mut c: u64 = 0;
    let mut i: usize = 0;
    while i < streams.len()
        invariant
            i <= streams.len(),
            c == commission_bps(streams@.take(i as int)),
            c <= BPS_SCALE,
            !is_held(v.status.state),
            mag == abs(delta as int),
            mag <= u64::MAX,
        decreases streams.len() - i,
    {
        assert(streams@.take(i + 1).drop_last() == streams@.take(i as int));
        c = c + streams[i].rate_bps as u64;
        if c > BPS_SCALE {
            proof {
                assert(streams@.take(i + 1).last() == streams@[i as int]);
                assert(c == commission_bps(streams@.take(i + 1)));
                crate::rate::lemma_commission_grows(streams@, i as int + 1);
            }
            return Err(WorkerError::InvalidCommission);
        }
        i = i + 1;
    }
    assert(streams@.take(i as int) == streams@);
    let amount = mag as u64;
    let u = v.rate_data.unbonded_amount(amount);
    let (nr, u) = match (nr, u) {
        (Some(nr), Some(u)) => (nr, u),
        _ => {
            return Err(WorkerError::Overflow);
        },
    };
    let (s2, d2) = if delta > 0 {
        match (staking.checked_sub(u), dsupply.checked_add(amount)) {
            (Some(s2), Some(d2)) => (s2, d2),
            _ => {
                return Err(WorkerError::Overflow);
            },
        }
    } else {
        match (staking.checked_add(u), dsupply.checked_sub(amount)) {
            (Some(s2), Some(d2)) => (s2, d2),
            _ => {
                return Err(WorkerError::Overflow);
            },
        }
    };
    let vp = nr.voting_power(d2, next);
    let rw = rewards(streams, d2, next, cur);
    match (vp, rw) {
        (Some(vp), Some(rw)) => {
            let status = ValidatorStatus { identity_key: v.identity_key, voting_power: vp, state };
            Ok((nr, status, Some(d2), s2, rw))
        },
        _ => Err(WorkerError::Overflow),
    }
}

/// Reward rate of every epoch, scaled by `RATE_SCALE`: 3bps per epoch.
pub const BASE_REWARD_RATE: u64 = 3_0000;

/// A note held in quarantine until its validator finishes unbonding.
#[derive(Clone, Copy, Debug, PartialEq, Eq, Structural)]
pub struct QuarantinedNote {
    pub height: u64,
    pub validator: u64,
    pub commitment: u64,
}

/// A nullifier held in quarantine until its validator finishes unbonding.
#[derive(Clone, Copy, Debug, PartialEq, Eq, Structural)]
pub struct QuarantinedNullifier {
    pub height: u64,
    pub validator: u64,
    pub nullifier: u64,
}

/// What the validators contribute to the close of an epoch.
pub struct EpochAcc {
    pub staking_supply: u64,
    pub rates: Seq<RateData>,
    pub statuses: Seq<ValidatorStatus>,
    pub rewards: Seq<(u64, Seq<char>)>,
    /// Delegation-token supplies to stage: asset id, denomination, total supply.
    pub writes: Seq<(u64, Seq<char>, u64)>,
}

/// Net delegation change of validator `key` over the epoch that closes.
pub open spec fn net_delta(persisted: Seq<(u64, i64)>, pending: Seq<(u64, i64)>, key: u64) -> int {
    delta_sum(persisted, key) + delta_sum(pending, key)
}

/// The contributions of the first `n` validators of `vals`.
pub open spec fn epoch_fold(
    vals: Seq<Validator>,
    inputs: EpochInputs,
    pending: Seq<(u64, i64)>,
    next: BaseRate,
    n: int,
) -> Result<EpochAcc, WorkerError>
    decreases n,
{
    if n <= 0 {
        Ok(
            EpochAcc {
                staking_supply: inputs.staking_supply,
                rates: Seq::empty(),
                statuses: Seq::empty(),
                rewards: Seq::empty(),
                writes: Seq::empty(),
            },
        )
    } else {
        match epoch_fold(vals, inputs, pending, next, n - 1) {
            Ok(acc) => {
                let v = vals[n - 1];
                match step_spec(
                    v,
                    inputs.funding_streams@[n - 1]@,
                    inputs.delegation_supplies@[n - 1],
                    net_delta(inputs.persisted_changes@, pending, v.identity_key),
                    acc.staking_supply,
                    next,
                    inputs.current_base_rate,
                ) {
                    Ok(o) => Ok(
                        EpochAcc {
                            staking_supply: o.staking_supply,
                            rates: acc.rates.push(o.rate),
                            statuses: acc.statuses.push(o.status),
                            rewards: acc.rewards + o.rewards,
                            writes: match o.delegation_supply {
                                Some(d) => acc.writes.push(
                                    (v.delegation_asset_id, v.delegation_denom@, d),
                                ),
                                None => acc.writes,
                            },
                        },
                    ),
                    Err(e) => Err(e),
                }
            },
            Err(e) => Err(e),
        }
    }
}

/// The supply table `m` after the writes `w`, in order.
pub open spec fn apply_writes(m: Map<u64, (Seq<char>, u64)>, w: Seq<(u64, Seq<char>, u64)>) -> Map<u64, (Seq<char>, u64)>
    decreases w.len(),
{
    if w.len() == 0 {
        m
    } else {
        apply_writes(m, w.drop_last()).insert(w.last().0, (w.last().1, w.last().2))
    }
}

/// Sum of the changes of `s` that concern `key`, computed without overflow.
fn delta_of(s: &Vec<(u64, i64)>, key: u64) -> (r: i128)
    ensures
        r == delta_sum(s@, key),
        -(s@.len() as int) * 0x8000_0000_0000_0000 <= r <= (s@.len() as int) * 0x8000_0000_0000_0000,
{
    let mut acc: i128 = 0;
    let mut i: usize = 0;
    while i < s.len()
        invariant
            i <= s.len(),
            acc == delta_sum(s@.take(i as int), key),
            -(i as int) * 0x8000_0000_0000_0000 <= acc <= (i as int) * 0x8000_0000_0000_0000,
        decreases s.len() - i,
    {
        assert(s@.take(i + 1).drop_last() == s@.take(i as int));
        proof {
            assert((i as int) * 0x8000_0000_0000_0000 < 0x7fff_ffff_ffff_ffff_ffff_ffff_ffff_0000) by (nonlinear_arith)
                requires i < 0x1_0000_0000_0000_0000int;
        }
        if s[i].0 == key {
            acc = acc + s[i].1 as i128;
        }
        i = i + 1;
    }
    assert(s@.take(i as int) == s@);
    acc
}

impl PendingBlock {
    /// Runs the per-validator pass of an epoch's close from the next base rate `next`.
    fn validator_pass(&mut self, inputs: &EpochInputs, next: &BaseRate) -> (r: Result<(Vec<RateData>, Vec<ValidatorStatus>, Vec<RewardNote>, u64), WorkerError>)
        requires
            old(self).wf(),
            inputs.funding_streams@.len() == old(self).validators@.len(),
            inputs.delegation_supplies@.len() == old(self).validators@.len(),
        ensures
            final(self).wf(),
            *final(self) == (PendingBlock { supply_updates: final(self).supply_updates, ..*old(self) }),
            match epoch_fold(old(self).validators@, *inputs, old(self).delegation_changes@, *next, old(self).validators@.len() as int) {
                Ok(acc) => r matches Ok((rates, statuses, rewards, staking)) && rates@ == acc.rates
                    && statuses@ == acc.statuses && reward_view(rewards@) == acc.rewards
                    && staking == acc.staking_supply
                    && supply_map(final(self).supply_updates@) == apply_writes(supply_map(old(self).supply_updates@), acc.writes),
                Err(e) => r matches Err(e2) && e2 == e,
            },
    {
        let ghost vals = self.validators@;
        let ghost m0 = supply_map(self.supply_updates@);
        let mut rates: Vec<RateData> = Vec::new();
        let mut statuses: Vec<ValidatorStatus> = Vec::new();
        let mut rewards: Vec<RewardNote> = Vec::new();
        let mut staking = inputs.staking_supply;
        let ghost mut writes: Seq<(u64, Seq<char>, u64)> = Seq::empty();
        let mut i: usize = 0;
        while i < self.validators.len()
            invariant
                self.wf(),
                *self == (PendingBlock { supply_updates: self.supply_updates, ..*old(self) }),
                vals == self.validators@,
                i <= vals.len(),
                inputs.funding_streams@.len() == vals.len(),
                inputs.delegation_supplies@.len() == vals.len(),
                epoch_fold(vals, *inputs, self.delegation_changes@, *next, i as int) matches Ok(acc) && rates@
                    == acc.rates && statuses@ == acc.statuses && reward_view(rewards@) == acc.rewards
                    && staking == acc.staking_supply && writes == acc.writes,
                supply_map(self.supply_updates@) == apply_writes(m0, writes),
            decreases vals.len() - i,
        {
            let v = &self.validators[i];
            let held = match v.status.state {
                ValidatorState::Slashed | ValidatorState::Inactive => true,
                _ => false,
            };
            let d1 = delta_of(&inputs.persisted_changes, v.identity_key);
            let d2 = delta_of(&self.delegation_changes, v.identity_key);
            let delta: i128 = match d1.checked_add(d2) {
                Some(d) if d > i128::MIN => d,
                _ => {
                    if held {
                        0
                    } else {
                        proof {
                            let acc = epoch_fold(vals, *inputs, self.delegation_changes@, *next, i as int)->Ok_0;
                            assert(!is_held(v.status.state));
                            assert(abs(net_delta(inputs.persisted_changes@, self.delegation_changes@, v.identity_key)) > u64::MAX);
                            lemma_fold_err_sticks(vals, *inputs, self.delegation_changes@, *next, i as int + 1, vals.len() as int);
                        }
                        return Err(WorkerError::Overflow);
                    }
                },
            };
            let out = step(v, &inputs.funding_streams[i], inputs.delegation_supplies[i], delta, staking, next, &inputs.current_base_rate);
            match out {
                Ok((rate, status, ds, st, rw)) => {
                    let ghost before = rewards@;
                    let ghost added = rw@;
                    rates.push(rate);
                    statuses.push(status);
                    let mut rw = rw;
                    rewards.append(&mut rw);
                    assert(reward_view(rewards@) == reward_view(before) + reward_view(added)) by {
                        assert(reward_view(rewards@) =~= reward_view(before) + reward_view(added));
                    }
                    staking = st;
                    match ds {
                        Some(d) => {
                            let aid = self.validators[i].delegation_asset_id;
                            let dn = self.validators[i].delegation_denom.clone();
                            self.set_supply(aid, dn, d);
                            proof {
                                let w0 = writes;
                                writes = writes.push((aid, vals[i as int].delegation_denom@, d));
                                assert(writes.drop_last() == w0);
                            }
                        },
                        None => {},
                    }
                },
                Err(e) => {
                    proof { lemma_fold_err_sticks(vals, *inputs, self.delegation_changes@, *next, i as int + 1, vals.len() as int); }
                    return Err(e);
                },
            }
            i = i + 1;
        }
        Ok((rates, statuses, rewards, staking))
    }
}

proof fn lemma_fold_err_sticks(vals: Seq<Validator>, inputs: EpochInputs, pending: Seq<(u64, i64)>, next: BaseRate, n: int, m: int)
    requires
        0 < n <= m,
        epoch_fold(vals, inputs, pending, next, n) is Err,
    ensures
        epoch_fold(vals, inputs, pending, next, m) == epoch_fold(vals, inputs, pending, next, n),
    decreases m - n,
{
    if n < m {
        lemma_fold_err_sticks(vals, inputs, pending, next, n + 1, m);
    }
}

/// The state machine holds validator `key` and has not slashed it.
pub open spec fn unslashed(vals: Seq<Validator>, key: u64) -> bool {
    exists|i: int| 0 <= i < vals.len() && vals[i].identity_key == key && !(vals[i].status.state is Slashed)
}

/// Commitments of the quarantined notes `q` that are released at `height`: those whose
/// unbonding height has come and whose validator is not slashed.
pub open spec fn revealed_notes(q: Seq<QuarantinedNote>, vals: Seq<Validator>, height: u64) -> Seq<u64>
    decreases q.len(),
{
    if q.len() == 0 {
        Seq::empty()
    } else {
        let r = revealed_notes(q.drop_last(), vals, height);
        if q.last().height <= height && unslashed(vals, q.last().validator) {
            r.push(q.last().commitment)
        } else {
            r
        }
    }
}

/// The quarantined nullifiers of `q` that are released at `height`.
pub open spec fn revealed_nullifiers(q: Seq<QuarantinedNullifier>, vals: Seq<Validator>, height: u64) -> Seq<u64>
    decreases q.len(),
{
    if q.len() == 0 {
        Seq::empty()
    } else {
        let r = revealed_nullifiers(q.drop_last(), vals, height);
        if q.last().height <= height && unslashed(vals, q.last().validator) {
            r.push(q.last().nullifier)
        } else {
            r
        }
    }
}

/// The figures of an epoch's close: the epoch that starts, the next base rate, the
/// validators' contributions, and the epoch at which a displaced validator ends unbonding.
pub open spec fn epoch_plan(b: PendingBlock, inputs: EpochInputs) -> Result<(u64, BaseRate, EpochAcc, u64), WorkerError> {
    if b.height is None || b.epoch is None {
        Err(WorkerError::HeightNotSet)
    } else if b.epoch->Some_0.index + 2 > u64::MAX {
        Err(WorkerError::Overflow)
    } else {
        let current = (b.epoch->Some_0.index + 1) as u64;
        match next_base_rate_spec(inputs.current_base_rate, BASE_REWARD_RATE) {
            None => Err(WorkerError::Overflow),
            Some(nb) => match epoch_fold(b.validators@, inputs, b.delegation_changes@, nb, b.validators@.len() as int) {
                Err(e) => Err(e),
                Ok(acc) => if current + inputs.unbonding_epochs > u64::MAX {
                    Err(WorkerError::Overflow)
                } else {
                    Ok((current, nb, acc, (current + inputs.unbonding_epochs) as u64))
                },
            },
        }
    }
}

/// `b2` is the block `b` after the close of its epoch with the store inputs `inputs` and
/// the quarantined entries `notes` and `nullifiers`, when `epoch_plan(b, inputs)` succeeds.
pub open spec fn epoch_closed(b: PendingBlock, b2: PendingBlock, inputs: EpochInputs, notes: Seq<QuarantinedNote>, nullifiers: Seq<QuarantinedNullifier>) -> bool {
    let (current, nb, acc, unbond_at) = epoch_plan(b, inputs)->Ok_0;
    let h = b.height->Some_0;
    &&& b2.notes@ == b.notes@ + revealed_notes(notes, b.validators@, h)
    &&& b2.note_commitment_tree.commitments@ == b.note_commitment_tree.commitments@ + revealed_notes(notes, b.validators@, h)
    &&& b2.unbonding_nullifiers@.to_set() == b.unbonding_nullifiers@.to_set()
        + revealed_nullifiers(nullifiers, b.validators@, h).to_set()
    &&& (b2.next_rates matches Some(v) && v@ == acc.rates)
    &&& b2.next_base_rate == Some(nb)
    &&& (b2.next_validator_statuses matches Some(v) && v@ == rotate_spec(acc.statuses, inputs.validator_limit, current, unbond_at))
    &&& supply_map(b2.supply_updates@) == apply_writes(supply_map(b.supply_updates@), acc.writes).insert(
        inputs.staking_asset_id,
        (inputs.staking_denom@, acc.staking_supply),
    )
    &&& reward_view(b2.reward_notes@) == reward_view(b.reward_notes@) + acc.rewards
    &&& b2 == (PendingBlock {
        note_commitment_tree: b2.note_commitment_tree,
        notes: b2.notes,
        unbonding_nullifiers: b2.unbonding_nullifiers,
        supply_updates: b2.supply_updates,
        reward_notes: b2.reward_notes,
        next_rates: b2.next_rates,
        next_base_rate: b2.next_base_rate,
        next_validator_statuses: b2.next_validator_statuses,
        ..b
    })
}

/// The store inputs belong to the close of `b`'s epoch: the base rate is that of the epoch
/// that starts, and the staking token is no validator's delegation token.
pub open spec fn epoch_inputs_match(b: PendingBlock, inputs: EpochInputs) -> bool {
    &&& (b.epoch matches Some(e) ==> inputs.current_base_rate.epoch_index == e.index + 1)
    &&& forall|i: int| 0 <= i < b.validators@.len() ==> (#[trigger] b.validators@[i]).delegation_asset_id != inputs.staking_asset_id
}

/// Whether the state machine holds `key` unslashed.
fn is_unslashed(vals: &Vec<Validator>, key: u64) -> (r: bool)
    ensures
        r == unslashed(vals@, key),
{
    let mut i: usize = 0;
    while i < vals.len()
        invariant
            i <= vals.len(),
            forall|k: int| 0 <= k < i ==> !(vals@[k].identity_key == key && !(vals@[k].status.state is Slashed)),
        decreases vals.len() - i,
    {
        let slashed = match vals[i].status.state {
            ValidatorState::Slashed => true,
            _ => false,
        };
        if vals[i].identity_key == key && !slashed {
            return true;
        }
        i = i + 1;
    }
    false
}

impl PendingBlock {
    /// Releases the quarantined notes and nullifiers whose unbonding ends at `height`.
    fn reveal_unbondings(&mut self, height: u64, notes: &Vec<QuarantinedNote>, nullifiers: &Vec<QuarantinedNullifier>)
        requires
            old(self).wf(),
        ensures
            final(self).wf(),
            *final(self) == (PendingBlock {
                note_commitment_tree: final(self).note_commitment_tree,
                notes: final(self).notes,
                unbonding_nullifiers: final(self).unbonding_nullifiers,
                ..*old(self)
            }),
            final(self).notes@ == old(self).notes@ + revealed_notes(notes@, old(self).validators@, height),
            final(self).note_commitment_tree.commitments@ == old(self).note_commitment_tree.commitments@
                + revealed_notes(notes@, old(self).validators@, height),
            final(self).unbonding_nullifiers@.to_set() == old(self).unbonding_nullifiers@.to_set()
                + revealed_nullifiers(nullifiers@, old(self).validators@, height).to_set(),
    {
        let ghost vals = self.validators@;
        let mut i: usize = 0;
        while i < notes.len()
            invariant
                self.wf(),
                i <= notes.len(),
                vals == old(self).validators@,
                *self == (PendingBlock {
                    note_commitment_tree: self.note_commitment_tree,
                    notes: self.notes,
                    ..*old(self)
                }),
                self.notes@ == old(self).notes@ + revealed_notes(notes@.take(i as int), vals, height),
                self.note_commitment_tree.commitments@ == old(self).note_commitment_tree.commitments@
                    + revealed_notes(notes@.take(i as int), vals, height),
            decreases notes.len() - i,
        {
            let q = notes[i];
            assert(notes@.take(i + 1).drop_last() == notes@.take(i as int));
            if q.height <= height && is_unslashed(&self.validators, q.validator) {
                self.add_note(q.commitment);
            }
            i = i + 1;
        }
        assert(notes@.take(i as int) == notes@);
        let mut j: usize = 0;
        while j < nullifiers.len()
            invariant
                self.wf(),
                j <= nullifiers.len(),
                vals == old(self).validators@,
                *self == (PendingBlock {
                    note_commitment_tree: self.note_commitment_tree,
                    notes: self.notes,
                    unbonding_nullifiers: self.unbonding_nullifiers,
                    ..*old(self)
                }),
                self.notes@ == old(self).notes@ + revealed_notes(notes@, vals, height),
                self.note_commitment_tree.commitments@ == old(self).note_commitment_tree.commitments@
                    + revealed_notes(notes@, vals, height),
                self.unbonding_nullifiers@.to_set() == old(self).unbonding_nullifiers@.to_set()
                    + revealed_nullifiers(nullifiers@.take(j as int), vals, height).to_set(),
            decreases nullifiers.len() - j,
        {
            let q = nullifiers[j];
            let ghost prev = revealed_nullifiers(nullifiers@.take(j as int), vals, height);
            assert(nullifiers@.take(j + 1).drop_last() == nullifiers@.take(j as int));
            if q.height <= height && is_unslashed(&self.validators, q.validator) {
                insert_unique(&mut self.unbonding_nullifiers, q.nullifier);
                proof {
                    Seq::lemma_to_set_insert_commutes(prev, q.nullifier);
                    assert(prev + seq![q.nullifier] == prev.push(q.nullifier));
                    assert(self.unbonding_nullifiers@.to_set() =~= old(self).unbonding_nullifiers@.to_set()
                        + revealed_nullifiers(nullifiers@.take(j + 1), vals, height).to_set());
                }
            }
            j = j + 1;
        }
        assert(nullifiers@.take(j as int) == nullifiers@);
    }

    /// Closes the epoch of the block's height: releases unbonded quarantine, moves every
    /// validator's rate, delegation supply and voting power on, pays commissions, stages
    /// the staking supply, and rotates the validator set.
    pub fn end_epoch(&mut self, inputs: &EpochInputs, notes: &Vec<QuarantinedNote>, nullifiers: &Vec<QuarantinedNullifier>) -> (r: Result<(), WorkerError>)
        requires
            old(self).wf(),
            epoch_inputs_match(*old(self), *inputs),
            inputs.funding_streams@.len() == old(self).validators@.len(),
            inputs.delegation_supplies@.len() == old(self).validators@.len(),
        ensures
            final(self).wf(),
            match epoch_plan(*old(self), *inputs) {
                Err(e) => r == Err::<(), WorkerError>(e),
                Ok(_) => r is Ok && epoch_closed(*old(self), *final(self), *inputs, notes@, nullifiers@),
            },
    {
        let (height, epoch) = match (self.height, self.epoch) {
            (Some(h), Some(e)) => (h, e),
            _ => {
                return Err(WorkerError::HeightNotSet);
            },
        };
        if epoch.index > u64::MAX - 2 {
            return Err(WorkerError::Overflow);
        }
        let current = epoch.index + 1;
        self.reveal_unbondings(height, notes, nullifiers);
        let nb = match inputs.current_base_rate.next(BASE_REWARD_RATE) {
            Some(nb) => nb,
            None => {
                return Err(WorkerError::Overflow);
            },
        };
        let (rates, statuses, rewards, staking) = match self.validator_pass(inputs, &nb) {
            Ok(out) => out,
            Err(e) => {
                return Err(e);
            },
        };
        if inputs.unbonding_epochs > u64::MAX - current {
            return Err(WorkerError::Overflow);
        }
        let unbond_at = current + inputs.unbonding_epochs;
        proof {
            let vals = self.validators@;
            lemma_fold_keys(vals, *inputs, self.delegation_changes@, nb, vals.len() as int);
            assert(crate::validator::distinct_keys(statuses@)) by {
                assert forall|a: int, b: int| 0 <= a < statuses@.len() && 0 <= b < statuses@.len() && a != b
                    implies #[trigger] statuses@[a].identity_key != #[trigger] statuses@[b].identity_key by {
                    assert(vals[a].identity_key != vals[b].identity_key);
                }
            }
        }
        let next_statuses = rotate(&statuses, inputs.validator_limit, current, unbond_at);
        self.next_rates = Some(rates);
        self.next_base_rate = Some(nb);
        self.next_validator_statuses = Some(next_statuses);
        self.set_supply(inputs.staking_asset_id, inputs.staking_denom.clone(), staking);
        let ghost before = self.reward_notes@;
        let mut rewards = rewards;
        let ghost added = rewards@;
        self.reward_notes.append(&mut rewards);
        assert(reward_view(self.reward_notes@) =~= reward_view(before) + reward_view(added));
        Ok(())
    }
}

/// The statuses that the validator pass yields carry the validators' identity keys, in order.
pub proof fn lemma_fold_keys(vals: Seq<Validator>, inputs: EpochInputs, pending: Seq<(u64, i64)>, next: BaseRate, n: int)
    requires
        0 <= n <= vals.len(),
        crate::pending::validators_keyed(vals),
        epoch_fold(vals, inputs, pending, next, n) is Ok,
    ensures
        epoch_fold(vals, inputs, pending, next, n)->Ok_0.statuses.len() == n,
        forall|k: int| 0 <= k < n ==> (#[trigger] epoch_fold(vals, inputs, pending, next, n)->Ok_0.statuses[k]).identity_key
            == vals[k].identity_key,
    decreases n,
{
    if n > 0 {
        lemma_fold_keys(vals, inputs, pending, next, n - 1);
        let prev = epoch_fold(vals, inputs, pending, next, n - 1)->Ok_0.statuses;
        let cur = epoch_fold(vals, inputs, pending, next, n)->Ok_0.statuses;
        assert forall|k: int| 0 <= k < n implies (#[trigger] cur[k]).identity_key == vals[k].identity_key by {
            if k < n - 1 {
                assert(cur[k] == prev[k]);
            }
        }
    }
}

} // verus!
