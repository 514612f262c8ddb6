use vstd::prelude::*;

use crate::epoch::is_epoch_end;
use crate::pending::{
    contains, insert_unique, supply_added, supply_map, validators_keyed, NoteCommitmentTree, PendingBlock, Validator, VerifiedTransaction,
    WorkerError,
};
use crate::rate::{RateData, BPS_SCALE};
use crate::transition::{epoch_closed, epoch_inputs_match, epoch_plan, EpochInputs, QuarantinedNote, QuarantinedNullifier};
use crate::validator::ValidatorState;

verus! {

/// Relies on `tendermint::PublicKey::from_raw_ed25519`, which takes a slice of exactly 32
/// bytes as an ed25519 key and refuses any other length, and on `PublicKey::to_bytes`,
/// which hands those 32 bytes back.
#[verifier::external_body]
fn ed25519_key_from_raw(bytes: &[u8]) -> (r: Option<Vec<u8>>)
    ensures
        r is Some <==> bytes@.len() == 32,
        r matches Some(k) ==> k@ == bytes@,
{
    tendermint::PublicKey::from_raw_ed25519(bytes).map(|k| k.to_bytes())
}

/// Whether two byte strings are equal.
fn bytes_equal(a: &Vec<u8>, b: &Vec<u8>) -> (r: bool)
    ensures
        r == (a@ == b@),
{
    if a.len() != b.len() {
        return false;
    }
    let mut i: usize = 0;
    while i < a.len()
        invariant
            i <= a.len() == b.len(),
            forall|k: int| 0 <= k < i ==> a@[k] == b@[k],
        decreases a.len() - i,
    {
        if a[i] != b[i] {
            return false;
        }
        i = i + 1;
    }
    assert(a@ =~= b@);
    true
}

/// Some nullifier of `tx` is among the nullifiers `spent`.
pub open spec fn conflicts(spent: Seq<u64>, tx: Seq<u64>) -> bool {
    exists|k: int| 0 <= k < tx.len() && spent.contains(tx[k])
}

/// Finds a nullifier of `tx` that `spent` holds.
pub fn first_conflict(spent: &Vec<u64>, tx: &Vec<u64>) -> (r: Option<u64>)
    ensures
        r is None <==> !conflicts(spent@, tx@),
        r matches Some(n) ==> spent@.contains(n) && tx@.contains(n),
{
    let mut i: usize = 0;
    while i < tx.len()
        invariant
            i <= tx.len(),
            forall|k: int| 0 <= k < i ==> !spent@.contains(tx@[k]),
        decreases tx.len() - i,
    {
        if contains(spent, tx[i]) {
            assert(tx@[i as int] == tx[i as int]);
            return Some(tx[i]);
        }
        i = i + 1;
    }
    None
}

/// The exchange rate of a validator slashed by `penalty` basis points.
pub open spec fn slashed_rate(r: RateData, penalty: u64) -> RateData {
    RateData {
        validator_exchange_rate: (r.validator_exchange_rate * (BPS_SCALE - penalty) / BPS_SCALE as int) as u64,
        ..r
    }
}

/// The validator at position `i` of `vals` has consensus key `key`.
pub open spec fn holds_key(vals: Seq<Validator>, i: int, key: Seq<u8>) -> bool {
    0 <= i < vals.len() && vals[i].consensus_key@ == key
}

impl PendingBlock {
    /// Slashes the validator whose consensus key is `key`: its exchange rate loses
    /// `penalty` basis points and it becomes `Slashed`. A validator slashed already is
    /// left as it is.
    pub fn slash_validator(&mut self, key: &Vec<u8>, penalty: u64) -> (r: Result<(), WorkerError>)
        requires
            old(self).wf(),
        ensures
            final(self).wf(),
            penalty > BPS_SCALE ==> r == Err::<(), WorkerError>(WorkerError::InvalidPenalty),
            penalty <= BPS_SCALE && (forall|i: int| !holds_key(old(self).validators@, i, key@))
                ==> r == Err::<(), WorkerError>(WorkerError::UnknownValidator),
            r is Err ==> *final(self) == *old(self),
            penalty <= BPS_SCALE && (exists|i: int| holds_key(old(self).validators@, i, key@)) ==> r is Ok,
            r is Ok ==> forall|i: int| 0 <= i < old(self).validators@.len() ==> final(self).validators@[i].consensus_key
                == old(self).validators@[i].consensus_key && final(self).validators@.len() == old(self).validators@.len(),
            r is Ok ==> penalty <= BPS_SCALE && exists|i: int| {
                &&& holds_key(old(self).validators@, i, key@)
                &&& forall|k: int| 0 <= k < i ==> !holds_key(old(self).validators@, k, key@)
                &&& {
                    let v = old(self).validators@[i];
                    if v.status.state is Slashed {
                        *final(self) == *old(self)
                    } else {
                        &&& final(self).validators@ == old(self).validators@.update(i, Validator {
                            rate_data: slashed_rate(v.rate_data, penalty),
                            status: crate::validator::ValidatorStatus { state: ValidatorState::Slashed, ..v.status },
                            ..v
                        })
                        &&& final(self).slashed_validators@.to_set() == old(self).slashed_validators@.to_set().insert(v.identity_key)
                        &&& *final(self) == (PendingBlock {
                            validators: final(self).validators,
                            slashed_validators: final(self).slashed_validators,
                            ..*old(self)
                        })
                    }
                }
            },
    {
        if penalty > BPS_SCALE {
            return Err(WorkerError::InvalidPenalty);
        }
        let mut i: usize = 0;
        while i < self.validators.len()
            invariant
                i <= self.validators.len(),
                *self == *old(self),
                self.wf(),
                penalty <= BPS_SCALE,
                forall|k: int| 0 <= k < i ==> !holds_key(self.validators@, k, key@),
            decreases self.validators.len() - i,
        {
            if bytes_equal(&self.validators[i].consensus_key, key) {
                let already = match self.validators[i].status.state {
                    ValidatorState::Slashed => true,
                    _ => false,
                };
                if already {
                    assert(holds_key(old(self).validators@, i as int, key@));
                    return Ok(());
                }
                let ghost v = self.validators@[i as int];
                let x = self.validators[i].rate_data.validator_exchange_rate;
                proof {
                    assert(0 <= (x as int) * (BPS_SCALE - penalty) <= (x as int) * BPS_SCALE) by (nonlinear_arith)
                        requires penalty <= BPS_SCALE;
                }
                let nx = ((x as u128) * ((BPS_SCALE - penalty) as u128) / (BPS_SCALE as u128)) as u64;
                let mut nv = self.validators.remove(i);
                nv.rate_data.validator_exchange_rate = nx;
                nv.status.state = ValidatorState::Slashed;
                let key_id = nv.identity_key;
                self.validators.insert(i, nv);
                insert_unique(&mut self.slashed_validators, key_id);
                proof {
                    let nvals = self.validators@;
                    assert forall|k: u64| #[trigger] self.slashed_validators@.contains(k) implies exists|j: int|
                        0 <= j < nvals.len() && nvals[j].identity_key == k && (#[trigger] nvals[j]).status.state is Slashed by {
                        assert(self.slashed_validators@.to_set().contains(k));
                        if k == key_id {
                            assert(nvals[i as int].identity_key == k);
                        } else {
                            assert(old(self).slashed_validators@.contains(k));
                            let j = choose|j: int| 0 <= j < old(self).validators@.len() && old(self).validators@[j].identity_key == k
                                && (#[trigger] old(self).validators@[j]).status.state is Slashed;
                            assert(nvals[j] == old(self).validators@[j]);
                        }
                    }
                    assert(holds_key(old(self).validators@, i as int, key@));
                    assert(self.validators@ =~= old(self).validators@.update(i as int, Validator {
                        rate_data: slashed_rate(v.rate_data, penalty),
                        status: crate::validator::ValidatorStatus { state: ValidatorState::Slashed, ..v.status },
                        ..v
                    }));
                }
                return Ok(());
            }
            i = i + 1;
        }
        Err(WorkerError::UnknownValidator)
    }
}

/// Each piece of evidence is a 32-byte key that a validator of `vals` holds.
pub open spec fn evidence_known(evidence: Seq<Vec<u8>>, vals: Seq<Validator>) -> bool {
    forall|k: int|
        0 <= k < evidence.len() ==> #[trigger] evidence[k]@.len() == 32 && exists|i: int|
            holds_key(vals, i, evidence[k]@)
}

/// One of the first `k` pieces of `evidence` is `key`.
pub open spec fn named(evidence: Seq<Vec<u8>>, k: int, key: Seq<u8>) -> bool {
    exists|j: int| 0 <= j < k && (#[trigger] evidence[j])@ == key
}

/// Validator `v` after slashing by `penalty` basis points when `hit`, unless it is slashed
/// already.
pub open spec fn slashed_entry(v: Validator, hit: bool, penalty: u64) -> Validator {
    if hit && !(v.status.state is Slashed) {
        Validator {
            rate_data: slashed_rate(v.rate_data, penalty),
            status: crate::validator::ValidatorStatus { state: ValidatorState::Slashed, ..v.status },
            ..v
        }
    } else {
        v
    }
}

/// Identity keys of the validators of `vals` that the first `k` pieces of evidence slash.
pub open spec fn slashed_keys(vals: Seq<Validator>, evidence: Seq<Vec<u8>>, k: int, penalty: u64) -> Set<u64> {
    Set::new(
        |x: u64|
            exists|i: int|
                0 <= i < vals.len() && vals[i].identity_key == x && named(evidence, k, vals[i].consensus_key@)
                    && !(vals[i].status.state is Slashed),
    )
}

/// `b` is the block that `begin_block` starts over a tree of `commitments` and the
/// validators `vals`, after the first `k` pieces of `evidence` with slashing `penalty`.
pub open spec fn begun(b: PendingBlock, commitments: Seq<u64>, vals: Seq<Validator>, evidence: Seq<Vec<u8>>, k: int, penalty: u64) -> bool {
    &&& b.note_commitment_tree.commitments@ == commitments
    &&& b.height is None && b.epoch is None
    &&& b.notes@.len() == 0 && b.spent_nullifiers@.len() == 0
    &&& b.reverting_notes@.len() == 0 && b.reverting_nullifiers@.len() == 0
    &&& b.unbonding_nullifiers@.len() == 0 && b.supply_updates@.len() == 0
    &&& b.delegation_changes@.len() == 0 && b.reward_notes@.len() == 0
    &&& b.next_rates is None && b.next_base_rate is None && b.next_validator_statuses is None
    &&& b.validators@.len() == vals.len()
    &&& forall|i: int| 0 <= i < vals.len() ==> b.validators@[i] == slashed_entry(vals[i], named(evidence, k, vals[i].consensus_key@), penalty)
    &&& b.slashed_validators@.to_set() == slashed_keys(vals, evidence, k, penalty)
}

/// A validator of `b` with consensus key `key` is slashed.
pub open spec fn slashed_in(b: PendingBlock, key: Seq<u8>) -> bool {
    exists|i: int| #[trigger] holds_key(b.validators@, i, key) && b.validators@[i].status.state is Slashed
}

/// Commitments of the quarantined notes `q` whose validator is in `slashed`.
pub open spec fn reverted_notes(q: Seq<QuarantinedNote>, slashed: Seq<u64>) -> Seq<u64>
    decreases q.len(),
{
    if q.len() == 0 {
        Seq::empty()
    } else {
        let r = reverted_notes(q.drop_last(), slashed);
        if slashed.contains(q.last().validator) {
            r.push(q.last().commitment)
        } else {
            r
        }
    }
}

/// The quarantined nullifiers of `q` whose validator is in `slashed`.
pub open spec fn reverted_nullifiers(q: Seq<QuarantinedNullifier>, slashed: Seq<u64>) -> Seq<u64>
    decreases q.len(),
{
    if q.len() == 0 {
        Seq::empty()
    } else {
        let r = reverted_nullifiers(q.drop_last(), slashed);
        if slashed.contains(q.last().validator) {
            r.push(q.last().nullifier)
        } else {
            r
        }
    }
}

/// One genesis allocation: `amount` of asset `asset_id` paid to `address` in the note
/// whose commitment is `commitment`.
#[derive(Clone, Debug)]
pub struct Allocation {
    pub amount: u64,
    pub asset_id: u64,
    pub denom: String,
    pub address: String,
    pub commitment: u64,
}

/// The supply table that the allocations `a` stage from an empty one; `None` when an
/// asset's total overflows.
pub open spec fn allocation_supplies(a: Seq<Allocation>) -> Option<Map<u64, (Seq<char>, u64)>>
    decreases a.len(),
{
    if a.len() == 0 {
        Some(Map::empty())
    } else {
        match allocation_supplies(a.drop_last()) {
            None => None,
            Some(m) => {
                let x = a.last();
                if !m.contains_key(x.asset_id) {
                    Some(m.insert(x.asset_id, (x.denom@, x.amount)))
                } else if m[x.asset_id].1 + x.amount <= u64::MAX {
                    Some(m.insert(x.asset_id, (m[x.asset_id].0, (m[x.asset_id].1 + x.amount) as u64)))
                } else {
                    None
                }
            },
        }
    }
}

/// The supply table `m` with the delegation token of each of `vals` recorded at supply 0
/// where it has no entry.
pub open spec fn register_delegation_tokens(m: Map<u64, (Seq<char>, u64)>, vals: Seq<Validator>) -> Map<u64, (Seq<char>, u64)>
    decreases vals.len(),
{
    if vals.len() == 0 {
        m
    } else {
        let r = register_delegation_tokens(m, vals.drop_last());
        let v = vals.last();
        if r.contains_key(v.delegation_asset_id) {
            r
        } else {
            r.insert(v.delegation_asset_id, (v.delegation_denom@, 0u64))
        }
    }
}

/// Commitments of the allocations' notes.
pub open spec fn allocation_notes(a: Seq<Allocation>) -> Seq<u64> {
    a.map_values(|x: Allocation| x.commitment)
}

/// The application side of the consensus engine: it owns the live note-commitment tree
/// and the block being built.
pub struct Worker {
    pub pending_block: Option<PendingBlock>,
    pub note_commitment_tree: NoteCommitmentTree,
}

impl Worker {
    /// The pending block, when there is one, keeps its invariant.
    pub open spec fn inv(&self) -> bool {
        self.pending_block matches Some(b) ==> b.wf()
    }

    /// A worker over the committed tree, with no block pending.
    pub fn new(note_commitment_tree: NoteCommitmentTree) -> (r: Worker)
        ensures
            r.inv(),
            r.pending_block is None,
            r.note_commitment_tree == note_commitment_tree,
    {
        Worker { pending_block: None, note_commitment_tree }
    }

    /// Starts a block over a copy of the live tree and the known `validators`, then slashes
    /// by `slashing_penalty` basis points each validator whose ed25519 consensus key the
    /// engine reports as byzantine in `evidence`.
    pub fn begin_block(&mut self, validators: Vec<Validator>, slashing_penalty: u64, evidence: &Vec<Vec<u8>>) -> (r: Result<(), WorkerError>)
        requires
            old(self).inv(),
            old(self).pending_block is None,
            validators_keyed(validators@),
        ensures
            final(self).inv(),
            final(self).note_commitment_tree == old(self).note_commitment_tree,
            r is Err ==> final(self).pending_block is None,
            slashing_penalty > BPS_SCALE && evidence@.len() > 0 ==> r == Err::<(), WorkerError>(WorkerError::InvalidPenalty),
            (exists|k: int| 0 <= k < evidence@.len() && #[trigger] evidence@[k]@.len() != 32) ==> r is Err,
            !evidence_known(evidence@, validators@) ==> r is Err,
            (evidence@.len() == 0 || slashing_penalty <= BPS_SCALE) && evidence_known(evidence@, validators@) ==> r is Ok,
            r is Ok ==> (final(self).pending_block matches Some(b) && begun(
                b,
                old(self).note_commitment_tree.commitments@,
                validators@,
                evidence@,
                evidence@.len() as int,
                slashing_penalty,
            )),
    {
        let ghost vals0 = validators@;
        let ghost n0 = validators@.len();
        let mut block = PendingBlock::new(self.note_commitment_tree.copy(), validators);
        let ghost b0 = block;
        proof {
            assert(block.slashed_validators@.to_set() =~= slashed_keys(vals0, evidence@, 0, slashing_penalty));
            assert forall|i: int| 0 <= i < n0 implies block.validators@[i] == slashed_entry(
                vals0[i],
                named(evidence@, 0, vals0[i].consensus_key@),
                slashing_penalty,
            ) by {}
        }
        let mut k: usize = 0;
        while k < evidence.len()
            invariant
                block.wf(),
                *self == *old(self),
                self.pending_block is None,
                self.inv(),
                k <= evidence.len(),
                vals0 == validators@,
                n0 == vals0.len(),
                validators_keyed(vals0),
                b0.slashed_validators@.len() == 0,
                block == (PendingBlock { validators: block.validators, slashed_validators: block.slashed_validators, ..b0 }),
                begun(b0, self.note_commitment_tree.commitments@, vals0, evidence@, 0, slashing_penalty),
                block.validators@.len() == n0,
                forall|i: int| 0 <= i < n0 ==> block.validators@[i] == slashed_entry(
                    vals0[i],
                    named(evidence@, k as int, vals0[i].consensus_key@),
                    slashing_penalty,
                ),
                block.slashed_validators@.to_set() == slashed_keys(vals0, evidence@, k as int, slashing_penalty),
                k > 0 ==> slashing_penalty <= BPS_SCALE,
                forall|j: int| 0 <= j < k ==> (#[trigger] evidence@[j])@.len() == 32 && exists|i: int| holds_key(vals0, i, evidence@[j]@),
            decreases evidence.len() - k,
        {
            let key = match ed25519_key_from_raw(evidence[k].as_slice()) {
                Some(key) => key,
                None => {
                    if slashing_penalty > BPS_SCALE {
                        return Err(WorkerError::InvalidPenalty);
                    }
                    return Err(WorkerError::InvalidConsensusKey);
                },
            };
            let ghost before = block;
            proof {
                assert forall|i: int| 0 <= i < n0 implies (holds_key(before.validators@, i, key@) <==> holds_key(vals0, i, key@)) by {}
            }
            match block.slash_validator(&key, slashing_penalty) {
                Ok(()) => {},
                Err(e) => {
                    proof {
                        if (evidence@.len() == 0 || slashing_penalty <= BPS_SCALE) && evidence_known(evidence@, vals0) {
                            assert(evidence@[k as int]@.len() == 32);
                            let i = choose|i: int| holds_key(vals0, i, evidence@[k as int]@);
                            assert(holds_key(before.validators@, i, key@));
                        }
                    }
                    return Err(e);
                },
            }
            proof {
                let i0 = choose|i: int| holds_key(before.validators@, i, key@) && forall|kk: int| 0 <= kk < i ==> !holds_key(before.validators@, kk, key@);
                assert(holds_key(vals0, i0, key@));
                assert forall|i: int| 0 <= i < n0 && i != i0 implies vals0[i].consensus_key@ != key@ by {}
                assert forall|i: int| 0 <= i < n0 implies (named(evidence@, k + 1, vals0[i].consensus_key@) <==> (named(
                    evidence@,
                    k as int,
                    vals0[i].consensus_key@,
                ) || i == i0)) by {
                    if named(evidence@, k + 1, vals0[i].consensus_key@) && !named(evidence@, k as int, vals0[i].consensus_key@) {
                        let j = choose|j: int| 0 <= j < k + 1 && (#[trigger] evidence@[j])@ == vals0[i].consensus_key@;
                        assert(j == k);
                    }
                    if i == i0 {
                        assert(evidence@[k as int]@ == vals0[i].consensus_key@);
                    }
                }
                assert forall|i: int| 0 <= i < n0 implies block.validators@[i] == slashed_entry(
                    vals0[i],
                    named(evidence@, k + 1, vals0[i].consensus_key@),
                    slashing_penalty,
                ) by {}
                assert(block.slashed_validators@.to_set() =~= slashed_keys(vals0, evidence@, k + 1, slashing_penalty)) by {
                    assert forall|x: u64| block.slashed_validators@.to_set().contains(x) <==> slashed_keys(vals0, evidence@, k + 1, slashing_penalty).contains(x) by {
                        if slashed_keys(vals0, evidence@, k + 1, slashing_penalty).contains(x) {
                            let i = choose|i: int| 0 <= i < vals0.len() && vals0[i].identity_key == x && named(evidence@, k + 1, vals0[i].consensus_key@)
                                && !(vals0[i].status.state is Slashed);
                            if i != i0 {
                                assert(slashed_keys(vals0, evidence@, k as int, slashing_penalty).contains(x));
                            }
                        }
                        if block.slashed_validators@.to_set().contains(x) && x != vals0[i0].identity_key {
                            assert(before.slashed_validators@.to_set().contains(x));
                            let i = choose|i: int| 0 <= i < vals0.len() && vals0[i].identity_key == x && named(evidence@, k as int, vals0[i].consensus_key@)
                                && !(vals0[i].status.state is Slashed);
                        }
                    }
                }
                assert(evidence@[k as int]@.len() == 32);
                assert(holds_key(vals0, i0, evidence@[k as int]@));
                assert forall|j: int| 0 <= j < k + 1 implies (#[trigger] evidence@[j])@.len() == 32 && exists|i: int|
                    holds_key(vals0, i, evidence@[j]@) by {
                    if j == k {
                        assert(holds_key(vals0, i0, evidence@[j]@));
                    }
                }
            }
            k = k + 1;
        }
        self.pending_block = Some(block);
        Ok(())
    }

    /// Stages a verified transaction unless it spends a nullifier that the block has spent
    /// already, in which case the block is left as it is.
    pub fn deliver_tx(&mut self, tx: &VerifiedTransaction) -> (r: Result<(), WorkerError>)
        requires
            old(self).inv(),
            old(self).pending_block is Some,
            old(self).pending_block matches Some(b) ==> conflicts(b.spent_nullifiers@, tx.spent_nullifiers@)
                || supply_added(supply_map(b.supply_updates@), tx.supply_changes@) is Some,
        ensures
            final(self).inv(),
            final(self).note_commitment_tree == old(self).note_commitment_tree,
            old(self).pending_block matches Some(b) && (if conflicts(b.spent_nullifiers@, tx.spent_nullifiers@) {
                    r matches Err(WorkerError::DoubleSpend { nullifier }) && b.spent_nullifiers@.contains(nullifier)
                        && tx.spent_nullifiers@.contains(nullifier) && *final(self) == *old(self)
                } else {
                    r is Ok && (final(self).pending_block matches Some(b2) && {
                        &&& b2.spent_nullifiers@.to_set() == b.spent_nullifiers@.to_set() + tx.spent_nullifiers@.to_set()
                        &&& b2.note_commitment_tree.commitments@ == b.note_commitment_tree.commitments@ + tx.output_commitments@
                        &&& b2.notes@ == b.notes@ + tx.output_commitments@
                        &&& b2.delegation_changes@ == b.delegation_changes@ + tx.delegation_changes@
                        &&& supply_map(b2.supply_updates@) == supply_added(supply_map(b.supply_updates@), tx.supply_changes@)->Some_0
                        &&& b2.validators == b.validators
                    })
                }),
    {
        let mut block = self.pending_block.take().unwrap();
        match first_conflict(&block.spent_nullifiers, &tx.spent_nullifiers) {
            Some(n) => {
                self.pending_block = Some(block);
                Err(WorkerError::DoubleSpend { nullifier: n })
            },
            None => {
                block.add_transaction(tx);
                self.pending_block = Some(block);
                Ok(())
            },
        }
    }

    /// Sets the block's height and epoch and reverts at once every quarantined note and
    /// nullifier of a validator slashed in this block; returns whether `height` ends its
    /// epoch, in which case the epoch is closed next.
    pub fn end_block(&mut self, height: u64, epoch_duration: u64, notes: &Vec<QuarantinedNote>, nullifiers: &Vec<QuarantinedNullifier>) -> (r: Result<bool, WorkerError>)
        requires
            old(self).inv(),
            old(self).pending_block is Some,
            epoch_duration > 0,
        ensures
            final(self).inv(),
            final(self).note_commitment_tree == old(self).note_commitment_tree,
            old(self).pending_block matches Some(b) && (r == Ok::<bool, WorkerError>(is_epoch_end(height as int, epoch_duration as int))
                    && (final(self).pending_block matches Some(b2) && {
                    &&& b2.height == Some(height)
                    &&& (b2.epoch matches Some(e) && e.index == height / epoch_duration && e.duration == epoch_duration)
                    &&& b2.reverting_notes@.to_set() == b.reverting_notes@.to_set()
                        + reverted_notes(notes@, b.slashed_validators@).to_set()
                    &&& b2.reverting_nullifiers@.to_set() == b.reverting_nullifiers@.to_set()
                        + reverted_nullifiers(nullifiers@, b.slashed_validators@).to_set()
                    &&& b2 == (PendingBlock {
                        height: b2.height,
                        epoch: b2.epoch,
                        reverting_notes: b2.reverting_notes,
                        reverting_nullifiers: b2.reverting_nullifiers,
                        ..b
                    })
                })),
    {
        let mut block = self.pending_block.take().unwrap();
        let ghost b0 = block;
        let epoch = block.set_height(height, epoch_duration);
        let mut i: usize = 0;
        while i < notes.len()
            invariant
                block.wf(),
                i <= notes.len(),
                block == (PendingBlock { height: Some(height), epoch: Some(epoch), reverting_notes: block.reverting_notes, ..b0 }),
                block.reverting_notes@.to_set() == b0.reverting_notes@.to_set()
                    + reverted_notes(notes@.take(i as int), b0.slashed_validators@).to_set(),
            decreases notes.len() - i,
        {
            let q = notes[i];
            let ghost prev = reverted_notes(notes@.take(i as int), b0.slashed_validators@);
            assert(notes@.take(i + 1).drop_last() == notes@.take(i as int));
            if contains(&block.slashed_validators, q.validator) {
                insert_unique(&mut block.reverting_notes, q.commitment);
                proof {
                    Seq::lemma_to_set_insert_commutes(prev, q.commitment);
                    assert(prev + seq![q.commitment] == prev.push(q.commitment));
                    assert(block.reverting_notes@.to_set() =~= b0.reverting_notes@.to_set()
                        + reverted_notes(notes@.take(i + 1), b0.slashed_validators@).to_set());
                }
            }
            i = i + 1;
        }
        assert(notes@.take(i as int) == notes@);
        let mut j: usize = 0;
        while j < nullifiers.len()
            invariant
                block.wf(),
                j <= nullifiers.len(),
                block == (PendingBlock {
                    height: Some(height),
                    epoch: Some(epoch),
                    reverting_notes: block.reverting_notes,
                    reverting_nullifiers: block.reverting_nullifiers,
                    ..b0
                }),
                block.reverting_notes@.to_set() == b0.reverting_notes@.to_set()
                    + reverted_notes(notes@, b0.slashed_validators@).to_set(),
                block.reverting_nullifiers@.to_set() == b0.reverting_nullifiers@.to_set()
                    + reverted_nullifiers(nullifiers@.take(j as int), b0.slashed_validators@).to_set(),
            decreases nullifiers.len() - j,
        {
            let q = nullifiers[j];
            let ghost prev = reverted_nullifiers(nullifiers@.take(j as int), b0.slashed_validators@);
            assert(nullifiers@.take(j + 1).drop_last() == nullifiers@.take(j as int));
            if contains(&block.slashed_validators, q.validator) {
                insert_unique(&mut block.reverting_nullifiers, q.nullifier);
                proof {
                    Seq::lemma_to_set_insert_commutes(prev, q.nullifier);
                    assert(prev + seq![q.nullifier] == prev.push(q.nullifier));
                    assert(block.reverting_nullifiers@.to_set() =~= b0.reverting_nullifiers@.to_set()
                        + reverted_nullifiers(nullifiers@.take(j + 1), b0.slashed_validators@).to_set());
                }
            }
            j = j + 1;
        }
        assert(nullifiers@.take(j as int) == nullifiers@);
        let ends = epoch.is_end_height(height);
        self.pending_block = Some(block);
        Ok(ends)
    }

    /// Closes the epoch of the pending block (see `PendingBlock::end_epoch`).
    pub fn end_epoch(&mut self, inputs: &EpochInputs, notes: &Vec<QuarantinedNote>, nullifiers: &Vec<QuarantinedNullifier>) -> (r: Result<(), WorkerError>)
        requires
            old(self).inv(),
            old(self).pending_block is Some,
            old(self).pending_block matches Some(b) ==> inputs.funding_streams@.len() == b.validators@.len()
                && inputs.delegation_supplies@.len() == b.validators@.len() && epoch_inputs_match(b, *inputs),
        ensures
            final(self).inv(),
            final(self).note_commitment_tree == old(self).note_commitment_tree,
            old(self).pending_block matches Some(b) && (match epoch_plan(b, *inputs) {
                    Err(e) => r == Err::<(), WorkerError>(e),
                    Ok(_) => r is Ok && (final(self).pending_block matches Some(b2) && epoch_closed(
                        b,
                        b2,
                        *inputs,
                        notes@,
                        nullifiers@,
                    )),
                }),
    {
        let mut block = self.pending_block.take().unwrap();
        let r = block.end_epoch(inputs, notes, nullifiers);
        self.pending_block = Some(block);
        r
    }

    /// Takes the pending block out for the state writer and adopts its tree as the live one.
    pub fn commit(&mut self) -> (r: PendingBlock)
        requires
            old(self).inv(),
            old(self).pending_block is Some,
        ensures
            final(self).inv(),
            final(self).pending_block is None,
            old(self).pending_block == Some(r),
            final(self).note_commitment_tree.commitments@ == r.note_commitment_tree.commitments@,
    {
        let b = self.pending_block.take().unwrap();
        self.note_commitment_tree = b.note_commitment_tree.copy();
        b
    }

    /// Builds and commits the genesis block: an empty tree, height 0, one output note and
    /// one supply increase per allocation, and a zero supply recorded for each validator's
    /// delegation token that no allocation funds. Returns the block for the state writer.
    pub fn init_chain(&mut self, epoch_duration: u64, allocations: &Vec<Allocation>, validators: Vec<Validator>) -> (r: Result<PendingBlock, WorkerError>)
        requires
            old(self).inv(),
            epoch_duration > 0,
            validators_keyed(validators@),
        ensures
            final(self).inv(),
            match allocation_supplies(allocations@) {
                None => r == Err::<PendingBlock, WorkerError>(WorkerError::Overflow),
                Some(m) => r matches Ok(b) && {
                    &&& final(self).pending_block is None
                    &&& b.height == Some(0u64)
                    &&& (b.epoch matches Some(e) && e.index == 0 && e.duration == epoch_duration)
                    &&& supply_map(b.supply_updates@) == register_delegation_tokens(m, validators@)
                    &&& b.notes@ == allocation_notes(allocations@)
                    &&& b.note_commitment_tree.commitments@ == allocation_notes(allocations@)
                    &&& final(self).note_commitment_tree.commitments@ == allocation_notes(allocations@)
                    &&& b.spent_nullifiers@.len() == 0
                    &&& b.delegation_changes@.len() == 0
                    &&& b.reverting_notes@.len() == 0 && b.reverting_nullifiers@.len() == 0
                    &&& b.unbonding_nullifiers@.len() == 0 && b.slashed_validators@.len() == 0
                    &&& b.reward_notes@.len() == 0
                    &&& b.next_rates is None && b.next_base_rate is None && b.next_validator_statuses is None
                    &&& b.validators == validators
                },
            },
    {
        self.note_commitment_tree = NoteCommitmentTree::new();
        let mut block = PendingBlock::new(self.note_commitment_tree.copy(), validators);
        block.set_height(0, epoch_duration);
        let ghost b0 = block;
        let mut i: usize = 0;
        let mut outputs: Vec<u64> = Vec::new();
        while i < allocations.len()
            invariant
                block.wf(),
                self.inv(),
                i <= allocations.len(),
                block == (PendingBlock { supply_updates: block.supply_updates, ..b0 }),
                allocation_supplies(allocations@.take(i as int)) == Some(supply_map(block.supply_updates@)),
                outputs@ == allocation_notes(allocations@.take(i as int)),
            decreases allocations.len() - i,
        {
            assert(allocations@.take(i + 1).drop_last() == allocations@.take(i as int));
            let a = &allocations[i];
            match block.add_supply(a.asset_id, a.denom.clone(), a.amount) {
                Ok(()) => {},
                Err(e) => {
                    proof { lemma_allocations_overflow_sticks(allocations@, i as int + 1, allocations@.len() as int); }
                    assert(allocations@.take(allocations@.len() as int) == allocations@);
                    return Err(e);
                },
            }
            outputs.push(a.commitment);
            assert(allocation_notes(allocations@.take(i + 1)) =~= allocation_notes(allocations@.take(i as int)).push(a.commitment));
            i = i + 1;
        }
        assert(allocations@.take(i as int) == allocations@);
        let ghost m = supply_map(block.supply_updates@);
        let ghost vals = block.validators@;
        let mut j: usize = 0;
        while j < block.validators.len()
            invariant
                block.wf(),
                j <= vals.len(),
                vals == block.validators@,
                block == (PendingBlock { supply_updates: block.supply_updates, ..b0 }),
                supply_map(block.supply_updates@) == register_delegation_tokens(m, vals.take(j as int)),
            decreases vals.len() - j,
        {
            assert(vals.take(j + 1).drop_last() == vals.take(j as int));
            let aid = block.validators[j].delegation_asset_id;
            let dn = block.validators[j].delegation_denom.clone();
            block.register_supply(aid, dn);
            j = j + 1;
        }
        assert(vals.take(j as int) == vals);
        let genesis_tx = VerifiedTransaction {
            spent_nullifiers: Vec::new(),
            output_commitments: outputs,
            delegation_changes: Vec::new(),
            supply_changes: Vec::new(),
        };
        block.add_transaction(&genesis_tx);
        assert(block.notes@ =~= allocation_notes(allocations@));
        assert(block.note_commitment_tree.commitments@ =~= allocation_notes(allocations@));
        assert(block.spent_nullifiers@.len() == 0) by {
            if block.spent_nullifiers@.len() > 0 {
                assert(block.spent_nullifiers@.to_set().contains(block.spent_nullifiers@[0]));
            }
        }
        self.pending_block = Some(block);
        Ok(self.commit())
    }
}

proof fn lemma_allocations_overflow_sticks(a: Seq<Allocation>, n: int, m: int)
    requires
        0 < n <= m <= a.len(),
        allocation_supplies(a.take(n)) is None,
    ensures
        allocation_supplies(a.take(m)) is None,
    decreases m - n,
{
    if n < m {
        assert(a.take(n + 1).drop_last() == a.take(n));
        lemma_allocations_overflow_sticks(a, n + 1, m);
    }
}

} // verus!
