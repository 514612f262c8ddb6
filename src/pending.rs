use vstd::prelude::*;

use crate::epoch::Epoch;
use crate::rate::{BaseRate, RateData};
use crate::validator::ValidatorStatus;

verus! {

/// Errors of the block-lifecycle handlers.
#[derive(Clone, Copy, Debug, PartialEq, Eq, Structural)]
pub enum WorkerError {
    /// The block's height was not set before the epoch was closed.
    HeightNotSet,
    /// A transaction spends a nullifier already spent in this block.
    DoubleSpend { nullifier: u64 },
    /// Evidence names a consensus key that is not a valid ed25519 key.
    InvalidConsensusKey,
    /// Evidence names a consensus key that no validator has.
    UnknownValidator,
    /// The slashing penalty exceeds 100%.
    InvalidPenalty,
    /// A validator's funding streams take more than 100% commission.
    InvalidCommission,
    /// A consensus value left its integer range.
    Overflow,
}

/// The append-only accumulator of note commitments, as the sequence of its leaves.
#[derive(Clone, Debug)]
pub struct NoteCommitmentTree {
    pub commitments: Vec<u64>,
}

impl NoteCommitmentTree {
    /// An empty tree, at position 0.
    pub fn new() -> (r: NoteCommitmentTree)
        ensures
            r.commitments@ == Seq::<u64>::empty(),
    {
        NoteCommitmentTree { commitments: Vec::new() }
    }

    /// Appends one commitment.
    pub fn append(&mut self, c: u64)
        ensures
            final(self).commitments@ == old(self).commitments@.push(c),
    {
        self.commitments.push(c);
    }

    /// A copy of the tree.
    pub fn copy(&self) -> (r: NoteCommitmentTree)
        ensures
            r.commitments@ == self.commitments@,
    {
        NoteCommitmentTree { commitments: self.commitments.clone() }
    }
}

/// An entry of the validator state machine.
#[derive(Clone, Debug)]
pub struct Validator {
    pub identity_key: u64,
    pub consensus_key: Vec<u8>,
    pub delegation_asset_id: u64,
    pub delegation_denom: String,
    pub rate_data: RateData,
    pub status: ValidatorStatus,
}

/// The total supply of one asset as staged in a block.
#[derive(Clone, Debug)]
pub struct SupplyUpdate {
    pub asset_id: u64,
    pub denom: String,
    pub total_supply: u64,
}

/// A commission payout to emit as a note.
#[derive(Clone, Debug)]
pub struct RewardNote {
    pub amount: u64,
    pub address: String,
}

/// A transaction that passed stateless and stateful verification.
#[derive(Clone, Debug)]
pub struct VerifiedTransaction {
    pub spent_nullifiers: Vec<u64>,
    pub output_commitments: Vec<u64>,
    /// Signed changes of delegated stake, keyed by validator identity key.
    pub delegation_changes: Vec<(u64, i64)>,
    /// Increases of asset supplies that the transaction makes.
    pub supply_changes: Vec<SupplyChange>,
}

/// An increase of `amount` in the supply of asset `asset_id`, named `denom`.
#[derive(Clone, Debug)]
pub struct SupplyChange {
    pub asset_id: u64,
    pub denom: String,
    pub amount: u64,
}

/// The supply table `m` after the increases `c`, in order, an asset without an entry
/// starting at 0 under the change's denomination; `None` when a total overflows.
pub open spec fn supply_added(m: Map<u64, (Seq<char>, u64)>, c: Seq<SupplyChange>) -> Option<Map<u64, (Seq<char>, u64)>>
    decreases c.len(),
{
    if c.len() == 0 {
        Some(m)
    } else {
        match supply_added(m, c.drop_last()) {
            None => None,
            Some(m2) => {
                let x = c.last();
                if !m2.contains_key(x.asset_id) {
                    Some(m2.insert(x.asset_id, (x.denom@, x.amount)))
                } else if m2[x.asset_id].1 + x.amount <= u64::MAX {
                    Some(m2.insert(x.asset_id, (m2[x.asset_id].0, (m2[x.asset_id].1 + x.amount) as u64)))
                } else {
                    None
                }
            },
        }
    }
}

proof fn lemma_supply_added_prefix(m: Map<u64, (Seq<char>, u64)>, c: Seq<SupplyChange>, n: int)
    requires
        0 <= n <= c.len(),
        supply_added(m, c) is Some,
    ensures
        supply_added(m, c.take(n)) is Some,
    decreases c.len() - n,
{
    if n < c.len() {
        lemma_supply_added_prefix(m, c, n + 1);
        assert(c.take(n + 1).drop_last() == c.take(n));
    } else {
        assert(c.take(n) == c);
    }
}

/// The supply table that `s` stages: later entries override earlier ones.
pub open spec fn supply_map(s: Seq<SupplyUpdate>) -> Map<u64, (Seq<char>, u64)>
    decreases s.len(),
{
    if s.len() == 0 {
        Map::empty()
    } else {
        supply_map(s.drop_last()).insert(s.last().asset_id, (s.last().denom@, s.last().total_supply))
    }
}

/// Asset ids of `s` are pairwise distinct.
pub open spec fn unique_assets(s: Seq<SupplyUpdate>) -> bool {
    forall|i: int, j: int|
        0 <= i < s.len() && 0 <= j < s.len() && i != j ==> #[trigger] s[i].asset_id
            != #[trigger] s[j].asset_id
}

/// Sum of the changes of `s` that concern `key`.
pub open spec fn delta_sum(s: Seq<(u64, i64)>, key: u64) -> int
    decreases s.len(),
{
    if s.len() == 0 {
        0
    } else {
        delta_sum(s.drop_last(), key) + if s.last().0 == key {
            s.last().1 as int
        } else {
            0int
        }
    }
}

/// Validator records with pairwise distinct identity keys, consensus keys and delegation
/// tokens, each status carrying its validator's own key.
pub open spec fn validators_keyed(vals: Seq<Validator>) -> bool {
    &&& forall|i: int| 0 <= i < vals.len() ==> (#[trigger] vals[i]).status.identity_key == vals[i].identity_key
    &&& forall|i: int, j: int|
        0 <= i < vals.len() && 0 <= j < vals.len() && i != j ==> #[trigger] vals[i].identity_key
            != #[trigger] vals[j].identity_key && vals[i].consensus_key@ != vals[j].consensus_key@
            && vals[i].delegation_asset_id != vals[j].delegation_asset_id
}

/// All the mutations staged while one height is processed.
#[derive(Clone, Debug)]
pub struct PendingBlock {
    pub height: Option<u64>,
    pub epoch: Option<Epoch>,
    pub note_commitment_tree: NoteCommitmentTree,
    /// Commitments of the notes this block outputs.
    pub notes: Vec<u64>,
    pub spent_nullifiers: Vec<u64>,
    pub reverting_notes: Vec<u64>,
    pub reverting_nullifiers: Vec<u64>,
    pub unbonding_nullifiers: Vec<u64>,
    pub supply_updates: Vec<SupplyUpdate>,
    pub slashed_validators: Vec<u64>,
    pub delegation_changes: Vec<(u64, i64)>,
    pub reward_notes: Vec<RewardNote>,
    pub validators: Vec<Validator>,
    pub next_rates: Option<Vec<RateData>>,
    pub next_base_rate: Option<BaseRate>,
    pub next_validator_statuses: Option<Vec<ValidatorStatus>>,
}

impl PendingBlock {
    /// The block's invariant: nullifiers spent once, one supply entry per asset, each
    /// validator's status keyed by its own identity key.
    pub open spec fn wf(&self) -> bool {
        &&& self.spent_nullifiers@.no_duplicates()
        &&& self.unbonding_nullifiers@.no_duplicates()
        &&& self.reverting_notes@.no_duplicates()
        &&& self.reverting_nullifiers@.no_duplicates()
        &&& self.slashed_validators@.no_duplicates()
        &&& unique_assets(self.supply_updates@)
        &&& validators_keyed(self.validators@)
        &&& forall|k: u64|
            #[trigger] self.slashed_validators@.contains(k) ==> exists|i: int|
                0 <= i < self.validators@.len() && self.validators@[i].identity_key == k
                    && (#[trigger] self.validators@[i]).status.state is Slashed
    }

    /// A fresh block over a copy of the live tree and the known validators.
    pub fn new(tree: NoteCommitmentTree, validators: Vec<Validator>) -> (r: PendingBlock)
        requires
            validators_keyed(validators@),
        ensures
            r.wf(),
            r.height.is_none(),
            r.epoch.is_none(),
            r.note_commitment_tree == tree,
            r.validators == validators,
            r.notes@.len() == 0,
            r.spent_nullifiers@.len() == 0,
            r.reverting_notes@.len() == 0,
            r.reverting_nullifiers@.len() == 0,
            r.unbonding_nullifiers@.len() == 0,
            r.supply_updates@.len() == 0,
            r.slashed_validators@.len() == 0,
            r.delegation_changes@.len() == 0,
            r.reward_notes@.len() == 0,
            r.next_rates.is_none(),
            r.next_base_rate.is_none(),
            r.next_validator_statuses.is_none(),
    {
        PendingBlock {
            height: None,
            epoch: None,
            note_commitment_tree: tree,
            notes: Vec::new(),
            spent_nullifiers: Vec::new(),
            reverting_notes: Vec::new(),
            reverting_nullifiers: Vec::new(),
            unbonding_nullifiers: Vec::new(),
            supply_updates: Vec::new(),
            slashed_validators: Vec::new(),
            delegation_changes: Vec::new(),
            reward_notes: Vec::new(),
            validators,
            next_rates: None,
            next_base_rate: None,
            next_validator_statuses: None,
        }
    }

    /// Sets the block's height and the epoch that holds it.
    pub fn set_height(&mut self, height: u64, epoch_duration: u64) -> (r: Epoch)
        requires
            epoch_duration > 0,
        ensures
            r.index == height / epoch_duration,
            r.duration == epoch_duration,
            *final(self) == (PendingBlock { height: Some(height), epoch: Some(r), ..*old(self) }),
            old(self).wf() ==> final(self).wf(),
    {
        let e = Epoch::from_height(height, epoch_duration);
        self.height = Some(height);
        self.epoch = Some(e);
        e
    }

    /// Adds an output note: its commitment joins the tree and the block's notes.
    pub fn add_note(&mut self, commitment: u64)
        ensures
            *final(self) == (PendingBlock {
                note_commitment_tree: NoteCommitmentTree { commitments: final(self).note_commitment_tree.commitments },
                notes: final(self).notes,
                ..*old(self)
            }),
            final(self).note_commitment_tree.commitments@ == old(self).note_commitment_tree.commitments@.push(commitment),
            final(self).notes@ == old(self).notes@.push(commitment),
    {
        self.note_commitment_tree.append(commitment);
        self.notes.push(commitment);
    }

    /// Stages a verified transaction: its nullifiers join the spent set, its outputs the
    /// tree and the block's notes, its delegation changes the block's changes.
    pub fn add_transaction(&mut self, tx: &VerifiedTransaction)
        requires
            old(self).wf(),
            supply_added(supply_map(old(self).supply_updates@), tx.supply_changes@) is Some,
        ensures
            supply_map(final(self).supply_updates@) == supply_added(supply_map(old(self).supply_updates@), tx.supply_changes@)->Some_0,
            final(self).wf(),
            final(self).spent_nullifiers@.to_set() == old(self).spent_nullifiers@.to_set()
                + tx.spent_nullifiers@.to_set(),
            final(self).note_commitment_tree.commitments@ == old(self).note_commitment_tree.commitments@
                + tx.output_commitments@,
            final(self).notes@ == old(self).notes@ + tx.output_commitments@,
            final(self).delegation_changes@ == old(self).delegation_changes@ + tx.delegation_changes@,
            *final(self) == (PendingBlock {
                spent_nullifiers: final(self).spent_nullifiers,
                note_commitment_tree: final(self).note_commitment_tree,
                notes: final(self).notes,
                delegation_changes: final(self).delegation_changes,
                supply_updates: final(self).supply_updates,
                ..*old(self)
            }),
    {
        let ghost m0 = supply_map(self.supply_updates@);
        let mut s: usize = 0;
        while s < tx.supply_changes.len()
            invariant
                self.wf(),
                s <= tx.supply_changes.len(),
                supply_added(m0, tx.supply_changes@) is Some,
                supply_added(m0, tx.supply_changes@.take(s as int)) == Some(supply_map(self.supply_updates@)),
                *self == (PendingBlock { supply_updates: self.supply_updates, ..*old(self) }),
                m0 == supply_map(old(self).supply_updates@),
            decreases tx.supply_changes.len() - s,
        {
            proof {
                lemma_supply_added_prefix(m0, tx.supply_changes@, s + 1);
                assert(tx.supply_changes@.take(s + 1).drop_last() == tx.supply_changes@.take(s as int));
            }
            let c = &tx.supply_changes[s];
            let _added = self.add_supply(c.asset_id, c.denom.clone(), c.amount);
            s = s + 1;
        }
        assert(tx.supply_changes@.take(s as int) == tx.supply_changes@);
        let ghost with_supply = *self;
        let mut i: usize = 0;
        while i < tx.spent_nullifiers.len()
            invariant
                supply_map(with_supply.supply_updates@) == supply_added(m0, tx.supply_changes@)->Some_0,
                m0 == supply_map(old(self).supply_updates@),
                self.wf(),
                i <= tx.spent_nullifiers.len(),
                self.spent_nullifiers@.to_set() == old(self).spent_nullifiers@.to_set()
                    + tx.spent_nullifiers@.take(i as int).to_set(),
                self.note_commitment_tree == old(self).note_commitment_tree,
                self.notes == old(self).notes,
                self.delegation_changes == old(self).delegation_changes,
                *self == (PendingBlock {
                    spent_nullifiers: self.spent_nullifiers,
                    note_commitment_tree: self.note_commitment_tree,
                    notes: self.notes,
                    delegation_changes: self.delegation_changes,
                    ..with_supply
                }),
            decreases tx.spent_nullifiers.len() - i,
        {
            let n = tx.spent_nullifiers[i];
            insert_unique(&mut self.spent_nullifiers, n);
            assert(tx.spent_nullifiers@.take(i + 1) == tx.spent_nullifiers@.take(i as int).push(n));
            proof { lemma_push_to_set(tx.spent_nullifiers@.take(i as int), n); }
            i = i + 1;
        }
        assert(tx.spent_nullifiers@.take(i as int) == tx.spent_nullifiers@);
        let mut j: usize = 0;
        while j < tx.output_commitments.len()
            invariant
                supply_map(with_supply.supply_updates@) == supply_added(m0, tx.supply_changes@)->Some_0,
                m0 == supply_map(old(self).supply_updates@),
                j <= tx.output_commitments.len(),
                self.note_commitment_tree.commitments@ == old(self).note_commitment_tree.commitments@
                    + tx.output_commitments@.take(j as int),
                self.notes@ == old(self).notes@ + tx.output_commitments@.take(j as int),
                self.wf(),
                self.spent_nullifiers@.to_set() == old(self).spent_nullifiers@.to_set()
                    + tx.spent_nullifiers@.to_set(),
                self.delegation_changes == old(self).delegation_changes,
                *self == (PendingBlock {
                    spent_nullifiers: self.spent_nullifiers,
                    note_commitment_tree: self.note_commitment_tree,
                    notes: self.notes,
                    delegation_changes: self.delegation_changes,
                    ..with_supply
                }),
            decreases tx.output_commitments.len() - j,
        {
            let c = tx.output_commitments[j];
            self.add_note(c);
            assert(tx.output_commitments@.take(j + 1) == tx.output_commitments@.take(j as int).push(c));
            j = j + 1;
        }
        assert(tx.output_commitments@.take(j as int) == tx.output_commitments@);
        let mut k: usize = 0;
        while k < tx.delegation_changes.len()
            invariant
                supply_map(with_supply.supply_updates@) == supply_added(m0, tx.supply_changes@)->Some_0,
                m0 == supply_map(old(self).supply_updates@),
                k <= tx.delegation_changes.len(),
                self.delegation_changes@ == old(self).delegation_changes@ + tx.delegation_changes@.take(k as int),
                self.note_commitment_tree.commitments@ == old(self).note_commitment_tree.commitments@
                    + tx.output_commitments@,
                self.notes@ == old(self).notes@ + tx.output_commitments@,
                self.wf(),
                self.spent_nullifiers@.to_set() == old(self).spent_nullifiers@.to_set()
                    + tx.spent_nullifiers@.to_set(),
                *self == (PendingBlock {
                    spent_nullifiers: self.spent_nullifiers,
                    note_commitment_tree: self.note_commitment_tree,
                    notes: self.notes,
                    delegation_changes: self.delegation_changes,
                    ..with_supply
                }),
            decreases tx.delegation_changes.len() - k,
        {
            let d = tx.delegation_changes[k];
            self.delegation_changes.push(d);
            assert(tx.delegation_changes@.take(k + 1) == tx.delegation_changes@.take(k as int).push(d));
            k = k + 1;
        }
        assert(tx.delegation_changes@.take(k as int) == tx.delegation_changes@);
    }

    /// Stages `amount` as the total supply of asset `asset_id`.
    pub fn set_supply(&mut self, asset_id: u64, denom: String, amount: u64)
        requires
            old(self).wf(),
        ensures
            final(self).wf(),
            supply_map(final(self).supply_updates@) == supply_map(old(self).supply_updates@).insert(asset_id, (denom@, amount)),
            *final(self) == (PendingBlock { supply_updates: final(self).supply_updates, ..*old(self) }),
    {
        let e = SupplyUpdate { asset_id, denom, total_supply: amount };
        match find_asset(&self.supply_updates, asset_id) {
            Some(i) => {
                proof { lemma_supply_map_update(self.supply_updates@, i as int, e); }
                self.supply_updates.set(i, e);
            },
            None => {
                self.supply_updates.push(e);
                assert(self.supply_updates@.drop_last() == old(self).supply_updates@);
            },
        }
    }

    /// Adds `amount` to the staged supply of asset `asset_id`, recording it with `denom`
    /// and supply 0 first when the block stages none; `Overflow`, and nothing staged,
    /// when the sum does not fit.
    pub fn add_supply(&mut self, asset_id: u64, denom: String, amount: u64) -> (r: Result<(), WorkerError>)
        requires
            old(self).wf(),
        ensures
            final(self).wf(),
            *final(self) == (PendingBlock { supply_updates: final(self).supply_updates, ..*old(self) }),
            ({
                let m = supply_map(old(self).supply_updates@);
                if !m.contains_key(asset_id) {
                    r is Ok && supply_map(final(self).supply_updates@) == m.insert(asset_id, (denom@, amount))
                } else if m[asset_id].1 + amount <= u64::MAX {
                    r is Ok && supply_map(final(self).supply_updates@) == m.insert(
                        asset_id,
                        (m[asset_id].0, (m[asset_id].1 + amount) as u64),
                    )
                } else {
                    r == Err::<(), WorkerError>(WorkerError::Overflow) && final(self).supply_updates
                        == old(self).supply_updates
                }
            }),
    {
        match find_asset(&self.supply_updates, asset_id) {
            Some(i) => {
                proof { lemma_supply_map_lookup(self.supply_updates@, i as int); }
                let cur = self.supply_updates[i].total_supply;
                if cur > u64::MAX - amount {
                    return Err(WorkerError::Overflow);
                }
                let d = self.supply_updates[i].denom.clone();
                let e = SupplyUpdate { asset_id, denom: d, total_supply: cur + amount };
                proof { lemma_supply_map_update(self.supply_updates@, i as int, e); }
                self.supply_updates.set(i, e);
                Ok(())
            },
            None => {
                proof { lemma_supply_map_absent(self.supply_updates@, asset_id); }
                self.supply_updates.push(SupplyUpdate { asset_id, denom, total_supply: amount });
                assert(self.supply_updates@.drop_last() == old(self).supply_updates@);
                Ok(())
            },
        }
    }

    /// Records asset `asset_id` with `denom` and supply 0 unless the block stages it already.
    pub fn register_supply(&mut self, asset_id: u64, denom: String)
        requires
            old(self).wf(),
        ensures
            final(self).wf(),
            *final(self) == (PendingBlock { supply_updates: final(self).supply_updates, ..*old(self) }),
            ({
                let m = supply_map(old(self).supply_updates@);
                supply_map(final(self).supply_updates@) == if m.contains_key(asset_id) {
                    m
                } else {
                    m.insert(asset_id, (denom@, 0u64))
                }
            }),
    {
        match find_asset(&self.supply_updates, asset_id) {
            Some(i) => {
                proof { lemma_supply_map_lookup(self.supply_updates@, i as int); }
            },
            None => {
                proof { lemma_supply_map_absent(self.supply_updates@, asset_id); }
                self.supply_updates.push(SupplyUpdate { asset_id, denom, total_supply: 0 });
                assert(self.supply_updates@.drop_last() == old(self).supply_updates@);
            },
        }
    }
}

/// Whether `v` holds `x`.
pub fn contains(v: &Vec<u64>, x: u64) -> (r: bool)
    ensures
        r == v@.contains(x),
{
    let mut i: usize = 0;
    while i < v.len()
        invariant
            i <= v.len(),
            forall|k: int| 0 <= k < i ==> v@[k] != x,
        decreases v.len() - i,
    {
        if v[i] == x {
            return true;
        }
        i = i + 1;
    }
    false
}

/// Adds `x` to the set that `v` holds.
pub fn insert_unique(v: &mut Vec<u64>, x: u64)
    requires
        old(v)@.no_duplicates(),
    ensures
        final(v)@.no_duplicates(),
        final(v)@.to_set() == old(v)@.to_set().insert(x),
        old(v)@.contains(x) ==> final(v)@ == old(v)@,
        !old(v)@.contains(x) ==> final(v)@ == old(v)@.push(x),
{
    if !contains(v, x) {
        v.push(x);
        proof { lemma_push_to_set(old(v)@, x); }
    } else {
        assert(old(v)@.to_set().insert(x) =~= old(v)@.to_set());
    }
}

proof fn lemma_push_to_set(s: Seq<u64>, x: u64)
    ensures
        s.push(x).to_set() == s.to_set().insert(x),
{
    Seq::lemma_to_set_insert_commutes(s, x);
    assert(s + seq![x] == s.push(x));
}

/// Position of asset `id` in `s`.
fn find_asset(s: &Vec<SupplyUpdate>, id: u64) -> (r: Option<usize>)
    ensures
        r matches Some(i) ==> i < s@.len() && s@[i as int].asset_id == id,
        r is None ==> forall|k: int| 0 <= k < s@.len() ==> s@[k].asset_id != id,
{
    let mut i: usize = 0;
    while i < s.len()
        invariant
            i <= s.len(),
            forall|k: int| 0 <= k < i ==> s@[k].asset_id != id,
        decreases s.len() - i,
    {
        if s[i].asset_id == id {
            return Some(i);
        }
        i = i + 1;
    }
    None
}

proof fn lemma_supply_map_absent(s: Seq<SupplyUpdate>, id: u64)
    requires
        forall|k: int| 0 <= k < s.len() ==> s[k].asset_id != id,
    ensures
        !supply_map(s).contains_key(id),
    decreases s.len(),
{
    if s.len() > 0 {
        lemma_supply_map_absent(s.drop_last(), id);
    }
}

proof fn lemma_supply_map_lookup(s: Seq<SupplyUpdate>, i: int)
    requires
        unique_assets(s),
        0 <= i < s.len(),
    ensures
        supply_map(s).contains_key(s[i].asset_id),
        supply_map(s)[s[i].asset_id] == (s[i].denom@, s[i].total_supply),
    decreases s.len(),
{
    if i < s.len() - 1 {
        lemma_supply_map_lookup(s.drop_last(), i);
        assert(s.last().asset_id != s[i].asset_id);
    }
}

proof fn lemma_supply_map_update(s: Seq<SupplyUpdate>, i: int, e: SupplyUpdate)
    requires
        unique_assets(s),
        0 <= i < s.len(),
        s[i].asset_id == e.asset_id,
    ensures
        unique_assets(s.update(i, e)),
        supply_map(s.update(i, e)) == supply_map(s).insert(e.asset_id, (e.denom@, e.total_supply)),
    decreases s.len(),
{
    let t = s.update(i, e);
    assert(unique_assets(t)) by {
        assert forall|a: int, b: int| 0 <= a < t.len() && 0 <= b < t.len() && a != b implies #[trigger] t[a].asset_id
            != #[trigger] t[b].asset_id by {
            assert(s[a].asset_id != s[b].asset_id);
        }
    }
    if i == s.len() - 1 {
        assert(t.drop_last() == s.drop_last());
        assert(supply_map(t) =~= supply_map(s).insert(e.asset_id, (e.denom@, e.total_supply)));
    } else {
        lemma_supply_map_update(s.drop_last(), i, e);
        assert(t.drop_last() == s.drop_last().update(i, e));
        assert(s.last().asset_id != e.asset_id);
        assert(supply_map(t) =~= supply_map(s).insert(e.asset_id, (e.denom@, e.total_supply)));
    }
}

} // verus!
