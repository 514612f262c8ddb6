use pd_consensus::epoch::Epoch;
use pd_consensus::pending::{
    NoteCommitmentTree, PendingBlock, SupplyChange, Validator, VerifiedTransaction, WorkerError,
};
use pd_consensus::rate::{BaseRate, FundingStream, RateData, RATE_SCALE};
use pd_consensus::transition::{EpochInputs, QuarantinedNote, QuarantinedNullifier};
use pd_consensus::validator::{ValidatorState, ValidatorStatus};
use pd_consensus::worker::{first_conflict, Allocation, Worker};

fn validator(id: u64, key_byte: u8, state: ValidatorState) -> Validator {
    Validator {
        identity_key: id,
        consensus_key: vec![key_byte; 32],
        delegation_asset_id: 100 + id,
        delegation_denom: format!("udelegation_{}", id),
        rate_data: RateData {
            identity_key: id,
            epoch_index: 0,
            validator_reward_rate: 0,
            validator_exchange_rate: RATE_SCALE,
        },
        status: ValidatorStatus { identity_key: id, voting_power: 0, state },
    }
}

fn supply(b: &PendingBlock, asset: u64) -> Option<(String, u64)> {
    b.supply_updates
        .iter()
        .find(|s| s.asset_id == asset)
        .map(|s| (s.denom.clone(), s.total_supply))
}

fn inputs(staking_supply: u64, n: usize, delegation_supplies: Vec<u64>) -> EpochInputs {
    EpochInputs {
        current_base_rate: BaseRate { epoch_index: 1, base_reward_rate: 0, base_exchange_rate: RATE_SCALE },
        staking_supply,
        staking_asset_id: 1,
        staking_denom: "upenumbra".to_string(),
        persisted_changes: vec![],
        funding_streams: vec![vec![]; n],
        delegation_supplies,
        unbonding_epochs: 2,
        validator_limit: 2,
    }
}

fn genesis() -> (Worker, PendingBlock) {
    let mut w = Worker::new(NoteCommitmentTree::new());
    let alloc = Allocation {
        amount: 1_000_000,
        asset_id: 1,
        denom: "upenumbra".to_string(),
        address: "A".to_string(),
        commitment: 7,
    };
    let b = w.init_chain(10, &vec![alloc], vec![]).unwrap();
    (w, b)
}

#[test]
fn genesis_with_one_allocation() {
    let (w, b) = genesis();
    assert_eq!(supply(&b, 1), Some(("upenumbra".to_string(), 1_000_000)));
    assert_eq!(b.notes, vec![7]);
    assert_eq!(b.height, Some(0));
    assert!(w.pending_block.is_none());
    assert_eq!(w.note_commitment_tree.commitments, vec![7]);
    let (w2, b2) = genesis();
    assert_eq!(b2.notes, b.notes);
    assert_eq!(w2.note_commitment_tree.commitments, w.note_commitment_tree.commitments);
}

#[test]
fn genesis_registers_delegation_tokens_and_sums_allocations() {
    let mut w = Worker::new(NoteCommitmentTree::new());
    let a = |amount, commitment| Allocation {
        amount,
        asset_id: 1,
        denom: "upenumbra".to_string(),
        address: "A".to_string(),
        commitment,
    };
    let b = w.init_chain(10, &vec![a(5, 1), a(6, 2)], vec![validator(3, 3, ValidatorState::Active)]).unwrap();
    assert_eq!(supply(&b, 1), Some(("upenumbra".to_string(), 11)));
    assert_eq!(supply(&b, 103), Some(("udelegation_3".to_string(), 0)));
    assert_eq!(b.notes, vec![1, 2]);
}

#[test]
fn genesis_supply_overflow() {
    let mut w = Worker::new(NoteCommitmentTree::new());
    let a = |amount| Allocation {
        amount,
        asset_id: 1,
        denom: "upenumbra".to_string(),
        address: "A".to_string(),
        commitment: 1,
    };
    assert_eq!(w.init_chain(10, &vec![a(u64::MAX), a(1)], vec![]).err(), Some(WorkerError::Overflow));
}

#[test]
fn single_transfer() {
    let (mut w, _) = genesis();
    w.begin_block(vec![], 0, &vec![]).unwrap();
    let tx = VerifiedTransaction {
        spent_nullifiers: vec![42],
        output_commitments: vec![8, 9],
        delegation_changes: vec![],
        supply_changes: vec![],
    };
    assert_eq!(w.deliver_tx(&tx), Ok(()));
    assert_eq!(w.pending_block.as_ref().unwrap().spent_nullifiers.len(), 1);
    assert_eq!(w.deliver_tx(&tx), Err(WorkerError::DoubleSpend { nullifier: 42 }));
    let b = w.pending_block.as_ref().unwrap();
    assert_eq!(b.notes, vec![8, 9]);
    assert_eq!(b.note_commitment_tree.commitments, vec![7, 8, 9]);
}

#[test]
fn double_spend_leaves_block_unchanged() {
    let (mut w, _) = genesis();
    w.begin_block(vec![], 0, &vec![]).unwrap();
    let t1 = VerifiedTransaction { spent_nullifiers: vec![1, 2], output_commitments: vec![3], delegation_changes: vec![], supply_changes: vec![] };
    let t2 = VerifiedTransaction { spent_nullifiers: vec![5, 2], output_commitments: vec![4], delegation_changes: vec![(1, 9)], supply_changes: vec![] };
    w.deliver_tx(&t1).unwrap();
    let before = w.pending_block.clone().unwrap();
    assert_eq!(w.deliver_tx(&t2), Err(WorkerError::DoubleSpend { nullifier: 2 }));
    let after = w.pending_block.as_ref().unwrap();
    assert_eq!(after.spent_nullifiers, before.spent_nullifiers);
    assert_eq!(after.notes, before.notes);
    assert!(after.delegation_changes.is_empty());
    assert_eq!(first_conflict(&vec![1, 2], &vec![3, 4]), None);
    assert_eq!(first_conflict(&vec![1, 2], &vec![3, 2]), Some(2));
}

#[test]
fn transaction_supply_changes_accumulate() {
    let (mut w, _) = genesis();
    w.begin_block(vec![], 0, &vec![]).unwrap();
    let change = |asset_id, denom: &str, amount| SupplyChange { asset_id, denom: denom.to_string(), amount };
    let tx = VerifiedTransaction {
        spent_nullifiers: vec![5],
        output_commitments: vec![],
        delegation_changes: vec![],
        supply_changes: vec![change(1, "upenumbra", 10), change(9, "ugm", 4), change(9, "ugm", 6)],
    };
    w.deliver_tx(&tx).unwrap();
    let b = w.pending_block.as_ref().unwrap();
    assert_eq!(supply(b, 1), Some(("upenumbra".to_string(), 10)));
    assert_eq!(supply(b, 9), Some(("ugm".to_string(), 10)));
}

#[test]
fn begin_block_keeps_unnamed_validators() {
    let (mut w, _) = genesis();
    let v1 = validator(1, 1, ValidatorState::Active);
    let v2 = validator(2, 2, ValidatorState::Inactive);
    w.begin_block(vec![v1.clone(), v2.clone()], 500, &vec![vec![1u8; 32], vec![1u8; 32]]).unwrap();
    let b = w.pending_block.as_ref().unwrap();
    assert_eq!(b.validators[0].rate_data.validator_exchange_rate, 95_000_000);
    assert_eq!(b.validators[1].rate_data, v2.rate_data);
    assert_eq!(b.validators[1].status, v2.status);
    assert_eq!(b.slashed_validators, vec![1]);
    assert_eq!(w.note_commitment_tree.commitments, vec![7]);
    assert!(b.next_rates.is_none() && b.delegation_changes.is_empty());
}

#[test]
fn end_epoch_needs_height() {
    let mut b = PendingBlock::new(NoteCommitmentTree::new(), vec![]);
    assert_eq!(b.end_epoch(&inputs(0, 0, vec![]), &vec![], &vec![]), Err(WorkerError::HeightNotSet));
}

#[test]
fn end_block_reports_epoch_end() {
    let (mut w, _) = genesis();
    w.begin_block(vec![], 0, &vec![]).unwrap();
    assert_eq!(w.end_block(8, 10, &vec![], &vec![]), Ok(false));
    assert_eq!(w.end_block(9, 10, &vec![], &vec![]), Ok(true));
    assert_eq!(w.pending_block.as_ref().unwrap().epoch, Some(Epoch { index: 0, duration: 10 }));
    assert_eq!(w.end_block(19, 10, &vec![], &vec![]), Ok(true));
    assert_eq!(w.end_block(20, 10, &vec![], &vec![]), Ok(false));
}

#[test]
fn evidence_must_be_an_ed25519_key() {
    let mut w = Worker::new(NoteCommitmentTree::new());
    let r = w.begin_block(vec![validator(1, 1, ValidatorState::Active)], 1000, &vec![vec![1u8; 31]]);
    assert_eq!(r, Err(WorkerError::InvalidConsensusKey));
}

#[test]
fn evidence_for_unknown_validator() {
    let mut w = Worker::new(NoteCommitmentTree::new());
    let r = w.begin_block(vec![validator(1, 1, ValidatorState::Active)], 1000, &vec![vec![2u8; 32]]);
    assert_eq!(r, Err(WorkerError::UnknownValidator));
}

#[test]
fn slashing_penalty_over_full() {
    let mut w = Worker::new(NoteCommitmentTree::new());
    let r = w.begin_block(vec![validator(1, 1, ValidatorState::Active)], 10_001, &vec![vec![1u8; 32]]);
    assert_eq!(r, Err(WorkerError::InvalidPenalty));
}

#[test]
fn slashing_applies_penalty() {
    let mut w = Worker::new(NoteCommitmentTree::new());
    w.begin_block(vec![validator(1, 1, ValidatorState::Active), validator(2, 2, ValidatorState::Active)], 1000, &vec![vec![2u8; 32]])
        .unwrap();
    let b = w.pending_block.as_ref().unwrap();
    assert_eq!(b.validators[1].status.state, ValidatorState::Slashed);
    assert_eq!(b.validators[1].rate_data.validator_exchange_rate, 90_000_000);
    assert_eq!(b.validators[0].status.state, ValidatorState::Active);
    assert_eq!(b.slashed_validators, vec![2]);
}

fn quarantined(v: u64, height: u64, commitments: &[u64]) -> Vec<QuarantinedNote> {
    commitments.iter().map(|&c| QuarantinedNote { height, validator: v, commitment: c }).collect()
}

#[test]
fn slashing_clears_quarantine() {
    let (mut w, _) = genesis();
    w.begin_block(vec![validator(1, 1, ValidatorState::Active)], 1000, &vec![vec![1u8; 32]]).unwrap();
    let notes = quarantined(1, 5, &[11, 12, 13]);
    let nullifiers = vec![QuarantinedNullifier { height: 5, validator: 1, nullifier: 21 }];
    assert_eq!(w.end_block(9, 10, &notes, &nullifiers), Ok(true));
    {
        let b = w.pending_block.as_ref().unwrap();
        let mut reverting = b.reverting_notes.clone();
        reverting.sort();
        assert_eq!(reverting, vec![11, 12, 13]);
        assert_eq!(b.reverting_nullifiers, vec![21]);
    }
    w.end_epoch(&inputs(1_000, 1, vec![0]), &notes, &nullifiers).unwrap();
    let b = w.pending_block.as_ref().unwrap();
    assert!(b.notes.is_empty());
    assert!(b.unbonding_nullifiers.is_empty());
}

#[test]
fn unbonding_notes_are_released() {
    let mut b = PendingBlock::new(NoteCommitmentTree::new(), vec![validator(1, 1, ValidatorState::Active)]);
    b.set_height(9, 10);
    let mut notes = quarantined(1, 9, &[11]);
    notes.extend(quarantined(1, 10, &[12]));
    notes.extend(quarantined(2, 3, &[13]));
    let nullifiers = vec![
        QuarantinedNullifier { height: 4, validator: 1, nullifier: 31 },
        QuarantinedNullifier { height: 4, validator: 1, nullifier: 31 },
    ];
    b.end_epoch(&inputs(1_000, 1, vec![0]), &notes, &nullifiers).unwrap();
    assert_eq!(b.notes, vec![11]);
    assert_eq!(b.note_commitment_tree.commitments, vec![11]);
    assert_eq!(b.unbonding_nullifiers, vec![31]);
}

fn staking_supply_of(b: &PendingBlock) -> u64 {
    supply(b, 1).unwrap().1
}

#[test]
fn delegation_then_undelegation() {
    let v = validator(1, 1, ValidatorState::Active);
    let mut b0 = PendingBlock::new(NoteCommitmentTree::new(), vec![v.clone()]);
    b0.set_height(9, 10);
    b0.delegation_changes.push((1, 500));
    b0.end_epoch(&inputs(1_000_000, 1, vec![0]), &vec![], &vec![]).unwrap();
    assert_eq!(staking_supply_of(&b0), 999_500);
    assert_eq!(supply(&b0, 101).unwrap().1, 500);
    let next_rate = b0.next_rates.as_ref().unwrap()[0];
    assert_eq!(next_rate.validator_exchange_rate, 100_030_000);

    let mut v1 = v.clone();
    v1.rate_data = next_rate;
    let mut b1 = PendingBlock::new(NoteCommitmentTree::new(), vec![v1]);
    b1.set_height(19, 10);
    b1.delegation_changes.push((1, -500));
    let mut i1 = inputs(999_500, 1, vec![500]);
    i1.current_base_rate = b0.next_base_rate.unwrap();
    b1.end_epoch(&i1, &vec![], &vec![]).unwrap();
    assert_eq!(staking_supply_of(&b1), 1_000_000);
    assert_eq!(supply(&b1, 101).unwrap().1, 0);
}

#[test]
fn supply_conserved_across_validators() {
    let vals = vec![
        validator(1, 1, ValidatorState::Active),
        validator(2, 2, ValidatorState::Active),
        validator(3, 3, ValidatorState::Inactive),
    ];
    let mut b = PendingBlock::new(NoteCommitmentTree::new(), vals);
    b.set_height(9, 10);
    b.delegation_changes.push((1, 300));
    b.delegation_changes.push((2, -100));
    b.delegation_changes.push((3, 50));
    let mut inp = inputs(10_000, 3, vec![0, 400, 0]);
    inp.persisted_changes = vec![(1, 200)];
    b.end_epoch(&inp, &vec![], &vec![]).unwrap();
    // validator 1 takes 500 out, validator 2 puts 100 back, validator 3 is held
    assert_eq!(staking_supply_of(&b), 10_000 - 500 + 100);
    assert_eq!(supply(&b, 101).unwrap().1, 500);
    assert_eq!(supply(&b, 102).unwrap().1, 300);
    assert_eq!(supply(&b, 103), None);
}

#[test]
fn undelegating_more_than_supply_overflows() {
    let mut b = PendingBlock::new(NoteCommitmentTree::new(), vec![validator(1, 1, ValidatorState::Active)]);
    b.set_height(9, 10);
    b.delegation_changes.push((1, -10));
    assert_eq!(b.end_epoch(&inputs(100, 1, vec![5]), &vec![], &vec![]), Err(WorkerError::Overflow));
}

#[test]
fn commission_over_full_is_refused() {
    let mut b = PendingBlock::new(NoteCommitmentTree::new(), vec![validator(1, 1, ValidatorState::Active)]);
    b.set_height(9, 10);
    let mut inp = inputs(100, 1, vec![0]);
    inp.funding_streams = vec![vec![
        FundingStream { address: "x".to_string(), rate_bps: 6000 },
        FundingStream { address: "y".to_string(), rate_bps: 5000 },
    ]];
    assert_eq!(b.end_epoch(&inp, &vec![], &vec![]), Err(WorkerError::InvalidCommission));
}

#[test]
fn commission_rewards_are_paid() {
    let mut b = PendingBlock::new(NoteCommitmentTree::new(), vec![validator(1, 1, ValidatorState::Active)]);
    b.set_height(9, 10);
    let mut inp = inputs(1_000_000, 1, vec![1_000_000]);
    inp.funding_streams = vec![vec![FundingStream { address: "payout".to_string(), rate_bps: 1000 }]];
    b.end_epoch(&inp, &vec![], &vec![]).unwrap();
    // pool 1_000_000, base rate moves by 30_000 / 1e8: 300 tokens, 10% of which is 30
    assert_eq!(b.reward_notes.len(), 1);
    assert_eq!(b.reward_notes[0].amount, 30);
    assert_eq!(b.reward_notes[0].address, "payout");
    assert_eq!(b.next_validator_statuses.as_ref().unwrap()[0].voting_power, 999_970);
}

#[test]
fn slashed_validator_keeps_rate_and_state() {
    let mut v = validator(1, 1, ValidatorState::Slashed);
    v.rate_data.validator_exchange_rate = 90_000_000;
    v.status.voting_power = 77;
    let mut b = PendingBlock::new(NoteCommitmentTree::new(), vec![v]);
    b.set_height(9, 10);
    b.delegation_changes.push((1, 40));
    b.end_epoch(&inputs(1_000, 1, vec![0]), &vec![], &vec![]).unwrap();
    let r = b.next_rates.as_ref().unwrap()[0];
    assert_eq!(r.validator_exchange_rate, 90_000_000);
    assert_eq!(r.epoch_index, 2);
    let s = b.next_validator_statuses.as_ref().unwrap()[0];
    assert_eq!(s.state, ValidatorState::Slashed);
    assert_eq!(s.voting_power, 77);
    assert_eq!(staking_supply_of(&b), 1_000);
}

#[test]
fn epoch_close_is_deterministic() {
    let vals = vec![
        validator(1, 1, ValidatorState::Active),
        validator(2, 2, ValidatorState::Inactive),
        validator(3, 3, ValidatorState::Active),
    ];
    let mut b = PendingBlock::new(NoteCommitmentTree::new(), vals);
    b.set_height(9, 10);
    b.delegation_changes.push((3, 70));
    let mut c = b.clone();
    let inp = inputs(5_000, 3, vec![10, 20, 30]);
    b.end_epoch(&inp, &vec![], &vec![]).unwrap();
    c.end_epoch(&inp, &vec![], &vec![]).unwrap();
    assert_eq!(b.next_rates, c.next_rates);
    assert_eq!(b.next_validator_statuses, c.next_validator_statuses);
    assert_eq!(b.next_base_rate, c.next_base_rate);
}

#[test]
fn commit_moves_block_and_tree() {
    let (mut w, _) = genesis();
    w.begin_block(vec![], 0, &vec![]).unwrap();
    w.deliver_tx(&VerifiedTransaction { spent_nullifiers: vec![1], output_commitments: vec![2], delegation_changes: vec![], supply_changes: vec![] })
        .unwrap();
    let b = w.commit();
    assert_eq!(b.spent_nullifiers, vec![1]);
    assert!(w.pending_block.is_none());
    assert_eq!(w.note_commitment_tree.commitments, vec![7, 2]);
}

#[test]
fn validator_limit_caps_active_set() {
    let vals = vec![
        validator(1, 1, ValidatorState::Active),
        validator(2, 2, ValidatorState::Active),
        validator(3, 3, ValidatorState::Active),
    ];
    let mut b = PendingBlock::new(NoteCommitmentTree::new(), vals);
    b.set_height(9, 10);
    b.end_epoch(&inputs(1_000, 3, vec![300, 100, 200]), &vec![], &vec![]).unwrap();
    let st = b.next_validator_statuses.as_ref().unwrap();
    assert_eq!(st[0].state, ValidatorState::Active);
    assert_eq!(st[1].state, ValidatorState::Unbonding { unbonding_epoch: 3 });
    assert_eq!(st[2].state, ValidatorState::Active);
    assert_eq!(st.iter().filter(|s| s.state == ValidatorState::Active).count(), 2);
}
