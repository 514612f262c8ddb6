use pd_consensus::rate::{mul_div, BaseRate, FundingStream, RateData, RATE_SCALE};
use pd_consensus::sync::{block_scanned, start_height};
use pd_consensus::validator::{next_state, rotate, ValidatorState, ValidatorStatus};

fn status(id: u64, power: u64, state: ValidatorState) -> ValidatorStatus {
    ValidatorStatus { identity_key: id, voting_power: power, state }
}

#[test]
fn validator_rotation() {
    let s = vec![
        status(1, 100, ValidatorState::Inactive),
        status(2, 50, ValidatorState::Inactive),
        status(3, 10, ValidatorState::Inactive),
    ];
    let r = rotate(&s, 2, 5, 7);
    assert_eq!(r[0].state, ValidatorState::Active);
    assert_eq!(r[1].state, ValidatorState::Active);
    assert_eq!(r[2].state, ValidatorState::Inactive);
}

#[test]
fn displaced_active_starts_unbonding() {
    let s = vec![
        status(1, 10, ValidatorState::Active),
        status(2, 50, ValidatorState::Inactive),
        status(3, 50, ValidatorState::Unbonding { unbonding_epoch: 9 }),
        status(4, 90, ValidatorState::Slashed),
    ];
    let r = rotate(&s, 2, 5, 7);
    assert_eq!(r[0].state, ValidatorState::Unbonding { unbonding_epoch: 7 });
    // equal power: the smaller identity key ranks first, so 2 is in the top two and 3 is not
    assert_eq!(r[1].state, ValidatorState::Active);
    assert_eq!(r[2].state, ValidatorState::Unbonding { unbonding_epoch: 9 });
    assert_eq!(r[3].state, ValidatorState::Slashed);
    assert!(r.iter().filter(|v| v.state == ValidatorState::Active).count() <= 2);
}

#[test]
fn unbonding_expiry() {
    let e = 6;
    assert_eq!(next_state(ValidatorState::Unbonding { unbonding_epoch: e }, false, e - 1, 99), ValidatorState::Unbonding { unbonding_epoch: e });
    assert_eq!(next_state(ValidatorState::Unbonding { unbonding_epoch: e }, false, e, 99), ValidatorState::Inactive);
    let r = rotate(&vec![status(1, 0, ValidatorState::Unbonding { unbonding_epoch: e })], 0, e, 99);
    assert_eq!(r[0].state, ValidatorState::Inactive);
}

#[test]
fn zero_unbonding_epochs_go_straight_to_inactive() {
    assert_eq!(next_state(ValidatorState::Active, false, 4, 4), ValidatorState::Inactive);
}

#[test]
fn validator_limit_zero_leaves_none_active() {
    let s = vec![status(1, 5, ValidatorState::Active), status(2, 6, ValidatorState::Inactive)];
    let r = rotate(&s, 0, 1, 3);
    assert!(r.iter().all(|v| v.state != ValidatorState::Active));
}

#[test]
fn mul_div_values() {
    assert_eq!(mul_div(7, 9, 2), Some(31));
    assert_eq!(mul_div(u64::MAX, u64::MAX, u64::MAX), Some(u64::MAX));
    assert_eq!(mul_div(u64::MAX, 2, 1), None);
    assert_eq!(mul_div(1, 1, 0), None);
}

#[test]
fn base_rate_next() {
    let b = BaseRate { epoch_index: 3, base_reward_rate: 0, base_exchange_rate: RATE_SCALE };
    assert_eq!(
        b.next(3_0000),
        Some(BaseRate { epoch_index: 4, base_reward_rate: 3_0000, base_exchange_rate: 100_030_000 })
    );
    let top = BaseRate { epoch_index: u64::MAX, base_reward_rate: 0, base_exchange_rate: RATE_SCALE };
    assert_eq!(top.next(1), None);
}

#[test]
fn rate_next_with_commission() {
    let r = RateData { identity_key: 1, epoch_index: 3, validator_reward_rate: 0, validator_exchange_rate: 200_000_000 };
    let b = BaseRate { epoch_index: 4, base_reward_rate: 1_000_000, base_exchange_rate: 101_000_000 };
    let streams = vec![FundingStream { address: "a".to_string(), rate_bps: 2500 }];
    let n = r.next(&b, &streams).unwrap();
    assert_eq!(n.validator_reward_rate, 750_000);
    assert_eq!(n.validator_exchange_rate, 201_500_000);
    assert_eq!(n.epoch_index, 4);
    assert_eq!(r.unbonded_amount(10), Some(20));
    assert_eq!(r.voting_power(101, &b), Some(200));
    let over = vec![FundingStream { address: "a".to_string(), rate_bps: 10_001 }];
    assert_eq!(r.next(&b, &over), None);
}

#[test]
fn reward_amount_value() {
    let s = FundingStream { address: "a".to_string(), rate_bps: 5000 };
    let cur = BaseRate { epoch_index: 1, base_reward_rate: 0, base_exchange_rate: 100_000_000 };
    let next = BaseRate { epoch_index: 2, base_reward_rate: 0, base_exchange_rate: 102_000_000 };
    assert_eq!(s.reward_amount(1_000, &next, &cur), Some(10));
    assert_eq!(s.reward_amount(1_000, &cur, &next), None);
}

#[test]
fn wallet_sync_checkpoints() {
    assert_eq!(start_height(41), Some(42));
    assert_eq!(start_height(u64::MAX), None);
    assert_eq!(block_scanned(998), (999, false));
    assert_eq!(block_scanned(999), (1000, true));
    assert_eq!(block_scanned(1999), (2000, true));
}
