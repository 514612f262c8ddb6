use vstd::prelude::*;

verus! {

/// Fixed-point scale of exchange and reward rates: `1_0000_0000` stands for 1.
pub const RATE_SCALE: u64 = 1_0000_0000;

/// Scale of rates given in basis points: `1_0000` stands for 100%.
pub const BPS_SCALE: u64 = 1_0000;

/// `a * b / c`, rounded down, when `c` is nonzero and the quotient fits in a `u64`.
pub open spec fn mul_div_spec(a: int, b: int, c: int) -> Option<u64> {
    if c != 0 && a * b / c <= u64::MAX as int {
        Some((a * b / c) as u64)
    } else {
        None
    }
}

/// Computes `a * b / c` without intermediate overflow; `None` when `c` is zero or the
/// quotient does not fit.
pub fn mul_div(a: u64, b: u64, c: u64) -> (r: Option<u64>)
    ensures
        r == mul_div_spec(a as int, b as int, c as int),
{
    if c == 0 {
        return None;
    }
    proof {
        let (ai, bi) = (a as int, b as int);
        assert(0 <= ai * bi <= (u64::MAX as int) * (u64::MAX as int)) by (nonlinear_arith)
            requires 0 <= ai <= u64::MAX, 0 <= bi <= u64::MAX;
    }
    let p: u128 = (a as u128) * (b as u128);
    let q: u128 = p / (c as u128);
    if q <= u64::MAX as u128 {
        Some(q as u64)
    } else {
        None
    }
}

/// The chain-wide reward rate of one epoch.
#[derive(Clone, Copy, Debug, PartialEq, Eq, Structural)]
pub struct BaseRate {
    pub epoch_index: u64,
    /// Reward per epoch, scaled by `RATE_SCALE`.
    pub base_reward_rate: u64,
    /// Value of one unit staked since genesis, scaled by `RATE_SCALE`.
    pub base_exchange_rate: u64,
}

/// The base rate of the epoch after `b`, earning `reward_rate` over it.
pub open spec fn next_base_rate_spec(b: BaseRate, reward_rate: u64) -> Option<BaseRate> {
    let factor = reward_rate + RATE_SCALE;
    if factor > u64::MAX || b.epoch_index + 1 > u64::MAX {
        None
    } else {
        match mul_div_spec(b.base_exchange_rate as int, factor, RATE_SCALE as int) {
            Some(x) => Some(
                BaseRate {
                    epoch_index: (b.epoch_index + 1) as u64,
                    base_reward_rate: reward_rate,
                    base_exchange_rate: x,
                },
            ),
            None => None,
        }
    }
}

impl BaseRate {
    /// The next epoch's base rate; `None` when a value overflows.
    pub fn next(&self, reward_rate: u64) -> (r: Option<BaseRate>)
        ensures
            r == next_base_rate_spec(*self, reward_rate),
    {
        if reward_rate > u64::MAX - RATE_SCALE || self.epoch_index == u64::MAX {
            return None;
        }
        match mul_div(self.base_exchange_rate, reward_rate + RATE_SCALE, RATE_SCALE) {
            Some(x) => Some(
                BaseRate {
                    epoch_index: self.epoch_index + 1,
                    base_reward_rate: reward_rate,
                    base_exchange_rate: x,
                },
            ),
            None => None,
        }
    }
}

/// A share of a validator's rewards paid out to an address.
#[derive(Clone, Debug)]
pub struct FundingStream {
    pub address: String,
    pub rate_bps: u16,
}

/// Sum of the commission rates of `streams`, in basis points.
pub open spec fn commission_bps(streams: Seq<FundingStream>) -> int
    decreases streams.len(),
{
    if streams.len() == 0 {
        0
    } else {
        commission_bps(streams.drop_last()) + streams.last().rate_bps
    }
}

/// Per-validator exchange rate between its delegation token and the staking token.
#[derive(Clone, Copy, Debug, PartialEq, Eq, Structural)]
pub struct RateData {
    pub identity_key: u64,
    pub epoch_index: u64,
    /// Reward per epoch after commission, scaled by `RATE_SCALE`.
    pub validator_reward_rate: u64,
    /// Staking tokens per delegation token, scaled by `RATE_SCALE`.
    pub validator_exchange_rate: u64,
}

/// The rate that follows `r` under the next base rate `b`, with `streams` taking their
/// commission; `None` when the commissions exceed 100% or a value overflows.
pub open spec fn next_rate_spec(r: RateData, b: BaseRate, streams: Seq<FundingStream>) -> Option<RateData> {
    let c = commission_bps(streams);
    if c > BPS_SCALE {
        None
    } else {
        let reward = (b.base_reward_rate * (BPS_SCALE - c) / BPS_SCALE as int) as u64;
        let factor = reward + RATE_SCALE;
        if factor > u64::MAX {
            None
        } else {
            match mul_div_spec(r.validator_exchange_rate as int, factor, RATE_SCALE as int) {
                Some(x) => Some(
                    RateData {
                        identity_key: r.identity_key,
                        epoch_index: b.epoch_index,
                        validator_reward_rate: reward,
                        validator_exchange_rate: x,
                    },
                ),
                None => None,
            }
        }
    }
}

/// Staking tokens that `amount` delegation tokens stand for at rate `r`.
pub open spec fn unbonded_spec(r: RateData, amount: u64) -> Option<u64> {
    mul_div_spec(amount as int, r.validator_exchange_rate as int, RATE_SCALE as int)
}

/// Voting power of a delegation pool of `supply` tokens at rate `r` and base rate `b`.
pub open spec fn voting_power_spec(r: RateData, supply: u64, b: BaseRate) -> Option<u64> {
    mul_div_spec(supply as int, r.validator_exchange_rate as int, b.base_exchange_rate as int)
}

impl RateData {
    /// The rate of the next epoch.
    pub fn next(&self, base: &BaseRate, streams: &Vec<FundingStream>) -> (r: Option<RateData>)
        ensures
            r == next_rate_spec(*self, *base, streams@),
    {
        let mut c: u64 = 0;
        let mut i: usize = 0;
        while i < streams.len()
            invariant
                i <= streams.len(),
                c == commission_bps(streams@.take(i as int)),
                c <= BPS_SCALE,
            decreases streams.len() - i,
        {
            assert(streams@.take(i + 1).drop_last() == streams@.take(i as int));
            c = c + streams[i].rate_bps as u64;
            if c > BPS_SCALE {
                proof { lemma_commission_grows(streams@, i as int + 1); }
                return None;
            }
            i = i + 1;
        }
        assert(streams@.take(i as int) == streams@);
        proof {
            let (br, cc) = (base.base_reward_rate as int, c as int);
            assert(0 <= br * (BPS_SCALE - cc) <= br * BPS_SCALE) by (nonlinear_arith)
                requires 0 <= br, 0 <= cc <= BPS_SCALE;
            assert(br * (BPS_SCALE - cc) / BPS_SCALE as int <= br) by (nonlinear_arith)
                requires 0 <= br * (BPS_SCALE - cc) <= br * BPS_SCALE;
        }
        let reward: u64 = ((base.base_reward_rate as u128) * ((BPS_SCALE - c) as u128) / (BPS_SCALE as u128)) as u64;
        if reward > u64::MAX - RATE_SCALE {
            return None;
        }
        match mul_div(self.validator_exchange_rate, reward + RATE_SCALE, RATE_SCALE) {
            Some(x) => Some(
                RateData {
                    identity_key: self.identity_key,
                    epoch_index: base.epoch_index,
                    validator_reward_rate: reward,
                    validator_exchange_rate: x,
                },
            ),
            None => None,
        }
    }

    /// Staking tokens that `amount` delegation tokens stand for.
    pub fn unbonded_amount(&self, amount: u64) -> (r: Option<u64>)
        ensures
            r == unbonded_spec(*self, amount),
    {
        mul_div(amount, self.validator_exchange_rate, RATE_SCALE)
    }

    /// Voting power of a delegation pool of `supply` tokens.
    pub fn voting_power(&self, supply: u64, base: &BaseRate) -> (r: Option<u64>)
        ensures
            r == voting_power_spec(*self, supply, *base),
    {
        mul_div(supply, self.validator_exchange_rate, base.base_exchange_rate)
    }
}

/// The commission sum only grows as streams are added.
pub(crate) proof fn lemma_commission_grows(s: Seq<FundingStream>, n: int)
    requires
        0 <= n <= s.len(),
    ensures
        commission_bps(s.take(n)) <= commission_bps(s),
    decreases s.len() - n,
{
    if n < s.len() {
        lemma_commission_grows(s, n + 1);
        assert(s.take(n + 1).drop_last() == s.take(n));
    } else {
        assert(s.take(n) == s);
    }
}

/// Commission paid to a stream of `rate_bps` on a pool of `supply` tokens, as the base
/// exchange rate moves from `cur` to `next`.
pub open spec fn reward_amount_spec(rate_bps: u16, supply: u64, next: BaseRate, cur: BaseRate) -> Option<u64> {
    if next.base_exchange_rate < cur.base_exchange_rate {
        None
    } else {
        match mul_div_spec(supply as int, next.base_exchange_rate - cur.base_exchange_rate, RATE_SCALE as int) {
            Some(t) => mul_div_spec(t as int, rate_bps as int, BPS_SCALE as int),
            None => None,
        }
    }
}

impl FundingStream {
    /// This stream's commission on a pool of `supply` tokens for the epoch that moved the
    /// base rate from `cur` to `next`.
    pub fn reward_amount(&self, supply: u64, next: &BaseRate, cur: &BaseRate) -> (r: Option<u64>)
        ensures
            r == reward_amount_spec(self.rate_bps, supply, *next, *cur),
    {
        if next.base_exchange_rate < cur.base_exchange_rate {
            return None;
        }
        match mul_div(supply, next.base_exchange_rate - cur.base_exchange_rate, RATE_SCALE) {
            Some(t) => mul_div(t, self.rate_bps as u64, BPS_SCALE),
            None => None,
        }
    }
}

} // verus!
