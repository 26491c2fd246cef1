//! Transaction fees: calculation, the burn / proposer split, and an
//! EIP-1559-style adjustment of the base fee.
//!
//! Each SQL write transaction pays a fee proportional to its payload
//! size. A share of it (50% by default) is burned; the rest goes to the
//! block proposer. SELECTs are free.

use vstd::prelude::*;
use crate::governance::{sat_mul, sat_mul_spec, sat_add_spec};
use crate::delegation::saturate;

verus! {

/// `a - b`, or 0 when `b > a`.
pub open spec fn sat_sub_spec(a: u64, b: u64) -> u64 {
    if a >= b { (a - b) as u64 } else { 0 }
}

/// The larger of two values.
pub open spec fn max_u64(a: u64, b: u64) -> u64 {
    if a >= b { a } else { b }
}

/// `x` clamped to `[lo, hi]`.
pub open spec fn clamp_u64(x: u64, lo: u64, hi: u64) -> u64 {
    if x < lo { lo } else if x > hi { hi } else { x }
}

/// Fee parameters with a dynamic base fee.
pub struct FeeConfig {
    /// Base fee per byte of transaction payload (in micro-SEAL).
    pub base_fee_per_byte: u64,
    /// Percentage of each fee that is burned (0-100).
    pub burn_percent: u64,
    /// Target block utilization percentage (0-100).
    pub target_block_utilization: u64,
    /// Maximum base fee change per block, in percent (0-100).
    pub max_fee_change_percent: u64,
    /// Minimum base fee per byte (floor).
    pub min_base_fee: u64,
    /// Maximum base fee per byte (ceiling).
    pub max_base_fee: u64,
}

impl Default for FeeConfig {
    fn default() -> (c: Self)
        ensures
            c.base_fee_per_byte == 10,
            c.burn_percent == 50,
            c.target_block_utilization == 50,
            c.max_fee_change_percent == 12,
            c.min_base_fee == 1,
            c.max_base_fee == 10000,
    {
        FeeConfig {
            base_fee_per_byte: 10,
            burn_percent: 50,
            target_block_utilization: 50,
            max_fee_change_percent: 12,
            min_base_fee: 1,
            max_base_fee: 10000,
        }
    }
}

/// Fee of a payload: base fee per byte times size, saturating.
pub open spec fn fee_for(base_fee_per_byte: u64, payload_size: u64) -> u64 {
    sat_mul_spec(base_fee_per_byte, payload_size)
}

/// Burned share of a fee.
pub open spec fn burn_of(fee: u64, burn_percent: u64) -> u64 {
    (sat_mul_spec(fee, burn_percent) / 100) as u64
}

/// Largest change of the base fee in one block, before the
/// proportional scaling.
pub open spec fn max_step(base: u64, max_change_percent: u64) -> u64 {
    (sat_mul_spec(base, max_change_percent) / 100) as u64
}

/// Base fee before clamping: raised in proportion to how far the
/// utilization (capped at 100) is above target, lowered in proportion
/// to how far it is below, by at least 1 either way; unchanged at target.
pub open spec fn unclamped_base_fee(c: FeeConfig, utilization: u64) -> u64 {
    let u = if utilization > 100 { 100 } else { utilization };
    let t = c.target_block_utilization;
    let step = max_step(c.base_fee_per_byte, c.max_fee_change_percent);
    if u > t {
        let range = max_u64(sat_sub_spec(100, t), 1);
        let increase = max_u64((sat_mul_spec(step, (u - t) as u64) / range) as u64, 1);
        sat_add_spec(c.base_fee_per_byte, increase)
    } else if u < t {
        let range = max_u64(t, 1);
        let decrease = max_u64((sat_mul_spec(step, (t - u) as u64) / range) as u64, 1);
        sat_sub_spec(c.base_fee_per_byte, decrease)
    } else {
        c.base_fee_per_byte
    }
}

/// Base fee after one adjustment.
pub open spec fn adjusted_base_fee(c: FeeConfig, utilization: u64) -> u64 {
    clamp_u64(unclamped_base_fee(c, utilization), c.min_base_fee, c.max_base_fee)
}

impl FeeConfig {
    /// Fee for a transaction of `payload_size` bytes, saturating at
    /// `u64::MAX`.
    pub fn calculate_fee(&self, payload_size: usize) -> (r: u64)
        ensures
            r == fee_for(self.base_fee_per_byte, payload_size as u64),
    {
        sat_mul(self.base_fee_per_byte, payload_size as u64)
    }

    /// Burned share of `fee`.
    pub fn burn_amount(&self, fee: u64) -> (r: u64)
        ensures
            r == burn_of(fee, self.burn_percent),
            fee * self.burn_percent <= u64::MAX ==> r == (fee * self.burn_percent) / 100,
    {
        sat_mul(fee, self.burn_percent) / 100
    }

    /// Proposer's share of `fee`: what is not burned. Defined when the
    /// burned share does not exceed the fee (always so for a burn
    /// percentage of at most 100).
    pub fn proposer_reward(&self, fee: u64) -> (r: u64)
        requires
            burn_of(fee, self.burn_percent) <= fee,
        ensures
            r == fee - burn_of(fee, self.burn_percent),
            fee * self.burn_percent <= u64::MAX ==> r == fee - (fee * self.burn_percent) / 100,
    {
        fee - self.burn_amount(fee)
    }

    /// Adjusts the base fee to the utilization of the last block: up when
    /// above target, down when below, unchanged at target; the change is
    /// at most `max_fee_change_percent` of the fee (at least 1) and the
    /// result is clamped to `[min_base_fee, max_base_fee]`.
    pub fn adjust_base_fee(&mut self, block_utilization_percent: u64)
        requires
            old(self).min_base_fee <= old(self).max_base_fee,
        ensures
            final(self).base_fee_per_byte == adjusted_base_fee(*old(self), block_utilization_percent),
            final(self).burn_percent == old(self).burn_percent,
            final(self).target_block_utilization == old(self).target_block_utilization,
            final(self).max_fee_change_percent == old(self).max_fee_change_percent,
            final(self).min_base_fee == old(self).min_base_fee,
            final(self).max_base_fee == old(self).max_base_fee,
    {
        let utilization = if block_utilization_percent > 100 { 100 } else { block_utilization_percent };
        let target = self.target_block_utilization;
        let step = sat_mul(self.base_fee_per_byte, self.max_fee_change_percent) / 100;
        let mut fee = self.base_fee_per_byte;
        if utilization > target {
            let excess = utilization - target;
            let room = 100u64.saturating_sub(target);
            let range = if room >= 1 { room } else { 1 };
            let scaled = sat_mul(step, excess) / range;
            let increase = if scaled >= 1 { scaled } else { 1 };
            fee = fee.saturating_add(increase);
        } else if utilization < target {
            let deficit = target - utilization;
            let range = if target >= 1 { target } else { 1 };
            let scaled = sat_mul(step, deficit) / range;
            let decrease = if scaled >= 1 { scaled } else { 1 };
            fee = fee.saturating_sub(decrease);
        }
        if fee < self.min_base_fee {
            fee = self.min_base_fee;
        } else if fee > self.max_base_fee {
            fee = self.max_base_fee;
        }
        self.base_fee_per_byte = fee;
    }
}

/// A fee to take from a sender when a block is settled.
pub struct FeeCharge {
    /// Address that pays.
    pub sender: String,
    /// Amount to burn from the sender's balance.
    pub fee: u64,
}

/// How a block's fees are settled: the charges, in transaction order,
/// and the totals. The proposer is credited `proposer_total` when it is
/// positive.
pub struct BlockFeePlan {
    /// One charge per transaction with a non-zero fee, in order.
    pub charges: Vec<FeeCharge>,
    /// Sum of the fees, saturating.
    pub total_fees: u64,
    /// Sum of the burned shares, saturating.
    pub total_burned: u64,
    /// Non-burned share of the fees plus the emission reward, saturating.
    pub proposer_total: u64,
}

/// The charges of a block: `(sender, fee)` for each transaction whose
/// fee is not zero.
pub open spec fn charges_of(base_fee_per_byte: u64, txs: Seq<(String, usize)>) -> Seq<(Seq<char>, u64)>
    decreases txs.len(),
{
    if txs.len() == 0 {
        Seq::empty()
    } else {
        let rest = charges_of(base_fee_per_byte, txs.drop_last());
        let fee = fee_for(base_fee_per_byte, txs.last().1 as u64);
        if fee == 0 { rest } else { rest.push((txs.last().0@, fee)) }
    }
}

/// Sum of the fees of a block's transactions.
pub open spec fn fee_sum(base_fee_per_byte: u64, txs: Seq<(String, usize)>) -> nat
    decreases txs.len(),
{
    if txs.len() == 0 {
        0
    } else {
        fee_sum(base_fee_per_byte, txs.drop_last()) + fee_for(base_fee_per_byte, txs.last().1 as u64) as nat
    }
}

/// Sum of the burned shares of a block's fees.
pub open spec fn burn_sum(base_fee_per_byte: u64, burn_percent: u64, txs: Seq<(String, usize)>) -> nat
    decreases txs.len(),
{
    if txs.len() == 0 {
        0
    } else {
        burn_sum(base_fee_per_byte, burn_percent, txs.drop_last()) + burn_of(
            fee_for(base_fee_per_byte, txs.last().1 as u64),
            burn_percent,
        ) as nat
    }
}

/// Plans the settlement of a block's fees: each transaction with a
/// non-zero fee is charged its fee; the totals of fees and burned shares
/// saturate; the proposer gets the non-burned share plus the emission
/// reward (none counts as 0).
pub fn block_fee_plan(config: &FeeConfig, transactions: &[(String, usize)], emission_reward: Option<u64>) -> (plan:
    BlockFeePlan)
    ensures
        plan.charges@.map_values(|c: FeeCharge| (c.sender@, c.fee)) == charges_of(
            config.base_fee_per_byte,
            transactions@,
        ),
        plan.total_fees == saturate(fee_sum(config.base_fee_per_byte, transactions@)),
        plan.total_burned == saturate(burn_sum(config.base_fee_per_byte, config.burn_percent, transactions@)),
        plan.proposer_total == sat_add_spec(
            sat_sub_spec(plan.total_fees, plan.total_burned),
            match emission_reward {
                Some(e) => e,
                None => 0,
            },
        ),
{
    let ghost txs = transactions@;
    let ghost base = config.base_fee_per_byte;
    let mut charges: Vec<FeeCharge> = Vec::new();
    let mut total_fees: u64 = 0;
    let mut total_burned: u64 = 0;
    let mut i: usize = 0;
    assert(txs.take(0) =~= Seq::<(String, usize)>::empty());
    assert(charges@.map_values(|c: FeeCharge| (c.sender@, c.fee)) =~= Seq::<(Seq<char>, u64)>::empty());
    while i < transactions.len()
        invariant
            txs == transactions@,
            base == config.base_fee_per_byte,
            i <= txs.len(),
            charges@.map_values(|c: FeeCharge| (c.sender@, c.fee)) == charges_of(base, txs.take(i as int)),
            total_fees == saturate(fee_sum(base, txs.take(i as int))),
            total_burned == saturate(burn_sum(base, config.burn_percent, txs.take(i as int))),
        decreases txs.len() - i,
    {
        assert(txs.take(i + 1).drop_last() =~= txs.take(i as int));
        assert(txs.take(i + 1).last() == txs[i as int]);
        let fee = config.calculate_fee(transactions[i].1);
        if fee != 0 {
            let ghost before = charges@;
            charges.push(FeeCharge { sender: transactions[i].0.clone(), fee });
            assert(charges@.map_values(|c: FeeCharge| (c.sender@, c.fee)) =~= before.map_values(
                |c: FeeCharge| (c.sender@, c.fee),
            ).push((txs[i as int].0@, fee)));
            total_fees = total_fees.saturating_add(fee);
            total_burned = total_burned.saturating_add(config.burn_amount(fee));
        }
        i = i + 1;
    }
    assert(txs.take(txs.len() as int) =~= txs);
    let fee_reward = total_fees.saturating_sub(total_burned);
    let emission = match emission_reward {
        Some(e) => e,
        None => 0,
    };
    let proposer_total = fee_reward.saturating_add(emission);
    BlockFeePlan { charges, total_fees, total_burned, proposer_total }
}

/// Burning and rewarding together account for the whole fee.
pub proof fn lemma_fee_split_conserves_total(fee: u64, burn_percent: u64)
    requires
        burn_of(fee, burn_percent) <= fee,
    ensures
        burn_of(fee, burn_percent) + (fee - burn_of(fee, burn_percent)) == fee,
{
}

/// The burned share is `burn_percent` percent of the fee (rounded down)
/// whenever `fee * burn_percent` fits in a `u64`; so burning more percent
/// never burns less.
pub proof fn lemma_burn_is_percent_of_fee(fee: u64, p: u64, q: u64)
    requires
        fee * q <= u64::MAX,
        p <= q,
    ensures
        burn_of(fee, p) == (fee * p) / 100,
        burn_of(fee, q) == (fee * q) / 100,
        burn_of(fee, p) <= burn_of(fee, q),
{
    assert(fee * p <= fee * q) by (nonlinear_arith)
        requires p <= q;
    assert((fee * p) / 100 <= (fee * q) / 100) by (nonlinear_arith)
        requires fee * p <= fee * q;
}

/// With a burn percentage of at most 100 the burned share never exceeds
/// the fee, so the proposer's share is always defined.
pub proof fn lemma_burn_within_fee(fee: u64, burn_percent: u64)
    requires
        burn_percent <= 100,
    ensures
        burn_of(fee, burn_percent) <= fee,
{
    lemma_div_le(fee as int, burn_percent as int, 100, u64::MAX as int);
}

/// The adjusted base fee always lies within `[min_base_fee, max_base_fee]`.
pub proof fn lemma_adjusted_fee_in_bounds(c: FeeConfig, utilization: u64)
    requires
        c.min_base_fee <= c.max_base_fee,
    ensures
        c.min_base_fee <= adjusted_base_fee(c, utilization) <= c.max_base_fee,
{
}

/// Direction of the adjustment, for a base fee inside its bounds: up
/// when utilization (capped at 100) is above target and the ceiling is
/// not reached, down when below target and the floor is not reached,
/// unchanged at target.
pub proof fn lemma_adjusted_fee_direction(c: FeeConfig, utilization: u64)
    requires
        c.min_base_fee <= c.base_fee_per_byte <= c.max_base_fee,
    ensures
        ({
            let u = if utilization > 100 { 100 } else { utilization };
            let r = adjusted_base_fee(c, utilization);
            &&& u > c.target_block_utilization && c.base_fee_per_byte < c.max_base_fee ==> r
                > c.base_fee_per_byte
            &&& u < c.target_block_utilization && c.base_fee_per_byte > c.min_base_fee ==> r
                < c.base_fee_per_byte
            &&& u == c.target_block_utilization ==> r == c.base_fee_per_byte
        }),
{
}

/// One adjustment moves the base fee by at most the larger of
/// `max_fee_change_percent` of it and 1.
pub proof fn lemma_adjusted_fee_step_bounded(c: FeeConfig, utilization: u64)
    requires
        c.min_base_fee <= c.base_fee_per_byte <= c.max_base_fee,
    ensures
        ({
            let r = adjusted_base_fee(c, utilization);
            let step = max_u64(max_step(c.base_fee_per_byte, c.max_fee_change_percent), 1);
            &&& r <= c.base_fee_per_byte + step
            &&& r + step >= c.base_fee_per_byte
        }),
{
    let u: u64 = if utilization > 100 { 100 } else { utilization };
    let t = c.target_block_utilization;
    let step = max_step(c.base_fee_per_byte, c.max_fee_change_percent);
    if u > t {
        let range = max_u64(sat_sub_spec(100, t), 1);
        let excess = (u - t) as u64;
        assert(excess <= range);
        lemma_scaled_step_bounded(step, excess, range);
    } else if u < t {
        let range = max_u64(t, 1);
        let deficit = (t - u) as u64;
        assert(deficit <= range);
        lemma_scaled_step_bounded(step, deficit, range);
    }
}

proof fn lemma_scaled_step_bounded(step: u64, part: u64, range: u64)
    requires
        1 <= range,
        part <= range,
    ensures
        sat_mul_spec(step, part) / range <= step,
{
    lemma_div_le(step as int, part as int, range as int, u64::MAX as int);
}

/// `min(a * p, cap) / r <= a` when `p <= r` and `a <= cap`.
proof fn lemma_div_le(a: int, p: int, r: int, cap: int)
    requires
        0 <= a <= cap,
        0 <= p <= r,
        1 <= r,
    ensures
        (if a * p > cap { cap } else { a * p }) / r <= a,
{
    assert(a * p <= a * r) by (nonlinear_arith)
        requires
            0 <= a,
            p <= r,
    ;
    assert((a * r) / r == a) by (nonlinear_arith)
        requires
            1 <= r,
    ;
    let m = if a * p > cap { cap } else { a * p };
    assert(0 <= m <= a * r);
    assert(m / r <= (a * r) / r) by (nonlinear_arith)
        requires
            0 <= m <= a * r,
            1 <= r,
    ;
}

} // verus!
