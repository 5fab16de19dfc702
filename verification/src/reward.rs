//! The reward that an address accrues for holding a balance: the formula,
//! the record kept per address, and the two parameters of the formula.
use crate::env::{Env, EnvView};
use crate::error::Error;
pub use crate::storage_types::AccumulatedReward;
use crate::storage_types::{Address, DataKey, StoredValue};
use vstd::arithmetic::div_mod::{lemma_fundamental_div_mod, lemma_fundamental_div_mod_converse};
use vstd::prelude::*;

verus! {

/// The rate is given in hundredths of a percent, so a rate of 10 000 is 1.00.
pub const BASIS_POINTS: u32 = 10_000;

/// 2^64, the base in which the product of balance, rate and ledgers is split.
const LIMB: u128 = 0x1_0000_0000_0000_0000;

/// 2^127, the magnitude from which on a reward no longer fits.
const CEILING: u128 = 0x8000_0000_0000_0000_0000_0000_0000_0000;

/// A tick of zero counts as one ledger.
pub open spec fn effective_tick(tick: u32) -> int {
    if tick == 0 {
        1
    } else {
        tick as int
    }
}

/// The integer nearest to `n / d` for `n >= 0` and `d > 0`, halves rounded up.
pub open spec fn round_half_up(n: int, d: int) -> int {
    (2 * n + d) / (2 * d)
}

/// The integer nearest to `n / d` for `d > 0`, halves rounded away from zero.
pub open spec fn round_nearest(n: int, d: int) -> int {
    if n >= 0 {
        round_half_up(n, d)
    } else {
        -round_half_up(-n, d)
    }
}

/// `x` where it fits in 128 bits, else the nearest bound.
pub open spec fn clamp(x: int) -> i128 {
    if x > i128::MAX {
        i128::MAX
    } else if x < i128::MIN {
        i128::MIN
    } else {
        x as i128
    }
}

/// The reward for holding `balance` over `blocks_held` ledgers:
/// `balance * (rate / 10 000) * (blocks_held / tick)`, rounded to the
/// nearest integer, halves away from zero, and kept within 128 bits.
pub open spec fn reward_for(blocks_held: u32, balance: i128, rate: u32, tick: u32) -> i128 {
    clamp(round_nearest(balance * rate * blocks_held, BASIS_POINTS * effective_tick(tick)))
}

/// `round_half_up(n, d)` from the quotient and remainder of `n` by `d`.
proof fn lemma_round_half_up(n: int, d: int, q: int, r: int)
    requires
        d > 0,
        0 <= r < d,
        n == q * d + r,
    ensures
        round_half_up(n, d) == if 2 * r >= d {
            q + 1
        } else {
            q
        },
{
    if 2 * r >= d {
        assert(2 * n + d == (q + 1) * (2 * d) + (2 * r - d)) by (nonlinear_arith)
            requires
                n == q * d + r,
        ;
        lemma_fundamental_div_mod_converse(2 * n + d, 2 * d, q + 1, 2 * r - d);
    } else {
        assert(2 * n + d == q * (2 * d) + (2 * r + d)) by (nonlinear_arith)
            requires
                n == q * d + r,
        ;
        lemma_fundamental_div_mod_converse(2 * n + d, 2 * d, q, 2 * r + d);
    }
}

/// `a * m / d` rounded to the nearest integer, halves up, where that is
/// below 2^127.
fn mul_div_round(a: u128, m: u128, d: u128) -> (rounded: Option<u128>)
    requires
        a <= CEILING,
        m < LIMB,
        0 < d < LIMB,
    ensures
        match rounded {
            Some(q) => q == round_half_up(a * m, d as int) && q < CEILING,
            None => round_half_up(a * m, d as int) >= CEILING,
        },
{
    let ah: u128 = a / LIMB;
    let al: u128 = a % LIMB;
    assert(ah * m <= u128::MAX && al * m <= u128::MAX) by (nonlinear_arith)
        requires
            ah <= 0x8000_0000_0000_0000,
            al < 0x1_0000_0000_0000_0000,
            m < 0x1_0000_0000_0000_0000,
    ;
    let upper: u128 = ah * m;
    let lower: u128 = al * m;
    let qa: u128 = upper / d;
    let ra: u128 = upper % d;
    let qb: u128 = lower / d;
    let rb: u128 = lower % d;
    assert(ra * LIMB + rb <= u128::MAX) by (nonlinear_arith)
        requires
            ra < d,
            rb < d,
            d < 0x1_0000_0000_0000_0000,
            LIMB == 0x1_0000_0000_0000_0000,
    ;
    let rest: u128 = ra * LIMB + rb;
    let qc: u128 = rest / d;
    let rc: u128 = rest % d;
    let ghost q0: int = qa * LIMB + qb + qc;
    let ghost up: int = if 2 * rc >= d {
        1
    } else {
        0
    };
    proof {
        lemma_fundamental_div_mod(upper as int, d as int);
        lemma_fundamental_div_mod(lower as int, d as int);
        lemma_fundamental_div_mod(rest as int, d as int);
        assert(upper == qa * d + ra && lower == qb * d + rb && rest == qc * d + rc) by (nonlinear_arith)
            requires
                upper == d * qa + ra,
                lower == d * qb + rb,
                rest == d * qc + rc,
        ;
        assert(a * m == q0 * d + rc) by (nonlinear_arith)
            requires
                a == ah * LIMB + al,
                upper == ah * m,
                lower == al * m,
                upper == qa * d + ra,
                lower == qb * d + rb,
                rest == ra * LIMB + rb,
                rest == qc * d + rc,
                q0 == qa * LIMB + qb + qc,
        ;
        lemma_round_half_up(a * m, d as int, q0, rc as int);
        assert(round_half_up(a * m, d as int) == q0 + up);
        assert(qa >= 0x8000_0000_0000_0000 ==> qa * LIMB >= CEILING) by (nonlinear_arith)
            requires
                LIMB == 0x1_0000_0000_0000_0000,
                CEILING == 0x8000_0000_0000_0000_0000_0000_0000_0000,
        ;
        assert(qa < 0x8000_0000_0000_0000 ==> qa * LIMB < CEILING) by (nonlinear_arith)
            requires
                LIMB == 0x1_0000_0000_0000_0000,
                CEILING == 0x8000_0000_0000_0000_0000_0000_0000_0000,
        ;
    }
    if qa >= 0x8000_0000_0000_0000 {
        return None;
    }
    let high: u128 = qa * LIMB;
    if qb >= CEILING - high {
        return None;
    }
    let sum: u128 = high + qb;
    if qc >= CEILING - sum {
        return None;
    }
    let floor: u128 = sum + qc;
    if rc >= d - rc {
        if floor + 1 >= CEILING {
            None
        } else {
            Some(floor + 1)
        }
    } else {
        Some(floor)
    }
}

/// The reward for holding `balance` over `blocks_held` ledgers at
/// `reward_rate` hundredths of a percent per `reward_tick` ledgers.
pub fn _calculate_reward(blocks_held: u32, balance: i128, reward_rate: u32, reward_tick: u32) -> (reward:
    i128)
    ensures
        reward == reward_for(blocks_held, balance, reward_rate, reward_tick),
        blocks_held == 0 || balance == 0 || reward_rate == 0 ==> reward == 0,
        balance >= 0 ==> reward >= 0,
{
    proof {
        if blocks_held == 0 || balance == 0 || reward_rate == 0 {
            lemma_nothing_earned(blocks_held, balance, reward_rate, reward_tick);
        }
        if balance >= 0 {
            lemma_reward_sign(blocks_held, balance, reward_rate, reward_tick);
        }
    }
    let tick: u128 = if reward_tick == 0 {
        1
    } else {
        reward_tick as u128
    };
    let d: u128 = (BASIS_POINTS as u128) * tick;
    assert(d == BASIS_POINTS * effective_tick(reward_tick) && 0 < d < LIMB) by {
        assert(BASIS_POINTS == 10_000 && tick == effective_tick(reward_tick));
        assert(d == 10_000 * tick);
    }
    assert((reward_rate as u128) * (blocks_held as u128) < LIMB) by (nonlinear_arith)
        requires
            reward_rate <= 0xffff_ffff,
            blocks_held <= 0xffff_ffff,
            LIMB == 0x1_0000_0000_0000_0000,
    ;
    let m: u128 = (reward_rate as u128) * (blocks_held as u128);
    let ghost n: int = balance * reward_rate * blocks_held;
    if balance >= 0 {
        let a: u128 = balance as u128;
        proof {
            assert(n == a * m && n >= 0) by (nonlinear_arith)
                requires
                    n == balance * reward_rate * blocks_held,
                    a == balance,
                    m == reward_rate * blocks_held,
                    balance >= 0,
            ;
        }
        match mul_div_round(a, m, d) {
            Some(q) => q as i128,
            None => i128::MAX,
        }
    } else {
        let a: u128 = if balance == i128::MIN {
            CEILING
        } else {
            (-balance) as u128
        };
        proof {
            assert(-n == a * m && n <= 0) by (nonlinear_arith)
                requires
                    n == balance * reward_rate * blocks_held,
                    a == -balance,
                    m == reward_rate * blocks_held,
                    balance < 0,
            ;
            if n == 0 {
                assert(round_half_up(0, d as int) == 0) by {
                    lemma_round_half_up(0, d as int, 0, 0);
                }
            }
        }
        match mul_div_round(a, m, d) {
            Some(q) => -(q as i128),
            None => i128::MIN,
        }
    }
}

impl EnvView {
    /// The reward record of `addr`, if it has one.
    pub open spec fn checkpoint(self, addr: Address) -> Option<AccumulatedReward> {
        match self.get(DataKey::RewardCheckpoint(addr)) {
            Some(StoredValue::Reward(reward)) => Some(reward),
            _ => None,
        }
    }

    /// The reward recorded for `addr`: nothing where it has no record.
    pub open spec fn read_reward(self, addr: Address) -> i128 {
        match self.checkpoint(addr) {
            Some(reward) => reward.amount,
            None => 0,
        }
    }

    /// The number stored under `key`, if one is.
    pub open spec fn number_at(self, key: DataKey) -> Option<u32> {
        match self.get(key) {
            Some(StoredValue::U32(number)) => Some(number),
            _ => None,
        }
    }

    /// The reward rate in hundredths of a percent: zero until it is set.
    pub open spec fn reward_rate(self) -> u32 {
        match self.number_at(DataKey::RewardRate) {
            Some(rate) => rate,
            None => 0,
        }
    }

    /// The number of ledgers in one reward period: one until it is set, and
    /// never less than one.
    pub open spec fn reward_tick(self) -> u32 {
        match self.number_at(DataKey::RewardTick) {
            Some(tick) => if tick == 0 {
                1
            } else {
                tick
            },
            None => 1,
        }
    }

    /// The ledgers that have passed since the record of `addr` was created.
    pub open spec fn blocks_held(self, addr: Address) -> u32 {
        match self.checkpoint(addr) {
            Some(reward) => (self.sequence - reward.created_ledger_number) as u32,
            None => 0,
        }
    }

    /// The reward that `addr` has earned on `balance` since its record was
    /// created.
    pub open spec fn calculate_reward(self, addr: Address, balance: i128) -> i128 {
        reward_for(self.blocks_held(addr), balance, self.reward_rate(), self.reward_tick())
    }

    /// This environment once the reward of `addr` is calculated: its record
    /// and the two reward parameters are read.
    pub open spec fn calculated(self, addr: Address) -> EnvView {
        self.read(DataKey::RewardCheckpoint(addr)).read(DataKey::RewardRate).read(
            DataKey::RewardTick,
        )
    }

    /// Whether the reward recorded for `addr` can grow by `amount`.
    pub open spec fn reward_fits(self, addr: Address, amount: i128) -> bool {
        i128::MIN <= self.read_reward(addr) + amount <= i128::MAX
    }

    /// The record of `addr` once `amount` is added to it at the current
    /// ledger: a new record starts at the current ledger, an old one keeps
    /// the ledger of its creation.
    pub open spec fn merged(self, addr: Address, amount: i128) -> AccumulatedReward {
        AccumulatedReward {
            created_ledger_number: match self.checkpoint(addr) {
                Some(reward) => reward.created_ledger_number,
                None => self.sequence,
            },
            last_ledger_number: self.sequence,
            amount: (self.read_reward(addr) + amount) as i128,
        }
    }

    /// This environment once the reward rate is `rate`.
    pub open spec fn set_reward_rate(self, rate: u32) -> EnvView {
        self.put(DataKey::RewardRate, StoredValue::U32(rate))
    }

    /// This environment once the reward period is `tick` ledgers.
    pub open spec fn set_reward_tick(self, tick: u32) -> EnvView {
        self.put(DataKey::RewardTick, StoredValue::U32(tick))
    }

    /// This environment once the record of `addr` is deleted.
    pub open spec fn reset_reward(self, addr: Address) -> EnvView {
        self.del(DataKey::RewardCheckpoint(addr))
    }

    /// This environment once `amount` is added to the record of `addr`.
    pub open spec fn write_reward(self, addr: Address, amount: i128) -> EnvView {
        self.put(DataKey::RewardCheckpoint(addr), StoredValue::Reward(self.merged(addr, amount)))
    }

    /// This environment once the reward earned on `balance` is calculated
    /// and added to the record of `addr`.
    pub open spec fn checkpoint_reward(self, addr: Address, balance: i128) -> EnvView {
        self.calculated(addr).write_reward(addr, self.calculate_reward(addr, balance))
    }
}

fn read_checkpoint(e: &mut Env, addr: Address) -> (found: Option<AccumulatedReward>)
    requires
        old(e).wf(),
    ensures
        final(e).wf(),
        found == old(e)@.checkpoint(addr),
        found is Some ==> found->Some_0.ordered(old(e)@.sequence),
        final(e)@ == old(e)@.read(DataKey::RewardCheckpoint(addr)),
{
    match e.get(DataKey::RewardCheckpoint(addr)) {
        Some(StoredValue::Reward(reward)) => Some(reward),
        _ => None,
    }
}

fn read_number(e: &mut Env, key: DataKey) -> (found: Option<u32>)
    requires
        old(e).wf(),
    ensures
        final(e).wf(),
        found == old(e)@.number_at(key),
        final(e)@ == old(e)@.read(key),
{
    match e.get(key) {
        Some(StoredValue::U32(number)) => Some(number),
        _ => None,
    }
}

/// The reward recorded for `addr`: nothing where it has no record.
pub fn read_reward(e: &mut Env, addr: Address) -> (amount: i128)
    requires
        old(e).wf(),
    ensures
        final(e).wf(),
        amount == old(e)@.read_reward(addr),
        final(e)@ == old(e)@.read(DataKey::RewardCheckpoint(addr)),
{
    if let Some(reward) = read_checkpoint(e, addr) {
        reward.amount
    } else {
        0
    }
}

/// Adds `amount` to the record of `addr` and stamps it with the current
/// ledger. An address without a record gets one, created at the current
/// ledger. Where the sum does not fit in 128 bits, nothing is written.
pub fn write_reward(e: &mut Env, addr: Address, amount: i128) -> (outcome: Result<(), Error>)
    requires
        old(e).wf(),
    ensures
        final(e).wf(),
        match outcome {
            Ok(()) => old(e)@.reward_fits(addr, amount) && final(e)@ == old(e)@.write_reward(
                addr,
                amount,
            ),
            Err(error) => error == Error::RewardOverflow && !old(e)@.reward_fits(addr, amount)
                && final(e)@ == old(e)@,
        },
{
    let key = DataKey::RewardCheckpoint(addr);
    let existing_reward = match e.peek(key) {
        Some(StoredValue::Reward(reward)) => Some(reward),
        _ => None,
    };
    let acc_reward = match existing_reward {
        Some(reward) => {
            match reward.amount.checked_add(amount) {
                Some(sum) => AccumulatedReward {
                    created_ledger_number: reward.created_ledger_number,
                    last_ledger_number: e.ledger_sequence(),
                    amount: sum,
                },
                None => {
                    return Err(Error::RewardOverflow);
                },
            }
        },
        None => AccumulatedReward {
            created_ledger_number: e.ledger_sequence(),
            last_ledger_number: e.ledger_sequence(),
            amount,
        },
    };
    e.set(key, StoredValue::Reward(acc_reward));
    Ok(())
}

/// Deletes the record of `addr`.
pub fn reset_reward(e: &mut Env, addr: Address)
    requires
        old(e).wf(),
    ensures
        final(e).wf(),
        final(e)@ == old(e)@.reset_reward(addr),
        final(e)@.checkpoint(addr) is None,
{
    e.remove(DataKey::RewardCheckpoint(addr));
}

/// Sets the reward rate, in hundredths of a percent per reward period.
pub fn set_reward_rate(e: &mut Env, rate: u32)
    requires
        old(e).wf(),
    ensures
        final(e).wf(),
        final(e)@ == old(e)@.set_reward_rate(rate),
{
    e.set(DataKey::RewardRate, StoredValue::U32(rate));
}

/// The reward rate: zero until it is set.
pub fn get_reward_rate(e: &mut Env) -> (rate: u32)
    requires
        old(e).wf(),
    ensures
        final(e).wf(),
        rate == old(e)@.reward_rate(),
        final(e)@ == old(e)@.read(DataKey::RewardRate),
{
    if let Some(rate) = read_number(e, DataKey::RewardRate) {
        rate
    } else {
        0
    }
}

/// Sets the number of ledgers in one reward period.
pub fn set_reward_tick(e: &mut Env, tick: u32)
    requires
        old(e).wf(),
    ensures
        final(e).wf(),
        final(e)@ == old(e)@.set_reward_tick(tick),
{
    e.set(DataKey::RewardTick, StoredValue::U32(tick));
}

/// The number of ledgers in one reward period: one until it is set, and
/// one where it was set to zero.
pub fn get_reward_tick(e: &mut Env) -> (tick: u32)
    requires
        old(e).wf(),
    ensures
        final(e).wf(),
        tick == old(e)@.reward_tick(),
        tick >= 1,
        final(e)@ == old(e)@.read(DataKey::RewardTick),
{
    if let Some(tick) = read_number(e, DataKey::RewardTick) {
        if tick == 0 {
            1
        } else {
            tick
        }
    } else {
        // every block
        1
    }
}

/// The reward that `addr` has earned since its record was created, on the
/// `balance` that the underlying asset reports for it.
pub fn calculate_reward(e: &mut Env, addr: Address, balance: i128) -> (reward: i128)
    requires
        old(e).wf(),
    ensures
        final(e).wf(),
        reward == old(e)@.calculate_reward(addr, balance),
        final(e)@ == old(e)@.calculated(addr),
{
    let reward_checkpoint = read_checkpoint(e, addr);
    let blocks_held = match reward_checkpoint {
        Some(checkpoint) => e.ledger_sequence() - checkpoint.created_ledger_number,
        None => 0,
    };
    let reward_rate = get_reward_rate(e);
    let reward_tick = get_reward_tick(e);

    _calculate_reward(blocks_held, balance, reward_rate, reward_tick)
}

/// Adds to the record of `address` the reward it has earned on `balance`
/// since the record was created. Where the sum does not fit in 128 bits,
/// the environment stays as it was.
pub fn checkpoint_reward(e: &mut Env, address: Address, balance: i128) -> (outcome: Result<
    (),
    Error,
>)
    requires
        old(e).wf(),
    ensures
        final(e).wf(),
        match outcome {
            Ok(()) => old(e)@.reward_fits(address, old(e)@.calculate_reward(address, balance))
                && final(e)@ == old(e)@.checkpoint_reward(address, balance),
            Err(error) => error == Error::RewardOverflow && !old(e)@.reward_fits(
                address,
                old(e)@.calculate_reward(address, balance),
            ) && final(e)@ == old(e)@,
        },
{
    let before = e.snapshot();
    let reward = calculate_reward(e, address, balance);
    match write_reward(e, address, reward) {
        Ok(()) => Ok(()),
        Err(error) => {
            *e = before;
            Err(error)
        },
    }
}

/// `round_nearest(n, d)` is the integer nearest to `n / d`: it lies within
/// half of `n / d`, and where two integers lie exactly half away it is the
/// one further from zero.
pub proof fn lemma_round_nearest(n: int, d: int)
    requires
        d > 0,
    ensures
        -d <= 2 * (round_nearest(n, d) * d - n) <= d,
        n >= 0 ==> -d < 2 * (round_nearest(n, d) * d - n),
        n < 0 ==> 2 * (round_nearest(n, d) * d - n) < d,
        n >= 0 ==> round_nearest(n, d) >= 0,
        n <= 0 ==> round_nearest(n, d) <= 0,
{
    let m = if n >= 0 {
        n
    } else {
        -n
    };
    let q = m / d;
    let r = m % d;
    lemma_fundamental_div_mod(m, d);
    assert(m == q * d + r) by (nonlinear_arith)
        requires
            m == d * q + r,
    ;
    assert(0 <= r < d);
    assert(q >= 0) by (nonlinear_arith)
        requires
            m == q * d + r,
            m >= 0,
            0 <= r < d,
            d > 0,
    ;
    lemma_round_half_up(m, d, q, r);
    let k = round_half_up(m, d);
    assert(k * d == if 2 * r >= d {
        q * d + d
    } else {
        q * d
    }) by (nonlinear_arith)
        requires
            k == if 2 * r >= d {
                q + 1
            } else {
                q
            },
    ;
    if n < 0 {
        assert((-k) * d == -(k * d)) by (nonlinear_arith);
    }
}

/// Where it fits in 128 bits, the reward is the integer nearest to
/// `balance * (rate / 10 000) * (blocks_held / tick)`: written without
/// fractions, with `n = balance * rate * blocks_held` and
/// `d = 10 000 * tick`, it lies within half of `n / d`, and of two integers
/// that lie exactly half away it is the one further from zero. A tick of
/// zero counts as one.
pub proof fn lemma_reward_is_nearest(blocks_held: u32, balance: i128, rate: u32, tick: u32)
    requires
        i128::MIN <= round_nearest(
            balance * rate * blocks_held,
            BASIS_POINTS * effective_tick(tick),
        ) <= i128::MAX,
    ensures
        ({
            let n = balance * rate * blocks_held;
            let d = BASIS_POINTS * effective_tick(tick);
            let reward = reward_for(blocks_held, balance, rate, tick);
            &&& d > 0
            &&& -d <= 2 * (reward * d - n) <= d
            &&& n >= 0 ==> -d < 2 * (reward * d - n)
            &&& n < 0 ==> 2 * (reward * d - n) < d
        }),
{
    lemma_round_nearest(balance * rate * blocks_held, BASIS_POINTS * effective_tick(tick));
}

/// A reward that does not fit in 128 bits is replaced by the nearest bound.
pub proof fn lemma_reward_is_bounded(blocks_held: u32, balance: i128, rate: u32, tick: u32)
    ensures
        ({
            let exact = round_nearest(
                balance * rate * blocks_held,
                BASIS_POINTS * effective_tick(tick),
            );
            let reward = reward_for(blocks_held, balance, rate, tick);
            &&& exact > i128::MAX ==> reward == i128::MAX
            &&& exact < i128::MIN ==> reward == i128::MIN
            &&& i128::MIN <= exact <= i128::MAX ==> reward == exact
        }),
{
}

/// Nothing is earned over no ledgers, on no balance, or at a rate of zero.
pub proof fn lemma_nothing_earned(blocks_held: u32, balance: i128, rate: u32, tick: u32)
    requires
        blocks_held == 0 || balance == 0 || rate == 0,
    ensures
        reward_for(blocks_held, balance, rate, tick) == 0,
{
    let d = BASIS_POINTS * effective_tick(tick);
    assert(balance * rate * blocks_held == 0) by (nonlinear_arith)
        requires
            blocks_held == 0 || balance == 0 || rate == 0,
    ;
    lemma_round_half_up(0, d, 0, 0);
}

/// A balance that is not negative earns a reward that is not negative.
pub proof fn lemma_reward_sign(blocks_held: u32, balance: i128, rate: u32, tick: u32)
    requires
        balance >= 0,
    ensures
        reward_for(blocks_held, balance, rate, tick) >= 0,
{
    let d = BASIS_POINTS * effective_tick(tick);
    let n = balance * rate * blocks_held;
    assert(n >= 0) by (nonlinear_arith)
        requires
            n == balance * rate * blocks_held,
            balance >= 0,
            rate >= 0,
            blocks_held >= 0,
    ;
    lemma_round_nearest(n, d);
}

/// An address without a record has no reward, and its first checkpoint
/// creates a record at the current ledger that holds nothing.
pub proof fn lemma_first_checkpoint(e: EnvView, addr: Address, balance: i128)
    requires
        e.checkpoint(addr) is None,
    ensures
        e.read_reward(addr) == 0,
        e.calculate_reward(addr, balance) == 0,
        e.reward_fits(addr, e.calculate_reward(addr, balance)),
        e.checkpoint_reward(addr, balance).checkpoint(addr) == Some(
            AccumulatedReward {
                created_ledger_number: e.sequence,
                last_ledger_number: e.sequence,
                amount: 0,
            },
        ),
{
    lemma_nothing_earned(0, balance, e.reward_rate(), e.reward_tick());
}

/// A checkpoint of an address that has a record keeps the ledger of its
/// creation, stamps it with the current ledger and adds what was earned;
/// on a balance that is not negative the recorded reward does not shrink.
pub proof fn lemma_next_checkpoint(e: EnvView, addr: Address, balance: i128)
    requires
        e.wf(),
        e.checkpoint(addr) is Some,
        e.reward_fits(addr, e.calculate_reward(addr, balance)),
    ensures
        e.checkpoint_reward(addr, balance).checkpoint(addr) == Some(
            AccumulatedReward {
                created_ledger_number: e.checkpoint(addr)->Some_0.created_ledger_number,
                last_ledger_number: e.sequence,
                amount: (e.read_reward(addr) + e.calculate_reward(addr, balance)) as i128,
            },
        ),
        e.checkpoint_reward(addr, balance).wf(),
        balance >= 0 ==> e.checkpoint_reward(addr, balance).read_reward(addr) >= e.read_reward(
            addr,
        ),
{
    if balance >= 0 {
        lemma_reward_sign(e.blocks_held(addr), balance, e.reward_rate(), e.reward_tick());
    }
    let key = DataKey::RewardCheckpoint(addr);
    assert(e.entries.contains_key(key));
    assert(key.spec_admits(e.entries[key], e.sequence));
    let after = e.checkpoint_reward(addr, balance);
    assert forall|other: DataKey| #[trigger]
        after.entries.contains_key(other) implies other.spec_admits(
        after.entries[other],
        after.sequence,
    ) by {
        if other != key {
            assert(e.entries.contains_key(other));
        }
    }
}

} // verus!
