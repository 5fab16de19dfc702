use excellar_token::admin::{read_contract_admin, write_contract_admin};
use excellar_token::contract::ExcellarToken;
use excellar_token::env::Env;
use excellar_token::error::Error;
use excellar_token::reward::{
    _calculate_reward, calculate_reward, checkpoint_reward, get_reward_rate, get_reward_tick,
    read_reward, reset_reward, set_reward_rate, set_reward_tick, write_reward,
};
use excellar_token::storage_types::{
    AccumulatedReward, Address, AddressKind, DataKey, StoredValue,
};

fn account(n: u128) -> Address {
    Address { kind: AddressKind::Account, hi: 0, lo: n }
}

fn create_token(e: &mut Env, admin: &Address) {
    let token = Address { kind: AddressKind::Contract, hi: 7, lo: 7 };
    assert_eq!(ExcellarToken::initialize(e, *admin, token), Ok(()));
}

fn advance_ledger(env: &mut Env, blocks: u32) {
    assert!(env.advance_ledger(blocks));
}

fn setup_test_env() -> (Env, Address) {
    let mut env = Env::new(0);
    let investor = account(1);
    let token_admin = account(2);
    env.authorize(token_admin);
    create_token(&mut env, &token_admin);
    set_reward_tick(&mut env, 1);
    set_reward_rate(&mut env, 5_00);
    (env, investor)
}

fn checkpoint_of(e: &Env, addr: Address) -> Option<AccumulatedReward> {
    match e.peek(DataKey::RewardCheckpoint(addr)) {
        Some(StoredValue::Reward(reward)) => Some(reward),
        Some(other) => panic!("not a reward record: {:?}", other),
        None => None,
    }
}

#[test]
fn test_reward_calculation_per_block_tick() {
    let reward_rate = 5_00;
    let reward_tick = 1;

    let blocks_held = 10;
    let balance = 1000;

    let result = _calculate_reward(blocks_held, balance, reward_rate, reward_tick);

    assert_eq!(result, 500, "Rounding error in _calculate_reward function");

    let blocks_held = 1_000_000;
    let balance = 1_000_000_000;

    let result = _calculate_reward(blocks_held, balance, reward_rate, reward_tick);
    assert_eq!(
        result, 50_000_000_000_000,
        "Rounding error in _calculate_reward function"
    );
}

#[test]
fn test_reward_calculation_per_day_tick() {
    let reward_rate = 5_00;
    let reward_tick = 28_800;

    let blocks_held = 287;
    let balance = 1_000;

    let result = _calculate_reward(blocks_held, balance, reward_rate, reward_tick);
    assert_eq!(result, 0);

    let blocks_held = 288;
    let result = _calculate_reward(blocks_held, balance, reward_rate, reward_tick);
    assert_eq!(result, 1);

    let balance = 10_000;
    let result = _calculate_reward(blocks_held, balance, reward_rate, reward_tick);
    assert_eq!(result, 5);
}

#[test]
fn reward_rounds_halves_away_from_zero() {
    assert_eq!(_calculate_reward(1, 1, 5_000, 1), 1);
    assert_eq!(_calculate_reward(1, 1, 4_999, 1), 0);
    assert_eq!(_calculate_reward(1, 3, 5_000, 1), 2);
    assert_eq!(_calculate_reward(1, -1, 5_000, 1), -1);
    assert_eq!(_calculate_reward(1, -1, 4_999, 1), 0);
    assert_eq!(_calculate_reward(1, -3, 5_000, 1), -2);
    assert_eq!(_calculate_reward(288, -1_000, 500, 28_800), -1);
    assert_eq!(_calculate_reward(287, -1_000, 500, 28_800), 0);
    assert_eq!(_calculate_reward(1, 5, 1_000, 2), 0);
}

#[test]
fn reward_is_nothing_over_no_ledgers_no_balance_or_no_rate() {
    assert_eq!(_calculate_reward(0, 1_000_000, 10_000, 1), 0);
    assert_eq!(_calculate_reward(10, 0, 10_000, 1), 0);
    assert_eq!(_calculate_reward(10, 1_000_000, 0, 1), 0);
    assert_eq!(_calculate_reward(0, i128::MIN, u32::MAX, 0), 0);
}

#[test]
fn reward_counts_a_tick_of_zero_as_one() {
    assert_eq!(_calculate_reward(10, 1000, 500, 0), 500);
    assert_eq!(
        _calculate_reward(10, 1000, 500, 0),
        _calculate_reward(10, 1000, 500, 1)
    );
}

#[test]
fn reward_is_exact_beyond_64_bits() {
    assert_eq!(
        _calculate_reward(4_000_000_000, 100_000_000_000_000_000_000, 12_345, 7),
        70_542_857_142_857_142_857_142_857_143
    );
    assert_eq!(
        _calculate_reward(4_000_000_000, -100_000_000_000_000_000_000, 12_345, 7),
        -70_542_857_142_857_142_857_142_857_143
    );
    assert_eq!(
        _calculate_reward(123_456_789, 987_654_321_987_654_321, 4_321, 28_800),
        1_829_412_845_710_305_195_787
    );
    assert_eq!(
        _calculate_reward(1, 18_446_744_073_709_551_616, 1, 3),
        614_891_469_123_652
    );
    assert_eq!(
        _calculate_reward(1, 18_446_744_073_709_551_617, 15_000, 1),
        27_670_116_110_564_327_426
    );
    assert_eq!(
        _calculate_reward(7, 1_000_000_000_000_000_000, 1, u32::MAX),
        162_981
    );
    assert_eq!(
        _calculate_reward(3, i128::MAX, 3_333, 1),
        170_124_169_342_123_184_808_514_134_985_512_517_316
    );
}

#[test]
fn reward_stays_within_128_bits() {
    assert_eq!(_calculate_reward(u32::MAX, i128::MAX, u32::MAX, 1), i128::MAX);
    assert_eq!(_calculate_reward(u32::MAX, i128::MIN, u32::MAX, 1), i128::MIN);
    assert_eq!(_calculate_reward(1, i128::MAX, 10_000, 1), i128::MAX);
    assert_eq!(_calculate_reward(1, i128::MIN, 10_000, 1), i128::MIN);
    assert_eq!(_calculate_reward(1, i128::MAX, 10_001, 1), i128::MAX);
    assert_eq!(
        _calculate_reward(1, i128::MIN, 5_000, 1),
        -85_070_591_730_234_615_865_843_651_857_942_052_864
    );
    // the last balance whose reward fits, and the first whose reward does not
    assert_eq!(
        _calculate_reward(u32::MAX, 92_233_720_411_497_431_055_000, u32::MAX, 1),
        170_141_183_460_469_231_731_687_303_707_294_171_138
    );
    assert_eq!(
        _calculate_reward(u32::MAX, -92_233_720_411_497_431_055_000, u32::MAX, 1),
        -170_141_183_460_469_231_731_687_303_707_294_171_138
    );
    assert_eq!(
        _calculate_reward(u32::MAX, 92_233_720_411_497_431_055_001, u32::MAX, 1),
        i128::MAX
    );
    assert_eq!(
        _calculate_reward(u32::MAX, -92_233_720_411_497_431_055_001, u32::MAX, 1),
        i128::MIN
    );
}

#[test]
fn reward_parameters_have_defaults() {
    let mut e = Env::new(5);
    assert_eq!(get_reward_rate(&mut e), 0);
    assert_eq!(get_reward_tick(&mut e), 1);
    set_reward_rate(&mut e, 750);
    set_reward_tick(&mut e, 12);
    assert_eq!(get_reward_rate(&mut e), 750);
    assert_eq!(get_reward_tick(&mut e), 12);
    assert_eq!(e.peek(DataKey::RewardRate), Some(StoredValue::U32(750)));
    assert_eq!(e.peek(DataKey::RewardTick), Some(StoredValue::U32(12)));
}

#[test]
fn a_reward_tick_of_zero_reads_as_one() {
    let mut e = Env::new(5);
    set_reward_tick(&mut e, 0);
    assert_eq!(e.peek(DataKey::RewardTick), Some(StoredValue::U32(0)));
    assert_eq!(get_reward_tick(&mut e), 1);
}

#[test]
fn an_address_without_a_record_has_no_reward() {
    let (mut env, investor) = setup_test_env();
    assert_eq!(read_reward(&mut env, investor), 0);
    assert_eq!(calculate_reward(&mut env, investor, 1_000_000), 0);
    assert_eq!(checkpoint_of(&env, investor), None);
}

#[test]
fn the_first_checkpoint_creates_an_empty_record_at_the_current_ledger() {
    let (mut env, investor) = setup_test_env();
    advance_ledger(&mut env, 41);
    assert_eq!(checkpoint_reward(&mut env, investor, 1_000_000), Ok(()));
    assert_eq!(
        checkpoint_of(&env, investor),
        Some(AccumulatedReward {
            created_ledger_number: 41,
            last_ledger_number: 41,
            amount: 0,
        })
    );
    assert_eq!(read_reward(&mut env, investor), 0);
}

#[test]
fn a_later_checkpoint_keeps_the_creation_ledger_and_adds_what_was_earned() {
    let (mut env, investor) = setup_test_env();
    advance_ledger(&mut env, 100);
    assert_eq!(checkpoint_reward(&mut env, investor, 1_000), Ok(()));
    advance_ledger(&mut env, 10);
    assert_eq!(calculate_reward(&mut env, investor, 1_000), 500);
    assert_eq!(checkpoint_reward(&mut env, investor, 1_000), Ok(()));
    assert_eq!(
        checkpoint_of(&env, investor),
        Some(AccumulatedReward {
            created_ledger_number: 100,
            last_ledger_number: 110,
            amount: 500,
        })
    );
    assert_eq!(read_reward(&mut env, investor), 500);
}

#[test]
fn repeated_checkpoints_count_from_the_creation_ledger_each_time() {
    let (mut env, investor) = setup_test_env();
    assert_eq!(checkpoint_reward(&mut env, investor, 1_000), Ok(()));
    advance_ledger(&mut env, 10);
    assert_eq!(checkpoint_reward(&mut env, investor, 1_000), Ok(()));
    assert_eq!(read_reward(&mut env, investor), 500);
    assert_eq!(checkpoint_reward(&mut env, investor, 1_000), Ok(()));
    assert_eq!(read_reward(&mut env, investor), 1_000);
    advance_ledger(&mut env, 10);
    assert_eq!(checkpoint_reward(&mut env, investor, 1_000), Ok(()));
    assert_eq!(read_reward(&mut env, investor), 2_000);
    assert_eq!(
        checkpoint_of(&env, investor),
        Some(AccumulatedReward {
            created_ledger_number: 0,
            last_ledger_number: 20,
            amount: 2_000,
        })
    );
}

#[test]
fn write_reward_starts_and_extends_a_record() {
    let mut e = Env::new(9);
    let a = account(4);
    assert_eq!(write_reward(&mut e, a, 25), Ok(()));
    assert_eq!(
        checkpoint_of(&e, a),
        Some(AccumulatedReward {
            created_ledger_number: 9,
            last_ledger_number: 9,
            amount: 25,
        })
    );
    assert!(e.advance_ledger(3));
    assert_eq!(write_reward(&mut e, a, -5), Ok(()));
    assert_eq!(
        checkpoint_of(&e, a),
        Some(AccumulatedReward {
            created_ledger_number: 9,
            last_ledger_number: 12,
            amount: 20,
        })
    );
    assert_eq!(checkpoint_of(&e, account(5)), None);
}

#[test]
fn write_reward_refuses_a_sum_that_does_not_fit() {
    let mut e = Env::new(9);
    let a = account(4);
    assert_eq!(write_reward(&mut e, a, i128::MAX), Ok(()));
    assert!(e.advance_ledger(1));
    assert_eq!(write_reward(&mut e, a, 1), Err(Error::RewardOverflow));
    assert_eq!(
        checkpoint_of(&e, a),
        Some(AccumulatedReward {
            created_ledger_number: 9,
            last_ledger_number: 9,
            amount: i128::MAX,
        })
    );
    assert_eq!(write_reward(&mut e, a, 0), Ok(()));
    assert_eq!(write_reward(&mut e, a, -1), Ok(()));
    assert_eq!(read_reward(&mut e, a), i128::MAX - 1);

    let b = account(6);
    assert_eq!(write_reward(&mut e, b, i128::MIN), Ok(()));
    assert_eq!(write_reward(&mut e, b, -1), Err(Error::RewardOverflow));
    assert_eq!(read_reward(&mut e, b), i128::MIN);
}

#[test]
fn checkpoint_refuses_a_reward_that_does_not_fit() {
    let mut e = Env::new(0);
    let a = account(4);
    set_reward_rate(&mut e, 10_000);
    set_reward_tick(&mut e, 1);
    assert_eq!(write_reward(&mut e, a, i128::MAX - 10), Ok(()));
    assert!(e.advance_ledger(1));
    assert_eq!(checkpoint_reward(&mut e, a, 11), Err(Error::RewardOverflow));
    assert_eq!(read_reward(&mut e, a), i128::MAX - 10);
    assert_eq!(checkpoint_of(&e, a).map(|r| r.last_ledger_number), Some(0));
    assert_eq!(checkpoint_reward(&mut e, a, 10), Ok(()));
    assert_eq!(read_reward(&mut e, a), i128::MAX);
}

#[test]
fn reset_reward_deletes_the_record() {
    let (mut env, investor) = setup_test_env();
    let other = account(77);
    assert_eq!(write_reward(&mut env, investor, 12), Ok(()));
    assert_eq!(write_reward(&mut env, other, 13), Ok(()));
    reset_reward(&mut env, investor);
    assert_eq!(checkpoint_of(&env, investor), None);
    assert_eq!(read_reward(&mut env, investor), 0);
    assert_eq!(read_reward(&mut env, other), 13);
    reset_reward(&mut env, investor);
    assert_eq!(checkpoint_of(&env, investor), None);
}

#[test]
fn a_negative_balance_lowers_the_recorded_reward() {
    let (mut env, investor) = setup_test_env();
    assert_eq!(checkpoint_reward(&mut env, investor, 0), Ok(()));
    advance_ledger(&mut env, 10);
    assert_eq!(checkpoint_reward(&mut env, investor, -1_000), Ok(()));
    assert_eq!(read_reward(&mut env, investor), -500);
}

#[test]
fn the_setup_leaves_the_administrator_in_place() {
    let (mut env, _) = setup_test_env();
    assert_eq!(read_contract_admin(&mut env), Some(account(2)));
    write_contract_admin(&mut env, &account(3));
    assert_eq!(read_contract_admin(&mut env), Some(account(3)));
    assert_eq!(get_reward_rate(&mut env), 500);
    assert_eq!(get_reward_tick(&mut env), 1);
}

#[test]
fn reading_the_reward_extends_the_lifetime_of_the_record() {
    let mut e = Env::new(3);
    let a = account(4);
    let key = DataKey::RewardCheckpoint(a);
    assert!(e.load(
        key,
        StoredValue::Reward(AccumulatedReward {
            created_ledger_number: 1,
            last_ledger_number: 2,
            amount: 40,
        })
    ));
    assert!(!e.is_extended(key));
    assert_eq!(read_reward(&mut e, a), 40);
    assert!(e.is_extended(key));
    // a record that is not there has no lifetime to extend
    assert_eq!(read_reward(&mut e, account(5)), 0);
    assert!(!e.is_extended(DataKey::RewardCheckpoint(account(5))));
}

#[test]
fn calculating_the_reward_reads_the_record_and_both_parameters() {
    let mut e = Env::new(30);
    let a = account(4);
    assert!(e.load(DataKey::RewardRate, StoredValue::U32(10_000)));
    assert!(e.load(DataKey::RewardTick, StoredValue::U32(2)));
    assert!(e.load(
        DataKey::RewardCheckpoint(a),
        StoredValue::Reward(AccumulatedReward {
            created_ledger_number: 10,
            last_ledger_number: 10,
            amount: 0,
        })
    ));
    assert!(e.load(DataKey::Kyc(a), StoredValue::Flag(true)));
    assert_eq!(calculate_reward(&mut e, a, 7), 70);
    assert!(e.is_extended(DataKey::RewardRate));
    assert!(e.is_extended(DataKey::RewardTick));
    assert!(e.is_extended(DataKey::RewardCheckpoint(a)));
    assert!(!e.is_extended(DataKey::Kyc(a)));
    assert_eq!(read_reward(&mut e, a), 0);
}

#[test]
fn a_refused_checkpoint_extends_no_lifetime() {
    let mut e = Env::new(0);
    let a = account(4);
    assert!(e.load(DataKey::RewardRate, StoredValue::U32(10_000)));
    assert!(e.load(DataKey::RewardTick, StoredValue::U32(1)));
    assert!(e.load(
        DataKey::RewardCheckpoint(a),
        StoredValue::Reward(AccumulatedReward {
            created_ledger_number: 0,
            last_ledger_number: 0,
            amount: i128::MAX,
        })
    ));
    assert!(e.advance_ledger(1));
    assert_eq!(checkpoint_reward(&mut e, a, 1), Err(Error::RewardOverflow));
    assert!(!e.is_extended(DataKey::RewardRate));
    assert!(!e.is_extended(DataKey::RewardTick));
    assert!(!e.is_extended(DataKey::RewardCheckpoint(a)));
    assert_eq!(checkpoint_reward(&mut e, a, 0), Ok(()));
    assert!(e.is_extended(DataKey::RewardRate));
    assert!(e.is_extended(DataKey::RewardTick));
    assert!(e.is_extended(DataKey::RewardCheckpoint(a)));
    assert_eq!(
        checkpoint_of(&e, a),
        Some(AccumulatedReward {
            created_ledger_number: 0,
            last_ledger_number: 1,
            amount: i128::MAX,
        })
    );
}

#[test]
fn reward_agrees_with_the_formula_in_floating_point() {
    let balances: [i128; 9] = [-100_000, -4_321, -7, 0, 1, 7, 999, 4_321, 100_000];
    let rates: [u32; 7] = [0, 1, 13, 500, 9_999, 10_000, 20_000];
    let mut compared = 0;
    for blocks_held in 0u32..50 {
        for reward_tick in 1u32..30 {
            for balance in balances {
                for reward_rate in rates {
                    let n = balance * reward_rate as i128 * blocks_held as i128;
                    let d = 10_000 * reward_tick as i128;
                    if (2 * n).rem_euclid(2 * d) == d {
                        // exactly half way between two integers, where the
                        // last bit of a floating-point product decides
                        continue;
                    }
                    let rate = reward_rate as f64 / 10_000 as f64;
                    let holding_period = blocks_held as f64 / reward_tick as f64;
                    let expected = (balance as f64 * rate * holding_period).round() as i128;
                    assert_eq!(
                        _calculate_reward(blocks_held, balance, reward_rate, reward_tick),
                        expected,
                        "blocks {} balance {} rate {} tick {}",
                        blocks_held,
                        balance,
                        reward_rate,
                        reward_tick
                    );
                    compared += 1;
                }
            }
        }
    }
    assert!(compared > 80_000);
}
