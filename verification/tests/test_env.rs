use excellar_token::env::Env;
use excellar_token::storage_types::{
    AccumulatedReward, Address, AddressKind, AllowanceValue, DataKey, Lifetime, Scope,
    StoredValue, INSTANCE_BUMP_AMOUNT, INSTANCE_LIFETIME_THRESHOLD, LEDGER_BUMP_SHARED,
    LEDGER_BUMP_USER, LEDGER_THRESHOLD_SHARED, LEDGER_THRESHOLD_USER, ONE_DAY_LEDGERS,
};

fn contract_address(n: u128) -> Address {
    Address { kind: AddressKind::Contract, hi: n, lo: n }
}

fn record(created: u32, last: u32, amount: i128) -> StoredValue {
    StoredValue::Reward(AccumulatedReward {
        created_ledger_number: created,
        last_ledger_number: last,
        amount,
    })
}

#[test]
fn a_new_environment_is_empty() {
    let e = Env::new(17);
    assert_eq!(e.ledger_sequence(), 17);
    assert_eq!(e.peek(DataKey::ContractAdmin), None);
    assert_eq!(e.peek(DataKey::Kyc(contract_address(1))), None);
    assert!(!e.has_auth(contract_address(1)));
    assert!(!e.is_extended(DataKey::ContractAdmin));
}

#[test]
fn set_stores_and_get_reads_back() {
    let mut e = Env::new(0);
    let a = contract_address(1);
    let b = contract_address(2);
    assert!(e.set(DataKey::Kyc(a), StoredValue::Flag(true)));
    assert!(e.set(DataKey::Kyc(b), StoredValue::Flag(false)));
    assert!(e.set(DataKey::RewardRate, StoredValue::U32(9)));
    assert_eq!(e.get(DataKey::Kyc(a)), Some(StoredValue::Flag(true)));
    assert_eq!(e.get(DataKey::Kyc(b)), Some(StoredValue::Flag(false)));
    assert_eq!(e.get(DataKey::RewardRate), Some(StoredValue::U32(9)));
    assert_eq!(e.get(DataKey::Blacklisted(a)), None);
    assert!(e.set(DataKey::Kyc(a), StoredValue::Flag(false)));
    assert_eq!(e.get(DataKey::Kyc(a)), Some(StoredValue::Flag(false)));
    assert_eq!(e.get(DataKey::Kyc(b)), Some(StoredValue::Flag(false)));
    assert!(e.has(DataKey::Kyc(a)));
    assert!(!e.has(DataKey::Amm(a)));
}

#[test]
fn addresses_differ_by_kind_and_by_each_half() {
    let mut e = Env::new(0);
    let base = Address { kind: AddressKind::Account, hi: 1, lo: 2 };
    let other_kind = Address { kind: AddressKind::Contract, hi: 1, lo: 2 };
    let other_hi = Address { kind: AddressKind::Account, hi: 3, lo: 2 };
    let other_lo = Address { kind: AddressKind::Account, hi: 1, lo: 3 };
    assert!(e.set(DataKey::Kyc(base), StoredValue::Flag(true)));
    assert_eq!(e.peek(DataKey::Kyc(base)), Some(StoredValue::Flag(true)));
    assert_eq!(e.peek(DataKey::Kyc(other_kind)), None);
    assert_eq!(e.peek(DataKey::Kyc(other_hi)), None);
    assert_eq!(e.peek(DataKey::Kyc(other_lo)), None);
    assert_eq!(e.peek(DataKey::Amm(base)), None);
}

#[test]
fn set_refuses_a_value_that_the_key_does_not_admit() {
    let mut e = Env::new(10);
    let a = contract_address(1);
    assert!(!e.set(DataKey::Kyc(a), StoredValue::U32(1)));
    assert!(!e.set(DataKey::ContractAdmin, StoredValue::Flag(true)));
    assert!(!e.set(DataKey::TokenAddress, StoredValue::U32(1)));
    assert!(!e.set(DataKey::RewardRate, StoredValue::Address(a)));
    assert!(!e.set(DataKey::RewardTick, StoredValue::Flag(false)));
    assert!(!e.set(DataKey::Blacklisted(a), record(1, 2, 3)));
    assert!(!e.set(DataKey::Amm(a), StoredValue::Address(a)));
    assert!(!e.set(DataKey::RewardCheckpoint(a), StoredValue::Flag(true)));
    assert_eq!(e.peek(DataKey::Kyc(a)), None);
    assert_eq!(e.peek(DataKey::ContractAdmin), None);
    assert_eq!(e.peek(DataKey::RewardCheckpoint(a)), None);
    assert!(e.set(DataKey::ContractAdmin, StoredValue::Address(a)));
    assert!(e.set(DataKey::TokenAddress, StoredValue::Address(a)));
    assert!(e.set(DataKey::RewardTick, StoredValue::U32(0)));
    assert!(e.set(DataKey::Blacklisted(a), StoredValue::Flag(false)));
    assert!(e.set(DataKey::Amm(a), StoredValue::Flag(true)));
}

#[test]
fn a_reward_record_must_not_run_ahead_of_the_ledger() {
    let mut e = Env::new(10);
    let a = contract_address(1);
    let key = DataKey::RewardCheckpoint(a);
    assert!(!e.set(key, record(5, 11, 0)));
    assert!(!e.set(key, record(6, 5, 0)));
    assert!(!e.load(key, record(11, 11, 0)));
    assert_eq!(e.peek(key), None);
    assert!(e.set(key, record(5, 10, -3)));
    assert!(e.set(key, record(10, 10, 3)));
    assert!(e.set(key, record(0, 0, 3)));
    assert_eq!(e.peek(key), Some(record(0, 0, 3)));
    assert!(DataKey::RewardCheckpoint(a).admits(record(3, 4, 0), 4));
    assert!(!DataKey::RewardCheckpoint(a).admits(record(3, 4, 0), 3));
}

#[test]
fn remove_deletes_one_entry() {
    let mut e = Env::new(0);
    let a = contract_address(1);
    let b = contract_address(2);
    assert!(e.set(DataKey::Kyc(a), StoredValue::Flag(true)));
    assert!(e.set(DataKey::Kyc(b), StoredValue::Flag(true)));
    assert!(e.set(DataKey::Amm(a), StoredValue::Flag(true)));
    e.remove(DataKey::Kyc(a));
    assert_eq!(e.peek(DataKey::Kyc(a)), None);
    assert_eq!(e.peek(DataKey::Kyc(b)), Some(StoredValue::Flag(true)));
    assert_eq!(e.peek(DataKey::Amm(a)), Some(StoredValue::Flag(true)));
    assert!(!e.is_extended(DataKey::Kyc(a)));
    e.remove(DataKey::Kyc(a));
    e.remove(DataKey::Blacklisted(a));
    assert_eq!(e.peek(DataKey::Kyc(b)), Some(StoredValue::Flag(true)));
    e.remove(DataKey::Amm(a));
    e.remove(DataKey::Kyc(b));
    assert_eq!(e.peek(DataKey::Kyc(b)), None);
    assert_eq!(e.peek(DataKey::Amm(a)), None);
}

#[test]
fn reads_and_writes_extend_lifetimes_and_peeks_do_not() {
    let mut e = Env::new(0);
    let a = contract_address(1);
    assert!(e.load(DataKey::Kyc(a), StoredValue::Flag(true)));
    assert!(e.load(DataKey::Amm(a), StoredValue::Flag(true)));
    assert!(e.load(DataKey::RewardRate, StoredValue::U32(1)));
    assert!(!e.is_extended(DataKey::Kyc(a)));
    assert_eq!(e.peek(DataKey::Kyc(a)), Some(StoredValue::Flag(true)));
    assert!(!e.is_extended(DataKey::Kyc(a)));
    assert_eq!(e.get(DataKey::Kyc(a)), Some(StoredValue::Flag(true)));
    assert!(e.is_extended(DataKey::Kyc(a)));
    assert!(!e.is_extended(DataKey::Amm(a)));
    assert!(e.has(DataKey::Amm(a)));
    assert!(e.is_extended(DataKey::Amm(a)));
    assert!(e.set(DataKey::RewardRate, StoredValue::U32(2)));
    assert!(e.is_extended(DataKey::RewardRate));
    assert!(e.set(DataKey::RewardTick, StoredValue::U32(2)));
    assert!(e.is_extended(DataKey::RewardTick));
    // what is not there cannot be extended
    assert_eq!(e.get(DataKey::Blacklisted(a)), None);
    assert!(!e.is_extended(DataKey::Blacklisted(a)));
    // loading over an entry starts it afresh
    assert!(e.load(DataKey::Kyc(a), StoredValue::Flag(false)));
    assert!(!e.is_extended(DataKey::Kyc(a)));
    assert_eq!(e.peek(DataKey::Kyc(a)), Some(StoredValue::Flag(false)));
    assert!(e.is_extended(DataKey::Amm(a)));
}

#[test]
fn the_next_invocation_keeps_what_is_stored_and_nothing_else() {
    let mut e = Env::new(4);
    let a = contract_address(1);
    let b = contract_address(2);
    e.authorize(a);
    assert!(e.set(DataKey::Kyc(a), StoredValue::Flag(true)));
    assert!(e.set(DataKey::RewardTick, StoredValue::U32(5)));
    assert!(e.load(DataKey::Amm(b), StoredValue::Flag(true)));
    e.next_invocation();
    assert!(!e.has_auth(a));
    assert!(!e.is_extended(DataKey::Kyc(a)));
    assert!(!e.is_extended(DataKey::RewardTick));
    assert!(!e.is_extended(DataKey::Amm(b)));
    assert_eq!(e.peek(DataKey::Kyc(a)), Some(StoredValue::Flag(true)));
    assert_eq!(e.peek(DataKey::RewardTick), Some(StoredValue::U32(5)));
    assert_eq!(e.peek(DataKey::Amm(b)), Some(StoredValue::Flag(true)));
    assert_eq!(e.ledger_sequence(), 4);
}

#[test]
fn a_snapshot_is_a_copy_of_its_own() {
    let mut e = Env::new(4);
    let a = contract_address(1);
    e.authorize(a);
    assert!(e.set(DataKey::Kyc(a), StoredValue::Flag(true)));
    assert!(e.load(DataKey::Amm(a), StoredValue::Flag(true)));
    let copy = e.snapshot();
    e.remove(DataKey::Kyc(a));
    assert!(e.advance_ledger(1));
    e.next_invocation();
    assert_eq!(copy.ledger_sequence(), 4);
    assert!(copy.has_auth(a));
    assert_eq!(copy.peek(DataKey::Kyc(a)), Some(StoredValue::Flag(true)));
    assert!(copy.is_extended(DataKey::Kyc(a)));
    assert_eq!(copy.peek(DataKey::Amm(a)), Some(StoredValue::Flag(true)));
    assert!(!copy.is_extended(DataKey::Amm(a)));
    assert_eq!(e.peek(DataKey::Kyc(a)), None);
}

#[test]
fn authorisations_are_kept_per_address() {
    let mut e = Env::new(0);
    let a = contract_address(1);
    let b = contract_address(2);
    assert!(!e.has_auth(a));
    e.authorize(a);
    assert!(e.has_auth(a));
    assert!(!e.has_auth(b));
    e.authorize(b);
    e.authorize(a);
    assert!(e.has_auth(a));
    assert!(e.has_auth(b));
    assert!(!e.has_auth(Address { kind: AddressKind::Account, hi: 1, lo: 1 }));
}

#[test]
fn the_ledger_advances_as_far_as_a_u32_goes() {
    let mut e = Env::new(u32::MAX - 2);
    assert!(e.advance_ledger(0));
    assert_eq!(e.ledger_sequence(), u32::MAX - 2);
    assert!(!e.advance_ledger(3));
    assert_eq!(e.ledger_sequence(), u32::MAX - 2);
    assert!(e.advance_ledger(2));
    assert_eq!(e.ledger_sequence(), u32::MAX);
    assert!(!e.advance_ledger(1));
    assert!(!e.advance_ledger(u32::MAX));
    assert_eq!(e.ledger_sequence(), u32::MAX);
}

#[test]
fn the_lifetimes_follow_the_kind_of_the_key() {
    assert_eq!(ONE_DAY_LEDGERS, 17_280);
    assert_eq!(INSTANCE_LIFETIME_THRESHOLD, 518_400);
    assert_eq!(INSTANCE_BUMP_AMOUNT, 535_680);
    assert_eq!(LEDGER_THRESHOLD_SHARED, 777_600);
    assert_eq!(LEDGER_BUMP_SHARED, 794_880);
    assert_eq!(LEDGER_THRESHOLD_USER, 1_728_000);
    assert_eq!(LEDGER_BUMP_USER, 2_073_600);
    let a = contract_address(1);
    let instance = Lifetime { threshold: 518_400, extend_to: 535_680 };
    let shared = Lifetime { threshold: 777_600, extend_to: 794_880 };
    let user = Lifetime { threshold: 1_728_000, extend_to: 2_073_600 };
    assert_eq!(DataKey::ContractAdmin.lifetime(), instance);
    assert_eq!(DataKey::TokenAddress.lifetime(), instance);
    assert_eq!(DataKey::RewardRate.lifetime(), shared);
    assert_eq!(DataKey::RewardTick.lifetime(), shared);
    assert_eq!(DataKey::Kyc(a).lifetime(), user);
    assert_eq!(DataKey::Blacklisted(a).lifetime(), user);
    assert_eq!(DataKey::Amm(a).lifetime(), user);
    assert_eq!(DataKey::RewardCheckpoint(a).lifetime(), user);
}

#[test]
fn only_the_registry_lives_with_the_instance() {
    let a = contract_address(1);
    assert_eq!(DataKey::ContractAdmin.scope(), Scope::Instance);
    assert_eq!(DataKey::TokenAddress.scope(), Scope::Instance);
    assert_eq!(DataKey::RewardRate.scope(), Scope::Persistent);
    assert_eq!(DataKey::RewardTick.scope(), Scope::Persistent);
    assert_eq!(DataKey::Kyc(a).scope(), Scope::Persistent);
    assert_eq!(DataKey::Blacklisted(a).scope(), Scope::Persistent);
    assert_eq!(DataKey::Amm(a).scope(), Scope::Persistent);
    assert_eq!(DataKey::RewardCheckpoint(a).scope(), Scope::Persistent);
}

#[test]
fn an_allowance_holds_an_amount_and_its_last_ledger() {
    let allowance = AllowanceValue { amount: 12, expiration_ledger: 34 };
    assert_eq!(allowance.amount, 12);
    assert_eq!(allowance.expiration_ledger, 34);
    assert_eq!(allowance, AllowanceValue { amount: 12, expiration_ledger: 34 });
}

#[test]
fn the_keys_of_the_contract_and_of_an_address() {
    let a = contract_address(3);
    assert_eq!(
        DataKey::shared(),
        vec![
            DataKey::ContractAdmin,
            DataKey::TokenAddress,
            DataKey::RewardRate,
            DataKey::RewardTick,
        ]
    );
    assert_eq!(
        DataKey::of_address(a),
        vec![
            DataKey::Kyc(a),
            DataKey::Blacklisted(a),
            DataKey::Amm(a),
            DataKey::RewardCheckpoint(a),
        ]
    );
}

#[test]
fn the_effects_say_what_was_changed_and_what_was_touched() {
    let mut e = Env::new(0);
    let a = contract_address(1);
    let user = Lifetime { threshold: 1_728_000, extend_to: 2_073_600 };
    let shared = Lifetime { threshold: 777_600, extend_to: 794_880 };
    let instance = Lifetime { threshold: 518_400, extend_to: 535_680 };
    let yes = StoredValue::Flag(true);
    let no = StoredValue::Flag(false);
    assert!(e.load(DataKey::Kyc(a), yes));
    assert!(e.load(DataKey::Amm(a), yes));
    assert!(e.load(DataKey::Blacklisted(a), yes));
    assert!(e.load(DataKey::RewardRate, StoredValue::U32(5)));
    // neither read nor written
    assert_eq!(
        e.effects_on(DataKey::Kyc(a), Some(yes)),
        vec![]
    );
    assert_eq!(e.effects_on(DataKey::RewardTick, None), vec![]);
    // read
    assert_eq!(e.get(DataKey::Kyc(a)), Some(yes));
    assert_eq!(
        e.effects_on(DataKey::Kyc(a), Some(yes)),
        vec![excellar_token::env::Effect::Extend { key: DataKey::Kyc(a), lifetime: user }]
    );
    // written with another value
    assert!(e.set(DataKey::Amm(a), no));
    assert_eq!(
        e.effects_on(DataKey::Amm(a), Some(yes)),
        vec![
            excellar_token::env::Effect::Write { key: DataKey::Amm(a), value: no },
            excellar_token::env::Effect::Extend { key: DataKey::Amm(a), lifetime: user },
        ]
    );
    // written with the value it had
    assert!(e.set(DataKey::RewardRate, StoredValue::U32(5)));
    assert_eq!(
        e.effects_on(DataKey::RewardRate, Some(StoredValue::U32(5))),
        vec![excellar_token::env::Effect::Extend { key: DataKey::RewardRate, lifetime: shared }]
    );
    // created
    assert!(e.set(DataKey::ContractAdmin, StoredValue::Address(a)));
    assert_eq!(
        e.effects_on(DataKey::ContractAdmin, None),
        vec![
            excellar_token::env::Effect::Write {
                key: DataKey::ContractAdmin,
                value: StoredValue::Address(a),
            },
            excellar_token::env::Effect::Extend { key: DataKey::ContractAdmin, lifetime: instance },
        ]
    );
    // deleted
    e.remove(DataKey::Blacklisted(a));
    assert_eq!(
        e.effects_on(DataKey::Blacklisted(a), Some(yes)),
        vec![excellar_token::env::Effect::Delete { key: DataKey::Blacklisted(a) }]
    );
    // never there
    e.remove(DataKey::Blacklisted(contract_address(2)));
    assert_eq!(
        e.effects_on(DataKey::Blacklisted(contract_address(2)), None),
        vec![]
    );
}
