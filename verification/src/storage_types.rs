//! The key schema of the contract's storage, the values kept under each key,
//! and how long each kind of entry is kept alive.
use vstd::prelude::*;

verus! {

/// Ledgers closed in one day, at five seconds a ledger.
pub const ONE_DAY_LEDGERS: u32 = 17280;

/// Instance entries are extended once fewer than about 30 days remain ...
pub const INSTANCE_LIFETIME_THRESHOLD: u32 = ONE_DAY_LEDGERS * 30;

/// ... to about 31 days.
pub const INSTANCE_BUMP_AMOUNT: u32 = INSTANCE_LIFETIME_THRESHOLD + ONE_DAY_LEDGERS;

/// Shared persistent entries are extended once fewer than about 45 days remain ...
pub const LEDGER_THRESHOLD_SHARED: u32 = ONE_DAY_LEDGERS * 45;

/// ... to about 46 days.
pub const LEDGER_BUMP_SHARED: u32 = LEDGER_THRESHOLD_SHARED + ONE_DAY_LEDGERS;

/// Per-address entries are extended once fewer than about 100 days remain ...
pub const LEDGER_THRESHOLD_USER: u32 = ONE_DAY_LEDGERS * 100;

/// ... to about 120 days.
pub const LEDGER_BUMP_USER: u32 = LEDGER_THRESHOLD_USER + 20 * ONE_DAY_LEDGERS;

/// What an address stands for.
#[derive(Clone, Copy, Debug, PartialEq, Eq, Structural)]
pub enum AddressKind {
    /// An account, named by its public key.
    Account,
    /// A contract, named by the hash of its identifier.
    Contract,
}

/// An opaque identifier of an account or a contract: a kind and 32 bytes,
/// held as the two big-endian halves of a 256-bit number.
#[derive(Clone, Copy, Debug, PartialEq, Eq, Structural)]
pub struct Address {
    pub kind: AddressKind,
    pub hi: u128,
    pub lo: u128,
}

/// An allowance together with the ledger after which it lapses.
#[derive(Clone, Copy, Debug, PartialEq, Eq, Structural)]
pub struct AllowanceValue {
    pub amount: i128,
    pub expiration_ledger: u32,
}

/// The reward an address has accrued, with the ledgers at which the record
/// was created and last written.
#[derive(Clone, Copy, Debug, PartialEq, Eq, Structural)]
pub struct AccumulatedReward {
    pub created_ledger_number: u32,
    pub last_ledger_number: u32,
    pub amount: i128,
}

/// The keys under which the contract stores its state.
#[derive(Clone, Copy, Debug, PartialEq, Eq, Structural)]
pub enum DataKey {
    RewardCheckpoint(Address),
    Kyc(Address),
    Blacklisted(Address),
    Amm(Address),
    ContractAdmin,
    TokenAddress,
    RewardRate,
    RewardTick,
}

/// Where an entry lives: with the contract instance, or on its own.
#[derive(Clone, Copy, Debug, PartialEq, Eq, Structural)]
pub enum Scope {
    Instance,
    Persistent,
}

/// A value as it is kept in storage.
#[derive(Clone, Copy, Debug, PartialEq, Eq, Structural)]
pub enum StoredValue {
    Address(Address),
    U32(u32),
    Flag(bool),
    Reward(AccumulatedReward),
}

/// When an entry's lifetime is extended, and to how many ledgers.
#[derive(Clone, Copy, Debug, PartialEq, Eq, Structural)]
pub struct Lifetime {
    /// The entry is extended once fewer than this many ledgers remain.
    pub threshold: u32,
    /// The number of ledgers the entry then has left.
    pub extend_to: u32,
}

impl AccumulatedReward {
    /// A record is created no later than it is last written, and is never
    /// written after the current ledger `sequence`.
    pub open spec fn ordered(self, sequence: u32) -> bool {
        self.created_ledger_number <= self.last_ledger_number <= sequence
    }
}

impl DataKey {
    /// The administrator and the underlying asset are kept with the contract
    /// instance, everything else in persistent entries of its own.
    pub open spec fn spec_scope(self) -> Scope {
        match self {
            DataKey::ContractAdmin | DataKey::TokenAddress => Scope::Instance,
            _ => Scope::Persistent,
        }
    }

    /// The lifetime policy of the entry under this key: about 31 days for
    /// instance entries, about 46 days for the shared reward parameters and
    /// about 120 days for what is kept per address.
    pub open spec fn spec_lifetime(self) -> Lifetime {
        match self {
            DataKey::ContractAdmin | DataKey::TokenAddress => Lifetime {
                threshold: INSTANCE_LIFETIME_THRESHOLD,
                extend_to: INSTANCE_BUMP_AMOUNT,
            },
            DataKey::RewardRate | DataKey::RewardTick => Lifetime {
                threshold: LEDGER_THRESHOLD_SHARED,
                extend_to: LEDGER_BUMP_SHARED,
            },
            _ => Lifetime { threshold: LEDGER_THRESHOLD_USER, extend_to: LEDGER_BUMP_USER },
        }
    }

    /// Whether `value` has the type that is kept under this key; a reward
    /// record must also be `ordered` with respect to the ledger `sequence`.
    pub open spec fn spec_admits(self, value: StoredValue, sequence: u32) -> bool {
        match self {
            DataKey::ContractAdmin | DataKey::TokenAddress => value is Address,
            DataKey::RewardRate | DataKey::RewardTick => value is U32,
            DataKey::Kyc(_) | DataKey::Blacklisted(_) | DataKey::Amm(_) => value is Flag,
            DataKey::RewardCheckpoint(_) => value is Reward && value->Reward_0.ordered(sequence),
        }
    }

    /// The keys under which the contract keeps one value for all: the
    /// administrator, the underlying asset and the two reward parameters.
    pub fn shared() -> (keys: Vec<DataKey>)
        ensures
            keys@ == seq![
                DataKey::ContractAdmin,
                DataKey::TokenAddress,
                DataKey::RewardRate,
                DataKey::RewardTick,
            ],
    {
        vec![
            DataKey::ContractAdmin,
            DataKey::TokenAddress,
            DataKey::RewardRate,
            DataKey::RewardTick,
        ]
    }

    /// The keys under which the contract keeps what it knows of `address`:
    /// its three flags and its reward record.
    pub fn of_address(address: Address) -> (keys: Vec<DataKey>)
        ensures
            keys@ == seq![
                DataKey::Kyc(address),
                DataKey::Blacklisted(address),
                DataKey::Amm(address),
                DataKey::RewardCheckpoint(address),
            ],
    {
        vec![
            DataKey::Kyc(address),
            DataKey::Blacklisted(address),
            DataKey::Amm(address),
            DataKey::RewardCheckpoint(address),
        ]
    }

    #[verifier::when_used_as_spec(spec_scope)]
    pub fn scope(self) -> (scope: Scope)
        ensures
            scope == self.spec_scope(),
    {
        match self {
            DataKey::ContractAdmin | DataKey::TokenAddress => Scope::Instance,
            _ => Scope::Persistent,
        }
    }

    #[verifier::when_used_as_spec(spec_lifetime)]
    pub fn lifetime(self) -> (lifetime: Lifetime)
        ensures
            lifetime == self.spec_lifetime(),
            lifetime.threshold < lifetime.extend_to,
    {
        match self {
            DataKey::ContractAdmin | DataKey::TokenAddress => Lifetime {
                threshold: INSTANCE_LIFETIME_THRESHOLD,
                extend_to: INSTANCE_BUMP_AMOUNT,
            },
            DataKey::RewardRate | DataKey::RewardTick => Lifetime {
                threshold: LEDGER_THRESHOLD_SHARED,
                extend_to: LEDGER_BUMP_SHARED,
            },
            _ => Lifetime { threshold: LEDGER_THRESHOLD_USER, extend_to: LEDGER_BUMP_USER },
        }
    }

    #[verifier::when_used_as_spec(spec_admits)]
    pub fn admits(self, value: StoredValue, sequence: u32) -> (ok: bool)
        ensures
            ok == self.spec_admits(value, sequence),
    {
        match self {
            DataKey::ContractAdmin | DataKey::TokenAddress => match value {
                StoredValue::Address(_) => true,
                _ => false,
            },
            DataKey::RewardRate | DataKey::RewardTick => match value {
                StoredValue::U32(_) => true,
                _ => false,
            },
            DataKey::Kyc(_) | DataKey::Blacklisted(_) | DataKey::Amm(_) => match value {
                StoredValue::Flag(_) => true,
                _ => false,
            },
            DataKey::RewardCheckpoint(_) => match value {
                StoredValue::Reward(reward) => reward.created_ledger_number
                    <= reward.last_ledger_number && reward.last_ledger_number <= sequence,
                _ => false,
            },
        }
    }
}

} // verus!
