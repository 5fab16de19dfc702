//! The registry of the contract's administrator and underlying asset, the
//! compliance flags kept per address, and the guards built on them.
//!
//! Whatever a function here reads or writes has its lifetime extended. A
//! guard that refuses leaves the environment as it was.
use crate::env::{Env, EnvView};
use crate::error::Error;
use crate::storage_types::{Address, DataKey, StoredValue};
use vstd::prelude::*;

verus! {

impl EnvView {
    /// The address stored under `key`, if one is.
    pub open spec fn address_at(self, key: DataKey) -> Option<Address> {
        match self.get(key) {
            Some(StoredValue::Address(address)) => Some(address),
            _ => None,
        }
    }

    /// Whether the flag under `key` is present and set.
    pub open spec fn flag(self, key: DataKey) -> bool {
        self.get(key) == Some(StoredValue::Flag(true))
    }

    /// The contract's administrator, once there is one.
    pub open spec fn contract_admin(self) -> Option<Address> {
        self.address_at(DataKey::ContractAdmin)
    }

    /// The underlying asset, once it is known.
    pub open spec fn token_address(self) -> Option<Address> {
        self.address_at(DataKey::TokenAddress)
    }

    /// Whether the address under `key` authorised the current invocation.
    /// Where no address is stored there, nobody can.
    pub open spec fn authorized_by(self, key: DataKey) -> bool {
        match self.address_at(key) {
            Some(address) => self.has_auth(address),
            None => false,
        }
    }

    /// Whether the contract's administrator authorised the current
    /// invocation. Without an administrator nobody can.
    pub open spec fn admin_authorized(self) -> bool {
        self.authorized_by(DataKey::ContractAdmin)
    }

    /// Whether the underlying asset authorised the current invocation.
    pub open spec fn token_authorized(self) -> bool {
        self.authorized_by(DataKey::TokenAddress)
    }

    /// Whether `addr` has passed the KYC check.
    pub open spec fn is_kyc_passed(self, addr: Address) -> bool {
        self.flag(DataKey::Kyc(addr))
    }

    /// Whether `addr` is blacklisted.
    pub open spec fn is_blacklisted(self, addr: Address) -> bool {
        self.flag(DataKey::Blacklisted(addr))
    }

    /// Whether `addr` is a recognised automated market maker.
    pub open spec fn is_amm(self, addr: Address) -> bool {
        self.flag(DataKey::Amm(addr))
    }

    /// This environment with the flag under `key` set.
    pub open spec fn raise(self, key: DataKey) -> EnvView {
        self.put(key, StoredValue::Flag(true))
    }

    /// This environment once the administrator is read.
    pub open spec fn as_admin(self) -> EnvView {
        self.read(DataKey::ContractAdmin)
    }
}

/// Whether the contract has an administrator.
pub fn has_contract_admin(e: &mut Env) -> (found: bool)
    requires
        old(e).wf(),
    ensures
        final(e).wf(),
        found == old(e)@.entries.contains_key(DataKey::ContractAdmin),
        found == old(e)@.contract_admin().is_some(),
        final(e)@ == old(e)@.as_admin(),
{
    proof {
        e.lemma_wf();
    }
    e.has(DataKey::ContractAdmin)
}

fn read_address(e: &mut Env, key: DataKey) -> (address: Option<Address>)
    requires
        old(e).wf(),
    ensures
        final(e).wf(),
        address == old(e)@.address_at(key),
        final(e)@ == old(e)@.read(key),
{
    match e.get(key) {
        Some(StoredValue::Address(address)) => Some(address),
        _ => None,
    }
}

/// The contract's administrator, once there is one.
pub fn read_contract_admin(e: &mut Env) -> (admin: Option<Address>)
    requires
        old(e).wf(),
    ensures
        final(e).wf(),
        admin == old(e)@.contract_admin(),
        final(e)@ == old(e)@.as_admin(),
{
    read_address(e, DataKey::ContractAdmin)
}

/// Makes `id` the contract's administrator.
pub fn write_contract_admin(e: &mut Env, id: &Address)
    requires
        old(e).wf(),
    ensures
        final(e).wf(),
        final(e)@ == old(e)@.put(DataKey::ContractAdmin, StoredValue::Address(*id)),
{
    e.set(DataKey::ContractAdmin, StoredValue::Address(*id));
}

/// Records `token` as the underlying asset.
pub fn write_token_address(e: &mut Env, token: &Address)
    requires
        old(e).wf(),
    ensures
        final(e).wf(),
        final(e)@ == old(e)@.put(DataKey::TokenAddress, StoredValue::Address(*token)),
{
    e.set(DataKey::TokenAddress, StoredValue::Address(*token));
}

/// The underlying asset, once it is known.
pub fn read_token_address(e: &mut Env) -> (token: Option<Address>)
    requires
        old(e).wf(),
    ensures
        final(e).wf(),
        token == old(e)@.token_address(),
        final(e)@ == old(e)@.read(DataKey::TokenAddress),
{
    read_address(e, DataKey::TokenAddress)
}

fn read_flag(e: &mut Env, key: DataKey) -> (set: bool)
    requires
        old(e).wf(),
    ensures
        final(e).wf(),
        set == old(e)@.flag(key),
        final(e)@ == old(e)@.read(key),
{
    match e.get(key) {
        Some(StoredValue::Flag(set)) => set,
        _ => false,
    }
}

fn raise_flag(e: &mut Env, key: DataKey)
    requires
        old(e).wf(),
        key is Kyc || key is Blacklisted || key is Amm,
    ensures
        final(e).wf(),
        final(e)@ == old(e)@.raise(key),
{
    e.set(key, StoredValue::Flag(true));
}

/// Refuses with `error` where the flag under `key` is set.
fn refuse_flagged(e: &mut Env, key: DataKey, error: Error) -> (outcome: Result<(), Error>)
    requires
        old(e).wf(),
    ensures
        final(e).wf(),
        outcome == if old(e)@.flag(key) {
            Err::<(), Error>(error)
        } else {
            Ok::<(), Error>(())
        },
        final(e)@ == if old(e)@.flag(key) {
            old(e)@
        } else {
            old(e)@.read(key)
        },
{
    match e.peek(key) {
        Some(StoredValue::Flag(true)) => Err(error),
        _ => {
            e.get(key);
            Ok(())
        },
    }
}

/// Marks `addr` as having passed the KYC check.
pub fn write_kyc(e: &mut Env, addr: Address)
    requires
        old(e).wf(),
    ensures
        final(e).wf(),
        final(e)@ == old(e)@.raise(DataKey::Kyc(addr)),
{
    raise_flag(e, DataKey::Kyc(addr));
}

/// Forgets that `addr` has passed the KYC check.
pub fn remove_kyc(e: &mut Env, addr: Address)
    requires
        old(e).wf(),
    ensures
        final(e).wf(),
        final(e)@ == old(e)@.del(DataKey::Kyc(addr)),
{
    e.remove(DataKey::Kyc(addr));
}

/// Whether `addr` has passed the KYC check.
pub fn is_kyc_passed(e: &mut Env, addr: Address) -> (passed: bool)
    requires
        old(e).wf(),
    ensures
        final(e).wf(),
        passed == old(e)@.is_kyc_passed(addr),
        final(e)@ == old(e)@.read(DataKey::Kyc(addr)),
{
    read_flag(e, DataKey::Kyc(addr))
}

/// Refuses an address that the underlying asset does not authorise.
/// `authorized` is what the asset answers when asked about the address.
pub fn check_authorized(authorized: bool) -> (outcome: Result<(), Error>)
    ensures
        outcome == if authorized {
            Ok::<(), Error>(())
        } else {
            Err::<(), Error>(Error::NotAuthorizedByUnderlying)
        },
{
    if authorized {
        Ok(())
    } else {
        Err(Error::NotAuthorizedByUnderlying)
    }
}

/// Takes `addr` off the blacklist.
pub fn remove_blacklist(e: &mut Env, addr: Address)
    requires
        old(e).wf(),
    ensures
        final(e).wf(),
        final(e)@ == old(e)@.del(DataKey::Blacklisted(addr)),
{
    e.remove(DataKey::Blacklisted(addr));
}

/// Puts `addr` on the blacklist.
pub fn write_blacklist(e: &mut Env, addr: Address)
    requires
        old(e).wf(),
    ensures
        final(e).wf(),
        final(e)@ == old(e)@.raise(DataKey::Blacklisted(addr)),
{
    raise_flag(e, DataKey::Blacklisted(addr));
}

/// Refuses a blacklisted address.
pub fn check_not_blacklisted(e: &mut Env, addr: Address) -> (outcome: Result<(), Error>)
    requires
        old(e).wf(),
    ensures
        final(e).wf(),
        outcome == if old(e)@.is_blacklisted(addr) {
            Err::<(), Error>(Error::Blacklisted)
        } else {
            Ok::<(), Error>(())
        },
        final(e)@ == if old(e)@.is_blacklisted(addr) {
            old(e)@
        } else {
            old(e)@.read(DataKey::Blacklisted(addr))
        },
{
    refuse_flagged(e, DataKey::Blacklisted(addr), Error::Blacklisted)
}

/// Takes `addr` out of the set of automated market makers.
pub fn remove_amm(e: &mut Env, addr: Address)
    requires
        old(e).wf(),
    ensures
        final(e).wf(),
        final(e)@ == old(e)@.del(DataKey::Amm(addr)),
{
    e.remove(DataKey::Amm(addr));
}

/// Adds `addr` to the set of automated market makers.
pub fn add_amm(e: &mut Env, addr: Address)
    requires
        old(e).wf(),
    ensures
        final(e).wf(),
        final(e)@ == old(e)@.raise(DataKey::Amm(addr)),
{
    raise_flag(e, DataKey::Amm(addr));
}

/// Whether `addr` is a recognised automated market maker.
pub fn is_amm(e: &mut Env, addr: Address) -> (found: bool)
    requires
        old(e).wf(),
    ensures
        final(e).wf(),
        found == old(e)@.is_amm(addr),
        final(e)@ == old(e)@.read(DataKey::Amm(addr)),
{
    read_flag(e, DataKey::Amm(addr))
}

/// Refuses an automated market maker.
pub fn check_not_amm(e: &mut Env, addr: Address) -> (outcome: Result<(), Error>)
    requires
        old(e).wf(),
    ensures
        final(e).wf(),
        outcome == if old(e)@.is_amm(addr) {
            Err::<(), Error>(Error::AmmNotAllowed)
        } else {
            Ok::<(), Error>(())
        },
        final(e)@ == if old(e)@.is_amm(addr) {
            old(e)@
        } else {
            old(e)@.read(DataKey::Amm(addr))
        },
{
    refuse_flagged(e, DataKey::Amm(addr), Error::AmmNotAllowed)
}

/// The address under `key`, provided it authorised the current invocation.
fn require_auth_of(e: &mut Env, key: DataKey) -> (outcome: Result<Address, Error>)
    requires
        old(e).wf(),
    ensures
        final(e).wf(),
        match outcome {
            Ok(address) => old(e)@.authorized_by(key) && old(e)@.address_at(key) == Some(address)
                && final(e)@ == old(e)@.read(key),
            Err(error) => !old(e)@.authorized_by(key) && error == Error::Unauthenticated
                && final(e)@ == old(e)@,
        },
{
    match e.peek(key) {
        Some(StoredValue::Address(address)) => {
            if e.has_auth(address) {
                e.get(key);
                Ok(address)
            } else {
                Err(Error::Unauthenticated)
            }
        },
        _ => Err(Error::Unauthenticated),
    }
}

/// The contract's administrator, provided it authorised the current
/// invocation.
pub fn require_contract_admin(e: &mut Env) -> (outcome: Result<Address, Error>)
    requires
        old(e).wf(),
    ensures
        final(e).wf(),
        match outcome {
            Ok(admin) => old(e)@.admin_authorized() && old(e)@.contract_admin() == Some(admin)
                && final(e)@ == old(e)@.as_admin(),
            Err(error) => !old(e)@.admin_authorized() && error == Error::Unauthenticated
                && final(e)@ == old(e)@,
        },
{
    require_auth_of(e, DataKey::ContractAdmin)
}

/// The underlying asset, provided it authorised the current invocation.
pub fn require_token_admin(e: &mut Env) -> (outcome: Result<Address, Error>)
    requires
        old(e).wf(),
    ensures
        final(e).wf(),
        match outcome {
            Ok(token) => old(e)@.token_authorized() && old(e)@.token_address() == Some(token)
                && final(e)@ == old(e)@.read(DataKey::TokenAddress),
            Err(error) => !old(e)@.token_authorized() && error == Error::Unauthenticated
                && final(e)@ == old(e)@,
        },
{
    require_auth_of(e, DataKey::TokenAddress)
}

} // verus!
