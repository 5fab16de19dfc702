//! The operations of the contract: initialisation and administration, the
//! compliance registry, the redemption of rewards, and the interface of the
//! underlying asset, which the contract passes on.
//!
//! An operation takes the environment and either changes it and says what
//! is to be done next (an event to publish, calls to make on the underlying
//! asset), or refuses with an error and leaves the environment as it was.
//! Whatever an operation reads or writes has its lifetime extended.
use crate::admin::{
    add_amm, check_authorized, check_not_amm, has_contract_admin, remove_amm, remove_blacklist,
    remove_kyc, require_contract_admin, write_blacklist, write_contract_admin, write_kyc,
    write_token_address,
};
use crate::asset::AssetCall;
use crate::env::{Env, EnvView};
use crate::error::Error;
use crate::event::{
    add_amm_event, blacklist_event, fail_kyc_event, pass_kyc_event, remove_amm_event,
    whitelist_event, Event, Topic,
};
use crate::reward::{checkpoint_reward, lemma_first_checkpoint, read_reward, reset_reward};
use crate::storage_types::{AccumulatedReward, Address, DataKey, StoredValue};
use vstd::prelude::*;

verus! {

/// The reward rate of a newly initialised contract: 1.00 per reward period.
pub const INITIAL_REWARD_RATE: u32 = 10_000;

/// The reward period of a newly initialised contract, in ledgers.
pub const INITIAL_REWARD_TICK: u32 = 28_800;

/// The contract.
pub struct ExcellarToken;

impl EnvView {
    /// Whether the contract has been initialised: whether its administrator
    /// or its underlying asset is set.
    pub open spec fn is_initialized(self) -> bool {
        self.entries.contains_key(DataKey::ContractAdmin) || self.entries.contains_key(
            DataKey::TokenAddress,
        )
    }

    /// Whether the administrator, the underlying asset and both reward
    /// parameters are set.
    pub open spec fn is_configured(self) -> bool {
        &&& self.entries.contains_key(DataKey::ContractAdmin)
        &&& self.entries.contains_key(DataKey::TokenAddress)
        &&& self.entries.contains_key(DataKey::RewardRate)
        &&& self.entries.contains_key(DataKey::RewardTick)
    }

    /// This environment once the contract is initialised in it.
    pub open spec fn initialize(self, admin: Address, token: Address) -> EnvView {
        self.put(DataKey::ContractAdmin, StoredValue::Address(admin)).put(
            DataKey::TokenAddress,
            StoredValue::Address(token),
        ).set_reward_rate(INITIAL_REWARD_RATE).set_reward_tick(INITIAL_REWARD_TICK)
    }

    /// This environment once `new_admin` is its administrator.
    pub open spec fn set_contract_admin(self, new_admin: Address) -> EnvView {
        self.put(DataKey::ContractAdmin, StoredValue::Address(new_admin))
    }

    /// This environment once `addr` has passed the KYC check.
    pub open spec fn pass_kyc(self, addr: Address) -> EnvView {
        self.raise(DataKey::Kyc(addr))
    }

    /// This environment once `addr` has failed the KYC check.
    pub open spec fn fail_kyc(self, addr: Address) -> EnvView {
        self.del(DataKey::Kyc(addr))
    }

    /// This environment once `addr` is blacklisted.
    pub open spec fn blacklist(self, addr: Address) -> EnvView {
        self.raise(DataKey::Blacklisted(addr))
    }

    /// This environment once `addr` is taken off the blacklist.
    pub open spec fn whitelist(self, addr: Address) -> EnvView {
        self.del(DataKey::Blacklisted(addr))
    }

    /// This environment once `addr` is an automated market maker.
    pub open spec fn add_amm_address(self, addr: Address) -> EnvView {
        self.raise(DataKey::Amm(addr))
    }

    /// This environment once `addr` is no automated market maker: its flag
    /// and its reward record are gone.
    pub open spec fn remove_amm_address(self, addr: Address) -> EnvView {
        self.del(DataKey::Amm(addr)).del(DataKey::RewardCheckpoint(addr))
    }

    /// This environment once the administrator and the standing of `to` as
    /// an automated market maker are read.
    pub open spec fn claim_checked(self, to: Address) -> EnvView {
        self.as_admin().read(DataKey::Amm(to))
    }

    /// What `to` can claim on `balance`: what is recorded for it and what it
    /// has earned since.
    pub open spec fn claimable(self, to: Address, balance: i128) -> i128 {
        (self.read_reward(to) + self.calculate_reward(to, balance)) as i128
    }

    /// This environment once the record of `addr` starts anew at the
    /// current ledger, holding nothing.
    pub open spec fn restart_reward(self, addr: Address) -> EnvView {
        self.put(
            DataKey::RewardCheckpoint(addr),
            StoredValue::Reward(
                AccumulatedReward {
                    created_ledger_number: self.sequence,
                    last_ledger_number: self.sequence,
                    amount: 0,
                },
            ),
        )
    }

    /// Why the administrator's claim of the reward of `to` is refused, if it
    /// is: the first of the checks that fails. `authorized` and `balance`
    /// are what the underlying asset reports for `to`.
    pub open spec fn claim_refusal(self, to: Address, authorized: bool, balance: i128) -> Option<
        Error,
    > {
        if !self.admin_authorized() {
            Some(Error::Unauthenticated)
        } else if !authorized {
            Some(Error::NotAuthorizedByUnderlying)
        } else if self.is_amm(to) {
            Some(Error::AmmNotAllowed)
        } else if !self.reward_fits(to, self.calculate_reward(to, balance)) {
            Some(Error::RewardOverflow)
        } else {
            None
        }
    }

    /// Why a mint to `to`, which holds `balance`, is refused, if it is.
    pub open spec fn mint_refusal(self, to: Address, balance: i128) -> Option<Error> {
        if !self.admin_authorized() {
            Some(Error::Unauthenticated)
        } else if !self.reward_fits(to, self.calculate_reward(to, balance)) {
            Some(Error::RewardOverflow)
        } else {
            None
        }
    }
}

/// The outcome of an operation that only the administrator may invoke and
/// that publishes an event: with the administrator's authorisation the
/// environment becomes `after` and `event` is published, without it the
/// operation is refused.
pub open spec fn admin_publishes(
    before: EnvView,
    after: EnvView,
    event: Event,
    now: EnvView,
    outcome: Result<Event, Error>,
) -> bool {
    if before.admin_authorized() {
        outcome == Ok::<Event, Error>(event) && now == after
    } else {
        outcome == Err::<Event, Error>(Error::Unauthenticated) && now == before
    }
}

/// The outcome of an operation that only the administrator may invoke and
/// that returns nothing.
pub open spec fn admin_changes(
    before: EnvView,
    after: EnvView,
    now: EnvView,
    outcome: Result<(), Error>,
) -> bool {
    if before.admin_authorized() {
        outcome == Ok::<(), Error>(()) && now == after
    } else {
        outcome == Err::<(), Error>(Error::Unauthenticated) && now == before
    }
}

/// The outcome of an operation that only the administrator may invoke and
/// that is passed on to the underlying asset as `calls`.
pub open spec fn admin_passes_on(
    before: EnvView,
    calls: Seq<AssetCall>,
    now: EnvView,
    outcome: Result<Vec<AssetCall>, Error>,
) -> bool {
    match outcome {
        Ok(made) => before.admin_authorized() && made@ == calls && now == before.as_admin(),
        Err(error) => !before.admin_authorized() && error == Error::Unauthenticated && now
            == before,
    }
}

/// The outcome of an operation that is passed on to the underlying asset
/// as `calls` where `allowed`, and refused where not.
pub open spec fn passes_on(
    allowed: bool,
    calls: Seq<AssetCall>,
    outcome: Result<Vec<AssetCall>, Error>,
) -> bool {
    match outcome {
        Ok(made) => allowed && made@ == calls,
        Err(error) => !allowed && error == Error::Unauthenticated,
    }
}

impl ExcellarToken {
    /// Initialises the contract: `admin` becomes its administrator, `token`
    /// its underlying asset, and the reward parameters get their initial
    /// values. A contract can be initialised once.
    pub fn initialize(e: &mut Env, admin: Address, token: Address) -> (outcome: Result<(), Error>)
        requires
            old(e).wf(),
        ensures
            final(e).wf(),
            old(e)@.is_configured() ==> final(e)@.is_configured(),
            outcome == if old(e)@.is_initialized() {
                Err::<(), Error>(Error::AlreadyInitialized)
            } else {
                Ok::<(), Error>(())
            },
            final(e)@ == if old(e)@.is_initialized() {
                old(e)@
            } else {
                old(e)@.initialize(admin, token)
            },
            outcome is Ok ==> final(e)@.is_configured(),
    {
        let before = e.snapshot();
        if has_contract_admin(e) || e.has(DataKey::TokenAddress) {
            *e = before;
            return Err(Error::AlreadyInitialized);
        }
        write_contract_admin(e, &admin);
        write_token_address(e, &token);

        crate::reward::set_reward_rate(e, INITIAL_REWARD_RATE);
        crate::reward::set_reward_tick(e, INITIAL_REWARD_TICK);
        Ok(())
    }

    /// Hands the administration of the contract to `new_admin`.
    pub fn set_contract_admin(e: &mut Env, new_admin: Address) -> (outcome: Result<(), Error>)
        requires
            old(e).wf(),
        ensures
            final(e).wf(),
            old(e)@.is_configured() ==> final(e)@.is_configured(),
            admin_changes(
                old(e)@,
                old(e)@.as_admin().set_contract_admin(new_admin),
                final(e)@,
                outcome,
            ),
    {
        if let Err(error) = require_contract_admin(e) {
            return Err(error);
        }
        write_contract_admin(e, &new_admin);
        Ok(())
    }

    /// Redeems the reward of `to`, on the administrator's behalf.
    /// `authorized` and `balance` are what the underlying asset reports for
    /// `to`. The reward earned so far is added to the record; where the
    /// record then holds at least 1, it starts anew at the current ledger
    /// and the amount is to be minted to `to`.
    pub fn admin_claim_reward(e: &mut Env, to: Address, authorized: bool, balance: i128) -> (outcome:
        Result<Vec<AssetCall>, Error>)
        requires
            old(e).wf(),
        ensures
            final(e).wf(),
            old(e)@.is_configured() ==> final(e)@.is_configured(),
            match outcome {
                Ok(calls) => {
                    &&& old(e)@.claim_refusal(to, authorized, balance) is None
                    &&& if old(e)@.claimable(to, balance) < 1 {
                        calls@ == Seq::<AssetCall>::empty() && final(e)@
                            == old(e)@.claim_checked(to).checkpoint_reward(to, balance)
                    } else {
                        calls@ == seq![
                            AssetCall::Mint { to, amount: old(e)@.claimable(to, balance) },
                        ] && final(e)@ == old(e)@.claim_checked(to).calculated(to).restart_reward(
                            to,
                        )
                    }
                },
                Err(error) => old(e)@.claim_refusal(to, authorized, balance) == Some(error)
                    && final(e)@ == old(e)@,
            },
    {
        let before = e.snapshot();
        if let Err(error) = require_contract_admin(e) {
            return Err(error);
        }
        if let Err(error) = check_authorized(authorized) {
            *e = before;
            return Err(error);
        }
        // amm addresses cannot be awarded directly
        if let Err(error) = check_not_amm(e, to) {
            *e = before;
            return Err(error);
        }
        let ghost checked = e@;
        if let Err(error) = checkpoint_reward(e, to, balance) {
            *e = before;
            return Err(error);
        }
        let ghost recorded = e@;
        let reward = read_reward(e, to);
        if reward < 1 {
            proof {
                assert(e@.extended =~= recorded.extended);
            }
            return Ok(Vec::new());
        }
        reset_reward(e, to);
        proof {
            e.lemma_wf();
            lemma_first_checkpoint(e@, to, balance);
        }
        if let Err(error) = checkpoint_reward(e, to, balance) {
            *e = before;
            return Err(error);
        }
        proof {
            let claimed = checked.calculated(to).restart_reward(to);
            assert(e@.entries =~= claimed.entries);
            assert(e@.extended =~= claimed.extended);
        }
        Ok(vec![AssetCall::Mint { to, amount: reward }])
    }

    /// Records that `addr` has failed the KYC check.
    pub fn fail_kyc(e: &mut Env, addr: Address) -> (outcome: Result<Event, Error>)
        requires
            old(e).wf(),
        ensures
            final(e).wf(),
            old(e)@.is_configured() ==> final(e)@.is_configured(),
            admin_publishes(
                old(e)@,
                old(e)@.as_admin().fail_kyc(addr),
                Event { topic: Topic::FailKyc, address: addr, value: true },
                final(e)@,
                outcome,
            ),
    {
        if let Err(error) = require_contract_admin(e) {
            return Err(error);
        }
        remove_kyc(e, addr);
        Ok(fail_kyc_event(addr))
    }

    /// Records that `addr` has passed the KYC check.
    pub fn pass_kyc(e: &mut Env, addr: Address) -> (outcome: Result<Event, Error>)
        requires
            old(e).wf(),
        ensures
            final(e).wf(),
            old(e)@.is_configured() ==> final(e)@.is_configured(),
            admin_publishes(
                old(e)@,
                old(e)@.as_admin().pass_kyc(addr),
                Event { topic: Topic::PassKyc, address: addr, value: true },
                final(e)@,
                outcome,
            ),
    {
        if let Err(error) = require_contract_admin(e) {
            return Err(error);
        }
        write_kyc(e, addr);
        Ok(pass_kyc_event(addr))
    }

    /// Puts `addr` on the blacklist.
    pub fn blacklist(e: &mut Env, addr: Address) -> (outcome: Result<Event, Error>)
        requires
            old(e).wf(),
        ensures
            final(e).wf(),
            old(e)@.is_configured() ==> final(e)@.is_configured(),
            admin_publishes(
                old(e)@,
                old(e)@.as_admin().blacklist(addr),
                Event { topic: Topic::Blacklist, address: addr, value: true },
                final(e)@,
                outcome,
            ),
    {
        if let Err(error) = require_contract_admin(e) {
            return Err(error);
        }
        write_blacklist(e, addr);
        Ok(blacklist_event(addr))
    }

    /// Takes `addr` off the blacklist.
    pub fn whitelist(e: &mut Env, addr: Address) -> (outcome: Result<Event, Error>)
        requires
            old(e).wf(),
        ensures
            final(e).wf(),
            old(e)@.is_configured() ==> final(e)@.is_configured(),
            admin_publishes(
                old(e)@,
                old(e)@.as_admin().whitelist(addr),
                Event { topic: Topic::Whitelist, address: addr, value: true },
                final(e)@,
                outcome,
            ),
    {
        if let Err(error) = require_contract_admin(e) {
            return Err(error);
        }
        remove_blacklist(e, addr);
        Ok(whitelist_event(addr))
    }

    /// Approves the replacement of the contract's code by the code with the
    /// hash `new_wasm_hash`: with the administrator's authorisation the
    /// result is the hash to install, and the stored state stays.
    pub fn upgrade(e: &mut Env, new_wasm_hash: [u8; 32]) -> (outcome: Result<[u8; 32], Error>)
        requires
            old(e).wf(),
        ensures
            final(e).wf(),
            old(e)@.is_configured() ==> final(e)@.is_configured(),
            outcome == if old(e)@.admin_authorized() {
                Ok::<[u8; 32], Error>(new_wasm_hash)
            } else {
                Err::<[u8; 32], Error>(Error::Unauthenticated)
            },
            final(e)@ == if old(e)@.admin_authorized() {
                old(e)@.as_admin()
            } else {
                old(e)@
            },
    {
        if let Err(error) = require_contract_admin(e) {
            return Err(error);
        }
        Ok(new_wasm_hash)
    }

    /// Sets the reward rate, in hundredths of a percent per reward period.
    pub fn set_reward_rate(e: &mut Env, rate: u32) -> (outcome: Result<(), Error>)
        requires
            old(e).wf(),
        ensures
            final(e).wf(),
            old(e)@.is_configured() ==> final(e)@.is_configured(),
            admin_changes(
                old(e)@,
                old(e)@.as_admin().set_reward_rate(rate),
                final(e)@,
                outcome,
            ),
    {
        if let Err(error) = require_contract_admin(e) {
            return Err(error);
        }
        crate::reward::set_reward_rate(e, rate);
        Ok(())
    }

    /// Sets the number of ledgers in one reward period.
    pub fn set_reward_tick(e: &mut Env, rate: u32) -> (outcome: Result<(), Error>)
        requires
            old(e).wf(),
        ensures
            final(e).wf(),
            old(e)@.is_configured() ==> final(e)@.is_configured(),
            admin_changes(
                old(e)@,
                old(e)@.as_admin().set_reward_tick(rate),
                final(e)@,
                outcome,
            ),
    {
        if let Err(error) = require_contract_admin(e) {
            return Err(error);
        }
        crate::reward::set_reward_tick(e, rate);
        Ok(())
    }

    /// Makes `addr` a recognised automated market maker.
    pub fn add_amm_address(e: &mut Env, addr: Address) -> (outcome: Result<Event, Error>)
        requires
            old(e).wf(),
        ensures
            final(e).wf(),
            old(e)@.is_configured() ==> final(e)@.is_configured(),
            admin_publishes(
                old(e)@,
                old(e)@.as_admin().add_amm_address(addr),
                Event { topic: Topic::AddAmm, address: addr, value: true },
                final(e)@,
                outcome,
            ),
    {
        if let Err(error) = require_contract_admin(e) {
            return Err(error);
        }
        add_amm(e, addr);
        Ok(add_amm_event(addr))
    }

    /// Takes `addr` out of the automated market makers, and deletes its
    /// reward record with it: a pool carries no pending reward over.
    pub fn remove_amm_address(e: &mut Env, addr: Address) -> (outcome: Result<Event, Error>)
        requires
            old(e).wf(),
        ensures
            final(e).wf(),
            old(e)@.is_configured() ==> final(e)@.is_configured(),
            admin_publishes(
                old(e)@,
                old(e)@.as_admin().remove_amm_address(addr),
                Event { topic: Topic::RemoveAmm, address: addr, value: true },
                final(e)@,
                outcome,
            ),
    {
        if let Err(error) = require_contract_admin(e) {
            return Err(error);
        }
        remove_amm(e, addr);
        reset_reward(e, addr);
        Ok(remove_amm_event(addr))
    }

    /// The reward recorded for `to`.
    pub fn get_reward(e: &mut Env, to: Address) -> (amount: i128)
        requires
            old(e).wf(),
        ensures
            final(e).wf(),
            old(e)@.is_configured() ==> final(e)@.is_configured(),
            amount == old(e)@.read_reward(to),
            final(e)@ == old(e)@.read(DataKey::RewardCheckpoint(to)),
    {
        read_reward(e, to)
    }

    /// The allowance that `from` has given to `spender`: asked of the
    /// underlying asset, on the authorisation of `from`.
    pub fn allowance(e: &Env, from: Address, spender: Address) -> (outcome: Result<
        Vec<AssetCall>,
        Error,
    >)
        ensures
            passes_on(
                e@.has_auth(from),
                seq![
                    AssetCall::SetAuthorized { id: from, authorize: true },
                    AssetCall::Allowance { from, spender },
                    AssetCall::SetAuthorized { id: from, authorize: false },
                ],
                outcome,
            ),
    {
        if !e.has_auth(from) {
            return Err(Error::Unauthenticated);
        }
        Ok(
            vec![
                AssetCall::SetAuthorized { id: from, authorize: true },
                AssetCall::Allowance { from, spender },
                AssetCall::SetAuthorized { id: from, authorize: false },
            ],
        )
    }

    /// Lets `spender` spend up to `amount` of the tokens of `from` until
    /// `expiration_ledger`, on the authorisation of `from`.
    pub fn approve(
        e: &Env,
        from: Address,
        spender: Address,
        amount: i128,
        expiration_ledger: u32,
    ) -> (outcome: Result<Vec<AssetCall>, Error>)
        ensures
            passes_on(
                e@.has_auth(from),
                seq![
                    AssetCall::SetAuthorized { id: from, authorize: true },
                    AssetCall::Approve { from, spender, amount, expiration_ledger },
                    AssetCall::SetAuthorized { id: from, authorize: false },
                ],
                outcome,
            ),
    {
        if !e.has_auth(from) {
            return Err(Error::Unauthenticated);
        }
        Ok(
            vec![
                AssetCall::SetAuthorized { id: from, authorize: true },
                AssetCall::Approve { from, spender, amount, expiration_ledger },
                AssetCall::SetAuthorized { id: from, authorize: false },
            ],
        )
    }

    /// The balance of `id`: asked of the underlying asset.
    pub fn balance(id: Address) -> (calls: Vec<AssetCall>)
        ensures
            calls@ == seq![AssetCall::Balance { id }],
    {
        vec![AssetCall::Balance { id }]
    }

    /// Moves `amount` from `from` to `to`, on the authorisation of `from`.
    /// Both are authorised with the underlying asset for the time of the
    /// transfer. No reward is checkpointed.
    pub fn transfer(e: &Env, from: Address, to: Address, amount: i128) -> (outcome: Result<
        Vec<AssetCall>,
        Error,
    >)
        ensures
            passes_on(
                e@.has_auth(from),
                seq![
                    AssetCall::SetAuthorized { id: from, authorize: true },
                    AssetCall::SetAuthorized { id: to, authorize: true },
                    AssetCall::Transfer { from, to, amount },
                    AssetCall::SetAuthorized { id: from, authorize: false },
                    AssetCall::SetAuthorized { id: to, authorize: false },
                ],
                outcome,
            ),
    {
        if !e.has_auth(from) {
            return Err(Error::Unauthenticated);
        }
        Ok(
            vec![
                AssetCall::SetAuthorized { id: from, authorize: true },
                AssetCall::SetAuthorized { id: to, authorize: true },
                AssetCall::Transfer { from, to, amount },
                AssetCall::SetAuthorized { id: from, authorize: false },
                AssetCall::SetAuthorized { id: to, authorize: false },
            ],
        )
    }

    /// Moves `amount` from `from` to `to` out of the allowance of `spender`,
    /// on the authorisation of `spender`. All three are authorised with the
    /// underlying asset for the time of the transfer.
    pub fn transfer_from(e: &Env, spender: Address, from: Address, to: Address, amount: i128) -> (outcome:
        Result<Vec<AssetCall>, Error>)
        ensures
            passes_on(
                e@.has_auth(spender),
                seq![
                    AssetCall::SetAuthorized { id: spender, authorize: true },
                    AssetCall::SetAuthorized { id: from, authorize: true },
                    AssetCall::SetAuthorized { id: to, authorize: true },
                    AssetCall::TransferFrom { spender, from, to, amount },
                    AssetCall::SetAuthorized { id: spender, authorize: false },
                    AssetCall::SetAuthorized { id: from, authorize: false },
                    AssetCall::SetAuthorized { id: to, authorize: false },
                ],
                outcome,
            ),
    {
        if !e.has_auth(spender) {
            return Err(Error::Unauthenticated);
        }
        Ok(
            vec![
                AssetCall::SetAuthorized { id: spender, authorize: true },
                AssetCall::SetAuthorized { id: from, authorize: true },
                AssetCall::SetAuthorized { id: to, authorize: true },
                AssetCall::TransferFrom { spender, from, to, amount },
                AssetCall::SetAuthorized { id: spender, authorize: false },
                AssetCall::SetAuthorized { id: from, authorize: false },
                AssetCall::SetAuthorized { id: to, authorize: false },
            ],
        )
    }

    /// Burns `amount` of the tokens of `from`, on its authorisation.
    pub fn burn(e: &Env, from: Address, amount: i128) -> (outcome: Result<Vec<AssetCall>, Error>)
        ensures
            passes_on(
                e@.has_auth(from),
                seq![
                    AssetCall::SetAuthorized { id: from, authorize: true },
                    AssetCall::Burn { from, amount },
                    AssetCall::SetAuthorized { id: from, authorize: false },
                ],
                outcome,
            ),
    {
        if !e.has_auth(from) {
            return Err(Error::Unauthenticated);
        }
        Ok(
            vec![
                AssetCall::SetAuthorized { id: from, authorize: true },
                AssetCall::Burn { from, amount },
                AssetCall::SetAuthorized { id: from, authorize: false },
            ],
        )
    }

    /// Burns `amount` of the tokens of `from` out of the allowance of
    /// `spender`, on the authorisation of `spender`.
    pub fn burn_from(e: &Env, spender: Address, from: Address, amount: i128) -> (outcome: Result<
        Vec<AssetCall>,
        Error,
    >)
        ensures
            passes_on(
                e@.has_auth(spender),
                seq![
                    AssetCall::SetAuthorized { id: spender, authorize: true },
                    AssetCall::SetAuthorized { id: from, authorize: true },
                    AssetCall::BurnFrom { spender, from, amount },
                    AssetCall::SetAuthorized { id: spender, authorize: false },
                    AssetCall::SetAuthorized { id: from, authorize: false },
                ],
                outcome,
            ),
    {
        if !e.has_auth(spender) {
            return Err(Error::Unauthenticated);
        }
        Ok(
            vec![
                AssetCall::SetAuthorized { id: spender, authorize: true },
                AssetCall::SetAuthorized { id: from, authorize: true },
                AssetCall::BurnFrom { spender, from, amount },
                AssetCall::SetAuthorized { id: spender, authorize: false },
                AssetCall::SetAuthorized { id: from, authorize: false },
            ],
        )
    }

    /// The number of decimals of the token: asked of the underlying asset.
    pub fn decimals() -> (calls: Vec<AssetCall>)
        ensures
            calls@ == seq![AssetCall::Decimals],
    {
        vec![AssetCall::Decimals]
    }

    /// The name of the token: asked of the underlying asset.
    pub fn name() -> (calls: Vec<AssetCall>)
        ensures
            calls@ == seq![AssetCall::Name],
    {
        vec![AssetCall::Name]
    }

    /// The symbol of the token: asked of the underlying asset.
    pub fn symbol() -> (calls: Vec<AssetCall>)
        ensures
            calls@ == seq![AssetCall::Symbol],
    {
        vec![AssetCall::Symbol]
    }

    /// Hands the administration of the underlying asset to `new_admin`, on
    /// the authorisation of the contract's administrator.
    pub fn set_admin(e: &mut Env, new_admin: Address) -> (outcome: Result<Vec<AssetCall>, Error>)
        requires
            old(e).wf(),
        ensures
            final(e).wf(),
            old(e)@.is_configured() ==> final(e)@.is_configured(),
            admin_passes_on(
                old(e)@,
                seq![AssetCall::SetAdmin { new_admin }],
                final(e)@,
                outcome,
            ),
    {
        if let Err(error) = require_contract_admin(e) {
            return Err(error);
        }
        let calls = vec![AssetCall::SetAdmin { new_admin }];
        assert(calls@ =~= seq![AssetCall::SetAdmin { new_admin }]);
        Ok(calls)
    }

    /// The administrator of the underlying asset: asked of the asset.
    pub fn admin() -> (calls: Vec<AssetCall>)
        ensures
            calls@ == seq![AssetCall::Admin],
    {
        vec![AssetCall::Admin]
    }

    /// Authorises `id` with the underlying asset or withdraws that, on the
    /// authorisation of the contract's administrator.
    pub fn set_authorized(e: &mut Env, id: Address, authorize: bool) -> (outcome: Result<
        Vec<AssetCall>,
        Error,
    >)
        requires
            old(e).wf(),
        ensures
            final(e).wf(),
            old(e)@.is_configured() ==> final(e)@.is_configured(),
            admin_passes_on(
                old(e)@,
                seq![AssetCall::SetAuthorized { id, authorize }],
                final(e)@,
                outcome,
            ),
    {
        if let Err(error) = require_contract_admin(e) {
            return Err(error);
        }
        let calls = vec![AssetCall::SetAuthorized { id, authorize }];
        assert(calls@ =~= seq![AssetCall::SetAuthorized { id, authorize }]);
        Ok(calls)
    }

    /// Whether the underlying asset authorises `id`: asked of the asset.
    pub fn authorized(id: Address) -> (calls: Vec<AssetCall>)
        ensures
            calls@ == seq![AssetCall::Authorized { id }],
    {
        vec![AssetCall::Authorized { id }]
    }

    /// Mints `amount` to `to`, on the authorisation of the contract's
    /// administrator. The reward that `to` has earned on `balance`, which is
    /// what it holds before the mint, is added to its record first; `to` is
    /// authorised with the underlying asset for the time of the mint.
    pub fn mint(e: &mut Env, to: Address, amount: i128, balance: i128) -> (outcome: Result<
        Vec<AssetCall>,
        Error,
    >)
        requires
            old(e).wf(),
        ensures
            final(e).wf(),
            old(e)@.is_configured() ==> final(e)@.is_configured(),
            match outcome {
                Ok(calls) => old(e)@.mint_refusal(to, balance) is None && final(e)@
                    == old(e)@.as_admin().checkpoint_reward(to, balance) && calls@ == seq![
                    AssetCall::SetAuthorized { id: to, authorize: true },
                    AssetCall::Mint { to, amount },
                    AssetCall::SetAuthorized { id: to, authorize: false },
                ],
                Err(error) => old(e)@.mint_refusal(to, balance) == Some(error) && final(e)@
                    == old(e)@,
            },
    {
        let before = e.snapshot();
        if let Err(error) = require_contract_admin(e) {
            return Err(error);
        }
        if let Err(error) = checkpoint_reward(e, to, balance) {
            *e = before;
            return Err(error);
        }
        Ok(
            vec![
                AssetCall::SetAuthorized { id: to, authorize: true },
                AssetCall::Mint { to, amount },
                AssetCall::SetAuthorized { id: to, authorize: false },
            ],
        )
    }

    /// Takes `amount` back from `from`, on the authorisation of the
    /// contract's administrator.
    pub fn clawback(e: &mut Env, from: Address, amount: i128) -> (outcome: Result<
        Vec<AssetCall>,
        Error,
    >)
        requires
            old(e).wf(),
        ensures
            final(e).wf(),
            old(e)@.is_configured() ==> final(e)@.is_configured(),
            admin_passes_on(
                old(e)@,
                seq![AssetCall::Clawback { from, amount }],
                final(e)@,
                outcome,
            ),
    {
        if let Err(error) = require_contract_admin(e) {
            return Err(error);
        }
        let calls = vec![AssetCall::Clawback { from, amount }];
        assert(calls@ =~= seq![AssetCall::Clawback { from, amount }]);
        Ok(calls)
    }
}

/// Initialisation sets the administrator, the underlying asset and the
/// initial reward parameters, and cannot be repeated.
pub proof fn lemma_initialize(e: EnvView, admin: Address, token: Address)
    ensures
        e.initialize(admin, token).contract_admin() == Some(admin),
        e.initialize(admin, token).token_address() == Some(token),
        e.initialize(admin, token).reward_rate() == 10_000,
        e.initialize(admin, token).reward_tick() == 28_800,
        e.initialize(admin, token).is_initialized(),
        e.initialize(admin, token).is_configured(),
        e.wf() ==> e.initialize(admin, token).wf(),
{
}

/// Once a contract is configured it stays so: no key is deleted but a flag
/// or a reward record, and writing a key deletes none.
pub proof fn lemma_stays_configured(e: EnvView, key: DataKey, value: StoredValue)
    requires
        e.is_configured(),
    ensures
        e.put(key, value).is_configured(),
        key is Kyc || key is Blacklisted || key is Amm || key is RewardCheckpoint ==> e.del(
            key,
        ).is_configured(),
{
}

/// After the administration is handed to `new_admin`, the operations that
/// need the administrator's authorisation need that of `new_admin`, and
/// nobody else's will do: without it each of them is refused as
/// unauthenticated and changes nothing.
pub proof fn lemma_admin_rotation(e: EnvView, new_admin: Address)
    ensures
        e.set_contract_admin(new_admin).contract_admin() == Some(new_admin),
        e.set_contract_admin(new_admin).admin_authorized() == e.has_auth(new_admin),
        forall|address: Address|
            e.set_contract_admin(new_admin).has_auth(address) == e.has_auth(address),
        !e.has_auth(new_admin) ==> {
            let rotated = e.set_contract_admin(new_admin);
            &&& forall|to: Address, authorized: bool, balance: i128|
                rotated.claim_refusal(to, authorized, balance) == Some(Error::Unauthenticated)
            &&& forall|to: Address, balance: i128|
                rotated.mint_refusal(to, balance) == Some(Error::Unauthenticated)
            &&& forall|after: EnvView, now: EnvView, outcome: Result<(), Error>|
                admin_changes(rotated, after, now, outcome) ==> outcome == Err::<(), Error>(
                    Error::Unauthenticated,
                ) && now == rotated
            &&& forall|after: EnvView, event: Event, now: EnvView, outcome: Result<Event, Error>|
                admin_publishes(rotated, after, event, now, outcome) ==> outcome == Err::<
                    Event,
                    Error,
                >(Error::Unauthenticated) && now == rotated
            &&& forall|calls: Seq<AssetCall>, now: EnvView, outcome: Result<Vec<AssetCall>, Error>|
                admin_passes_on(rotated, calls, now, outcome) ==> outcome == Err::<
                    Vec<AssetCall>,
                    Error,
                >(Error::Unauthenticated) && now == rotated
        },
{
}

/// An address that passed the KYC check has passed it until it fails, and
/// then has not; the same holds of the blacklist and of the set of automated
/// market makers.
pub proof fn lemma_flags_round_trip(e: EnvView, addr: Address)
    ensures
        e.pass_kyc(addr).is_kyc_passed(addr),
        !e.fail_kyc(addr).is_kyc_passed(addr),
        !e.pass_kyc(addr).fail_kyc(addr).is_kyc_passed(addr),
        e.blacklist(addr).is_blacklisted(addr),
        !e.whitelist(addr).is_blacklisted(addr),
        !e.blacklist(addr).whitelist(addr).is_blacklisted(addr),
        e.add_amm_address(addr).is_amm(addr),
        !e.remove_amm_address(addr).is_amm(addr),
        !e.add_amm_address(addr).remove_amm_address(addr).is_amm(addr),
{
}

/// The three flags of an address are independent of one another and of the
/// flags of every other address.
pub proof fn lemma_flags_independent(e: EnvView, addr: Address, other: Address)
    ensures
        e.pass_kyc(addr).is_blacklisted(other) == e.is_blacklisted(other),
        e.pass_kyc(addr).is_amm(other) == e.is_amm(other),
        e.fail_kyc(addr).is_blacklisted(other) == e.is_blacklisted(other),
        e.fail_kyc(addr).is_amm(other) == e.is_amm(other),
        e.blacklist(addr).is_kyc_passed(other) == e.is_kyc_passed(other),
        e.blacklist(addr).is_amm(other) == e.is_amm(other),
        e.whitelist(addr).is_kyc_passed(other) == e.is_kyc_passed(other),
        e.whitelist(addr).is_amm(other) == e.is_amm(other),
        e.add_amm_address(addr).is_kyc_passed(other) == e.is_kyc_passed(other),
        e.add_amm_address(addr).is_blacklisted(other) == e.is_blacklisted(other),
        e.remove_amm_address(addr).is_kyc_passed(other) == e.is_kyc_passed(other),
        e.remove_amm_address(addr).is_blacklisted(other) == e.is_blacklisted(other),
        other != addr ==> {
            &&& e.pass_kyc(addr).is_kyc_passed(other) == e.is_kyc_passed(other)
            &&& e.fail_kyc(addr).is_kyc_passed(other) == e.is_kyc_passed(other)
            &&& e.blacklist(addr).is_blacklisted(other) == e.is_blacklisted(other)
            &&& e.whitelist(addr).is_blacklisted(other) == e.is_blacklisted(other)
            &&& e.add_amm_address(addr).is_amm(other) == e.is_amm(other)
            &&& e.remove_amm_address(addr).is_amm(other) == e.is_amm(other)
        },
{
}

/// An address that is taken out of the automated market makers has no
/// reward record left; the records of other addresses stay.
pub proof fn lemma_remove_amm_address(e: EnvView, addr: Address, other: Address)
    ensures
        e.remove_amm_address(addr).checkpoint(addr) is None,
        e.remove_amm_address(addr).read_reward(addr) == 0,
        other != addr ==> e.remove_amm_address(addr).checkpoint(other) == e.checkpoint(other),
{
}

/// A reward that was redeemed leaves a record that starts at the current
/// ledger and holds nothing.
pub proof fn lemma_restart_reward(e: EnvView, addr: Address)
    ensures
        e.restart_reward(addr).checkpoint(addr) == Some(
            AccumulatedReward {
                created_ledger_number: e.sequence,
                last_ledger_number: e.sequence,
                amount: 0,
            },
        ),
        e.restart_reward(addr).read_reward(addr) == 0,
        e.restart_reward(addr).blocks_held(addr) == 0,
{
}

/// The keys that an operation on `addr` may read or write: those that hold
/// one value for the whole contract, and those of `addr`.
pub open spec fn footprint(addr: Address) -> Set<DataKey> {
    set![
        DataKey::ContractAdmin,
        DataKey::TokenAddress,
        DataKey::RewardRate,
        DataKey::RewardTick,
        DataKey::Kyc(addr),
        DataKey::Blacklisted(addr),
        DataKey::Amm(addr),
        DataKey::RewardCheckpoint(addr),
    ]
}

impl EnvView {
    /// Whether this environment and `other` are at the same ledger, in an
    /// invocation with the same authorisations, and hold the same under
    /// each of `keys`.
    pub open spec fn agrees_on(self, other: EnvView, keys: Set<DataKey>) -> bool {
        &&& self.sequence == other.sequence
        &&& self.auths == other.auths
        &&& forall|key: DataKey| #[trigger]
            keys.contains(key) ==> self.get(key) == other.get(key) && self.is_extended(key)
                == other.is_extended(key)
    }
}

/// The footprint of an address holds the keys that `DataKey::shared` and
/// `DataKey::of_address` list, and no others.
pub proof fn lemma_footprint(addr: Address, key: DataKey)
    ensures
        footprint(addr).contains(key) <==> (seq![
            DataKey::ContractAdmin,
            DataKey::TokenAddress,
            DataKey::RewardRate,
            DataKey::RewardTick,
        ].contains(key) || seq![
            DataKey::Kyc(addr),
            DataKey::Blacklisted(addr),
            DataKey::Amm(addr),
            DataKey::RewardCheckpoint(addr),
        ].contains(key)),
{
    let shared = seq![
        DataKey::ContractAdmin,
        DataKey::TokenAddress,
        DataKey::RewardRate,
        DataKey::RewardTick,
    ];
    let own = seq![
        DataKey::Kyc(addr),
        DataKey::Blacklisted(addr),
        DataKey::Amm(addr),
        DataKey::RewardCheckpoint(addr),
    ];
    assert(shared[0] == DataKey::ContractAdmin && shared[1] == DataKey::TokenAddress && shared[2]
        == DataKey::RewardRate && shared[3] == DataKey::RewardTick);
    assert(own[0] == DataKey::Kyc(addr) && own[1] == DataKey::Blacklisted(addr) && own[2]
        == DataKey::Amm(addr) && own[3] == DataKey::RewardCheckpoint(addr));
}

/// What the contract asks of an address depends on the footprint of the
/// address alone: two environments that agree on it give the same answers.
pub proof fn lemma_answers_are_local(e: EnvView, other: EnvView, addr: Address)
    requires
        e.agrees_on(other, footprint(addr)),
    ensures
        e.contract_admin() == other.contract_admin(),
        e.token_address() == other.token_address(),
        e.admin_authorized() == other.admin_authorized(),
        e.is_initialized() == other.is_initialized(),
        e.is_kyc_passed(addr) == other.is_kyc_passed(addr),
        e.is_blacklisted(addr) == other.is_blacklisted(addr),
        e.is_amm(addr) == other.is_amm(addr),
        e.checkpoint(addr) == other.checkpoint(addr),
        e.read_reward(addr) == other.read_reward(addr),
        e.reward_rate() == other.reward_rate(),
        e.reward_tick() == other.reward_tick(),
        forall|balance: i128|
            e.calculate_reward(addr, balance) == other.calculate_reward(addr, balance),
        forall|authorized: bool, balance: i128|
            e.claim_refusal(addr, authorized, balance) == other.claim_refusal(
                addr,
                authorized,
                balance,
            ),
        forall|balance: i128| e.mint_refusal(addr, balance) == other.mint_refusal(addr, balance),
{
    let keys = footprint(addr);
    assert(keys.contains(DataKey::ContractAdmin));
    assert(keys.contains(DataKey::TokenAddress));
    assert(keys.contains(DataKey::RewardRate));
    assert(keys.contains(DataKey::RewardTick));
    assert(keys.contains(DataKey::Kyc(addr)));
    assert(keys.contains(DataKey::Blacklisted(addr)));
    assert(keys.contains(DataKey::Amm(addr)));
    assert(keys.contains(DataKey::RewardCheckpoint(addr)));
}

/// What the contract does to an entry depends on that entry alone: two
/// environments that agree on some keys still agree on them after the same
/// entry is read, written or deleted in both.
pub proof fn lemma_changes_are_local(
    e: EnvView,
    other: EnvView,
    keys: Set<DataKey>,
    key: DataKey,
    value: StoredValue,
)
    requires
        e.agrees_on(other, keys),
        keys.contains(key),
    ensures
        e.read(key).agrees_on(other.read(key), keys),
        e.put(key, value).agrees_on(other.put(key, value), keys),
        e.del(key).agrees_on(other.del(key), keys),
{
    assert forall|k: DataKey| #[trigger] keys.contains(k) implies e.read(key).get(k) == other.read(
        key,
    ).get(k) && e.read(key).is_extended(k) == other.read(key).is_extended(k) by {
        assert(e.get(k) == other.get(k));
    }
}

/// The redemption of a reward depends on the footprint of the address
/// alone, and changes nothing outside it: on two environments that agree on
/// the footprint it is refused for the same reason or mints the same, and
/// it leaves two environments that agree on the footprint again.
pub proof fn lemma_claim_is_local(
    e: EnvView,
    other: EnvView,
    to: Address,
    authorized: bool,
    balance: i128,
    key: DataKey,
)
    requires
        e.agrees_on(other, footprint(to)),
    ensures
        e.claim_refusal(to, authorized, balance) == other.claim_refusal(to, authorized, balance),
        e.claimable(to, balance) == other.claimable(to, balance),
        e.claim_checked(to).checkpoint_reward(to, balance).agrees_on(
            other.claim_checked(to).checkpoint_reward(to, balance),
            footprint(to),
        ),
        e.claim_checked(to).calculated(to).restart_reward(to).agrees_on(
            other.claim_checked(to).calculated(to).restart_reward(to),
            footprint(to),
        ),
        !footprint(to).contains(key) ==> {
            &&& e.claim_checked(to).checkpoint_reward(to, balance).get(key) == e.get(key)
            &&& e.claim_checked(to).checkpoint_reward(to, balance).is_extended(key)
                == e.is_extended(key)
            &&& e.claim_checked(to).calculated(to).restart_reward(to).get(key) == e.get(key)
            &&& e.claim_checked(to).calculated(to).restart_reward(to).is_extended(key)
                == e.is_extended(key)
        },
{
    lemma_answers_are_local(e, other, to);
    let keys = footprint(to);
    assert(keys.contains(DataKey::ContractAdmin));
    assert(keys.contains(DataKey::RewardRate));
    assert(keys.contains(DataKey::RewardTick));
    assert(keys.contains(DataKey::Amm(to)));
    assert(keys.contains(DataKey::RewardCheckpoint(to)));
    let rewarded = StoredValue::Reward(e.merged(to, e.calculate_reward(to, balance)));
    let restarted = StoredValue::Reward(
        AccumulatedReward {
            created_ledger_number: e.sequence,
            last_ledger_number: e.sequence,
            amount: 0,
        },
    );
    let e1 = e.as_admin();
    let o1 = other.as_admin();
    lemma_changes_are_local(e, other, keys, DataKey::ContractAdmin, rewarded);
    let e2 = e1.read(DataKey::Amm(to));
    let o2 = o1.read(DataKey::Amm(to));
    lemma_changes_are_local(e1, o1, keys, DataKey::Amm(to), rewarded);
    let e3 = e2.read(DataKey::RewardCheckpoint(to));
    let o3 = o2.read(DataKey::RewardCheckpoint(to));
    lemma_changes_are_local(e2, o2, keys, DataKey::RewardCheckpoint(to), rewarded);
    let e4 = e3.read(DataKey::RewardRate);
    let o4 = o3.read(DataKey::RewardRate);
    lemma_changes_are_local(e3, o3, keys, DataKey::RewardRate, rewarded);
    let e5 = e4.read(DataKey::RewardTick);
    let o5 = o4.read(DataKey::RewardTick);
    lemma_changes_are_local(e4, o4, keys, DataKey::RewardTick, rewarded);
    lemma_answers_are_local(e5, o5, to);
    lemma_changes_are_local(e5, o5, keys, DataKey::RewardCheckpoint(to), rewarded);
    lemma_changes_are_local(e5, o5, keys, DataKey::RewardCheckpoint(to), restarted);
}

} // verus!
