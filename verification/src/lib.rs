//! A permissioned wrapper around an underlying fungible asset: compliance
//! flags per address, a reward that accrues with the time a balance is held,
//! and the administration of both.
//!
//! The contract holds no balances of its own. It keeps, per address, whether
//! the address has passed the KYC check, is blacklisted, or is an automated
//! market maker, and the reward it has accrued; for the contract as a whole,
//! its administrator, the underlying asset and the two parameters of the
//! reward. Everything else it passes on to the underlying asset.
//!
//! The rules work on an [`env::Env`]: the current ledger, the addresses that
//! authorised the invocation, and the stored entries. An operation of
//! [`contract::ExcellarToken`] changes the environment and hands back what
//! is to be done outside it (an event to publish, calls to make on the
//! underlying asset), or refuses with an [`error::Error`] and changes
//! nothing. What the underlying asset knows (whether it authorises an
//! address, what balance the address holds) is handed to the operation that
//! needs it.
//!
//! - [`storage_types`]: the keys, the stored values, the lifetime policy.
//! - [`env`]: the environment.
//! - [`admin`]: administrator, underlying asset, compliance flags, guards.
//! - [`reward`]: the reward formula and the reward records.
//! - [`validations`]: the checks made before tokens move.
//! - [`event`], [`asset`]: what an operation hands back.
//! - [`contract`]: the operations.
pub mod admin;
pub mod asset;
pub mod contract;
pub mod env;
pub mod error;
pub mod event;
pub mod reward;
pub mod storage_types;
pub mod validations;

pub use crate::contract::ExcellarToken;
