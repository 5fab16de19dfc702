//! The calls that the contract makes on the underlying asset.
use crate::storage_types::Address;
use vstd::prelude::*;

verus! {

/// One call on the underlying asset, by the name and with the arguments of
/// the asset's own interface. The contract decides which calls are made and
/// in which order; making them is left to whoever holds the asset.
#[derive(Clone, Copy, Debug, PartialEq, Eq, Structural)]
pub enum AssetCall {
    Allowance { from: Address, spender: Address },
    Approve { from: Address, spender: Address, amount: i128, expiration_ledger: u32 },
    Balance { id: Address },
    Transfer { from: Address, to: Address, amount: i128 },
    TransferFrom { spender: Address, from: Address, to: Address, amount: i128 },
    Burn { from: Address, amount: i128 },
    BurnFrom { spender: Address, from: Address, amount: i128 },
    Decimals,
    Name,
    Symbol,
    SetAdmin { new_admin: Address },
    Admin,
    SetAuthorized { id: Address, authorize: bool },
    Authorized { id: Address },
    Mint { to: Address, amount: i128 },
    Clawback { from: Address, amount: i128 },
}

} // verus!
