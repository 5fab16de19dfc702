//! The events that the contract publishes when the standing of an address
//! changes.
use crate::storage_types::Address;
use vstd::prelude::*;

verus! {

/// What happened to an address.
#[derive(Clone, Copy, Debug, PartialEq, Eq, Structural)]
pub enum Topic {
    PassKyc,
    FailKyc,
    Whitelist,
    Blacklist,
    AddAmm,
    RemoveAmm,
}

/// An event: its topics are the name of what happened and the address it
/// happened to, its value is `true`.
#[derive(Clone, Copy, Debug, PartialEq, Eq, Structural)]
pub struct Event {
    pub topic: Topic,
    pub address: Address,
    pub value: bool,
}

impl Topic {
    /// The name under which the event is published.
    pub fn name(self) -> (name: &'static str)
        ensures
            name@ == match self {
                Topic::PassKyc => "pass_kyc"@,
                Topic::FailKyc => "fail_kyc"@,
                Topic::Whitelist => "whitelist"@,
                Topic::Blacklist => "blacklist"@,
                Topic::AddAmm => "add_amm"@,
                Topic::RemoveAmm => "remove_amm"@,
            },
    {
        match self {
            Topic::PassKyc => "pass_kyc",
            Topic::FailKyc => "fail_kyc",
            Topic::Whitelist => "whitelist",
            Topic::Blacklist => "blacklist",
            Topic::AddAmm => "add_amm",
            Topic::RemoveAmm => "remove_amm",
        }
    }
}

/// The event published when `user` passes the KYC check.
pub fn pass_kyc_event(user: Address) -> (event: Event)
    ensures
        event == (Event { topic: Topic::PassKyc, address: user, value: true }),
{
    Event { topic: Topic::PassKyc, address: user, value: true }
}

/// The event published when `user` fails the KYC check.
pub fn fail_kyc_event(user: Address) -> (event: Event)
    ensures
        event == (Event { topic: Topic::FailKyc, address: user, value: true }),
{
    Event { topic: Topic::FailKyc, address: user, value: true }
}

/// The event published when `user` is taken off the blacklist.
pub fn whitelist_event(user: Address) -> (event: Event)
    ensures
        event == (Event { topic: Topic::Whitelist, address: user, value: true }),
{
    Event { topic: Topic::Whitelist, address: user, value: true }
}

/// The event published when `user` is put on the blacklist.
pub fn blacklist_event(user: Address) -> (event: Event)
    ensures
        event == (Event { topic: Topic::Blacklist, address: user, value: true }),
{
    Event { topic: Topic::Blacklist, address: user, value: true }
}

/// The event published when `user` becomes an automated market maker.
pub fn add_amm_event(user: Address) -> (event: Event)
    ensures
        event == (Event { topic: Topic::AddAmm, address: user, value: true }),
{
    Event { topic: Topic::AddAmm, address: user, value: true }
}

/// The event published when `user` stops being an automated market maker.
pub fn remove_amm_event(user: Address) -> (event: Event)
    ensures
        event == (Event { topic: Topic::RemoveAmm, address: user, value: true }),
{
    Event { topic: Topic::RemoveAmm, address: user, value: true }
}

} // verus!
