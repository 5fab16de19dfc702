//! The checks made before tokens move.
use crate::admin::check_not_blacklisted;
use crate::env::Env;
use crate::error::Error;
use crate::storage_types::{Address, DataKey};
use vstd::prelude::*;

verus! {

/// Why a transfer of `amount` by `spender` to `to` is refused, if it is:
/// the first of the three checks that fails.
pub open spec fn transfer_refusal(
    e: crate::env::EnvView,
    spender: Address,
    to: Address,
    amount: i128,
) -> Option<Error> {
    if !e.has_auth(spender) {
        Some(Error::Unauthenticated)
    } else if amount < 0 {
        Some(Error::NegativeAmount)
    } else if e.is_blacklisted(to) {
        Some(Error::Blacklisted)
    } else {
        None
    }
}

/// Before a transfer: `spender` must have authorised the invocation, the
/// amount must not be negative, and the recipient must not be blacklisted.
/// Where all three hold, the recipient's place on the blacklist has been
/// read.
pub fn pre_transfer_checks(e: &mut Env, spender: Address, to: Address, amount: i128) -> (outcome:
    Result<(), Error>)
    requires
        old(e).wf(),
    ensures
        final(e).wf(),
        match transfer_refusal(old(e)@, spender, to, amount) {
            Some(error) => outcome == Err::<(), Error>(error) && final(e)@ == old(e)@,
            None => outcome == Ok::<(), Error>(()) && final(e)@ == old(e)@.read(
                DataKey::Blacklisted(to),
            ),
        },
{
    if !e.has_auth(spender) {
        return Err(Error::Unauthenticated);
    }
    if let Err(error) = check_non_negative_amount(amount) {
        return Err(error);
    }
    check_not_blacklisted(e, to)
}

/// Refuses an amount below zero.
pub fn check_non_negative_amount(amount: i128) -> (outcome: Result<(), Error>)
    ensures
        outcome == if amount < 0 {
            Err::<(), Error>(Error::NegativeAmount)
        } else {
            Ok::<(), Error>(())
        },
{
    if amount < 0 {
        Err(Error::NegativeAmount)
    } else {
        Ok(())
    }
}

} // verus!
