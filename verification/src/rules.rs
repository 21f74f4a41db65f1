//! The decisions of a transfer, on bare balances.
//!
//! A host that keeps the balances in a store of its own reads a balance,
//! asks one of these functions what to write, and writes it. The ledger of
//! this crate takes the same decisions through the same functions.

use vstd::prelude::*;

verus! {

/// What `debit` returns: nothing when `balance` does not cover `amount`, else
/// what is left of it.
pub open spec fn spec_debit(balance: u32, amount: u32) -> Option<u32> {
    if balance < amount {
        None
    } else {
        Some((balance - amount) as u32)
    }
}

/// The balance that a store reads for an account: what it holds for the
/// account, or zero when it holds nothing.
pub open spec fn spec_balance_or_zero(stored: Option<u32>) -> u32 {
    match stored {
        Some(balance) => balance,
        None => 0,
    }
}

/// Reads an account's balance out of what the store returned for it. An
/// account without an entry has a balance of zero.
pub fn balance_or_zero(stored: Option<u32>) -> (balance: u32)
    ensures
        balance == spec_balance_or_zero(stored),
{
    match stored {
        Some(value) => value,
        None => 0,
    }
}

/// Takes `amount` out of the sender's `balance`. Returns the balance to write
/// back, or `None` when the sender cannot cover the amount and nothing is to
/// be written at all.
pub fn debit(balance: u32, amount: u32) -> (left: Option<u32>)
    ensures
        left == spec_debit(balance, amount),
{
    if balance < amount {
        None
    } else {
        Some(balance - amount)
    }
}

/// Adds `amount` to the recipient's `balance` and returns the balance to
/// write back. The sum must fit: in a ledger whose balances add up to a
/// total supply it always does.
pub fn credit(balance: u32, amount: u32) -> (raised: u32)
    requires
        balance + amount <= u32::MAX,
    ensures
        raised == balance + amount,
{
    balance + amount
}

} // verus!
