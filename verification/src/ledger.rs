//! The ledger as a mathematical value.
//!
//! Everything the executable ledger promises is stated over the types of this
//! module: a [`Ledger`] is a total supply together with the balance of every
//! account, and the operations are plain functions on such values.

use vstd::prelude::*;
use crate::account::AccountId;

verus! {

/// A total supply and the balance of every account.
///
/// `balances` is read at every identifier; an account that never held
/// anything reads as zero.
pub struct Ledger {
    pub total_supply: nat,
    pub balances: Map<AccountId, nat>,
}

/// One request to move `amount` units from `caller` to `recipient`.
pub struct Transfer {
    pub caller: AccountId,
    pub recipient: AccountId,
    pub amount: nat,
}

/// What the accounts listed in `accounts` hold together, each occurrence counted.
pub open spec fn sum_of(balances: Map<AccountId, nat>, accounts: Seq<AccountId>) -> nat
    decreases accounts.len(),
{
    if accounts.len() == 0 {
        0
    } else {
        sum_of(balances, accounts.drop_last()) + balances[accounts.last()]
    }
}

/// Whether every account with a positive balance occurs in `accounts`.
pub open spec fn lists_every_holder(
    balances: Map<AccountId, nat>,
    accounts: Seq<AccountId>,
) -> bool {
    forall|account: AccountId| #[trigger]
        balances[account] > 0 ==> accounts.contains(account)
}

impl Ledger {
    /// The ledger right after creation: `holder` owns the whole supply.
    pub open spec fn opened(supply: nat, holder: AccountId) -> Ledger {
        Ledger {
            total_supply: supply,
            balances: Map::total(|account: AccountId| 0nat).insert(holder, supply),
        }
    }

    /// The balance of `account`.
    pub open spec fn balance_of(self, account: AccountId) -> nat {
        self.balances[account]
    }

    /// The ledger after `caller` asked to move `amount` units to `recipient`.
    ///
    /// A caller who holds less than `amount` changes nothing. Otherwise the
    /// amount leaves the caller first and reaches the recipient second, so a
    /// transfer to oneself ends where it began.
    pub open spec fn transfer(self, caller: AccountId, recipient: AccountId, amount: nat) -> Ledger {
        if self.balances[caller] < amount {
            self
        } else {
            let debited = self.balances.insert(caller, (self.balances[caller] - amount) as nat);
            Ledger {
                total_supply: self.total_supply,
                balances: debited.insert(recipient, debited[recipient] + amount),
            }
        }
    }

    /// The ledger after the requests of `transfers`, served first to last.
    pub open spec fn transfer_all(self, transfers: Seq<Transfer>) -> Ledger
        decreases transfers.len(),
    {
        if transfers.len() == 0 {
            self
        } else {
            let request = transfers.last();
            self.transfer_all(transfers.drop_last()).transfer(
                request.caller,
                request.recipient,
                request.amount,
            )
        }
    }

    /// What the accounts listed in `accounts` hold together.
    pub open spec fn held_by(self, accounts: Seq<AccountId>) -> nat {
        sum_of(self.balances, accounts)
    }

    /// Whether `accounts` names each account once at most and leaves out none
    /// that holds anything.
    pub open spec fn is_census(self, accounts: Seq<AccountId>) -> bool {
        accounts.no_duplicates() && lists_every_holder(self.balances, accounts)
    }

    /// Whether the balances add up to the total supply: finitely many accounts
    /// hold anything, and together they hold exactly `total_supply`.
    pub open spec fn conserved(self) -> bool {
        exists|accounts: Seq<AccountId>|
            self.is_census(accounts) && #[trigger] self.held_by(accounts) == self.total_supply
    }
}

/// No balance is ever negative.
pub proof fn lemma_balances_never_negative(ledger: Ledger, account: AccountId)
    ensures
        ledger.balance_of(account) >= 0,
{
}

/// A transfer never touches the total supply.
pub proof fn lemma_transfer_keeps_total_supply(
    ledger: Ledger,
    caller: AccountId,
    recipient: AccountId,
    amount: nat,
)
    ensures
        ledger.transfer(caller, recipient, amount).total_supply == ledger.total_supply,
{
}

/// The total supply after any number of transfers is the total supply before
/// them.
pub proof fn lemma_total_supply_never_changes(ledger: Ledger, transfers: Seq<Transfer>)
    ensures
        ledger.transfer_all(transfers).total_supply == ledger.total_supply,
    decreases transfers.len(),
{
    if transfers.len() > 0 {
        lemma_total_supply_never_changes(ledger, transfers.drop_last());
    }
}

/// A caller who holds less than the amount asked for changes nothing: the
/// ledger after the request is the ledger before it, so in particular the
/// caller and the recipient hold what they held.
pub proof fn lemma_insufficient_funds_change_nothing(
    ledger: Ledger,
    caller: AccountId,
    recipient: AccountId,
    amount: nat,
)
    requires
        ledger.balance_of(caller) < amount,
    ensures
        ledger.transfer(caller, recipient, amount) == ledger,
        ledger.transfer(caller, recipient, amount).balance_of(caller) == ledger.balance_of(caller),
        ledger.transfer(caller, recipient, amount).balance_of(recipient) == ledger.balance_of(
            recipient,
        ),
{
}

/// A transfer to oneself leaves every balance as it was, whether the amount
/// is covered or not.
pub proof fn lemma_self_transfer_changes_no_balance(
    ledger: Ledger,
    account: AccountId,
    amount: nat,
)
    ensures
        forall|other: AccountId|
            #[trigger] ledger.transfer(account, account, amount).balance_of(other)
                == ledger.balance_of(other),
{
}

/// A covered transfer between two different accounts takes the amount from
/// the caller, gives it to the recipient and leaves everyone else alone.
pub proof fn lemma_transfer_moves_amount(
    ledger: Ledger,
    caller: AccountId,
    recipient: AccountId,
    amount: nat,
)
    requires
        caller != recipient,
        amount <= ledger.balance_of(caller),
    ensures
        ledger.transfer(caller, recipient, amount).balance_of(caller) == ledger.balance_of(caller)
            - amount,
        ledger.transfer(caller, recipient, amount).balance_of(recipient) == ledger.balance_of(
            recipient,
        ) + amount,
        forall|other: AccountId|
            other != caller && other != recipient ==> #[trigger] ledger.transfer(
                caller,
                recipient,
                amount,
            ).balance_of(other) == ledger.balance_of(other),
{
}

} // verus!
