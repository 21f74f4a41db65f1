//! The executable ledger.

use vstd::prelude::*;
use crate::account::AccountId;
use crate::conservation::{
    lemma_holdings_within_supply,
    lemma_opened_conserved,
    lemma_transfer_conserves,
};
use crate::ledger::{sum_of, Ledger};
use crate::rules::{balance_or_zero, credit, debit};

verus! {

/// One account and what it holds.
struct Holding {
    account: AccountId,
    balance: u32,
}

/// What `holdings` records for `account`: the balance of the first entry
/// under that account, or nothing.
spec fn recorded(holdings: Seq<Holding>, account: AccountId) -> Option<u32>
    decreases holdings.len(),
{
    if holdings.len() == 0 {
        None
    } else if holdings[0].account == account {
        Some(holdings[0].balance)
    } else {
        recorded(holdings.subrange(1, holdings.len() as int), account)
    }
}

/// The balance that `holdings` gives `account`.
spec fn balance_in(holdings: Seq<Holding>, account: AccountId) -> nat {
    match recorded(holdings, account) {
        Some(balance) => balance as nat,
        None => 0,
    }
}

/// An entry under `account` that no earlier entry hides is what is recorded.
proof fn lemma_recorded_at_first(holdings: Seq<Holding>, account: AccountId, at: int)
    requires
        0 <= at < holdings.len(),
        holdings[at].account == account,
        forall|j: int| 0 <= j < at ==> holdings[j].account != account,
    ensures
        recorded(holdings, account) == Some(holdings[at].balance),
    decreases at,
{
    if at > 0 {
        let rest = holdings.subrange(1, holdings.len() as int);
        assert forall|j: int| 0 <= j < at - 1 implies rest[j].account != account by {
            assert(rest[j] == holdings[j + 1]);
        }
        lemma_recorded_at_first(rest, account, at - 1);
    }
}

/// Where no entry stands under `account`, nothing is recorded for it.
proof fn lemma_recorded_nowhere(holdings: Seq<Holding>, account: AccountId)
    requires
        forall|j: int| 0 <= j < holdings.len() ==> holdings[j].account != account,
    ensures
        recorded(holdings, account) == None::<u32>,
    decreases holdings.len(),
{
    if holdings.len() > 0 {
        let rest = holdings.subrange(1, holdings.len() as int);
        assert forall|j: int| 0 <= j < rest.len() implies rest[j].account != account by {
            assert(rest[j] == holdings[j + 1]);
        }
        lemma_recorded_nowhere(rest, account);
    }
}

/// Rewriting the first entry of an account changes what is recorded for that
/// account and for no other.
proof fn lemma_recorded_after_update(
    holdings: Seq<Holding>,
    at: int,
    entry: Holding,
    other: AccountId,
)
    requires
        0 <= at < holdings.len(),
        holdings[at].account == entry.account,
        forall|j: int| 0 <= j < at ==> holdings[j].account != entry.account,
    ensures
        recorded(holdings.update(at, entry), other) == if other == entry.account {
            Some(entry.balance)
        } else {
            recorded(holdings, other)
        },
    decreases at,
{
    let updated = holdings.update(at, entry);
    if at > 0 {
        let rest = holdings.subrange(1, holdings.len() as int);
        assert forall|j: int| 0 <= j < at - 1 implies rest[j].account != entry.account by {
            assert(rest[j] == holdings[j + 1]);
        }
        lemma_recorded_after_update(rest, at - 1, entry, other);
        assert(updated.subrange(1, updated.len() as int) =~= rest.update(at - 1, entry));
        assert(updated[0] == holdings[0]);
    } else {
        assert(updated.subrange(1, updated.len() as int) =~= holdings.subrange(
            1,
            holdings.len() as int,
        ));
    }
}

/// Appending an entry for an account that has none changes what is recorded
/// for that account and for no other.
proof fn lemma_recorded_after_push(holdings: Seq<Holding>, entry: Holding, other: AccountId)
    requires
        forall|j: int| 0 <= j < holdings.len() ==> holdings[j].account != entry.account,
    ensures
        recorded(holdings.push(entry), other) == if other == entry.account {
            Some(entry.balance)
        } else {
            recorded(holdings, other)
        },
    decreases holdings.len(),
{
    let pushed = holdings.push(entry);
    if holdings.len() > 0 {
        let rest = holdings.subrange(1, holdings.len() as int);
        assert forall|j: int| 0 <= j < rest.len() implies rest[j].account != entry.account by {
            assert(rest[j] == holdings[j + 1]);
        }
        lemma_recorded_after_push(rest, entry, other);
        assert(pushed.subrange(1, pushed.len() as int) =~= rest.push(entry));
        assert(pushed[0] == holdings[0]);
    } else {
        let rest = pushed.subrange(1, pushed.len() as int);
        assert(rest =~= Seq::<Holding>::empty());
        assert(recorded(rest, other) == None::<u32>);
        assert(pushed[0] == entry);
    }
}

/// A token with a supply fixed at creation and a balance for every account.
pub struct Mytoken {
    total_supply: u32,
    holdings: Vec<Holding>,
}

impl View for Mytoken {
    type V = Ledger;

    closed spec fn view(&self) -> Ledger {
        Ledger {
            total_supply: self.total_supply as nat,
            balances: Map::total(|account: AccountId| balance_in(self.holdings@, account)),
        }
    }
}

impl Mytoken {
    /// Whether the balances of this token add up to its total supply.
    ///
    /// `new_token` returns such a token and `transfer` keeps it so.
    pub open spec fn wf(&self) -> bool {
        self@.conserved()
    }

    /// The first entry under `account`, if there is one.
    fn position(&self, account: &AccountId) -> (found: Option<usize>)
        ensures
            match found {
                Some(at) => {
                    &&& at < self.holdings@.len()
                    &&& self.holdings@[at as int].account == *account
                    &&& forall|j: int| 0 <= j < at ==> self.holdings@[j].account != *account
                },
                None => forall|j: int|
                    0 <= j < self.holdings@.len() ==> self.holdings@[j].account != *account,
            },
    {
        let mut i: usize = 0;
        while i < self.holdings.len()
            invariant
                i <= self.holdings@.len(),
                forall|j: int| 0 <= j < i ==> self.holdings@[j].account != *account,
            decreases self.holdings@.len() - i,
        {
            if self.holdings[i].account == *account {
                return Some(i);
            }
            i += 1;
        }
        None
    }

    /// What is stored for `account`, if anything is.
    fn stored(&self, account: &AccountId) -> (entry: Option<u32>)
        ensures
            entry == recorded(self.holdings@, *account),
    {
        match self.position(account) {
            Some(at) => {
                proof {
                    lemma_recorded_at_first(self.holdings@, *account, at as int);
                }
                Some(self.holdings[at].balance)
            },
            None => {
                proof {
                    lemma_recorded_nowhere(self.holdings@, *account);
                }
                None
            },
        }
    }

    /// Stores `balance` for `account` and leaves every other account alone.
    fn store(&mut self, account: AccountId, balance: u32)
        ensures
            final(self)@.total_supply == old(self)@.total_supply,
            final(self)@.balances == old(self)@.balances.insert(account, balance as nat),
    {
        let entry = Holding { account, balance };
        match self.position(&account) {
            Some(at) => {
                proof {
                    assert forall|other: AccountId|
                        balance_in(self.holdings@.update(at as int, entry), other) == if other
                            == account {
                            balance as nat
                        } else {
                            balance_in(self.holdings@, other)
                        } by {
                        lemma_recorded_after_update(self.holdings@, at as int, entry, other);
                    }
                }
                self.holdings.set(at, entry);
            },
            None => {
                proof {
                    assert forall|other: AccountId|
                        balance_in(self.holdings@.push(entry), other) == if other == account {
                            balance as nat
                        } else {
                            balance_in(self.holdings@, other)
                        } by {
                        lemma_recorded_after_push(self.holdings@, entry, other);
                    }
                }
                self.holdings.push(entry);
            },
        }
        assert(self@.balances =~= old(self)@.balances.insert(account, balance as nat));
    }

    /// Creates the token: `caller` holds the whole `supply`.
    pub fn new_token(supply: u32, caller: AccountId) -> (token: Mytoken)
        ensures
            token@ == Ledger::opened(supply as nat, caller),
            token.wf(),
    {
        let mut token = Mytoken { total_supply: supply, holdings: Vec::new() };
        assert(token@.balances =~= Map::total(|account: AccountId| 0nat)) by {
            assert forall|account: AccountId| balance_in(token.holdings@, account) == 0 by {
                lemma_recorded_nowhere(token.holdings@, account);
            }
        }
        token.store(caller, supply);
        proof {
            lemma_opened_conserved(supply as nat, caller);
        }
        token
    }

    /// The supply that the token was created with.
    pub fn total_supply(&self) -> (supply: u32)
        ensures
            supply == self@.total_supply,
    {
        self.total_supply
    }

    /// What `account` holds: zero for an account that never received
    /// anything.
    pub fn balance_of(&self, account: AccountId) -> (balance: u32)
        ensures
            balance == self@.balance_of(account),
    {
        balance_or_zero(self.stored(&account))
    }

    /// Moves `amount` units from `caller` to `recipient`.
    ///
    /// A caller who holds less than `amount` moves nothing, and is not told
    /// so. The sum on the recipient's side cannot overflow, because the
    /// balances never add up to more than the total supply.
    pub fn transfer(&mut self, caller: AccountId, recipient: AccountId, amount: u32)
        requires
            old(self).wf(),
        ensures
            final(self)@ == old(self)@.transfer(caller, recipient, amount as nat),
            final(self).wf(),
    {
        proof {
            lemma_transfer_conserves(self@, caller, recipient, amount as nat);
        }
        let sender_balance = self.balance_of(caller);
        match debit(sender_balance, amount) {
            None => {},
            Some(left) => {
                self.store(caller, left);
                let recipient_balance = self.balance_of(recipient);
                proof {
                    let after = old(self)@.transfer(caller, recipient, amount as nat);
                    let only = seq![recipient];
                    assert(only.drop_last() =~= Seq::<AccountId>::empty());
                    assert(sum_of(after.balances, only.drop_last()) == 0);
                    assert(only.last() == recipient);
                    lemma_holdings_within_supply(after, only);
                    assert(after.held_by(only) == recipient_balance + amount);
                }
                self.store(recipient, credit(recipient_balance, amount));
            },
        }
    }
}

} // verus!
