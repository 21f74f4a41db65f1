//! Why no transfer creates or destroys a unit.

use vstd::prelude::*;
use crate::account::AccountId;
use crate::ledger::{lists_every_holder, sum_of, Ledger, Transfer};

verus! {

/// Accounts that hold nothing add up to nothing.
proof fn lemma_sum_of_empty_accounts(balances: Map<AccountId, nat>, accounts: Seq<AccountId>)
    requires
        forall|i: int| 0 <= i < accounts.len() ==> balances[#[trigger] accounts[i]] == 0,
    ensures
        sum_of(balances, accounts) == 0,
    decreases accounts.len(),
{
    if accounts.len() > 0 {
        let front = accounts.drop_last();
        assert forall|i: int| 0 <= i < front.len() implies balances[#[trigger] front[i]] == 0 by {
            assert(front[i] == accounts[i]);
        }
        lemma_sum_of_empty_accounts(balances, front);
        assert(accounts.last() == accounts[accounts.len() - 1]);
    }
}

/// Writing one balance changes a sum by the difference, if the account is
/// counted, and not at all otherwise.
proof fn lemma_sum_after_insert(
    balances: Map<AccountId, nat>,
    account: AccountId,
    balance: nat,
    accounts: Seq<AccountId>,
)
    requires
        accounts.no_duplicates(),
    ensures
        sum_of(balances.insert(account, balance), accounts) == if accounts.contains(account) {
            sum_of(balances, accounts) - balances[account] + balance
        } else {
            sum_of(balances, accounts) as int
        },
    decreases accounts.len(),
{
    if accounts.len() > 0 {
        let front = accounts.drop_last();
        let last = accounts.last();
        assert(front.no_duplicates()) by {
            assert forall|i: int, j: int|
                0 <= i < front.len() && 0 <= j < front.len() && i != j implies front[i]
                != front[j] by {
                assert(front[i] == accounts[i] && front[j] == accounts[j]);
            }
        }
        lemma_sum_after_insert(balances, account, balance, front);
        if front.contains(account) {
            let i = choose|i: int| 0 <= i < front.len() && front[i] == account;
            assert(accounts[i] == account);
            assert(accounts[accounts.len() - 1] == last);
            assert(last != account);
        } else if last == account {
            assert(accounts[accounts.len() - 1] == account);
        } else {
            assert forall|i: int| 0 <= i < accounts.len() implies accounts[i] != account by {
                if i < front.len() {
                    assert(front[i] == accounts[i]);
                }
            }
        }
    }
}

/// No list of distinct accounts holds more than a list that leaves out no
/// holder, and one that leaves out no holder either holds as much.
proof fn lemma_sum_bounded_by_census(
    balances: Map<AccountId, nat>,
    census: Seq<AccountId>,
    accounts: Seq<AccountId>,
)
    requires
        census.no_duplicates(),
        lists_every_holder(balances, census),
        accounts.no_duplicates(),
    ensures
        sum_of(balances, accounts) <= sum_of(balances, census),
        lists_every_holder(balances, accounts) ==> sum_of(balances, accounts) == sum_of(
            balances,
            census,
        ),
    decreases census.len(),
{
    if census.len() == 0 {
        assert forall|i: int| 0 <= i < accounts.len() implies balances[#[trigger] accounts[i]]
            == 0 by {
            if balances[accounts[i]] > 0 {
                assert(census.contains(accounts[i]));
            }
        }
        lemma_sum_of_empty_accounts(balances, accounts);
    } else {
        let front = census.drop_last();
        let last = census.last();
        let emptied = balances.insert(last, 0);
        assert(front.no_duplicates()) by {
            assert forall|i: int, j: int|
                0 <= i < front.len() && 0 <= j < front.len() && i != j implies front[i]
                != front[j] by {
                assert(front[i] == census[i] && front[j] == census[j]);
            }
        }
        assert(!front.contains(last)) by {
            if front.contains(last) {
                let i = choose|i: int| 0 <= i < front.len() && front[i] == last;
                assert(census[i] == census[census.len() - 1]);
            }
        }
        assert(lists_every_holder(emptied, front)) by {
            assert forall|account: AccountId| #[trigger] emptied[account] > 0 implies front.contains(
                account,
            ) by {
                assert(account != last);
                assert(balances[account] > 0);
                assert(census.contains(account));
                let i = choose|i: int| 0 <= i < census.len() && census[i] == account;
                assert(front[i] == account);
            }
        }
        lemma_sum_bounded_by_census(emptied, front, accounts);
        lemma_sum_after_insert(balances, last, 0, front);
        lemma_sum_after_insert(balances, last, 0, accounts);
        if lists_every_holder(balances, accounts) {
            assert(lists_every_holder(emptied, accounts)) by {
                assert forall|account: AccountId| #[trigger]
                    emptied[account] > 0 implies accounts.contains(account) by {
                    assert(account != last);
                    assert(balances[account] > 0);
                }
            }
            if balances[last] > 0 {
                assert(accounts.contains(last));
            }
        }
    }
}

/// A ledger that was just opened is conserved: the one holder has it all.
pub proof fn lemma_opened_conserved(supply: nat, holder: AccountId)
    ensures
        Ledger::opened(supply, holder).conserved(),
{
    let ledger = Ledger::opened(supply, holder);
    let census = seq![holder];
    assert(census.drop_last() =~= Seq::<AccountId>::empty());
    assert(sum_of(ledger.balances, census.drop_last()) == 0);
    assert(census.last() == holder);
    assert(ledger.held_by(census) == supply);
    assert(lists_every_holder(ledger.balances, census)) by {
        assert forall|account: AccountId| #[trigger]
            ledger.balances[account] > 0 implies census.contains(account) by {
            assert(account == holder);
            assert(census[0] == holder);
        }
    }
    assert(ledger.is_census(census));
}

/// A transfer keeps a conserved ledger conserved, whoever asks for it and
/// whatever the amount.
pub proof fn lemma_transfer_conserves(
    ledger: Ledger,
    caller: AccountId,
    recipient: AccountId,
    amount: nat,
)
    requires
        ledger.conserved(),
    ensures
        ledger.transfer(caller, recipient, amount).conserved(),
{
    if ledger.balances[caller] >= amount {
        let after = ledger.transfer(caller, recipient, amount);
        let census = choose|accounts: Seq<AccountId>|
            ledger.is_census(accounts) && #[trigger] ledger.held_by(accounts)
                == ledger.total_supply;
        let debited = ledger.balances.insert(caller, (ledger.balances[caller] - amount) as nat);
        let widened = if census.contains(recipient) {
            census
        } else {
            census.push(recipient)
        };
        lemma_sum_after_insert(
            ledger.balances,
            caller,
            (ledger.balances[caller] - amount) as nat,
            census,
        );
        assert(sum_of(debited, census) == ledger.total_supply - amount) by {
            if !census.contains(caller) {
                assert(ledger.balances[caller] == 0);
            }
        }
        assert(widened.no_duplicates() && sum_of(after.balances, widened) == ledger.total_supply)
            by {
            lemma_sum_after_insert(debited, recipient, debited[recipient] + amount, census);
            if !census.contains(recipient) {
                assert(ledger.balances[recipient] == 0);
                assert(debited[recipient] == 0);
                assert(widened.drop_last() =~= census);
                assert(widened.last() == recipient);
                assert forall|i: int, j: int|
                    0 <= i < widened.len() && 0 <= j < widened.len() && i != j implies widened[i]
                    != widened[j] by {
                    if i < census.len() && j < census.len() {
                        assert(census[i] != census[j]);
                    } else if i < census.len() {
                        assert(census.contains(census[i]));
                    } else {
                        assert(census.contains(census[j]));
                    }
                }
            }
        }
        assert(lists_every_holder(after.balances, widened)) by {
            assert forall|account: AccountId| #[trigger]
                after.balances[account] > 0 implies widened.contains(account) by {
                if account == recipient {
                    if census.contains(recipient) {
                    } else {
                        assert(widened[widened.len() - 1] == recipient);
                    }
                } else {
                    assert(ledger.balances[account] > 0);
                    assert(census.contains(account));
                    let i = choose|i: int| 0 <= i < census.len() && census[i] == account;
                    assert(widened[i] == account);
                }
            }
        }
        assert(after.is_census(widened));
        assert(after.held_by(widened) == after.total_supply);
    }
}

/// However many transfers are served, a conserved ledger stays conserved.
pub proof fn lemma_transfers_conserve(ledger: Ledger, transfers: Seq<Transfer>)
    requires
        ledger.conserved(),
    ensures
        ledger.transfer_all(transfers).conserved(),
    decreases transfers.len(),
{
    if transfers.len() > 0 {
        let request = transfers.last();
        lemma_transfers_conserve(ledger, transfers.drop_last());
        lemma_transfer_conserves(
            ledger.transfer_all(transfers.drop_last()),
            request.caller,
            request.recipient,
            request.amount,
        );
    }
}

/// In a conserved ledger, accounts that are each counted once never hold more
/// than the total supply, and hold exactly the total supply as soon as no
/// holder is left out of the count.
pub proof fn lemma_holdings_within_supply(ledger: Ledger, accounts: Seq<AccountId>)
    requires
        ledger.conserved(),
        accounts.no_duplicates(),
    ensures
        ledger.held_by(accounts) <= ledger.total_supply,
        lists_every_holder(ledger.balances, accounts) ==> ledger.held_by(accounts)
            == ledger.total_supply,
{
    let census = choose|census: Seq<AccountId>|
        ledger.is_census(census) && #[trigger] ledger.held_by(census) == ledger.total_supply;
    lemma_sum_bounded_by_census(ledger.balances, census, accounts);
}

/// From the moment a ledger is opened and through every sequence of
/// transfers, the balances of distinct accounts never add up to more than the
/// supply it was opened with, and add up to exactly that supply when every
/// holder is among them.
pub proof fn lemma_units_are_conserved(
    supply: nat,
    holder: AccountId,
    transfers: Seq<Transfer>,
    accounts: Seq<AccountId>,
)
    requires
        accounts.no_duplicates(),
    ensures
        ({
            let ledger = Ledger::opened(supply, holder).transfer_all(transfers);
            &&& ledger.total_supply == supply
            &&& ledger.held_by(accounts) <= supply
            &&& lists_every_holder(ledger.balances, accounts) ==> ledger.held_by(accounts)
                == supply
        }),
{
    let opened = Ledger::opened(supply, holder);
    lemma_opened_conserved(supply, holder);
    lemma_transfers_conserve(opened, transfers);
    crate::ledger::lemma_total_supply_never_changes(opened, transfers);
    lemma_holdings_within_supply(opened.transfer_all(transfers), accounts);
}

} // verus!
