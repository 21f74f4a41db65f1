//! The token driven the way a contract host drives it: the host's test
//! environment names the accounts and says who is calling.

use ink_env::test::{default_accounts, run_test, set_caller};
use ink_env::DefaultEnvironment;
use mytoken::account::AccountId;
use mytoken::token::Mytoken;

/// The ledger's identifier for an account of the host.
fn account(id: &ink_env::AccountId) -> AccountId {
    let bytes: &[u8; 32] = id.as_ref();
    AccountId { bytes: *bytes }
}

/// Whoever the host says is calling.
fn caller() -> AccountId {
    account(&ink_env::caller::<DefaultEnvironment>())
}

#[test]
fn total_supply_works() {
    run_test::<DefaultEnvironment, _>(|_| {
        let mytoken = Mytoken::new_token(1000, caller());
        assert_eq!(mytoken.total_supply(), 1000);
        Ok(())
    })
    .unwrap();
}

#[test]
fn balance_of_works() {
    run_test::<DefaultEnvironment, _>(|_| {
        let accounts = default_accounts::<DefaultEnvironment>();
        set_caller::<DefaultEnvironment>(accounts.alice.clone());
        let mytoken = Mytoken::new_token(1000, caller());
        assert_eq!(mytoken.balance_of(account(&accounts.alice)), 1000);
        assert_eq!(mytoken.balance_of(account(&accounts.bob)), 0);
        Ok(())
    })
    .unwrap();
}

#[test]
fn transfer_works() {
    run_test::<DefaultEnvironment, _>(|_| {
        let accounts = default_accounts::<DefaultEnvironment>();
        set_caller::<DefaultEnvironment>(accounts.alice.clone());
        let mut mytoken = Mytoken::new_token(1000, caller());
        assert_eq!(mytoken.balance_of(account(&accounts.alice)), 1000);
        assert_eq!(mytoken.balance_of(account(&accounts.bob)), 0);
        mytoken.transfer(caller(), account(&accounts.bob), 100);
        assert_eq!(mytoken.balance_of(account(&accounts.alice)), 900);
        assert_eq!(mytoken.balance_of(account(&accounts.bob)), 100);
        Ok(())
    })
    .unwrap();
}

#[test]
fn host_accounts_keep_their_bytes() {
    let accounts = default_accounts::<DefaultEnvironment>();
    assert_eq!(account(&accounts.alice), AccountId { bytes: [1; 32] });
    assert_eq!(account(&accounts.bob), AccountId { bytes: [2; 32] });
    assert_ne!(account(&accounts.alice), account(&accounts.bob));
}

#[test]
fn the_caller_changes_with_the_host() {
    run_test::<DefaultEnvironment, _>(|accounts| {
        let mut mytoken = Mytoken::new_token(1000, caller());
        set_caller::<DefaultEnvironment>(accounts.bob.clone());
        mytoken.transfer(caller(), account(&accounts.alice), 1);
        assert_eq!(mytoken.balance_of(account(&accounts.alice)), 1000);
        assert_eq!(mytoken.balance_of(account(&accounts.bob)), 0);
        set_caller::<DefaultEnvironment>(accounts.alice.clone());
        mytoken.transfer(caller(), account(&accounts.bob), 1);
        assert_eq!(mytoken.balance_of(account(&accounts.alice)), 999);
        assert_eq!(mytoken.balance_of(account(&accounts.bob)), 1);
        Ok(())
    })
    .unwrap();
}
