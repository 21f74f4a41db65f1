//! The ledger on its own, with accounts written out byte by byte.

use mytoken::account::AccountId;
use mytoken::rules::{balance_or_zero, credit, debit};
use mytoken::token::Mytoken;

fn id(byte: u8) -> AccountId {
    AccountId { bytes: [byte; 32] }
}

fn alice() -> AccountId {
    id(1)
}

fn bob() -> AccountId {
    id(2)
}

fn charlie() -> AccountId {
    id(3)
}

/// Alice opened the token with 1000 units and gave Bob 100 of them.
fn after_first_transfer() -> Mytoken {
    let mut token = Mytoken::new_token(1000, alice());
    token.transfer(alice(), bob(), 100);
    token
}

fn held_by(token: &Mytoken, accounts: &[AccountId]) -> u64 {
    let mut sum: u64 = 0;
    for account in accounts {
        sum += u64::from(token.balance_of(*account));
    }
    sum
}

#[test]
fn creator_holds_the_whole_supply() {
    let token = Mytoken::new_token(1000, alice());
    assert_eq!(token.total_supply(), 1000);
    assert_eq!(token.balance_of(alice()), 1000);
    assert_eq!(token.balance_of(bob()), 0);
}

#[test]
fn transfer_moves_the_amount() {
    let token = after_first_transfer();
    assert_eq!(token.balance_of(alice()), 900);
    assert_eq!(token.balance_of(bob()), 100);
}

#[test]
fn transfer_beyond_the_balance_changes_nothing() {
    let mut token = after_first_transfer();
    token.transfer(bob(), alice(), 5000);
    assert_eq!(token.balance_of(alice()), 900);
    assert_eq!(token.balance_of(bob()), 100);
    assert_eq!(token.total_supply(), 1000);
}

#[test]
fn transfer_of_one_unit_too_many_changes_nothing() {
    let mut token = after_first_transfer();
    token.transfer(bob(), charlie(), 101);
    assert_eq!(token.balance_of(bob()), 100);
    assert_eq!(token.balance_of(charlie()), 0);
}

#[test]
fn transfer_of_the_exact_balance_empties_the_sender() {
    let mut token = after_first_transfer();
    token.transfer(bob(), charlie(), 100);
    assert_eq!(token.balance_of(bob()), 0);
    assert_eq!(token.balance_of(charlie()), 100);
    assert_eq!(token.balance_of(alice()), 900);
}

#[test]
fn empty_supply_leaves_nothing_to_move() {
    let mut token = Mytoken::new_token(0, alice());
    assert_eq!(token.total_supply(), 0);
    assert_eq!(token.balance_of(alice()), 0);
    token.transfer(alice(), bob(), 1);
    assert_eq!(token.balance_of(alice()), 0);
    assert_eq!(token.balance_of(bob()), 0);
    token.transfer(alice(), bob(), u32::MAX);
    assert_eq!(token.balance_of(alice()), 0);
    assert_eq!(token.balance_of(bob()), 0);
}

#[test]
fn transfer_to_oneself_keeps_the_balance() {
    let mut token = after_first_transfer();
    token.transfer(alice(), alice(), 900);
    assert_eq!(token.balance_of(alice()), 900);
    assert_eq!(token.balance_of(bob()), 100);
    token.transfer(alice(), alice(), 1);
    assert_eq!(token.balance_of(alice()), 900);
}

#[test]
fn transfer_to_oneself_beyond_the_balance_keeps_the_balance() {
    let mut token = after_first_transfer();
    token.transfer(bob(), bob(), 101);
    assert_eq!(token.balance_of(bob()), 100);
    assert_eq!(token.balance_of(alice()), 900);
}

#[test]
fn transfer_of_nothing_changes_nothing() {
    let mut token = after_first_transfer();
    token.transfer(alice(), bob(), 0);
    token.transfer(charlie(), alice(), 0);
    token.transfer(charlie(), charlie(), 0);
    assert_eq!(token.balance_of(alice()), 900);
    assert_eq!(token.balance_of(bob()), 100);
    assert_eq!(token.balance_of(charlie()), 0);
}

#[test]
fn unknown_account_holds_nothing() {
    let token = after_first_transfer();
    assert_eq!(token.balance_of(id(0)), 0);
    assert_eq!(token.balance_of(id(255)), 0);
}

#[test]
fn accounts_that_differ_in_one_byte_are_different_accounts() {
    let mut near = [1u8; 32];
    near[31] = 9;
    let neighbour = AccountId { bytes: near };
    let mut token = Mytoken::new_token(50, alice());
    token.transfer(alice(), neighbour, 20);
    assert_eq!(token.balance_of(alice()), 30);
    assert_eq!(token.balance_of(neighbour), 20);
    assert_ne!(alice(), neighbour);
    assert_eq!(alice(), AccountId { bytes: [1; 32] });
}

#[test]
fn total_supply_survives_every_transfer() {
    let mut token = Mytoken::new_token(1000, alice());
    token.transfer(alice(), bob(), 400);
    assert_eq!(token.total_supply(), 1000);
    token.transfer(bob(), charlie(), 150);
    assert_eq!(token.total_supply(), 1000);
    token.transfer(charlie(), alice(), 9999);
    assert_eq!(token.total_supply(), 1000);
    token.transfer(charlie(), charlie(), 150);
    assert_eq!(token.total_supply(), 1000);
}

#[test]
fn balances_add_up_to_the_supply() {
    let everyone = [alice(), bob(), charlie()];
    let mut token = Mytoken::new_token(1000, alice());
    assert_eq!(held_by(&token, &everyone), 1000);
    token.transfer(alice(), bob(), 400);
    assert_eq!(held_by(&token, &everyone), 1000);
    token.transfer(bob(), charlie(), 150);
    assert_eq!(held_by(&token, &everyone), 1000);
    token.transfer(charlie(), alice(), 151);
    assert_eq!(held_by(&token, &everyone), 1000);
    token.transfer(bob(), bob(), 250);
    assert_eq!(held_by(&token, &everyone), 1000);
    assert_eq!(token.balance_of(alice()), 600);
    assert_eq!(token.balance_of(bob()), 250);
    assert_eq!(token.balance_of(charlie()), 150);
}

#[test]
fn some_accounts_hold_no_more_than_the_supply() {
    let mut token = Mytoken::new_token(1000, alice());
    token.transfer(alice(), bob(), 400);
    token.transfer(bob(), charlie(), 150);
    assert_eq!(held_by(&token, &[alice(), charlie()]), 750);
    assert_eq!(held_by(&token, &[bob()]), 250);
    assert_eq!(held_by(&token, &[]), 0);
    assert!(held_by(&token, &[bob(), charlie(), id(7)]) <= u64::from(token.total_supply()));
}

#[test]
fn largest_supply_moves_without_overflow() {
    let mut token = Mytoken::new_token(u32::MAX, alice());
    token.transfer(alice(), bob(), u32::MAX);
    assert_eq!(token.balance_of(alice()), 0);
    assert_eq!(token.balance_of(bob()), u32::MAX);
    token.transfer(bob(), alice(), 1);
    assert_eq!(token.balance_of(alice()), 1);
    assert_eq!(token.balance_of(bob()), u32::MAX - 1);
    token.transfer(alice(), bob(), 1);
    assert_eq!(token.balance_of(bob()), u32::MAX);
    assert_eq!(token.total_supply(), u32::MAX);
}

#[test]
fn many_accounts_each_keep_their_own_balance() {
    let mut token = Mytoken::new_token(10_000, id(0));
    let mut byte: u8 = 1;
    while byte <= 100 {
        token.transfer(id(0), id(byte), u32::from(byte));
        byte += 1;
    }
    let mut byte: u8 = 1;
    while byte <= 100 {
        assert_eq!(token.balance_of(id(byte)), u32::from(byte));
        byte += 1;
    }
    assert_eq!(token.balance_of(id(0)), 10_000 - 5050);
    assert_eq!(token.balance_of(id(101)), 0);
}

#[test]
fn debit_leaves_the_rest() {
    assert_eq!(debit(1000, 100), Some(900));
    assert_eq!(debit(100, 100), Some(0));
    assert_eq!(debit(0, 0), Some(0));
    assert_eq!(debit(u32::MAX, 1), Some(u32::MAX - 1));
}

#[test]
fn debit_refuses_what_is_not_covered() {
    assert_eq!(debit(100, 5000), None);
    assert_eq!(debit(99, 100), None);
    assert_eq!(debit(0, 1), None);
}

#[test]
fn credit_adds_the_amount() {
    assert_eq!(credit(0, 100), 100);
    assert_eq!(credit(900, 100), 1000);
    assert_eq!(credit(7, 0), 7);
    assert_eq!(credit(u32::MAX - 1, 1), u32::MAX);
}

#[test]
fn missing_entry_reads_as_zero() {
    assert_eq!(balance_or_zero(None), 0);
    assert_eq!(balance_or_zero(Some(0)), 0);
    assert_eq!(balance_or_zero(Some(1000)), 1000);
}
