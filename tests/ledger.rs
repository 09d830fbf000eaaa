use journal_ledger::accounts::{AccountDetails, AccountStatus, Accounts, LedgerError};
use journal_ledger::amount::Amount;
use journal_ledger::channel::TransactionMessage;

fn amt(mantissa: i128, scale: u32) -> Amount {
    Amount::new(mantissa, scale).unwrap()
}

fn assert_balanced(d: &AccountDetails) {
    let sum = d.available().checked_add(&d.held()).unwrap();
    assert!(!sum.greater_than(&d.total()) && !d.total().greater_than(&sum));
}

#[test]
fn amount_addition_aligns_scales_exactly() {
    assert_eq!(amt(15, 1).checked_add(&amt(2, 0)), Some(amt(35, 1)));
    assert_eq!(amt(1, 28).checked_add(&amt(1, 0)), Some(amt(10000000000000000000000000001, 28)));
    assert_eq!(amt(50, 1).checked_sub(&amt(50, 1)), Some(amt(0, 1)));
    assert_eq!(amt(1, 0).checked_sub(&amt(25, 1)), Some(amt(-15, 1)));
}

#[test]
fn amount_addition_out_of_range_is_refused() {
    let max = amt(79228162514264337593543950335, 0);
    assert_eq!(max.checked_add(&amt(1, 0)), None);
    assert_eq!(max.checked_add(&amt(1, 28)), None);
    assert_eq!(max.negate().checked_sub(&amt(1, 0)), None);
    assert_eq!(Amount::new(0, 29), None);
    assert_eq!(Amount::new(79228162514264337593543950336, 0), None);
}

#[test]
fn amount_comparison_is_by_value() {
    assert!(!amt(10, 1).greater_than(&amt(1, 0)));
    assert!(!amt(1, 0).greater_than(&amt(10, 1)));
    assert!(amt(101, 2).greater_than(&amt(1, 0)));
    assert!(amt(-1, 28).greater_than(&amt(-79228162514264337593543950335, 0)));
    assert!(amt(79228162514264337593543950335, 0).greater_than(&amt(79228162514264337593543950335, 28)));
}

#[test]
fn deposit_opens_an_account() {
    let mut accounts = Accounts::new();
    accounts.deposit(1, amt(50, 1));
    let d = accounts.get(1).unwrap();
    assert_eq!(d.available(), amt(50, 1));
    assert_eq!(d.held(), amt(0, 0));
    assert_eq!(d.total(), amt(50, 1));
    assert!(!d.is_frozen());
    assert_eq!(accounts.client_ids(), vec![1]);
}

#[test]
fn withdrawal_above_available_is_rejected() {
    let mut accounts = Accounts::new();
    accounts.deposit(1, amt(50, 1));
    accounts.withdraw(1, amt(100, 1));
    let d = accounts.get(1).unwrap();
    assert_eq!(d.available(), amt(50, 1));
    assert_eq!(d.held(), amt(0, 0));
    assert_eq!(d.total(), amt(50, 1));
    accounts.withdraw(1, amt(5, 0));
    let d = accounts.get(1).unwrap();
    assert_eq!(d.available(), amt(0, 1));
    assert_eq!(d.total(), amt(0, 1));
}

#[test]
fn withdrawal_by_a_new_client_opens_an_empty_account() {
    let mut accounts = Accounts::new();
    accounts.withdraw(4, amt(1, 0));
    let d = accounts.get(4).unwrap();
    assert_eq!(d.available(), amt(0, 0));
    assert_eq!(d.total(), amt(0, 0));
}

#[test]
fn unknown_account_is_an_error_and_changes_nothing() {
    let mut accounts = Accounts::new();
    assert_eq!(accounts.dispute(9, amt(1, 0)), Err(LedgerError::UnknownAccount));
    assert_eq!(accounts.resolve(9, amt(1, 0)), Err(LedgerError::UnknownAccount));
    assert_eq!(accounts.chargeback(9, amt(1, 0)), Err(LedgerError::UnknownAccount));
    assert_eq!(
        accounts.apply(TransactionMessage::dispute(9, amt(1, 0))),
        Err(LedgerError::UnknownAccount)
    );
    assert!(accounts.get(9).is_none());
    assert!(accounts.client_ids().is_empty());
}

#[test]
fn dispute_then_resolve_restores_balances() {
    let mut accounts = Accounts::new();
    accounts.deposit(1, amt(123456789, 4));
    accounts.deposit(1, amt(3, 1));
    let before = accounts.get(1).unwrap();
    assert_eq!(accounts.dispute(1, amt(3, 1)), Ok(()));
    let during = accounts.get(1).unwrap();
    assert_eq!(during.held(), amt(3, 1));
    assert_eq!(accounts.resolve(1, amt(3, 1)), Ok(()));
    let after = accounts.get(1).unwrap();
    assert!(!after.available().greater_than(&before.available()));
    assert!(!before.available().greater_than(&after.available()));
    assert_eq!(after.held(), amt(0, 1));
    assert_eq!(after.total(), before.total());
}

#[test]
fn chargeback_freezes_and_stays_frozen() {
    let mut accounts = Accounts::new();
    accounts.deposit(2, amt(10, 0));
    assert_eq!(accounts.dispute(2, amt(4, 0)), Ok(()));
    assert_eq!(accounts.chargeback(2, amt(4, 0)), Ok(()));
    let d = accounts.get(2).unwrap();
    assert!(d.is_frozen());
    assert_eq!(d.account_status, AccountStatus::Frozen);
    assert_eq!(d.total(), amt(6, 0));
    accounts.deposit(2, amt(1, 0));
    assert_eq!(accounts.dispute(2, amt(1, 0)), Ok(()));
    assert_eq!(accounts.resolve(2, amt(1, 0)), Ok(()));
    assert!(accounts.get(2).unwrap().is_frozen());
}

#[test]
fn withdrawal_from_a_frozen_account_is_judged_on_available_funds() {
    let mut accounts = Accounts::new();
    accounts.deposit(3, amt(10, 0));
    assert_eq!(accounts.dispute(3, amt(4, 0)), Ok(()));
    assert_eq!(accounts.chargeback(3, amt(4, 0)), Ok(()));
    accounts.withdraw(3, amt(2, 0));
    let d = accounts.get(3).unwrap();
    assert_eq!(d.available(), amt(4, 0));
    assert_eq!(d.total(), amt(4, 0));
    assert!(d.is_frozen());
}

#[test]
fn every_operation_keeps_the_balance() {
    let mut accounts = Accounts::default();
    let messages = vec![
        TransactionMessage::deposit(1, amt(55, 1)),
        TransactionMessage::withdrawal(1, amt(5, 2)),
        TransactionMessage::dispute(1, amt(2, 0)),
        TransactionMessage::resolve(1, amt(1, 0)),
        TransactionMessage::chargeback(1, amt(5, 1)),
        TransactionMessage::deposit(2, amt(-3, 0)),
    ];
    for m in messages {
        let _ = accounts.apply(m);
        for c in accounts.client_ids() {
            assert_balanced(&accounts.get(c).unwrap());
        }
    }
    let d = accounts.get(1).unwrap();
    assert_eq!(d.available(), amt(445, 2));
    assert_eq!(d.held(), amt(5, 1));
    assert_eq!(d.total(), amt(495, 2));
}

#[test]
fn account_details_operations() {
    let mut d = AccountDetails::default();
    d.deposit(amt(3, 0));
    d.withdraw(amt(5, 0));
    assert_eq!(d.available(), amt(-2, 0));
    d.dispute(amt(1, 0));
    assert_eq!(d.held(), amt(1, 0));
    d.resolve(amt(1, 0));
    assert_eq!(d.held(), amt(0, 0));
    d.chargeback(amt(1, 0));
    assert!(d.account_status.is_frozen());
    assert_eq!(d.total(), amt(-3, 0));
}
