use ledger_engine::amount::Amount;
use ledger_engine::ledger::{AccountStatus, Ledger};
use ledger_engine::transaction::{LedgerError, Transaction, TransactionType};
use rust_decimal::Decimal;
use std::str::FromStr;

fn amount(text: &str) -> Amount {
    let d = Decimal::from_str(text).unwrap();
    Amount::new(d.mantissa(), d.scale()).unwrap()
}

fn decimal(a: &Amount) -> Decimal {
    Decimal::from_i128_with_scale(a.mantissa(), a.scale())
}

fn deposit(client: u16, tx: u32, value: &str) -> Transaction {
    Transaction::new(TransactionType::Deposit, client, tx, Some(amount(value)))
}

fn withdrawal(client: u16, tx: u32, value: &str) -> Transaction {
    Transaction::new(TransactionType::Withdrawal, client, tx, Some(amount(value)))
}

fn action(kind: TransactionType, client: u16, tx: u32) -> Transaction {
    Transaction::new(kind, client, tx, None)
}

fn account(ledger: &Ledger, client: u16) -> AccountStatus {
    *ledger.client_accounts().get(&client).unwrap()
}

fn assert_account(ledger: &Ledger, client: u16, available: &str, held: &str, total: &str, locked: bool) {
    let acct = account(ledger, client);
    assert_eq!(decimal(&acct.available), Decimal::from_str(available).unwrap());
    assert_eq!(decimal(&acct.held), Decimal::from_str(held).unwrap());
    assert_eq!(decimal(&acct.total), Decimal::from_str(total).unwrap());
    assert_eq!(acct.locked, locked);
}

#[test]
fn check_state_transitions() {
    // Valid transitions
    assert!(TransactionType::Dispute
        .check_state_transition(&TransactionType::Deposit)
        .is_ok());
    assert!(TransactionType::Resolve
        .check_state_transition(&TransactionType::Dispute)
        .is_ok());
    assert!(TransactionType::ChargeBack
        .check_state_transition(&TransactionType::Dispute)
        .is_ok());

    // Invalid transitions
    let result = TransactionType::Resolve.check_state_transition(&TransactionType::Deposit);
    assert!(result.is_err());
    assert!(result.unwrap_err().message().contains("Invalid state transition"));

    assert!(TransactionType::ChargeBack
        .check_state_transition(&TransactionType::Deposit)
        .is_err());

    assert!(TransactionType::Dispute
        .check_state_transition(&TransactionType::Withdrawal)
        .is_err());

    assert!(TransactionType::Dispute
        .check_state_transition(&TransactionType::Resolve)
        .is_err());
}

#[test]
fn check_account() {
    let mut ledger = Ledger::new();
    let client_id: u16 = 1;

    // Account doesn't exist
    assert!(ledger.check_account_is_locked(client_id).is_ok());

    // Account exists but is not locked
    ledger.handle_new_transaction(&deposit(client_id, 1, "100")).unwrap();
    assert!(ledger.check_account_is_locked(client_id).is_ok());

    // Account exists and is locked
    ledger.handle_new_transaction(&action(TransactionType::Dispute, client_id, 1)).unwrap();
    ledger.handle_new_transaction(&action(TransactionType::ChargeBack, client_id, 1)).unwrap();
    let result = ledger.check_account_is_locked(client_id);
    assert!(result.is_err());
    assert!(result.unwrap_err().message().contains("is locked"));
}

#[test]
fn handle_transaction_transition_tx_not_found() {
    let mut ledger = Ledger::new();

    let result = ledger.handle_transaction_transition(1, 1, TransactionType::Dispute);
    assert!(result.is_err());
    assert!(result.unwrap_err().message().contains("does not exist"));
}

#[test]
fn handle_transaction_transition_wrong_client() {
    let mut ledger = Ledger::new();
    let tx_id: u32 = 1;
    let original_client: u16 = 1;
    let wrong_client: u16 = 2;

    ledger.store_new_transaction(tx_id, amount("50"), original_client).unwrap();

    let result = ledger.handle_transaction_transition(tx_id, wrong_client, TransactionType::Dispute);
    assert!(result.is_err());
    assert!(result.unwrap_err().message().contains("does not correspond to client"));
}

#[test]
fn handle_transaction_transition_invalid_state() {
    let mut ledger = Ledger::new();
    let tx_id: u32 = 1;
    let client_id: u16 = 1;

    ledger.store_new_transaction(tx_id, amount("50"), client_id).unwrap();

    let result = ledger.handle_transaction_transition(tx_id, client_id, TransactionType::Resolve);
    assert!(result.is_err());
    assert!(result.unwrap_err().message().contains("Invalid state transition"));
}

#[test]
fn handle_transaction_transition_success() {
    let mut ledger = Ledger::new();
    let tx_id: u32 = 1;
    let client_id: u16 = 1;
    let value = amount("50");

    ledger.store_new_transaction(tx_id, value, client_id).unwrap();

    let result = ledger.handle_transaction_transition(tx_id, client_id, TransactionType::Dispute);
    assert!(result.is_ok());

    let tx = result.unwrap();
    assert_eq!(decimal(&tx.amount), decimal(&value));
    assert_eq!(tx.state, TransactionType::Dispute);
}

#[test]
fn deposit_dispute_resolve_restores_available() {
    let mut ledger = Ledger::new();
    ledger.handle_new_transaction(&deposit(1, 1, "1.5")).unwrap();
    ledger.handle_new_transaction(&action(TransactionType::Dispute, 1, 1)).unwrap();
    assert_account(&ledger, 1, "0", "1.5", "1.5", false);
    ledger.handle_new_transaction(&action(TransactionType::Resolve, 1, 1)).unwrap();
    assert_account(&ledger, 1, "1.5", "0", "1.5", false);
}

#[test]
fn withdrawal_beyond_available_is_rejected() {
    let mut ledger = Ledger::new();
    ledger.handle_new_transaction(&deposit(1, 1, "2.0")).unwrap();
    let result = ledger.handle_new_transaction(&withdrawal(1, 2, "3.0"));
    match result {
        Err(LedgerError::InsufficientFunds(client, requested, available)) => {
            assert_eq!(client, 1);
            assert_eq!(decimal(&requested), Decimal::from_str("3.0").unwrap());
            assert_eq!(decimal(&available), Decimal::from_str("2.0").unwrap());
        }
        other => panic!("unexpected result {:?}", other),
    }
    assert_account(&ledger, 1, "2.0", "0", "2.0", false);
}

#[test]
fn dispute_then_chargeback_locks_and_forgets() {
    let mut ledger = Ledger::new();
    ledger.handle_new_transaction(&deposit(1, 1, "2.0")).unwrap();
    ledger.handle_new_transaction(&action(TransactionType::Dispute, 1, 1)).unwrap();
    ledger.handle_new_transaction(&action(TransactionType::ChargeBack, 1, 1)).unwrap();
    assert_account(&ledger, 1, "0", "0", "0", true);
    assert!(ledger.transaction(1).is_none());
}

#[test]
fn dispute_of_unknown_transaction_is_rejected() {
    let mut ledger = Ledger::new();
    let result = ledger.handle_new_transaction(&action(TransactionType::Dispute, 1, 99));
    assert!(matches!(result, Err(LedgerError::UnknownTransaction(99))));
    assert!(ledger.client_accounts().is_empty());
    assert!(ledger.transaction(99).is_none());
}

#[test]
fn balances_stay_consistent_over_a_sequence() {
    let mut ledger = Ledger::new();
    let records = vec![
        deposit(1, 1, "10.25"),
        deposit(1, 2, "4"),
        withdrawal(1, 3, "1.125"),
        action(TransactionType::Dispute, 1, 2),
        deposit(2, 4, "7"),
        action(TransactionType::Resolve, 1, 2),
        action(TransactionType::Dispute, 1, 1),
    ];
    for record in records.iter() {
        let _ = ledger.handle_new_transaction(record);
        for (_, acct) in ledger.client_accounts().iter() {
            assert_eq!(decimal(&acct.total), decimal(&acct.available) + decimal(&acct.held));
        }
    }
    assert_account(&ledger, 1, "2.875", "10.25", "13.125", false);
    assert_account(&ledger, 2, "7", "0", "7", false);
}

#[test]
fn withdrawal_of_exact_balance_leaves_zero() {
    let mut ledger = Ledger::new();
    ledger.handle_new_transaction(&deposit(1, 1, "5.50")).unwrap();
    ledger.handle_new_transaction(&withdrawal(1, 2, "5.5")).unwrap();
    assert_account(&ledger, 1, "0", "0", "0", false);
}

#[test]
fn duplicate_deposit_changes_nothing() {
    let mut ledger = Ledger::new();
    ledger.handle_new_transaction(&deposit(1, 1, "3")).unwrap();
    let result = ledger.handle_new_transaction(&deposit(1, 1, "8"));
    assert!(matches!(result, Err(LedgerError::DuplicateTransaction(1))));
    assert_account(&ledger, 1, "3", "0", "3", false);
    assert_eq!(decimal(&ledger.transaction(1).unwrap().amount), Decimal::from_str("3").unwrap());
}

#[test]
fn withdrawal_reusing_deposit_id_is_rejected() {
    let mut ledger = Ledger::new();
    ledger.handle_new_transaction(&deposit(1, 1, "3")).unwrap();
    let result = ledger.handle_new_transaction(&withdrawal(1, 1, "1"));
    assert!(matches!(result, Err(LedgerError::DuplicateTransaction(1))));
    assert_account(&ledger, 1, "3", "0", "3", false);
}

#[test]
fn withdrawal_without_account_is_ignored() {
    let mut ledger = Ledger::new();
    assert!(ledger.handle_new_transaction(&withdrawal(4, 1, "1")).is_ok());
    assert!(ledger.client_accounts().is_empty());
}

#[test]
fn missing_amount_is_rejected() {
    let mut ledger = Ledger::new();
    let result = ledger.handle_new_transaction(&action(TransactionType::Deposit, 1, 1));
    assert!(matches!(result, Err(LedgerError::MissingAmount)));
    let result = ledger.handle_new_transaction(&action(TransactionType::Withdrawal, 1, 2));
    assert!(matches!(result, Err(LedgerError::MissingAmount)));
    assert!(ledger.client_accounts().is_empty());
}

#[test]
fn dispute_of_other_clients_deposit_is_rejected() {
    let mut ledger = Ledger::new();
    ledger.handle_new_transaction(&deposit(1, 1, "3")).unwrap();
    let result = ledger.handle_new_transaction(&action(TransactionType::Dispute, 2, 1));
    assert!(matches!(result, Err(LedgerError::ClientMismatch(1, 1, 2))));
    assert_account(&ledger, 1, "3", "0", "3", false);
}

#[test]
fn locked_account_rejects_everything() {
    let mut ledger = Ledger::new();
    ledger.handle_new_transaction(&deposit(1, 1, "3")).unwrap();
    ledger.handle_new_transaction(&deposit(1, 2, "2")).unwrap();
    ledger.handle_new_transaction(&action(TransactionType::Dispute, 1, 1)).unwrap();
    ledger.handle_new_transaction(&action(TransactionType::ChargeBack, 1, 1)).unwrap();
    assert_account(&ledger, 1, "2", "0", "2", true);
    for record in [
        deposit(1, 3, "1"),
        withdrawal(1, 4, "1"),
        action(TransactionType::Dispute, 1, 2),
    ] {
        let result = ledger.handle_new_transaction(&record);
        assert!(matches!(result, Err(LedgerError::AccountLocked(1))));
    }
    assert_account(&ledger, 1, "2", "0", "2", true);
}

#[test]
fn dispute_without_available_funds_only_changes_state() {
    let mut ledger = Ledger::new();
    ledger.handle_new_transaction(&deposit(1, 1, "5")).unwrap();
    ledger.handle_new_transaction(&withdrawal(1, 2, "4")).unwrap();
    ledger.handle_new_transaction(&action(TransactionType::Dispute, 1, 1)).unwrap();
    assert_account(&ledger, 1, "1", "0", "1", false);
    assert_eq!(ledger.transaction(1).unwrap().state, TransactionType::Dispute);
    // Nothing is held, so the charge-back moves no money but still locks.
    ledger.handle_new_transaction(&action(TransactionType::ChargeBack, 1, 1)).unwrap();
    assert_account(&ledger, 1, "1", "0", "1", true);
}

#[test]
fn second_dispute_is_an_invalid_transition() {
    let mut ledger = Ledger::new();
    ledger.handle_new_transaction(&deposit(1, 1, "5")).unwrap();
    ledger.handle_new_transaction(&action(TransactionType::Dispute, 1, 1)).unwrap();
    let result = ledger.handle_new_transaction(&action(TransactionType::Dispute, 1, 1));
    assert!(matches!(
        result,
        Err(LedgerError::InvalidTransition(TransactionType::Dispute, TransactionType::Dispute))
    ));
    assert_eq!(
        result.unwrap_err().message(),
        "Invalid state transition from 'dispute' to 'dispute'"
    );
}

#[test]
fn deposit_overflow_is_rejected() {
    let mut ledger = Ledger::new();
    ledger.handle_new_transaction(&deposit(1, 1, "79228162514264337593543950335")).unwrap();
    let result = ledger.handle_new_transaction(&deposit(1, 2, "1"));
    assert!(matches!(result, Err(LedgerError::AmountOverflow(1))));
    assert_account(&ledger, 1, "79228162514264337593543950335", "0", "79228162514264337593543950335", false);
    assert!(ledger.transaction(2).is_none());
}

#[test]
fn amount_arithmetic_is_exact() {
    let sum = amount("1.5").checked_add(&amount("0.25")).unwrap();
    assert_eq!(decimal(&sum), Decimal::from_str("1.75").unwrap());
    let diff = amount("1").checked_sub(&amount("0.001")).unwrap();
    assert_eq!(decimal(&diff), Decimal::from_str("0.999").unwrap());
    assert!(amount("2.0").at_least(&amount("2")));
    assert!(!amount("1.99").at_least(&amount("2")));
    assert!(amount("79228162514264337593543950335").checked_add(&amount("0.1")).is_none());
    assert!(Amount::new(0, 29).is_none());
    assert!(Amount::new(79228162514264337593543950336, 0).is_none());
}

#[test]
fn kind_names() {
    assert_eq!(TransactionType::Deposit.name(), "deposit");
    assert_eq!(TransactionType::Withdrawal.name(), "withdrawal");
    assert_eq!(TransactionType::Dispute.name(), "dispute");
    assert_eq!(TransactionType::Resolve.name(), "resolve");
    assert_eq!(TransactionType::ChargeBack.name(), "chargeback");
}

const ONE_AT_28_PLACES: &str = "1.0000000000000000000000000000";

#[test]
fn withdrawal_across_scales_is_exact() {
    let mut ledger = Ledger::new();
    ledger.handle_new_transaction(&deposit(1, 1, "11")).unwrap();
    ledger.handle_new_transaction(&withdrawal(1, 2, ONE_AT_28_PLACES)).unwrap();
    assert_account(&ledger, 1, "10", "0", "10", false);
}

#[test]
fn deposit_across_scales_is_exact() {
    let mut ledger = Ledger::new();
    ledger.handle_new_transaction(&deposit(1, 1, ONE_AT_28_PLACES)).unwrap();
    ledger.handle_new_transaction(&deposit(1, 2, "10")).unwrap();
    assert_account(&ledger, 1, "11", "0", "11", false);
}

#[test]
fn dispute_and_chargeback_across_scales() {
    let mut ledger = Ledger::new();
    ledger.handle_new_transaction(&deposit(1, 1, ONE_AT_28_PLACES)).unwrap();
    ledger.handle_new_transaction(&deposit(1, 2, "10")).unwrap();
    ledger.handle_new_transaction(&action(TransactionType::Dispute, 1, 1)).unwrap();
    assert_account(&ledger, 1, "10", "1", "11", false);
    ledger.handle_new_transaction(&action(TransactionType::ChargeBack, 1, 1)).unwrap();
    assert_account(&ledger, 1, "10", "0", "10", true);
    assert!(ledger.transaction(1).is_none());
}

#[test]
fn unrepresentable_difference_is_rejected() {
    // 11 - 1.0000000000000000000000000001 needs 29 significant digits.
    let result = amount("11").checked_sub(&amount("1.0000000000000000000000000001"));
    assert!(result.is_none());
    let diff = amount("11").checked_sub(&amount(ONE_AT_28_PLACES)).unwrap();
    assert_eq!(decimal(&diff), Decimal::from_str("10").unwrap());
}
