//! The data types around the engine: amounts, accounts, transactions,
//! instructions, and the read surfaces of the bank.

use transactomatic::account::{Account, AccountId};
use transactomatic::amount::Amount;
use transactomatic::bank::Bank;
use transactomatic::instruction::{TransactionInstruction, TransactionInstructionKind};
use transactomatic::transaction::{Error, Transaction, TransactionId, TransactionKind};

#[test]
fn error_messages() {
    assert_eq!(Error::InsufficientFunds.message(), "insufficient funds");
    assert_eq!(Error::AccountFrozen.message(), "account is frozen");
    assert_eq!(Error::NegativeAmount.message(), "amount is negative");
    assert_eq!(Error::DuplicateTransactionId.message(), "transaction id already exists");
}

#[test]
fn amount_units_and_sign() {
    assert_eq!(Amount::from_whole(1), Amount::new(10000));
    assert_eq!(Amount::from_whole(-2), Amount::new(-20000));
    assert_eq!(Amount::zero(), Amount::new(0));
    assert!(Amount::new(-1).is_negative());
    assert!(!Amount::new(0).is_negative());
    assert!(!Amount::new(1).is_negative());
}

#[test]
fn new_account_is_empty_and_unlocked() {
    let account = Account::new(AccountId(9));
    assert_eq!(account.client, AccountId(9));
    assert_eq!(account.available, Amount::new(0));
    assert_eq!(account.held, Amount::new(0));
    assert!(!account.locked);
    assert_eq!(account.total(), Amount::new(0));
}

#[test]
fn total_is_available_plus_held() {
    let account = Account {
        client: AccountId(1),
        available: Amount::new(70000),
        held: Amount::new(-30000),
        locked: false,
    };
    assert_eq!(account.total(), Amount::new(40000));
}

#[test]
fn new_transaction_has_empty_history() {
    let t = Transaction::new(
        AccountId(1),
        TransactionId(2),
        TransactionKind::Deposit,
        Amount::new(100),
    );
    assert_eq!(t.amendment_history(), []);
    assert!(!t.is_disputed());
}

#[test]
fn try_from_realizes_only_deposits_and_withdrawals() {
    let d = TransactionInstruction {
        kind: TransactionInstructionKind::Deposit,
        client: AccountId(1),
        tx: TransactionId(2),
        amount: Some(Amount::new(100)),
    };
    let t = Transaction::try_from(d).unwrap();
    assert_eq!(t.client, AccountId(1));
    assert_eq!(t.tx, TransactionId(2));
    assert!(matches!(t.kind, TransactionKind::Deposit));
    assert_eq!(t.amount, Amount::new(100));

    let w = TransactionInstruction {
        kind: TransactionInstructionKind::Withdrawal,
        client: AccountId(1),
        tx: TransactionId(3),
        amount: Some(Amount::new(100)),
    };
    let t = Transaction::try_from(w).unwrap();
    assert!(matches!(t.kind, TransactionKind::Withdrawal));

    let a = TransactionInstruction {
        kind: TransactionInstructionKind::Dispute,
        client: AccountId(1),
        tx: TransactionId(2),
        amount: None,
    };
    assert!(Transaction::try_from(a).is_err());
}

#[test]
fn default_bank_is_empty() {
    let bank = Bank::default();
    assert!(bank.accounts().is_empty());
    assert!(bank.transaction(TransactionId(0)).is_none());
}

#[test]
fn accounts_lists_every_client_once() {
    let mut bank = Bank::new();
    bank.perform_transaction(TransactionInstruction {
        kind: TransactionInstructionKind::Deposit,
        client: AccountId(1),
        tx: TransactionId(1),
        amount: Some(Amount::new(100)),
    })
    .unwrap();
    bank.perform_transaction(TransactionInstruction {
        kind: TransactionInstructionKind::Deposit,
        client: AccountId(2),
        tx: TransactionId(2),
        amount: Some(Amount::new(200)),
    })
    .unwrap();
    bank.perform_transaction(TransactionInstruction {
        kind: TransactionInstructionKind::Deposit,
        client: AccountId(1),
        tx: TransactionId(3),
        amount: Some(Amount::new(5)),
    })
    .unwrap();

    let accounts = bank.accounts();
    assert_eq!(accounts.len(), 2);
    assert_eq!(accounts[0].client, AccountId(1));
    assert_eq!(accounts[0].available, Amount::new(105));
    assert_eq!(accounts[1].client, AccountId(2));
    assert_eq!(accounts[1].available, Amount::new(200));
}

#[test]
fn instruction_fits_spots_overflowing_arithmetic() {
    let mut bank = Bank::new();
    let huge = TransactionInstruction {
        kind: TransactionInstructionKind::Deposit,
        client: AccountId(0),
        tx: TransactionId(0),
        amount: Some(Amount::new(i64::MAX)),
    };
    assert!(bank.instruction_fits(&huge));
    bank.perform_transaction(huge).unwrap();

    let one_more = TransactionInstruction {
        kind: TransactionInstructionKind::Deposit,
        client: AccountId(0),
        tx: TransactionId(1),
        amount: Some(Amount::new(1)),
    };
    assert!(!bank.instruction_fits(&one_more));

    // Another client's arithmetic is unaffected.
    let elsewhere = TransactionInstruction {
        kind: TransactionInstructionKind::Deposit,
        client: AccountId(1),
        tx: TransactionId(1),
        amount: Some(Amount::new(1)),
    };
    assert!(bank.instruction_fits(&elsewhere));
}
