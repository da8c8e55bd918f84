//! Behavior of the engine, one instruction at a time.

use transactomatic::account::AccountId;
use transactomatic::amount::Amount;
use transactomatic::bank::Bank;
use transactomatic::instruction::{TransactionInstruction, TransactionInstructionKind};
use transactomatic::transaction::{Error, TransactionAmendment, TransactionId};

fn deposit(client: u16, tx: u32, amount: Amount) -> TransactionInstruction {
    TransactionInstruction {
        kind: TransactionInstructionKind::Deposit,
        client: AccountId(client),
        tx: TransactionId(tx),
        amount: Some(amount),
    }
}

fn withdrawal(client: u16, tx: u32, amount: Amount) -> TransactionInstruction {
    TransactionInstruction {
        kind: TransactionInstructionKind::Withdrawal,
        client: AccountId(client),
        tx: TransactionId(tx),
        amount: Some(amount),
    }
}

fn amendment(
    kind: TransactionInstructionKind,
    client: u16,
    tx: u32,
) -> TransactionInstruction {
    TransactionInstruction { kind, client: AccountId(client), tx: TransactionId(tx), amount: None }
}

#[test]
fn deposit_transaction() {
    let mut bank = Bank::new();
    let account = bank
        .perform_transaction(deposit(0, 0, Amount::new(12345)))
        .unwrap();

    assert_eq!(Amount::new(12345), account.total());
}

#[test]
fn withdrawal_transaction() {
    let mut bank = Bank::new();
    bank.perform_transaction(deposit(0, 1, Amount::new(10))).unwrap();

    let account = bank
        .perform_transaction(withdrawal(0, 0, Amount::new(1)))
        .unwrap();

    assert_eq!(Amount::new(9), account.total());
}

#[test]
fn withdrawal_transaction_with_insufficient_funds() {
    let mut bank = Bank::new();
    let result = bank.perform_transaction(withdrawal(0, 0, Amount::new(1)));

    assert_eq!(result.unwrap_err(), Error::InsufficientFunds);
}

#[test]
fn dispute_transaction() {
    let mut bank = Bank::new();
    bank.perform_transaction(deposit(0, 0, Amount::from_whole(10))).unwrap();

    let account = bank
        .perform_transaction(amendment(TransactionInstructionKind::Dispute, 0, 0))
        .unwrap();

    assert_eq!(account.available, Amount::from_whole(0));
    assert_eq!(account.total(), Amount::from_whole(10));
    assert_eq!(account.held, Amount::from_whole(10));
    assert_eq!(
        bank.transaction(TransactionId(0)).unwrap().amendment_history(),
        [TransactionAmendment::Dispute]
    );
}

#[test]
fn resolve_transaction() {
    let mut bank = Bank::new();
    bank.perform_transaction(deposit(0, 0, Amount::from_whole(5))).unwrap();
    bank.perform_transaction(deposit(0, 1, Amount::from_whole(5))).unwrap();
    bank.perform_transaction(amendment(TransactionInstructionKind::Dispute, 0, 0))
        .unwrap();

    let account = bank
        .perform_transaction(amendment(TransactionInstructionKind::Resolve, 0, 0))
        .unwrap();

    assert_eq!(account.available, Amount::from_whole(10));
    assert_eq!(account.total(), Amount::from_whole(10));
    assert_eq!(account.held, Amount::from_whole(0));
    assert_eq!(
        bank.transaction(TransactionId(0)).unwrap().amendment_history(),
        [TransactionAmendment::Dispute, TransactionAmendment::Resolve]
    );
}

#[test]
fn chargeback_transaction() {
    let mut bank = Bank::new();
    bank.perform_transaction(deposit(0, 0, Amount::from_whole(5))).unwrap();
    bank.perform_transaction(deposit(0, 1, Amount::from_whole(5))).unwrap();
    bank.perform_transaction(amendment(TransactionInstructionKind::Dispute, 0, 0))
        .unwrap();

    let account = bank
        .perform_transaction(amendment(TransactionInstructionKind::Chargeback, 0, 0))
        .unwrap();

    assert_eq!(account.available, Amount::from_whole(5));
    assert_eq!(account.total(), Amount::from_whole(5));
    assert_eq!(account.held, Amount::from_whole(0));
    assert_eq!(account.locked, true);
    assert_eq!(
        bank.transaction(TransactionId(0)).unwrap().amendment_history(),
        [TransactionAmendment::Dispute, TransactionAmendment::Chargeback]
    );
}

#[test]
fn negative_amount() {
    let mut bank = Bank::new();
    let result = bank.perform_transaction(deposit(0, 0, Amount::new(-1)));

    assert!(matches!(result, Err(Error::NegativeAmount)));
}

#[test]
fn example_lifecycle() {
    let mut bank = Bank::new();
    bank.perform_transaction(deposit(1, 1, Amount::new(100000))).unwrap();
    let account = bank
        .perform_transaction(withdrawal(1, 2, Amount::new(30000)))
        .unwrap();
    assert_eq!(account.available, Amount::new(70000));
    assert_eq!(account.held, Amount::new(0));
    assert_eq!(account.total(), Amount::new(70000));
    assert_eq!(account.locked, false);

    let account = bank
        .perform_transaction(amendment(TransactionInstructionKind::Dispute, 1, 1))
        .unwrap();
    assert_eq!(account.available, Amount::new(-30000));
    assert_eq!(account.held, Amount::new(100000));

    let account = bank
        .perform_transaction(amendment(TransactionInstructionKind::Chargeback, 1, 1))
        .unwrap();
    assert_eq!(account.available, Amount::new(-30000));
    assert_eq!(account.held, Amount::new(0));
    assert_eq!(account.locked, true);

    let result = bank.perform_transaction(deposit(1, 3, Amount::new(10000)));
    assert_eq!(result.unwrap_err(), Error::AccountFrozen);
}

#[test]
fn duplicate_transaction_id_rejected() {
    let mut bank = Bank::new();
    bank.perform_transaction(deposit(0, 7, Amount::new(500))).unwrap();

    let result = bank.perform_transaction(deposit(0, 7, Amount::new(999)));
    assert_eq!(result.unwrap_err(), Error::DuplicateTransactionId);

    let result = bank.perform_transaction(withdrawal(0, 7, Amount::new(100)));
    assert_eq!(result.unwrap_err(), Error::DuplicateTransactionId);

    // The original record and the account are untouched.
    let recorded = bank.transaction(TransactionId(7)).unwrap();
    assert_eq!(recorded.amount, Amount::new(500));
    assert_eq!(recorded.amendment_history(), []);
    let accounts = bank.accounts();
    assert_eq!(accounts.len(), 1);
    assert_eq!(accounts[0].available, Amount::new(500));
}

#[test]
fn dispute_of_missing_transaction_is_a_no_op() {
    let mut bank = Bank::new();
    bank.perform_transaction(deposit(0, 0, Amount::new(100))).unwrap();

    let account = bank
        .perform_transaction(amendment(TransactionInstructionKind::Dispute, 0, 42))
        .unwrap();

    assert_eq!(account.available, Amount::new(100));
    assert_eq!(account.held, Amount::new(0));
    assert!(bank.transaction(TransactionId(42)).is_none());
}

#[test]
fn dispute_of_another_clients_transaction_is_a_no_op() {
    let mut bank = Bank::new();
    bank.perform_transaction(deposit(0, 0, Amount::new(100))).unwrap();

    let account = bank
        .perform_transaction(amendment(TransactionInstructionKind::Dispute, 1, 0))
        .unwrap();

    assert_eq!(account.client, AccountId(1));
    assert_eq!(account.available, Amount::new(0));
    assert_eq!(account.held, Amount::new(0));
    assert_eq!(bank.transaction(TransactionId(0)).unwrap().amendment_history(), []);
    // The owner of the transaction is untouched as well.
    let accounts = bank.accounts();
    assert_eq!(accounts[0].available, Amount::new(100));
}

#[test]
fn resolve_of_undisputed_transaction_is_a_no_op() {
    let mut bank = Bank::new();
    bank.perform_transaction(deposit(0, 0, Amount::new(100))).unwrap();

    let account = bank
        .perform_transaction(amendment(TransactionInstructionKind::Resolve, 0, 0))
        .unwrap();

    assert_eq!(account.available, Amount::new(100));
    assert_eq!(account.held, Amount::new(0));
    assert_eq!(bank.transaction(TransactionId(0)).unwrap().amendment_history(), []);
}

#[test]
fn chargeback_of_undisputed_transaction_is_a_no_op() {
    let mut bank = Bank::new();
    bank.perform_transaction(deposit(0, 0, Amount::new(100))).unwrap();

    let account = bank
        .perform_transaction(amendment(TransactionInstructionKind::Chargeback, 0, 0))
        .unwrap();

    assert_eq!(account.available, Amount::new(100));
    assert_eq!(account.held, Amount::new(0));
    assert_eq!(account.locked, false);
}

#[test]
fn chargeback_by_another_client_locks_that_clients_account() {
    let mut bank = Bank::new();
    bank.perform_transaction(deposit(0, 0, Amount::new(500))).unwrap();
    bank.perform_transaction(amendment(TransactionInstructionKind::Dispute, 0, 0))
        .unwrap();

    // A chargeback does not check the client; it hits the account named
    // by the instruction.
    let account = bank
        .perform_transaction(amendment(TransactionInstructionKind::Chargeback, 1, 0))
        .unwrap();

    assert_eq!(account.client, AccountId(1));
    assert_eq!(account.available, Amount::new(0));
    assert_eq!(account.held, Amount::new(-500));
    assert_eq!(account.locked, true);
}

#[test]
fn renewed_dispute_after_resolve_applies_again() {
    let mut bank = Bank::new();
    bank.perform_transaction(deposit(0, 0, Amount::new(500))).unwrap();
    bank.perform_transaction(amendment(TransactionInstructionKind::Dispute, 0, 0))
        .unwrap();
    bank.perform_transaction(amendment(TransactionInstructionKind::Resolve, 0, 0))
        .unwrap();

    // A dispute is a point-in-time predicate: a resolved transaction can
    // be disputed again, and the balances move again.
    let account = bank
        .perform_transaction(amendment(TransactionInstructionKind::Dispute, 0, 0))
        .unwrap();

    assert_eq!(account.available, Amount::new(0));
    assert_eq!(account.held, Amount::new(500));
    let recorded = bank.transaction(TransactionId(0)).unwrap();
    assert!(recorded.is_disputed());
    assert_eq!(
        recorded.amendment_history(),
        [
            TransactionAmendment::Dispute,
            TransactionAmendment::Resolve,
            TransactionAmendment::Dispute
        ]
    );
}

#[test]
fn second_dispute_after_chargeback_is_rejected_as_frozen() {
    let mut bank = Bank::new();
    bank.perform_transaction(deposit(0, 0, Amount::new(500))).unwrap();
    bank.perform_transaction(amendment(TransactionInstructionKind::Dispute, 0, 0))
        .unwrap();
    bank.perform_transaction(amendment(TransactionInstructionKind::Chargeback, 0, 0))
        .unwrap();

    let result = bank.perform_transaction(amendment(TransactionInstructionKind::Dispute, 0, 0));

    assert_eq!(result.unwrap_err(), Error::AccountFrozen);
    let accounts = bank.accounts();
    assert_eq!(accounts[0].available, Amount::new(0));
    assert_eq!(accounts[0].held, Amount::new(0));
}

#[test]
fn deposits_accumulate() {
    let mut bank = Bank::new();
    bank.perform_transaction(deposit(3, 0, Amount::new(100))).unwrap();
    bank.perform_transaction(deposit(3, 1, Amount::new(250))).unwrap();
    let account = bank.perform_transaction(deposit(3, 2, Amount::new(3))).unwrap();

    assert_eq!(account.available, Amount::new(353));
    assert_eq!(account.held, Amount::new(0));
}

#[test]
fn rejected_withdrawal_changes_nothing() {
    let mut bank = Bank::new();
    bank.perform_transaction(deposit(0, 0, Amount::new(500))).unwrap();

    let result = bank.perform_transaction(withdrawal(0, 1, Amount::new(501)));

    assert_eq!(result.unwrap_err(), Error::InsufficientFunds);
    let accounts = bank.accounts();
    assert_eq!(accounts[0].available, Amount::new(500));
    assert!(bank.transaction(TransactionId(1)).is_none());
}

#[test]
fn negative_withdrawal_rejected_before_any_mutation() {
    let mut bank = Bank::new();
    bank.perform_transaction(deposit(0, 0, Amount::new(500))).unwrap();

    let result = bank.perform_transaction(withdrawal(0, 1, Amount::new(-1)));

    assert!(matches!(result, Err(Error::NegativeAmount)));
    let accounts = bank.accounts();
    assert_eq!(accounts[0].available, Amount::new(500));
    assert!(bank.transaction(TransactionId(1)).is_none());
}
