//! Realized transactions and their amendment history.
//!
//! A [`Transaction`] is created exactly once, when a deposit or
//! withdrawal instruction is applied.  Its initial data is never
//! modified afterwards; dispute-lifecycle events are appended to its
//! amendment history instead.

use vstd::prelude::*;

use crate::account::AccountId;
use crate::amount::Amount;
use crate::instruction::{TransactionInstruction, TransactionInstructionKind};

verus! {

/// Identifies a realized transaction.  Globally unique across clients.
#[derive(Clone, Copy, Debug, PartialEq, Eq, Structural)]
pub struct TransactionId(pub u32);

/// The ways the engine can reject an instruction.  Each is recoverable:
/// the caller skips to the next instruction of the stream.
#[derive(Clone, Copy, Debug, PartialEq, Eq, Structural)]
pub enum Error {
    /// A withdrawal asked for more than the available balance.
    InsufficientFunds,
    /// The account is locked by an earlier chargeback.
    AccountFrozen,
    /// A deposit or withdrawal carried a negative amount.
    NegativeAmount,
    /// A deposit or withdrawal reused an already recorded transaction id.
    DuplicateTransactionId,
}

impl Error {
    /// The operator-readable text of each rejection.
    pub open spec fn message_spec(&self) -> Seq<char> {
        match self {
            Error::InsufficientFunds => "insufficient funds"@,
            Error::AccountFrozen => "account is frozen"@,
            Error::NegativeAmount => "amount is negative"@,
            Error::DuplicateTransactionId => "transaction id already exists"@,
        }
    }

    /// Describe the rejection for an operator-visible channel.
    pub fn message(&self) -> (r: &'static str)
        ensures
            r@ == self.message_spec(),
    {
        match self {
            Error::InsufficientFunds => "insufficient funds",
            Error::AccountFrozen => "account is frozen",
            Error::NegativeAmount => "amount is negative",
            Error::DuplicateTransactionId => "transaction id already exists",
        }
    }
}

/// The kind of a realized transaction.
#[derive(Clone, Copy, Debug, PartialEq, Eq, Structural)]
pub enum TransactionKind {
    Deposit,
    Withdrawal,
}

/// A lifecycle event appended to a transaction's amendment history.
#[derive(Clone, Copy, Debug, PartialEq, Eq, Structural)]
pub enum TransactionAmendment {
    Dispute,
    Resolve,
    Chargeback,
}

/// Rejection of an attempt to realize an instruction that is not a
/// deposit or a withdrawal; it records the offending instruction kind.
#[derive(Clone, Copy, Debug, PartialEq, Eq, Structural)]
pub struct TryFromError(TransactionInstructionKind);

impl TryFromError {
    /// The kind of the instruction that could not be realized.
    pub closed spec fn kind_spec(&self) -> TransactionInstructionKind {
        self.0
    }
}

/// The append-only record of the lifecycle events of one transaction,
/// oldest first.  It grows one amendment at a time and is never
/// rewritten.
#[derive(Debug)]
pub struct AmendmentHistory {
    entries: Vec<TransactionAmendment>,
}

impl View for AmendmentHistory {
    type V = Seq<TransactionAmendment>;

    closed spec fn view(&self) -> Seq<TransactionAmendment> {
        self.entries@
    }
}

impl AmendmentHistory {
    fn empty() -> (r: AmendmentHistory)
        ensures
            r@ == Seq::<TransactionAmendment>::empty(),
    {
        let r = AmendmentHistory { entries: Vec::new() };
        proof {
            assert(r@ =~= Seq::<TransactionAmendment>::empty());
        }
        r
    }

    fn push(&mut self, amendment: TransactionAmendment)
        ensures
            final(self)@ == old(self)@.push(amendment),
    {
        self.entries.push(amendment);
    }

    /// The recorded amendments as a read-only slice, oldest first.
    pub fn as_slice(&self) -> (r: &[TransactionAmendment])
        ensures
            r@ == self@,
    {
        self.entries.as_slice()
    }
}

/// A realized transaction: the durable record of a deposit or a
/// withdrawal, plus the ordered history of its amendments.
#[derive(Debug)]
pub struct Transaction {
    pub client: AccountId,
    pub tx: TransactionId,
    pub kind: TransactionKind,
    pub amount: Amount,
    pub amendment_history: AmendmentHistory,
}

/// The mathematical state of a realized transaction.
#[verifier::ext_equal]
pub ghost struct TransactionModel {
    pub client: int,
    pub tx: int,
    pub kind: TransactionKind,
    pub amount: int,
    pub history: Seq<TransactionAmendment>,
}

impl TransactionModel {
    /// A transaction is disputed exactly when the last element of its
    /// history is `Dispute`.  A resolve or chargeback clears the status
    /// and a later dispute re-enters it.
    pub open spec fn is_disputed(self) -> bool {
        self.history.len() > 0 && self.history.last() is Dispute
    }

    /// The state of a freshly realized transaction: no amendments yet.
    pub open spec fn new_spec(client: int, tx: int, kind: TransactionKind, amount: int) -> TransactionModel {
        TransactionModel { client, tx, kind, amount, history: Seq::empty() }
    }

    /// The state after appending one amendment.
    pub open spec fn amended(self, amendment: TransactionAmendment) -> TransactionModel {
        TransactionModel { history: self.history.push(amendment), ..self }
    }
}

impl View for Transaction {
    type V = TransactionModel;

    open spec fn view(&self) -> TransactionModel {
        TransactionModel {
            client: self.client.0 as int,
            tx: self.tx.0 as int,
            kind: self.kind,
            amount: self.amount@,
            history: self.amendment_history@,
        }
    }
}

impl Transaction {
    /// A new realized transaction with an empty amendment history.
    pub fn new(client: AccountId, tx: TransactionId, kind: TransactionKind, amount: Amount) -> (r: Transaction)
        ensures
            r@ == TransactionModel::new_spec(client.0 as int, tx.0 as int, kind, amount@),
    {
        Transaction { client, tx, kind, amount, amendment_history: AmendmentHistory::empty() }
    }

    /// True when the transaction is in dispute, that is, its last
    /// amendment is `Dispute`.
    pub fn is_disputed(&self) -> (r: bool)
        ensures
            r == self@.is_disputed(),
    {
        let entries = self.amendment_history.as_slice();
        let n = entries.len();
        if n == 0 {
            false
        } else {
            matches!(entries[n - 1], TransactionAmendment::Dispute)
        }
    }

    /// Append one amendment to the history.  The initial data of the
    /// transaction is untouched.
    pub fn amend(&mut self, amendment: TransactionAmendment)
        ensures
            final(self)@ == old(self)@.amended(amendment),
    {
        self.amendment_history.push(amendment);
    }

    /// A read-only view of the amendment history, oldest first.
    pub fn amendment_history(&self) -> (r: &[TransactionAmendment])
        ensures
            r@ == self@.history,
    {
        self.amendment_history.as_slice()
    }

    /// Realize an instruction.  This succeeds exactly when the
    /// instruction is a deposit or a withdrawal; the amendment kinds
    /// never create a transaction of their own.
    pub fn try_from(ti: TransactionInstruction) -> (r: Result<Transaction, TryFromError>)
        requires
            (ti.kind is Deposit || ti.kind is Withdrawal) ==> ti.amount is Some,
        ensures
            match r {
                Ok(t) => {
                    &&& (ti.kind is Deposit || ti.kind is Withdrawal)
                    &&& t@ == TransactionModel::new_spec(
                        ti.client.0 as int,
                        ti.tx.0 as int,
                        if ti.kind is Deposit { TransactionKind::Deposit } else { TransactionKind::Withdrawal },
                        ti.amount.unwrap()@,
                    )
                },
                Err(e) => !(ti.kind is Deposit || ti.kind is Withdrawal) && e.kind_spec()
                    == ti.kind,
            },
    {
        match ti.kind {
            TransactionInstructionKind::Deposit => Ok(
                Transaction::new(ti.client, ti.tx, TransactionKind::Deposit, ti.amount.unwrap()),
            ),
            TransactionInstructionKind::Withdrawal => Ok(
                Transaction::new(ti.client, ti.tx, TransactionKind::Withdrawal, ti.amount.unwrap()),
            ),
            _ => Err(TryFromError(ti.kind)),
        }
    }
}

} // verus!
