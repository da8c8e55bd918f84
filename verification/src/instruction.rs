//! Instructions fed to the engine, one input record each.

use vstd::prelude::*;

use crate::account::AccountId;
use crate::amount::Amount;
use crate::transaction::TransactionId;

verus! {

/// What an instruction asks for.  Deposit and withdrawal realize a new
/// transaction; the other three amend a recorded one.
#[derive(Clone, Copy, Debug, PartialEq, Eq, Structural)]
pub enum TransactionInstructionKind {
    Deposit,
    Withdrawal,
    Dispute,
    Resolve,
    Chargeback,
}

/// One instruction from the input stream.  `amount` is present for
/// deposit and withdrawal and absent for the amendment kinds.
#[derive(Clone, Copy, Debug, PartialEq, Eq, Structural)]
pub struct TransactionInstruction {
    pub kind: TransactionInstructionKind,
    pub client: AccountId,
    pub tx: TransactionId,
    pub amount: Option<Amount>,
}

/// The mathematical content of an instruction.
#[verifier::ext_equal]
pub ghost struct InstructionModel {
    pub kind: TransactionInstructionKind,
    pub client: int,
    pub tx: int,
    pub amount: Option<int>,
}

impl InstructionModel {
    /// Deposit and withdrawal carry an amount; an instruction whose
    /// shape violates this cannot be applied.
    pub open spec fn well_formed(self) -> bool {
        (self.kind is Deposit || self.kind is Withdrawal) ==> self.amount is Some
    }
}

impl View for TransactionInstruction {
    type V = InstructionModel;

    open spec fn view(&self) -> InstructionModel {
        InstructionModel {
            kind: self.kind,
            client: self.client.0 as int,
            tx: self.tx.0 as int,
            amount: match self.amount {
                Some(a) => Some(a@),
                None => None,
            },
        }
    }
}

} // verus!
