//! Per-client monetary state: available and held funds and the lock flag.

use vstd::prelude::*;

use crate::amount::Amount;

verus! {

/// Identifies an account holder.  Stable for the life of the process.
#[derive(Clone, Copy, Debug, PartialEq, Eq, Structural)]
pub struct AccountId(pub u16);

/// The monetary state of one client.
///
/// `available` and `held` partition the client's funds: held funds are
/// provisionally removed from the spendable balance while a dispute is
/// pending.  Once `locked` is true the account rejects every further
/// instruction.  The total balance is never stored; see [`Account::total`].
#[derive(Clone, Copy, Debug, PartialEq, Eq, Structural)]
pub struct Account {
    pub client: AccountId,
    pub available: Amount,
    pub held: Amount,
    pub locked: bool,
}

/// The mathematical state of an account: balances as unbounded integers.
#[verifier::ext_equal]
pub ghost struct AccountModel {
    pub client: int,
    pub available: int,
    pub held: int,
    pub locked: bool,
}

impl AccountModel {
    /// The state a freshly created account is in.
    pub open spec fn new_spec(client: int) -> AccountModel {
        AccountModel { client, available: 0, held: 0, locked: false }
    }

    /// The derived total balance.
    pub open spec fn total(self) -> int {
        self.available + self.held
    }

    /// The total balance fits the machine word, so it can be computed.
    pub open spec fn total_fits(self) -> bool {
        i64::MIN <= self.total() <= i64::MAX
    }
}

impl View for Account {
    type V = AccountModel;

    open spec fn view(&self) -> AccountModel {
        AccountModel {
            client: self.client.0 as int,
            available: self.available@,
            held: self.held@,
            locked: self.locked,
        }
    }
}

impl Account {
    /// A new account with zero balances, not locked.
    pub fn new(client: AccountId) -> (r: Account)
        ensures
            r@ == AccountModel::new_spec(client.0 as int),
    {
        Account { client, available: Amount::zero(), held: Amount::zero(), locked: false }
    }

    /// The total balance, available plus held.  It is derived on every
    /// read rather than stored, so it can never drift from the parts.
    pub fn total(&self) -> (r: Amount)
        requires
            self@.total_fits(),
        ensures
            r@ == self@.total(),
    {
        Amount(self.available.0 + self.held.0)
    }
}

} // verus!
