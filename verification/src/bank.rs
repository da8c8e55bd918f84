//! The ledger engine: accounts, recorded transactions, and the
//! application of one instruction at a time.
//!
//! A [`Bank`] owns its storage outright; callers feed instructions into
//! [`Bank::perform_transaction`] and read the outcome.  The meaning of
//! an instruction is written once, as the transition function
//! [`BankModel::apply_spec`] over the mathematical state, and the
//! executable engine is proved to follow it exactly.

use vstd::prelude::*;

use crate::account::{Account, AccountId, AccountModel};
use crate::amount::Amount;
use crate::instruction::{InstructionModel, TransactionInstruction, TransactionInstructionKind};
use crate::transaction::{
    Error, Transaction, TransactionAmendment, TransactionId, TransactionKind, TransactionModel,
};

verus! {

/// The system that keeps track of accounts and realized transactions
/// and applies instructions to them.
///
/// Accounts are keyed by client id and created lazily; transactions are
/// keyed by transaction id and inserted exactly once.  Both stores keep
/// their entries in insertion order with pairwise distinct keys.
pub struct Bank {
    accounts: Vec<Account>,
    transactions: Vec<Transaction>,
}

/// The mathematical state of a [`Bank`]: the accounts by client id and
/// the recorded transactions by transaction id.
#[verifier::ext_equal]
pub ghost struct BankModel {
    pub accounts: Map<int, AccountModel>,
    pub transactions: Map<int, TransactionModel>,
}

/// What one instruction does: the state it leads to and what the caller
/// is handed back.
#[verifier::ext_equal]
pub ghost struct Outcome {
    pub post: BankModel,
    pub result: Result<AccountModel, Error>,
}

/// The map from client id to account state described by a store of
/// accounts, later entries taking precedence.  With distinct keys the
/// order of entries does not matter.
pub open spec fn accounts_model(s: Seq<Account>) -> Map<int, AccountModel>
    decreases s.len(),
{
    if s.len() == 0 {
        Map::empty()
    } else {
        accounts_model(s.drop_last()).insert(s.last()@.client, s.last()@)
    }
}

/// The map from transaction id to transaction state described by a
/// store of transactions.
pub open spec fn transactions_model(s: Seq<Transaction>) -> Map<int, TransactionModel>
    decreases s.len(),
{
    if s.len() == 0 {
        Map::empty()
    } else {
        transactions_model(s.drop_last()).insert(s.last()@.tx, s.last()@)
    }
}

/// No two entries of the account store share a client id.
pub open spec fn distinct_clients(s: Seq<Account>) -> bool {
    forall|i: int, j: int|
        0 <= i < j < s.len() ==> (#[trigger] s[i])@.client != (#[trigger] s[j])@.client
}

/// No two entries of the transaction store share a transaction id.
pub open spec fn distinct_txs(s: Seq<Transaction>) -> bool {
    forall|i: int, j: int|
        0 <= i < j < s.len() ==> (#[trigger] s[i])@.tx != (#[trigger] s[j])@.tx
}

impl Default for Bank {
    /// The same empty bank that [`Bank::new`] builds.
    fn default() -> (r: Bank)
        ensures
            r.wf(),
            r@ == BankModel::initial(),
    {
        Bank::new()
    }
}

impl View for Bank {
    type V = BankModel;

    closed spec fn view(&self) -> BankModel {
        BankModel {
            accounts: accounts_model(self.accounts@),
            transactions: transactions_model(self.transactions@),
        }
    }
}

// Every entry of a store is present in its map, and under distinct keys
// the map holds exactly the entries' states.  The four lemmas for each
// store relate the map to indexing, pushing and updating.

proof fn lemma_accounts_model_contains_at(s: Seq<Account>, i: int)
    requires
        0 <= i < s.len(),
    ensures
        accounts_model(s).dom().contains(s[i]@.client),
    decreases s.len(),
{
    if i < s.len() - 1 {
        lemma_accounts_model_contains_at(s.drop_last(), i);
    }
}

proof fn lemma_accounts_model_key_at(s: Seq<Account>, c: int) -> (i: int)
    requires
        accounts_model(s).dom().contains(c),
    ensures
        0 <= i < s.len() && s[i]@.client == c,
    decreases s.len(),
{
    if s.last()@.client == c {
        s.len() - 1
    } else {
        lemma_accounts_model_key_at(s.drop_last(), c)
    }
}

proof fn lemma_accounts_model_at(s: Seq<Account>, i: int)
    requires
        distinct_clients(s),
        0 <= i < s.len(),
    ensures
        accounts_model(s).dom().contains(s[i]@.client),
        accounts_model(s)[s[i]@.client] == s[i]@,
    decreases s.len(),
{
    lemma_accounts_model_contains_at(s, i);
    if i < s.len() - 1 {
        lemma_accounts_model_at(s.drop_last(), i);
    }
}

proof fn lemma_accounts_model_push(s: Seq<Account>, x: Account)
    ensures
        accounts_model(s.push(x)) == accounts_model(s).insert(x@.client, x@),
{
    assert(s.push(x).drop_last() =~= s);
    assert(s.push(x).last() == x);
}

proof fn lemma_accounts_model_update(s: Seq<Account>, i: int, x: Account)
    requires
        distinct_clients(s),
        0 <= i < s.len(),
        x@.client == s[i]@.client,
    ensures
        accounts_model(s.update(i, x)) == accounts_model(s).insert(x@.client, x@),
    decreases s.len(),
{
    let t = s.update(i, x);
    if i == s.len() - 1 {
        assert(t.drop_last() =~= s.drop_last());
        assert(accounts_model(t) == accounts_model(s.drop_last()).insert(x@.client, x@));
        assert(accounts_model(s.drop_last()).insert(s[i]@.client, s[i]@).insert(x@.client, x@)
            =~= accounts_model(s.drop_last()).insert(x@.client, x@));
    } else {
        assert(t.drop_last() =~= s.drop_last().update(i, x));
        lemma_accounts_model_update(s.drop_last(), i, x);
        assert(t.last() == s.last());
        assert(accounts_model(s.drop_last()).insert(x@.client, x@).insert(s.last()@.client, s.last()@)
            =~= accounts_model(s.drop_last()).insert(s.last()@.client, s.last()@).insert(x@.client, x@));
    }
}

proof fn lemma_txs_model_contains_at(s: Seq<Transaction>, i: int)
    requires
        0 <= i < s.len(),
    ensures
        transactions_model(s).dom().contains(s[i]@.tx),
    decreases s.len(),
{
    if i < s.len() - 1 {
        lemma_txs_model_contains_at(s.drop_last(), i);
    }
}

proof fn lemma_txs_model_key_at(s: Seq<Transaction>, x: int) -> (i: int)
    requires
        transactions_model(s).dom().contains(x),
    ensures
        0 <= i < s.len() && s[i]@.tx == x,
    decreases s.len(),
{
    if s.last()@.tx == x {
        s.len() - 1
    } else {
        lemma_txs_model_key_at(s.drop_last(), x)
    }
}

proof fn lemma_txs_model_at(s: Seq<Transaction>, i: int)
    requires
        distinct_txs(s),
        0 <= i < s.len(),
    ensures
        transactions_model(s).dom().contains(s[i]@.tx),
        transactions_model(s)[s[i]@.tx] == s[i]@,
    decreases s.len(),
{
    lemma_txs_model_contains_at(s, i);
    if i < s.len() - 1 {
        lemma_txs_model_at(s.drop_last(), i);
    }
}

proof fn lemma_txs_model_push(s: Seq<Transaction>, x: Transaction)
    ensures
        transactions_model(s.push(x)) == transactions_model(s).insert(x@.tx, x@),
{
    assert(s.push(x).drop_last() =~= s);
    assert(s.push(x).last() == x);
}

proof fn lemma_txs_model_update(s: Seq<Transaction>, i: int, x: Transaction)
    requires
        distinct_txs(s),
        0 <= i < s.len(),
        x@.tx == s[i]@.tx,
    ensures
        transactions_model(s.update(i, x)) == transactions_model(s).insert(x@.tx, x@),
    decreases s.len(),
{
    let t = s.update(i, x);
    if i == s.len() - 1 {
        assert(t.drop_last() =~= s.drop_last());
        assert(transactions_model(t) == transactions_model(s.drop_last()).insert(x@.tx, x@));
        assert(transactions_model(s.drop_last()).insert(s[i]@.tx, s[i]@).insert(x@.tx, x@)
            =~= transactions_model(s.drop_last()).insert(x@.tx, x@));
    } else {
        assert(t.drop_last() =~= s.drop_last().update(i, x));
        lemma_txs_model_update(s.drop_last(), i, x);
        assert(t.last() == s.last());
        assert(transactions_model(s.drop_last()).insert(x@.tx, x@).insert(s.last()@.tx, s.last()@)
            =~= transactions_model(s.drop_last()).insert(s.last()@.tx, s.last()@).insert(x@.tx, x@));
    }
}

/// The mathematical content of what `perform_transaction` hands back:
/// the state of the affected account on success, the rejection otherwise.
pub open spec fn result_model(r: Result<Account, Error>) -> Result<AccountModel, Error> {
    match r {
        Ok(a) => Ok(a@),
        Err(e) => Err(e),
    }
}

impl BankModel {
    /// The state of a freshly constructed bank: no accounts, no
    /// recorded transactions.
    pub open spec fn initial() -> BankModel {
        BankModel {
            accounts: Map::empty(),
            transactions: Map::empty(),
        }
    }

    /// The state facts every reachable bank satisfies: each account and
    /// transaction sits under its own key, balances are machine-word
    /// sized, the total of each account can be computed, and recorded
    /// amounts are never negative.
    pub open spec fn inv(self) -> bool {
        &&& forall|c: int| #[trigger] self.accounts.dom().contains(c) ==> {
            let a = self.accounts[c];
            &&& a.client == c
            &&& a.total_fits()
            &&& i64::MIN <= a.available <= i64::MAX
            &&& i64::MIN <= a.held <= i64::MAX
        }
        &&& forall|x: int| #[trigger] self.transactions.dom().contains(x) ==> {
            let t = self.transactions[x];
            &&& t.tx == x
            &&& 0 <= t.amount <= i64::MAX
        }
    }

    /// The account an instruction for `client` works on: the recorded
    /// one, or a fresh zero-balance account about to be created.
    pub open spec fn account_or_new(self, client: int) -> AccountModel {
        if self.accounts.dom().contains(client) {
            self.accounts[client]
        } else {
            AccountModel::new_spec(client)
        }
    }

    /// The state after the account for `client` has been resolved or
    /// lazily created, before the instruction itself takes effect.
    pub open spec fn with_account(self, client: int) -> BankModel {
        BankModel { accounts: self.accounts.insert(client, self.account_or_new(client)), ..self }
    }

    /// A deposit realizes a new transaction and raises the available
    /// balance, unless its transaction id is already recorded; a reused
    /// id is reported and neither the account nor the recorded
    /// transaction is touched.
    pub open spec fn apply_deposit(self, i: InstructionModel, acct: AccountModel) -> Outcome {
        if self.transactions.dom().contains(i.tx) {
            Outcome { post: self, result: Err(Error::DuplicateTransactionId) }
        } else {
            let a = i.amount.unwrap();
            let updated = AccountModel { available: acct.available + a, ..acct };
            Outcome {
                post: BankModel {
                    accounts: self.accounts.insert(i.client, updated),
                    transactions: self.transactions.insert(
                        i.tx,
                        TransactionModel::new_spec(i.client, i.tx, TransactionKind::Deposit, a),
                    ),
                },
                result: Ok(updated),
            }
        }
    }

    /// A withdrawal mirrors a deposit but may not overdraw: when the
    /// amount exceeds the available balance it is rejected and nothing
    /// changes.
    pub open spec fn apply_withdrawal(self, i: InstructionModel, acct: AccountModel) -> Outcome {
        if self.transactions.dom().contains(i.tx) {
            Outcome { post: self, result: Err(Error::DuplicateTransactionId) }
        } else {
            let a = i.amount.unwrap();
            if a > acct.available {
                Outcome { post: self, result: Err(Error::InsufficientFunds) }
            } else {
                let updated = AccountModel { available: acct.available - a, ..acct };
                Outcome {
                    post: BankModel {
                        accounts: self.accounts.insert(i.client, updated),
                        transactions: self.transactions.insert(
                            i.tx,
                            TransactionModel::new_spec(i.client, i.tx, TransactionKind::Withdrawal, a),
                        ),
                    },
                    result: Ok(updated),
                }
            }
        }
    }

    /// A dispute moves the disputed amount from available to held and
    /// appends to the history.  A missing transaction or one recorded
    /// for another client makes the instruction a no-op.
    pub open spec fn apply_dispute(self, i: InstructionModel, acct: AccountModel) -> Outcome {
        if self.transactions.dom().contains(i.tx) {
            let t = self.transactions[i.tx];
            if t.client == i.client {
                let updated = AccountModel {
                    available: acct.available - t.amount,
                    held: acct.held + t.amount,
                    ..acct
                };
                Outcome {
                    post: BankModel {
                        accounts: self.accounts.insert(i.client, updated),
                        transactions: self.transactions.insert(
                            i.tx,
                            t.amended(TransactionAmendment::Dispute),
                        ),
                    },
                    result: Ok(updated),
                }
            } else {
                Outcome { post: self, result: Ok(acct) }
            }
        } else {
            Outcome { post: self, result: Ok(acct) }
        }
    }

    /// A resolve undoes a pending dispute, moving the amount back from
    /// held to available.  It applies only to a transaction that
    /// exists, belongs to the instruction's client and is currently
    /// disputed; otherwise it is a no-op.
    pub open spec fn apply_resolve(self, i: InstructionModel, acct: AccountModel) -> Outcome {
        if self.transactions.dom().contains(i.tx) {
            let t = self.transactions[i.tx];
            if t.client == i.client && t.is_disputed() {
                let updated = AccountModel {
                    available: acct.available + t.amount,
                    held: acct.held - t.amount,
                    ..acct
                };
                Outcome {
                    post: BankModel {
                        accounts: self.accounts.insert(i.client, updated),
                        transactions: self.transactions.insert(
                            i.tx,
                            t.amended(TransactionAmendment::Resolve),
                        ),
                    },
                    result: Ok(updated),
                }
            } else {
                Outcome { post: self, result: Ok(acct) }
            }
        } else {
            Outcome { post: self, result: Ok(acct) }
        }
    }

    /// A chargeback withdraws a disputed amount from held funds for
    /// good and locks the instruction's account.  It applies only to a
    /// transaction that exists and is currently disputed; otherwise it
    /// is a no-op.
    pub open spec fn apply_chargeback(self, i: InstructionModel, acct: AccountModel) -> Outcome {
        if self.transactions.dom().contains(i.tx) {
            let t = self.transactions[i.tx];
            if t.is_disputed() {
                let updated = AccountModel { held: acct.held - t.amount, locked: true, ..acct };
                Outcome {
                    post: BankModel {
                        accounts: self.accounts.insert(i.client, updated),
                        transactions: self.transactions.insert(
                            i.tx,
                            t.amended(TransactionAmendment::Chargeback),
                        ),
                    },
                    result: Ok(updated),
                }
            } else {
                Outcome { post: self, result: Ok(acct) }
            }
        } else {
            Outcome { post: self, result: Ok(acct) }
        }
    }

    /// The meaning of one instruction.  The account is resolved or
    /// lazily created first; a locked account rejects everything, a
    /// negative amount is rejected before any mutation, and then the
    /// instruction's kind decides, as the per-kind functions state.
    pub open spec fn apply_spec(self, i: InstructionModel) -> Outcome {
        let b = self.with_account(i.client);
        let acct = self.account_or_new(i.client);
        if acct.locked {
            Outcome { post: b, result: Err(Error::AccountFrozen) }
        } else if i.amount matches Some(a) && a < 0 {
            Outcome { post: b, result: Err(Error::NegativeAmount) }
        } else {
            match i.kind {
                TransactionInstructionKind::Deposit => b.apply_deposit(i, acct),
                TransactionInstructionKind::Withdrawal => b.apply_withdrawal(i, acct),
                TransactionInstructionKind::Dispute => b.apply_dispute(i, acct),
                TransactionInstructionKind::Resolve => b.apply_resolve(i, acct),
                TransactionInstructionKind::Chargeback => b.apply_chargeback(i, acct),
            }
        }
    }

    /// The arithmetic an instruction would perform stays inside the
    /// machine word.  This is the one machine-level bound a caller owes
    /// the engine; it holds trivially whenever the instruction is
    /// rejected or is a no-op.
    pub open spec fn fits(self, i: InstructionModel) -> bool {
        let acct = self.account_or_new(i.client);
        if acct.locked {
            true
        } else if i.amount matches Some(a) && a < 0 {
            true
        } else {
            match i.kind {
                TransactionInstructionKind::Deposit => i.amount matches Some(a)
                    ==> self.transactions.dom().contains(i.tx) || (acct.available + a <= i64::MAX
                    && acct.total() + a <= i64::MAX),
                TransactionInstructionKind::Withdrawal => true,
                TransactionInstructionKind::Dispute => self.transactions.dom().contains(i.tx) ==> {
                    let t = self.transactions[i.tx];
                    t.client == i.client ==> i64::MIN <= acct.available - t.amount
                        && acct.held + t.amount <= i64::MAX
                },
                TransactionInstructionKind::Resolve => self.transactions.dom().contains(i.tx) ==> {
                    let t = self.transactions[i.tx];
                    (t.client == i.client && t.is_disputed()) ==> acct.available + t.amount
                        <= i64::MAX && i64::MIN <= acct.held - t.amount
                },
                TransactionInstructionKind::Chargeback => self.transactions.dom().contains(i.tx)
                    ==> {
                    let t = self.transactions[i.tx];
                    t.is_disputed() ==> i64::MIN <= acct.held - t.amount && i64::MIN <= acct.total()
                        - t.amount
                },
            }
        }
    }
}

impl Bank {
    /// Both stores have pairwise distinct keys, every account's total
    /// fits the machine word, and recorded amounts are non-negative.
    /// Constructors establish this and every method preserves it.
    pub closed spec fn wf(self) -> bool {
        &&& distinct_clients(self.accounts@)
        &&& distinct_txs(self.transactions@)
        &&& forall|i: int|
            0 <= i < self.accounts@.len() ==> (#[trigger] self.accounts@[i])@.total_fits()
        &&& forall|i: int|
            0 <= i < self.transactions@.len() ==> (#[trigger] self.transactions@[i])@.amount >= 0
    }

    /// A well-formed bank's mathematical state satisfies the invariant.
    pub proof fn lemma_wf_inv(self)
        requires
            self.wf(),
        ensures
            self@.inv(),
    {
        assert forall|c: int| #[trigger] self@.accounts.dom().contains(c) implies {
            let a = self@.accounts[c];
            &&& a.client == c
            &&& a.total_fits()
            &&& i64::MIN <= a.available <= i64::MAX
            &&& i64::MIN <= a.held <= i64::MAX
        } by {
            let i = lemma_accounts_model_key_at(self.accounts@, c);
            lemma_accounts_model_at(self.accounts@, i);
        }
        assert forall|x: int| #[trigger] self@.transactions.dom().contains(x) implies {
            let t = self@.transactions[x];
            &&& t.tx == x
            &&& 0 <= t.amount <= i64::MAX
        } by {
            let i = lemma_txs_model_key_at(self.transactions@, x);
            lemma_txs_model_at(self.transactions@, i);
        }
    }

    /// An empty bank: no accounts, no recorded transactions.
    pub fn new() -> (r: Bank)
        ensures
            r.wf(),
            r@ == BankModel::initial(),
    {
        let r = Bank { accounts: Vec::new(), transactions: Vec::new() };
        proof {
            assert(r.accounts@.len() == 0);
            assert(r.transactions@.len() == 0);
            assert(r@ =~= BankModel::initial());
        }
        r
    }

    /// The index of the account for `client`, if one is recorded.
    fn find_account(&self, client: AccountId) -> (r: Option<usize>)
        ensures
            match r {
                Some(i) => i < self.accounts@.len() && self.accounts@[i as int].client == client,
                None => forall|i: int|
                    0 <= i < self.accounts@.len() ==> (#[trigger] self.accounts@[i]).client != client,
            },
    {
        let n = self.accounts.len();
        let mut i: usize = 0;
        while i < n
            invariant
                n == self.accounts@.len(),
                i <= n,
                forall|j: int| 0 <= j < i ==> (#[trigger] self.accounts@[j]).client != client,
            decreases n - i,
        {
            if self.accounts[i].client.0 == client.0 {
                return Some(i);
            }
            i = i + 1;
        }
        None
    }

    /// The index of the recorded transaction with id `tx`, if any.
    fn find_transaction(&self, tx: TransactionId) -> (r: Option<usize>)
        ensures
            match r {
                Some(i) => i < self.transactions@.len() && self.transactions@[i as int].tx == tx,
                None => forall|i: int|
                    0 <= i < self.transactions@.len() ==> (#[trigger] self.transactions@[i]).tx != tx,
            },
    {
        let n = self.transactions.len();
        let mut i: usize = 0;
        while i < n
            invariant
                n == self.transactions@.len(),
                i <= n,
                forall|j: int| 0 <= j < i ==> (#[trigger] self.transactions@[j]).tx != tx,
            decreases n - i,
        {
            if self.transactions[i].tx.0 == tx.0 {
                return Some(i);
            }
            i = i + 1;
        }
        None
    }

    /// Resolve the account for `client`, creating it with zero balances
    /// on first reference, and return its index.
    fn ensure_account(&mut self, client: AccountId) -> (idx: usize)
        requires
            old(self).wf(),
        ensures
            final(self).wf(),
            final(self).transactions@ == old(self).transactions@,
            idx < final(self).accounts@.len(),
            final(self).accounts@[idx as int].client == client,
            final(self).accounts@[idx as int]@ == old(self)@.account_or_new(client.0 as int),
            final(self)@ == old(self)@.with_account(client.0 as int),
    {
        let ghost c = client.0 as int;
        match self.find_account(client) {
            Some(i) => {
                proof {
                    lemma_accounts_model_at(self.accounts@, i as int);
                    assert(self@.accounts.insert(c, self@.account_or_new(c)) =~= self@.accounts);
                    assert(self@.with_account(c) =~= self@);
                }
                i
            },
            None => {
                let idx = self.accounts.len();
                let fresh = Account::new(client);
                proof {
                    if old(self)@.accounts.dom().contains(c) {
                        let i = lemma_accounts_model_key_at(self.accounts@, c);
                    }
                    lemma_accounts_model_push(self.accounts@, fresh);
                }
                self.accounts.push(fresh);
                proof {
                    assert(final(self)@ =~= old(self)@.with_account(c));
                }
                idx
            },
        }
    }

    /// The recorded accounts, one entry per client, in creation order.
    /// Exactly the accounts of the mathematical state appear, each
    /// exactly once and in its recorded state.
    pub fn accounts(&self) -> (r: &Vec<Account>)
        requires
            self.wf(),
        ensures
            distinct_clients(r@),
            forall|k: int|
                0 <= k < r@.len() ==> self@.accounts.dom().contains((#[trigger] r@[k])@.client)
                    && self@.accounts[r@[k]@.client] == r@[k]@,
            forall|c: int|
                #[trigger] self@.accounts.dom().contains(c) ==> exists|k: int|
                    0 <= k < r@.len() && (#[trigger] r@[k])@.client == c,
    {
        proof {
            assert forall|k: int| 0 <= k < self.accounts@.len() implies self@.accounts.dom().contains(
                (#[trigger] self.accounts@[k])@.client,
            ) && self@.accounts[self.accounts@[k]@.client] == self.accounts@[k]@ by {
                lemma_accounts_model_at(self.accounts@, k);
            }
            assert forall|c: int| #[trigger] self@.accounts.dom().contains(c) implies exists|k: int|
                0 <= k < self.accounts@.len() && (#[trigger] self.accounts@[k])@.client == c by {
                let i = lemma_accounts_model_key_at(self.accounts@, c);
                assert(0 <= i < self.accounts@.len() && (self.accounts@[i])@.client == c);
            }
        }
        &self.accounts
    }

    /// The recorded transaction with id `tx`, if any, in its current
    /// state: initial data plus amendment history.
    pub fn transaction(&self, tx: TransactionId) -> (r: Option<&Transaction>)
        requires
            self.wf(),
        ensures
            match r {
                Some(t) => self@.transactions.dom().contains(tx.0 as int) && t@
                    == self@.transactions[tx.0 as int],
                None => !self@.transactions.dom().contains(tx.0 as int),
            },
    {
        match self.find_transaction(tx) {
            Some(j) => {
                proof {
                    lemma_txs_model_at(self.transactions@, j as int);
                }
                Some(&self.transactions[j])
            },
            None => {
                proof {
                    if self@.transactions.dom().contains(tx.0 as int) {
                        let j = lemma_txs_model_key_at(self.transactions@, tx.0 as int);
                    }
                }
                None
            },
        }
    }

    /// Apply one instruction and return a view of the affected account
    /// after mutation, or the rejection.  Exactly the transition
    /// [`BankModel::apply_spec`] happens: nothing else is touched.
    ///
    /// The caller owes a well-shaped instruction (deposit and
    /// withdrawal carry an amount) whose arithmetic stays inside the
    /// machine word; [`Bank::instruction_fits`] decides the latter.
    pub fn perform_transaction(&mut self, ti: TransactionInstruction) -> (res: Result<
        Account,
        Error,
    >)
        requires
            old(self).wf(),
            ti@.well_formed(),
            old(self)@.fits(ti@),
        ensures
            final(self).wf(),
            final(self)@ == old(self)@.apply_spec(ti@).post,
            result_model(res) == old(self)@.apply_spec(ti@).result,
    {
        let ghost pre = old(self)@;
        let ghost c = ti.client.0 as int;
        let ghost txk = ti.tx.0 as int;
        let idx = self.ensure_account(ti.client);
        let acct = self.accounts[idx];
        let ghost b = pre.with_account(c);
        proof {
            assert(self@ == b);
            assert(acct@ == pre.account_or_new(c));
        }
        if acct.locked {
            return Err(Error::AccountFrozen);
        }
        if let Some(a) = ti.amount {
            if a.is_negative() {
                return Err(Error::NegativeAmount);
            }
        }
        match ti.kind {
            TransactionInstructionKind::Deposit => {
                match self.find_transaction(ti.tx) {
                    Some(j) => {
                        proof {
                            lemma_txs_model_contains_at(self.transactions@, j as int);
                        }
                        Err(Error::DuplicateTransactionId)
                    },
                    None => {
                        proof {
                            if b.transactions.dom().contains(txk) {
                                let j = lemma_txs_model_key_at(self.transactions@, txk);
                            }
                        }
                        let amt = ti.amount.unwrap();
                        let updated = Account {
                            available: Amount(acct.available.0 + amt.0),
                            ..acct
                        };
                        let ghost accs0 = self.accounts@;
                        self.accounts[idx] = updated;
                        proof {
                            lemma_accounts_model_update(accs0, idx as int, updated);
                        }
                        let ghost txs0 = self.transactions@;
                        let t = Transaction::new(ti.client, ti.tx, TransactionKind::Deposit, amt);
                        self.transactions.push(t);
                        proof {
                            lemma_txs_model_push(txs0, t);
                            assert(self@ =~= pre.apply_spec(ti@).post);
                        }
                        Ok(updated)
                    },
                }
            },
            TransactionInstructionKind::Withdrawal => {
                match self.find_transaction(ti.tx) {
                    Some(j) => {
                        proof {
                            lemma_txs_model_contains_at(self.transactions@, j as int);
                        }
                        Err(Error::DuplicateTransactionId)
                    },
                    None => {
                        proof {
                            if b.transactions.dom().contains(txk) {
                                let j = lemma_txs_model_key_at(self.transactions@, txk);
                            }
                        }
                        let amt = ti.amount.unwrap();
                        if amt.0 > acct.available.0 {
                            return Err(Error::InsufficientFunds);
                        }
                        let updated = Account {
                            available: Amount(acct.available.0 - amt.0),
                            ..acct
                        };
                        let ghost accs0 = self.accounts@;
                        self.accounts[idx] = updated;
                        proof {
                            lemma_accounts_model_update(accs0, idx as int, updated);
                        }
                        let ghost txs0 = self.transactions@;
                        let t = Transaction::new(
                            ti.client,
                            ti.tx,
                            TransactionKind::Withdrawal,
                            amt,
                        );
                        self.transactions.push(t);
                        proof {
                            lemma_txs_model_push(txs0, t);
                            assert(self@ =~= pre.apply_spec(ti@).post);
                        }
                        Ok(updated)
                    },
                }
            },
            TransactionInstructionKind::Dispute => {
                match self.find_transaction(ti.tx) {
                    None => {
                        proof {
                            if b.transactions.dom().contains(txk) {
                                let j = lemma_txs_model_key_at(self.transactions@, txk);
                            }
                        }
                        Ok(acct)
                    },
                    Some(j) => {
                        proof {
                            lemma_txs_model_at(self.transactions@, j as int);
                        }
                        let t_client = self.transactions[j].client;
                        let t_amount = self.transactions[j].amount;
                        if t_client.0 == ti.client.0 {
                            let updated = Account {
                                available: Amount(acct.available.0 - t_amount.0),
                                held: Amount(acct.held.0 + t_amount.0),
                                ..acct
                            };
                            let ghost accs0 = self.accounts@;
                            self.accounts[idx] = updated;
                            proof {
                                lemma_accounts_model_update(accs0, idx as int, updated);
                            }
                            let ghost txs0 = self.transactions@;
                            let telem = &mut self.transactions[j];
                            telem.amend(TransactionAmendment::Dispute);
                            proof {
                                lemma_txs_model_update(txs0, j as int, self.transactions@[j as int]);
                                assert(self@ =~= pre.apply_spec(ti@).post);
                            }
                            Ok(updated)
                        } else {
                            Ok(acct)
                        }
                    },
                }
            },
            TransactionInstructionKind::Resolve => {
                match self.find_transaction(ti.tx) {
                    None => {
                        proof {
                            if b.transactions.dom().contains(txk) {
                                let j = lemma_txs_model_key_at(self.transactions@, txk);
                            }
                        }
                        Ok(acct)
                    },
                    Some(j) => {
                        proof {
                            lemma_txs_model_at(self.transactions@, j as int);
                        }
                        let t_client = self.transactions[j].client;
                        let t_amount = self.transactions[j].amount;
                        let disputed = self.transactions[j].is_disputed();
                        if t_client.0 == ti.client.0 && disputed {
                            let updated = Account {
                                available: Amount(acct.available.0 + t_amount.0),
                                held: Amount(acct.held.0 - t_amount.0),
                                ..acct
                            };
                            let ghost accs0 = self.accounts@;
                            self.accounts[idx] = updated;
                            proof {
                                lemma_accounts_model_update(accs0, idx as int, updated);
                            }
                            let ghost txs0 = self.transactions@;
                            let telem = &mut self.transactions[j];
                            telem.amend(TransactionAmendment::Resolve);
                            proof {
                                lemma_txs_model_update(txs0, j as int, self.transactions@[j as int]);
                                assert(self@ =~= pre.apply_spec(ti@).post);
                            }
                            Ok(updated)
                        } else {
                            Ok(acct)
                        }
                    },
                }
            },
            TransactionInstructionKind::Chargeback => {
                match self.find_transaction(ti.tx) {
                    None => {
                        proof {
                            if b.transactions.dom().contains(txk) {
                                let j = lemma_txs_model_key_at(self.transactions@, txk);
                            }
                        }
                        Ok(acct)
                    },
                    Some(j) => {
                        proof {
                            lemma_txs_model_at(self.transactions@, j as int);
                        }
                        let t_amount = self.transactions[j].amount;
                        let disputed = self.transactions[j].is_disputed();
                        if disputed {
                            let updated = Account {
                                held: Amount(acct.held.0 - t_amount.0),
                                locked: true,
                                ..acct
                            };
                            let ghost accs0 = self.accounts@;
                            self.accounts[idx] = updated;
                            proof {
                                lemma_accounts_model_update(accs0, idx as int, updated);
                            }
                            let ghost txs0 = self.transactions@;
                            let telem = &mut self.transactions[j];
                            telem.amend(TransactionAmendment::Chargeback);
                            proof {
                                lemma_txs_model_update(txs0, j as int, self.transactions@[j as int]);
                                assert(self@ =~= pre.apply_spec(ti@).post);
                            }
                            Ok(updated)
                        } else {
                            Ok(acct)
                        }
                    },
                }
            },
        }
    }

    /// True exactly when the arithmetic `perform_transaction` would do
    /// for this instruction stays inside the machine word, so the call
    /// is permitted.
    pub fn instruction_fits(&self, ti: &TransactionInstruction) -> (r: bool)
        requires
            self.wf(),
        ensures
            r == self@.fits(ti@),
    {
        let acct = match self.find_account(ti.client) {
            Some(i) => {
                proof {
                    lemma_accounts_model_at(self.accounts@, i as int);
                }
                self.accounts[i]
            },
            None => {
                proof {
                    if self@.accounts.dom().contains(ti.client.0 as int) {
                        let i = lemma_accounts_model_key_at(self.accounts@, ti.client.0 as int);
                    }
                }
                Account::new(ti.client)
            },
        };
        if acct.locked {
            return true;
        }
        if let Some(a) = ti.amount {
            if a.is_negative() {
                return true;
            }
        }
        match ti.kind {
            TransactionInstructionKind::Deposit => {
                match self.find_transaction(ti.tx) {
                    Some(j) => {
                        proof {
                            lemma_txs_model_contains_at(self.transactions@, j as int);
                        }
                        true
                    },
                    None => {
                        proof {
                            if self@.transactions.dom().contains(ti.tx.0 as int) {
                                let j = lemma_txs_model_key_at(self.transactions@, ti.tx.0 as int);
                            }
                        }
                        match ti.amount {
                            Some(a) => {
                                let avail = acct.available.0 as i128;
                                let held = acct.held.0 as i128;
                                let amt = a.0 as i128;
                                avail + amt <= i64::MAX as i128 && avail + held + amt <= i64::MAX
                                    as i128
                            },
                            None => true,
                        }
                    },
                }
            },
            TransactionInstructionKind::Withdrawal => true,
            TransactionInstructionKind::Dispute => {
                match self.find_transaction(ti.tx) {
                    None => {
                        proof {
                            if self@.transactions.dom().contains(ti.tx.0 as int) {
                                let j = lemma_txs_model_key_at(self.transactions@, ti.tx.0 as int);
                            }
                        }
                        true
                    },
                    Some(j) => {
                        proof {
                            lemma_txs_model_at(self.transactions@, j as int);
                        }
                        let t = &self.transactions[j];
                        if t.client.0 == ti.client.0 {
                            let avail = acct.available.0 as i128;
                            let held = acct.held.0 as i128;
                            let amt = t.amount.0 as i128;
                            i64::MIN as i128 <= avail - amt && held + amt <= i64::MAX as i128
                        } else {
                            true
                        }
                    },
                }
            },
            TransactionInstructionKind::Resolve => {
                match self.find_transaction(ti.tx) {
                    None => {
                        proof {
                            if self@.transactions.dom().contains(ti.tx.0 as int) {
                                let j = lemma_txs_model_key_at(self.transactions@, ti.tx.0 as int);
                            }
                        }
                        true
                    },
                    Some(j) => {
                        proof {
                            lemma_txs_model_at(self.transactions@, j as int);
                        }
                        let t = &self.transactions[j];
                        if t.client.0 == ti.client.0 && t.is_disputed() {
                            let avail = acct.available.0 as i128;
                            let held = acct.held.0 as i128;
                            let amt = t.amount.0 as i128;
                            avail + amt <= i64::MAX as i128 && i64::MIN as i128 <= held - amt
                        } else {
                            true
                        }
                    },
                }
            },
            TransactionInstructionKind::Chargeback => {
                match self.find_transaction(ti.tx) {
                    None => {
                        proof {
                            if self@.transactions.dom().contains(ti.tx.0 as int) {
                                let j = lemma_txs_model_key_at(self.transactions@, ti.tx.0 as int);
                            }
                        }
                        true
                    },
                    Some(j) => {
                        proof {
                            lemma_txs_model_at(self.transactions@, j as int);
                        }
                        let t = &self.transactions[j];
                        if t.is_disputed() {
                            let avail = acct.available.0 as i128;
                            let held = acct.held.0 as i128;
                            let amt = t.amount.0 as i128;
                            i64::MIN as i128 <= held - amt && i64::MIN as i128 <= avail + held - amt
                        } else {
                            true
                        }
                    },
                }
            },
        }
    }
}

} // verus!
