//! The laws of the ledger, stated over the mathematical state and
//! proved from [`BankModel::apply_spec`] alone.  Each proof function is
//! part of what the library promises; since `perform_transaction` is
//! proved to follow `apply_spec` exactly, every law holds of the
//! running engine as well.

use vstd::prelude::*;

use crate::account::AccountModel;
use crate::bank::BankModel;
use crate::instruction::{InstructionModel, TransactionInstructionKind};
use crate::transaction::{Error, TransactionAmendment};

verus! {

/// The state a sequence of instructions, applied in input order, leads
/// to.  Instruction order is semantically significant; nothing here may
/// be reordered without changing the outcome.
pub open spec fn apply_all(b: BankModel, instrs: Seq<InstructionModel>) -> BankModel
    decreases instrs.len(),
{
    if instrs.len() == 0 {
        b
    } else {
        apply_all(b.apply_spec(instrs.first()).post, instrs.drop_first())
    }
}

/// The sum of the amounts carried by a sequence of instructions.
pub open spec fn sum_amounts(instrs: Seq<InstructionModel>) -> int
    decreases instrs.len(),
{
    if instrs.len() == 0 {
        0
    } else {
        instrs.first().amount.unwrap() + sum_amounts(instrs.drop_first())
    }
}

/// A deposit instruction for client `c` that the engine accepts on its
/// face: it carries a non-negative amount.
pub open spec fn valid_deposit_for(i: InstructionModel, c: int) -> bool {
    &&& i.kind is Deposit
    &&& i.client == c
    &&& i.amount matches Some(a) && a >= 0
}

/// The dispute instruction for transaction `x` issued by client `c`.
pub open spec fn dispute_instruction(c: int, x: int) -> InstructionModel {
    InstructionModel { kind: TransactionInstructionKind::Dispute, client: c, tx: x, amount: None }
}

/// The resolve instruction for transaction `x` issued by client `c`.
pub open spec fn resolve_instruction(c: int, x: int) -> InstructionModel {
    InstructionModel { kind: TransactionInstructionKind::Resolve, client: c, tx: x, amount: None }
}

/// The chargeback instruction for transaction `x` issued by client `c`.
pub open spec fn chargeback_instruction(c: int, x: int) -> InstructionModel {
    InstructionModel {
        kind: TransactionInstructionKind::Chargeback,
        client: c,
        tx: x,
        amount: None,
    }
}

/// Any sequence of valid deposits for one client raises that client's
/// available balance by exactly the sum of the amounts and leaves the
/// held balance and the lock flag untouched, provided the account is
/// not locked and every deposit bears a fresh, pairwise distinct
/// transaction id.  Starting from an empty bank this gives: final
/// `available` is the sum, `held` is zero.
pub proof fn lemma_deposits_accumulate(b: BankModel, instrs: Seq<InstructionModel>, c: int)
    requires
        !b.account_or_new(c).locked,
        forall|k: int| 0 <= k < instrs.len() ==> valid_deposit_for(#[trigger] instrs[k], c),
        forall|k: int|
            0 <= k < instrs.len() ==> !b.transactions.dom().contains((#[trigger] instrs[k]).tx),
        forall|k: int, l: int|
            0 <= k < l < instrs.len() ==> (#[trigger] instrs[k]).tx != (#[trigger] instrs[l]).tx,
    ensures
        apply_all(b, instrs).account_or_new(c).available == b.account_or_new(c).available
            + sum_amounts(instrs),
        apply_all(b, instrs).account_or_new(c).held == b.account_or_new(c).held,
        !apply_all(b, instrs).account_or_new(c).locked,
    decreases instrs.len(),
{
    if instrs.len() > 0 {
        let i0 = instrs.first();
        let rest = instrs.drop_first();
        let b1 = b.apply_spec(i0).post;
        assert(valid_deposit_for(i0, c));
        assert(!b.transactions.dom().contains(i0.tx));
        assert(b1.account_or_new(c).available == b.account_or_new(c).available
            + i0.amount.unwrap());
        assert(b1.account_or_new(c).held == b.account_or_new(c).held);
        assert(!b1.account_or_new(c).locked);
        assert forall|k: int| 0 <= k < rest.len() implies valid_deposit_for(
            #[trigger] rest[k],
            c,
        ) by {
            assert(rest[k] == instrs[k + 1]);
        }
        assert forall|k: int| 0 <= k < rest.len() implies !b1.transactions.dom().contains(
            (#[trigger] rest[k]).tx,
        ) by {
            assert(rest[k] == instrs[k + 1]);
            assert(instrs[k + 1].tx != i0.tx);
        }
        assert forall|k: int, l: int| 0 <= k < l < rest.len() implies (#[trigger] rest[k]).tx != (
        #[trigger] rest[l]).tx by {
            assert(rest[k] == instrs[k + 1]);
            assert(rest[l] == instrs[l + 1]);
        }
        lemma_deposits_accumulate(b1, rest, c);
    }
}

/// From an empty bank, a sequence of valid deposits for one client with
/// pairwise distinct transaction ids leaves that client's available
/// balance at exactly the sum of the amounts, the held balance at zero,
/// and the account unlocked.
pub proof fn lemma_deposits_from_empty(instrs: Seq<InstructionModel>, c: int)
    requires
        forall|k: int| 0 <= k < instrs.len() ==> valid_deposit_for(#[trigger] instrs[k], c),
        forall|k: int, l: int|
            0 <= k < l < instrs.len() ==> (#[trigger] instrs[k]).tx != (#[trigger] instrs[l]).tx,
    ensures
        apply_all(BankModel::initial(), instrs).account_or_new(c).available == sum_amounts(instrs),
        apply_all(BankModel::initial(), instrs).account_or_new(c).held == 0,
        !apply_all(BankModel::initial(), instrs).account_or_new(c).locked,
{
    lemma_deposits_accumulate(BankModel::initial(), instrs, c);
}

/// Once an account is locked it stays locked: no instruction, for this
/// client or any other, unlocks it or moves its balances.  Together
/// with `lemma_frozen_account_rejects` this makes the lock terminal.
pub proof fn lemma_lock_is_permanent(b: BankModel, i: InstructionModel, c: int)
    requires
        b.accounts.dom().contains(c),
        b.accounts[c].locked,
    ensures
        b.apply_spec(i).post.accounts.dom().contains(c),
        b.apply_spec(i).post.accounts[c] == b.accounts[c],
{
    if i.client == c {
        lemma_frozen_account_rejects(b, i);
    }
}

/// A withdrawal succeeds only when its amount is no more than the
/// available balance — so it never drives the balance below zero — and
/// on any rejection it changes neither the account's balances nor the
/// recorded transactions.
pub proof fn lemma_withdrawal_never_overdraws(b: BankModel, i: InstructionModel)
    requires
        i.kind is Withdrawal,
        i.amount is Some,
    ensures
        b.apply_spec(i).result is Ok ==> (i.amount matches Some(a) && 0 <= a <= b.account_or_new(
            i.client,
        ).available),
        b.apply_spec(i).result is Ok ==> b.apply_spec(i).post.account_or_new(i.client).available
            >= 0,
        b.apply_spec(i).result is Err ==> {
            let o = b.apply_spec(i);
            &&& o.post.transactions == b.transactions
            &&& o.post.account_or_new(i.client) == b.account_or_new(i.client)
        },
{
}

/// One application keeps the state invariant, provided the instruction
/// is well shaped and its arithmetic fits the machine word: every
/// state the engine can reach satisfies [`BankModel::inv`].
pub proof fn lemma_apply_preserves_inv(b: BankModel, i: InstructionModel)
    requires
        b.inv(),
        (i.kind is Deposit || i.kind is Withdrawal) ==> i.amount is Some,
        i.amount matches Some(a) ==> i64::MIN <= a <= i64::MAX,
        b.fits(i),
    ensures
        b.apply_spec(i).post.inv(),
{
}

/// The available balance of an account moves down only through a
/// withdrawal or a dispute issued by that client; every other
/// instruction leaves it where it was or raises it.
pub proof fn lemma_available_decreases_only_by_withdrawal_or_dispute(
    b: BankModel,
    i: InstructionModel,
    c: int,
)
    requires
        b.inv(),
        (i.kind is Deposit || i.kind is Withdrawal) ==> i.amount is Some,
    ensures
        b.apply_spec(i).post.account_or_new(c).available < b.account_or_new(c).available
            ==> i.client == c && (i.kind is Withdrawal || i.kind is Dispute),
{
}

/// Disputing a transaction and then resolving it restores the
/// client's available and held balances to their pre-dispute values,
/// leaves the account unlocked, and extends the transaction's history
/// by `Dispute` then `Resolve`, so it is no longer disputed.
pub proof fn lemma_dispute_resolve_round_trip(b: BankModel, c: int, x: int)
    requires
        b.transactions.dom().contains(x),
        b.transactions[x].client == c,
        !b.account_or_new(c).locked,
    ensures
        ({
            let d = b.apply_spec(dispute_instruction(c, x));
            let r = d.post.apply_spec(resolve_instruction(c, x));
            &&& r.post.account_or_new(c).available == b.account_or_new(c).available
            &&& r.post.account_or_new(c).held == b.account_or_new(c).held
            &&& !r.post.account_or_new(c).locked
            &&& r.post.transactions[x].history == b.transactions[x].history.push(
                TransactionAmendment::Dispute,
            ).push(TransactionAmendment::Resolve)
            &&& !r.post.transactions[x].is_disputed()
        }),
{
    let d = b.apply_spec(dispute_instruction(c, x));
    let r = d.post.apply_spec(resolve_instruction(c, x));
    assert(d.post.transactions[x].is_disputed());
    assert(r.post.account_or_new(c).available == b.account_or_new(c).available);
}

/// Disputing a transaction and then charging it back takes the
/// disputed amount out of held funds for good, leaves the available
/// balance as it was in the disputed state, and locks the account.
pub proof fn lemma_dispute_chargeback(b: BankModel, c: int, x: int)
    requires
        b.transactions.dom().contains(x),
        b.transactions[x].client == c,
        !b.account_or_new(c).locked,
    ensures
        ({
            let d = b.apply_spec(dispute_instruction(c, x));
            let g = d.post.apply_spec(chargeback_instruction(c, x));
            let disputed = d.post.account_or_new(c);
            &&& g.post.account_or_new(c).held == disputed.held - b.transactions[x].amount
            &&& g.post.account_or_new(c).held == b.account_or_new(c).held
            &&& g.post.account_or_new(c).available == disputed.available
            &&& g.post.account_or_new(c).locked
            &&& g.post.transactions[x].history == b.transactions[x].history.push(
                TransactionAmendment::Dispute,
            ).push(TransactionAmendment::Chargeback)
        }),
{
    let d = b.apply_spec(dispute_instruction(c, x));
    assert(d.post.transactions[x].is_disputed());
}

/// Every instruction addressed to a locked account is rejected with
/// `AccountFrozen` and changes nothing.
pub proof fn lemma_frozen_account_rejects(b: BankModel, i: InstructionModel)
    requires
        b.accounts.dom().contains(i.client),
        b.accounts[i.client].locked,
    ensures
        b.apply_spec(i).result == Err::<AccountModel, Error>(Error::AccountFrozen),
        b.apply_spec(i).post == b,
{
    assert(b.accounts.insert(i.client, b.accounts[i.client]) =~= b.accounts);
    assert(b.apply_spec(i).post =~= b);
}

/// A renewed dispute of a transaction that was charged back by its own
/// client is rejected as frozen and moves no balances: the chargeback
/// locked the account.  (After a resolve, by contrast, a renewed
/// dispute applies again and re-enters the disputed state; the no-op
/// reading holds only for the locked, charged-back case.)
pub proof fn lemma_second_dispute_after_chargeback(b: BankModel, c: int, x: int)
    requires
        b.transactions.dom().contains(x),
        b.transactions[x].client == c,
        !b.account_or_new(c).locked,
    ensures
        ({
            let d = b.apply_spec(dispute_instruction(c, x));
            let g = d.post.apply_spec(chargeback_instruction(c, x));
            let s = g.post.apply_spec(dispute_instruction(c, x));
            &&& s.result == Err::<AccountModel, Error>(Error::AccountFrozen)
            &&& s.post == g.post
        }),
{
    let d = b.apply_spec(dispute_instruction(c, x));
    let g = d.post.apply_spec(chargeback_instruction(c, x));
    assert(d.post.transactions[x].is_disputed());
    assert(g.post.accounts.dom().contains(c) && g.post.accounts[c].locked);
    lemma_frozen_account_rejects(g.post, dispute_instruction(c, x));
}

/// Reusing the transaction id of a recorded transaction for a second
/// deposit or withdrawal is rejected, alters no balance of the
/// instruction's account, and leaves every recorded transaction — the
/// original among them — exactly as it was.
pub proof fn lemma_duplicate_transaction_id(b: BankModel, i: InstructionModel)
    requires
        i.kind is Deposit || i.kind is Withdrawal,
        b.transactions.dom().contains(i.tx),
    ensures
        b.apply_spec(i).result is Err,
        b.apply_spec(i).post.transactions == b.transactions,
        b.apply_spec(i).post.account_or_new(i.client) == b.account_or_new(i.client),
        !b.account_or_new(i.client).locked && !(i.amount matches Some(a) && a < 0)
            ==> b.apply_spec(i).result == Err::<AccountModel, Error>(
            Error::DuplicateTransactionId,
        ),
{
}

/// A deposit or withdrawal carrying a negative amount is rejected
/// before any mutation: no balance moves and no transaction is
/// recorded.  (Only the lock of the account takes precedence.)
pub proof fn lemma_negative_amount_rejected(b: BankModel, i: InstructionModel)
    requires
        i.amount matches Some(a) && a < 0,
        !b.account_or_new(i.client).locked,
    ensures
        b.apply_spec(i).result == Err::<AccountModel, Error>(Error::NegativeAmount),
        b.apply_spec(i).post.transactions == b.transactions,
        b.apply_spec(i).post.account_or_new(i.client) == b.account_or_new(i.client),
{
}

} // verus!
