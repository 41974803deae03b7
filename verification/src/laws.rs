use vstd::prelude::*;
use crate::amount::fits_i128;
use crate::engine::{Ledger, account_or_fresh, is_duplicate, step, wf};
use crate::models::{TransactionInput, TxRecord};

verus! {

broadcast use crate::amount::lemma_amount_in_range;

/// Total funds of `client`: available plus held, zero while no account
/// exists.
pub open spec fn total_of(s: Ledger, client: u16) -> int {
    if s.accounts.contains_key(client) {
        s.accounts[client].available + s.accounts[client].held
    } else {
        0
    }
}

/// The amount an input carries, zero when it carries none.
pub open spec fn amount_of(t: TransactionInput) -> int {
    match t.amount {
        Option::Some(a) => a@,
        Option::None => 0,
    }
}

/// Whether an input is a deposit or a withdrawal, the two kinds that move
/// funds in and out of the ledger.
pub open spec fn is_flow(t: TransactionInput) -> bool {
    t.kind is Deposit || t.kind is Withdrawal
}

/// The ledger after replaying a sequence of inputs in arrival order.
pub open spec fn replay(s: Ledger, ts: Seq<TransactionInput>) -> Ledger
    decreases ts.len(),
{
    if ts.len() == 0 {
        s
    } else {
        replay(step(s, ts[0]), ts.drop_first())
    }
}

/// Whether a deposit input is accepted in state `s`: no record under its
/// transaction id yet, the account unlocked, an amount present, and the new
/// balance representable.
pub open spec fn deposit_accepted(s: Ledger, t: TransactionInput) -> bool {
    &&& t.kind is Deposit
    &&& !s.records.contains_key(t.tx)
    &&& !account_or_fresh(s, t.client).locked
    &&& t.amount is Some
    &&& fits_i128(account_or_fresh(s, t.client).available + amount_of(t))
}

/// Whether a withdrawal input is accepted in state `s`: no record under its
/// transaction id yet, the account unlocked, an amount present, and the
/// available funds sufficient.
pub open spec fn withdrawal_accepted(s: Ledger, t: TransactionInput) -> bool {
    &&& t.kind is Withdrawal
    &&& !s.records.contains_key(t.tx)
    &&& !account_or_fresh(s, t.client).locked
    &&& t.amount is Some
    &&& account_or_fresh(s, t.client).available >= amount_of(t)
    &&& fits_i128(account_or_fresh(s, t.client).available - amount_of(t))
}

/// The sum of accepted deposit amounts minus the sum of accepted withdrawal
/// amounts for `client` over a replayed sequence.
pub open spec fn accepted_flow(s: Ledger, ts: Seq<TransactionInput>, client: u16) -> int
    decreases ts.len(),
{
    if ts.len() == 0 {
        0
    } else {
        let d = if ts[0].client == client && deposit_accepted(s, ts[0]) {
            amount_of(ts[0])
        } else if ts[0].client == client && withdrawal_accepted(s, ts[0]) {
            -amount_of(ts[0])
        } else {
            0
        };
        d + accepted_flow(step(s, ts[0]), ts.drop_first(), client)
    }
}

/// Idempotence of deposits and withdrawals: replaying a deposit or
/// withdrawal whose transaction id was already recorded changes nothing.
pub proof fn lemma_duplicate_is_noop(s: Ledger, t: TransactionInput)
    requires
        is_flow(t),
        s.records.contains_key(t.tx),
    ensures
        step(s, t) == s,
{
}

/// One deposit or withdrawal moves a client's total by exactly the accepted
/// amount: up for an accepted deposit, down for an accepted withdrawal, not
/// at all when the input is refused.
proof fn lemma_step_total(s: Ledger, t: TransactionInput, client: u16)
    requires
        is_flow(t),
    ensures
        total_of(step(s, t), client) == total_of(s, client) + (
        if t.client == client && deposit_accepted(s, t) {
            amount_of(t)
        } else if t.client == client && withdrawal_accepted(s, t) {
            -amount_of(t)
        } else {
            0
        }),
{
}

/// Conservation: over a sequence of deposits and withdrawals alone, a
/// client's total always equals the starting total plus the sum of accepted
/// deposit amounts minus the sum of accepted withdrawal amounts.
pub proof fn lemma_conservation(s: Ledger, ts: Seq<TransactionInput>, client: u16)
    requires
        forall|i: int| 0 <= i < ts.len() ==> is_flow(#[trigger] ts[i]),
    ensures
        total_of(replay(s, ts), client) == total_of(s, client) + accepted_flow(s, ts, client),
    decreases ts.len(),
{
    if ts.len() > 0 {
        lemma_step_total(s, ts[0], client);
        assert forall|i: int| 0 <= i < ts.drop_first().len() implies is_flow(
            #[trigger] ts.drop_first()[i],
        ) by {
            assert(ts.drop_first()[i] == ts[i + 1]);
        }
        lemma_conservation(step(s, ts[0]), ts.drop_first(), client);
    }
}

/// Lock monotonicity: once a client's account is locked, a deposit or
/// withdrawal for that client changes nothing at all.
pub proof fn lemma_locked_client_unchanged(s: Ledger, t: TransactionInput)
    requires
        is_flow(t),
        s.accounts.contains_key(t.client),
        s.accounts[t.client].locked,
    ensures
        step(s, t) == s,
{
    if !is_duplicate(s, t) {
        assert(s.accounts.insert(t.client, account_or_fresh(s, t.client)) =~= s.accounts);
        assert(step(s, t) =~= s);
    }
}

/// A lock is permanent: no later transaction of any kind unlocks an
/// account.
pub proof fn lemma_lock_is_permanent(s: Ledger, t: TransactionInput, client: u16)
    requires
        s.accounts.contains_key(client),
        s.accounts[client].locked,
    ensures
        step(s, t).accounts.contains_key(client),
        step(s, t).accounts[client].locked,
{
}

/// Every step preserves well-formedness of the ledger.
pub proof fn lemma_step_preserves_wf(s: Ledger, t: TransactionInput)
    requires
        wf(s),
    ensures
        wf(step(s, t)),
{
}

/// Dispute closes the loop: a deposit followed by a dispute and a resolve
/// of the same transaction for the same client leaves the ledger exactly as
/// it stood after the deposit.
pub proof fn lemma_dispute_resolve_roundtrip(
    s: Ledger,
    dep: TransactionInput,
    dis: TransactionInput,
    res: TransactionInput,
)
    requires
        wf(s),
        dep.kind is Deposit,
        !s.records.contains_key(dep.tx),
        dis.kind is Dispute,
        res.kind is Resolve,
        dis.tx == dep.tx,
        res.tx == dep.tx,
        dis.client == dep.client,
        res.client == dep.client,
    ensures
        step(step(step(s, dep), dis), res) == step(s, dep),
{
    let s1 = step(s, dep);
    let s2 = step(s1, dis);
    let s3 = step(s2, res);
    if deposit_accepted(s, dep) {
        let c = dep.client;
        let a1 = s1.accounts[c];
        if fits_i128(a1.available - amount_of(dep)) && fits_i128(a1.held + amount_of(dep)) {
            assert(s2.accounts[c].held - amount_of(dep) == a1.held);
            assert(s3.accounts =~= s1.accounts);
            assert(s3.records =~= s1.records);
            assert(s3 =~= s1);
        } else {
            assert(s2.accounts =~= s1.accounts);
            assert(s2 =~= s1);
        }
    } else {
        assert(s1.records == s.records);
    }
}

/// Chargeback removes funds: a dispute followed by a chargeback of the same
/// transaction lowers the client's total by exactly the disputed amount and
/// locks the account, and a second chargeback of the same transaction is a
/// no-op. The two representability bounds exclude only amounts beyond the
/// unit range.
pub proof fn lemma_chargeback_removes_funds(
    s: Ledger,
    dis: TransactionInput,
    cb: TransactionInput,
    client: u16,
    amount: int,
)
    requires
        wf(s),
        s.records.contains_key(dis.tx),
        s.records[dis.tx] == (TxRecord::Deposit { client, amount, under_dispute: false }),
        dis.kind is Dispute,
        cb.kind is Chargeback,
        cb.tx == dis.tx,
        dis.client == client,
        cb.client == client,
        fits_i128(account_or_fresh(s, client).available - amount),
        fits_i128(account_or_fresh(s, client).held + amount),
    ensures
        total_of(step(step(s, dis), cb), client) == total_of(s, client) - amount,
        step(step(s, dis), cb).accounts[client].locked,
        step(step(step(s, dis), cb), cb) == step(step(s, dis), cb),
{
    let s2 = step(s, dis);
    let s3 = step(s2, cb);
    let a = account_or_fresh(s, client);
    assert(s2.accounts[client].held - amount == a.held);
}

} // verus!
