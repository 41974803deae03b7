use vstd::prelude::*;
use crate::amount::{Amount, fits_i128, round_4dp, ROUND_QUANTUM};

verus! {

/// The closed set of transaction kinds the processor accepts.
#[derive(Clone, Copy, Debug, PartialEq, Eq, Structural)]
pub enum TransactionType {
    Deposit,
    Withdrawal,
    Dispute,
    Resolve,
    Chargeback,
}

/// One unit of work handed to the processor: a kind, the client and
/// transaction identifiers, and an amount that deposits and withdrawals
/// carry and the other kinds ignore.
#[derive(Clone, Copy, Debug, PartialEq, Eq, Structural)]
pub struct TransactionInput {
    pub kind: TransactionType,
    pub client: u16,
    pub tx: u32,
    pub amount: Option<Amount>,
}

/// The stored record of an accepted deposit, the only kind of transaction
/// that can be disputed.
#[derive(Clone, Copy, Debug, PartialEq, Eq, Structural)]
pub struct Deposit {
    pub tx: u32,
    pub client_id: u16,
    pub amount: Amount,
    pub under_dispute: bool,
}

impl Deposit {
    /// A fresh deposit record for `tx`, or `None` when the input carries no
    /// amount.
    pub fn try_new(tx: &TransactionInput) -> (r: Option<Deposit>)
        ensures
            match tx.amount {
                Some(a) => r == Some(
                    Deposit {
                        tx: tx.tx,
                        client_id: tx.client,
                        amount: a,
                        under_dispute: false,
                    },
                ),
                None => r is None,
            },
    {
        let amount = match tx.amount {
            Some(a) => a,
            None => {
                return None;
            },
        };
        Some(Deposit { tx: tx.tx, client_id: tx.client, amount, under_dispute: false })
    }
}

/// The stored record of an accepted deposit or withdrawal, keyed by
/// transaction id: withdrawals leave only a marker, since they are never
/// disputable.
#[derive(Clone, Copy, Debug)]
pub enum Transaction {
    Deposit(Deposit),
    Withdrawal,
}

impl Transaction {
    /// A mutable borrow of the deposit payload, or `None` for a withdrawal
    /// marker.
    pub fn as_deposit_mut(&mut self) -> (r: Option<&mut Deposit>)
        ensures
            (r is Some) == (*old(self) is Deposit),
            *old(self) is Withdrawal ==> *final(self) == *old(self),
            match r {
                Some(d) => *d == old(self)->Deposit_0 && *final(self) == Transaction::Deposit(
                    *final(d),
                ),
                None => *final(self) == *old(self),
            },
    {
        match self {
            Transaction::Deposit(data) => Some(data),
            _ => None,
        }
    }
}

/// The balance state of one client: funds usable for withdrawal, funds
/// frozen under active dispute, and whether a chargeback has permanently
/// locked the account.
#[derive(Clone, Copy, Debug, PartialEq, Eq, Structural)]
pub struct Account {
    pub available: Amount,
    pub held: Amount,
    pub locked: bool,
}

/// The mathematical state of one account: unit counts as integers.
pub struct AccountState {
    pub available: int,
    pub held: int,
    pub locked: bool,
}

/// The mathematical content of an account.
pub open spec fn abs_account(a: Account) -> AccountState {
    AccountState { available: a.available@, held: a.held@, locked: a.locked }
}

/// The mathematical content of a stored transaction record.
pub enum TxRecord {
    Deposit { client: u16, amount: int, under_dispute: bool },
    Withdrawal,
}

/// The mathematical content of a transaction record.
pub open spec fn abs_record(t: Transaction) -> TxRecord {
    match t {
        Transaction::Deposit(d) => TxRecord::Deposit {
            client: d.client_id,
            amount: d.amount@,
            under_dispute: d.under_dispute,
        },
        Transaction::Withdrawal => TxRecord::Withdrawal,
    }
}

impl Account {
    /// A zeroed, unlocked account, as created on the first transaction that
    /// references a client.
    pub fn new() -> (r: Account)
        ensures
            abs_account(r) == (AccountState { available: 0, held: 0, locked: false }),
    {
        Account { available: Amount::zero(), held: Amount::zero(), locked: false }
    }

    /// Total funds of the account: available plus held.
    pub fn total(&self) -> (r: Amount)
        requires
            fits_i128(self.available@ + self.held@),
        ensures
            r@ == self.available@ + self.held@,
    {
        self.available.checked_add(self.held).unwrap()
    }

    /// The reporting view of the account: every monetary field rounded to
    /// four decimal places, rounding applied only here, never
    /// mid-computation.
    pub fn to_output(&self, client_id: u16) -> (r: AccountOutput)
        requires
            i128::MIN + ROUND_QUANTUM <= self.available@ <= i128::MAX - ROUND_QUANTUM,
            i128::MIN + ROUND_QUANTUM <= self.held@ <= i128::MAX - ROUND_QUANTUM,
            i128::MIN + ROUND_QUANTUM <= self.available@ + self.held@ <= i128::MAX
                - ROUND_QUANTUM,
        ensures
            r.client == client_id,
            r.available@ == round_4dp(self.available@),
            r.held@ == round_4dp(self.held@),
            r.total@ == round_4dp(self.available@ + self.held@),
            r.locked == self.locked,
    {
        AccountOutput {
            client: client_id,
            available: self.available.rounded_4dp(),
            held: self.held.rounded_4dp(),
            total: self.total().rounded_4dp(),
            locked: self.locked,
        }
    }
}

/// The reported final state of one client's account, rounded to four
/// decimal places.
#[derive(Clone, Copy, Debug, PartialEq, Eq, Structural)]
pub struct AccountOutput {
    pub client: u16,
    pub available: Amount,
    pub held: Amount,
    pub total: Amount,
    pub locked: bool,
}

} // verus!
