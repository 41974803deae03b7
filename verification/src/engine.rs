use vstd::prelude::*;
use crate::amount::fits_i128;
use crate::models::{
    Account, AccountState, Deposit, Transaction, TransactionInput, TransactionType, TxRecord,
    abs_account, abs_record,
};
use std::collections::HashMap;

verus! {

broadcast use vstd::std_specs::hash::group_hash_axioms, crate::amount::lemma_amount_in_range;

/// The mathematical state of the whole ledger: one account per client that
/// has appeared, and one record per accepted deposit or withdrawal.
#[verifier::ext_equal]
pub struct Ledger {
    pub accounts: Map<u16, AccountState>,
    pub records: Map<u32, TxRecord>,
}

/// The mathematical content of the account map.
pub open spec fn abs_accounts(m: Map<u16, Account>) -> Map<u16, AccountState> {
    Map::new(|c: u16| m.contains_key(c), |c: u16| abs_account(m[c]))
}

/// The mathematical content of the record map.
pub open spec fn abs_records(m: Map<u32, Transaction>) -> Map<u32, TxRecord> {
    Map::new(|x: u32| m.contains_key(x), |x: u32| abs_record(m[x]))
}

/// A zeroed, unlocked account state.
pub open spec fn fresh_account() -> AccountState {
    AccountState { available: 0, held: 0, locked: false }
}

/// The account of `client`, or a zeroed one when none exists yet.
pub open spec fn account_or_fresh(s: Ledger, client: u16) -> AccountState {
    if s.accounts.contains_key(client) {
        s.accounts[client]
    } else {
        fresh_account()
    }
}

/// The ledger after processing a deposit that passed the duplicate guard.
/// The account is created first, so it exists even when the deposit is then
/// ignored for a locked account, a missing amount, or an unrepresentable
/// balance.
pub open spec fn step_deposit(s: Ledger, t: TransactionInput) -> Ledger {
    let a = account_or_fresh(s, t.client);
    let created = Ledger { accounts: s.accounts.insert(t.client, a), records: s.records };
    if a.locked {
        created
    } else {
        match t.amount {
            Option::None => created,
            Option::Some(amt) => {
                if !fits_i128(a.available + amt@) {
                    created
                } else {
                    Ledger {
                        accounts: s.accounts.insert(
                            t.client,
                            AccountState {
                                available: a.available + amt@,
                                held: a.held,
                                locked: a.locked,
                            },
                        ),
                        records: s.records.insert(
                            t.tx,
                            TxRecord::Deposit {
                                client: t.client,
                                amount: amt@,
                                under_dispute: false,
                            },
                        ),
                    }
                }
            },
        }
    }
}

/// The ledger after processing a withdrawal that passed the duplicate
/// guard. A withdrawal rejected for insufficient funds leaves no record, so
/// the same transaction id may be presented again later.
pub open spec fn step_withdrawal(s: Ledger, t: TransactionInput) -> Ledger {
    let a = account_or_fresh(s, t.client);
    let created = Ledger { accounts: s.accounts.insert(t.client, a), records: s.records };
    if a.locked {
        created
    } else {
        match t.amount {
            Option::None => created,
            Option::Some(amt) => {
                if a.available >= amt@ && fits_i128(a.available - amt@) {
                    Ledger {
                        accounts: s.accounts.insert(
                            t.client,
                            AccountState {
                                available: a.available - amt@,
                                held: a.held,
                                locked: a.locked,
                            },
                        ),
                        records: s.records.insert(t.tx, TxRecord::Withdrawal),
                    }
                } else {
                    created
                }
            },
        }
    }
}

/// The ledger after processing a dispute: the disputed deposit's amount
/// moves from available to held, with no balance check, so available may go
/// negative by design.
pub open spec fn step_dispute(s: Ledger, t: TransactionInput) -> Ledger {
    if !s.records.contains_key(t.tx) {
        s
    } else {
        match s.records[t.tx] {
            TxRecord::Withdrawal => s,
            TxRecord::Deposit { client, amount, under_dispute } => {
                if under_dispute || client != t.client {
                    s
                } else {
                    let a = account_or_fresh(s, t.client);
                    let created = Ledger {
                        accounts: s.accounts.insert(t.client, a),
                        records: s.records,
                    };
                    if !fits_i128(a.available - amount) || !fits_i128(a.held + amount) {
                        created
                    } else {
                        Ledger {
                            accounts: s.accounts.insert(
                                t.client,
                                AccountState {
                                    available: a.available - amount,
                                    held: a.held + amount,
                                    locked: a.locked,
                                },
                            ),
                            records: s.records.insert(
                                t.tx,
                                TxRecord::Deposit { client, amount, under_dispute: true },
                            ),
                        }
                    }
                }
            },
        }
    }
}

/// The ledger after processing a resolve: the hold of an active dispute is
/// reversed and the record leaves dispute.
pub open spec fn step_resolve(s: Ledger, t: TransactionInput) -> Ledger {
    if !s.records.contains_key(t.tx) {
        s
    } else {
        match s.records[t.tx] {
            TxRecord::Withdrawal => s,
            TxRecord::Deposit { client, amount, under_dispute } => {
                if !under_dispute || client != t.client {
                    s
                } else {
                    let a = account_or_fresh(s, t.client);
                    let created = Ledger {
                        accounts: s.accounts.insert(t.client, a),
                        records: s.records,
                    };
                    if !fits_i128(a.held - amount) || !fits_i128(a.available + amount) {
                        created
                    } else {
                        Ledger {
                            accounts: s.accounts.insert(
                                t.client,
                                AccountState {
                                    available: a.available + amount,
                                    held: a.held - amount,
                                    locked: a.locked,
                                },
                            ),
                            records: s.records.insert(
                                t.tx,
                                TxRecord::Deposit { client, amount, under_dispute: false },
                            ),
                        }
                    }
                }
            },
        }
    }
}

/// The ledger after processing a chargeback: the held funds leave the
/// ledger permanently and the account is locked for good.
pub open spec fn step_chargeback(s: Ledger, t: TransactionInput) -> Ledger {
    if !s.records.contains_key(t.tx) {
        s
    } else {
        match s.records[t.tx] {
            TxRecord::Withdrawal => s,
            TxRecord::Deposit { client, amount, under_dispute } => {
                if !under_dispute || client != t.client {
                    s
                } else {
                    let a = account_or_fresh(s, t.client);
                    let created = Ledger {
                        accounts: s.accounts.insert(t.client, a),
                        records: s.records,
                    };
                    if !fits_i128(a.held - amount) {
                        created
                    } else {
                        Ledger {
                            accounts: s.accounts.insert(
                                t.client,
                                AccountState {
                                    available: a.available,
                                    held: a.held - amount,
                                    locked: true,
                                },
                            ),
                            records: s.records.insert(
                                t.tx,
                                TxRecord::Deposit { client, amount, under_dispute: false },
                            ),
                        }
                    }
                }
            },
        }
    }
}

/// Whether the duplicate guard suppresses the input: deposits and
/// withdrawals are ignored outright when a record already exists for their
/// transaction id.
pub open spec fn is_duplicate(s: Ledger, t: TransactionInput) -> bool {
    (t.kind is Deposit || t.kind is Withdrawal) && s.records.contains_key(t.tx)
}

/// The ledger after processing one transaction input: the duplicate guard,
/// then the rule for the input's kind. Every business-rule violation is a
/// silent no-op.
pub open spec fn step(s: Ledger, t: TransactionInput) -> Ledger {
    if is_duplicate(s, t) {
        s
    } else {
        match t.kind {
            TransactionType::Deposit => step_deposit(s, t),
            TransactionType::Withdrawal => step_withdrawal(s, t),
            TransactionType::Dispute => step_dispute(s, t),
            TransactionType::Resolve => step_resolve(s, t),
            TransactionType::Chargeback => step_chargeback(s, t),
        }
    }
}

/// Well-formedness of a ledger: every balance and every recorded amount is
/// representable as an `i128` unit count. Every ledger an `Engine` reaches
/// is well-formed.
pub open spec fn wf(s: Ledger) -> bool {
    &&& forall|c: u16| #[trigger]
        s.accounts.contains_key(c) ==> fits_i128(s.accounts[c].available) && fits_i128(
            s.accounts[c].held,
        )
    &&& forall|x: u32| #[trigger]
        s.records.contains_key(x) ==> (s.records[x] matches TxRecord::Deposit {
            amount,
            ..
        } ==> fits_i128(amount))
}

/// The transaction processor and its ledger store: account state per client
/// and the history of accepted deposits and withdrawals.
pub struct Engine {
    accounts: HashMap<u16, Account>,
    transactions: HashMap<u32, Transaction>,
}

impl View for Engine {
    type V = Ledger;

    closed spec fn view(&self) -> Ledger {
        Ledger { accounts: abs_accounts(self.accounts@), records: abs_records(self.transactions@) }
    }
}

proof fn lemma_abs_accounts_insert(m: Map<u16, Account>, c: u16, a: Account)
    ensures
        abs_accounts(m.insert(c, a)) == abs_accounts(m).insert(c, abs_account(a)),
{
    assert(abs_accounts(m.insert(c, a)) =~= abs_accounts(m).insert(c, abs_account(a)));
}

proof fn lemma_abs_wf(a: Map<u16, Account>, t: Map<u32, Transaction>)
    ensures
        wf(Ledger { accounts: abs_accounts(a), records: abs_records(t) }),
{
}

proof fn lemma_abs_records_insert(m: Map<u32, Transaction>, x: u32, t: Transaction)
    ensures
        abs_records(m.insert(x, t)) == abs_records(m).insert(x, abs_record(t)),
{
    assert(abs_records(m.insert(x, t)) =~= abs_records(m).insert(x, abs_record(t)));
}

impl Engine {
    /// A processor over an empty ledger: no accounts, no records.
    pub fn new() -> (r: Engine)
        ensures
            r@.accounts == Map::<u16, AccountState>::empty(),
            r@.records == Map::<u32, TxRecord>::empty(),
            wf(r@),
    {
        let r = Engine { accounts: HashMap::new(), transactions: HashMap::new() };
        proof {
            assert(r@.accounts =~= Map::<u16, AccountState>::empty());
            assert(r@.records =~= Map::<u32, TxRecord>::empty());
            lemma_abs_wf(r.accounts@, r.transactions@);
        }
        r
    }

    /// The full account map, for final reporting.
    pub fn get_accounts(&self) -> (m: &HashMap<u16, Account>)
        ensures
            abs_accounts(m@) == self@.accounts,
    {
        &self.accounts
    }

    /// Whether the duplicate guard suppresses this input.
    fn is_duplicated(&self, transaction: &TransactionInput) -> (r: bool)
        ensures
            r == is_duplicate(self@, *transaction),
    {
        let is_credit_or_debit = match transaction.kind {
            TransactionType::Deposit => true,
            TransactionType::Withdrawal => true,
            _ => false,
        };
        is_credit_or_debit && self.transactions.contains_key(&transaction.tx)
    }

    /// Processes one transaction input in arrival order. There is no return
    /// value: every outcome, including the silent refusal of an invalid
    /// operation, is observable only in the ledger afterwards, which is
    /// exactly the state `step` gives.
    pub fn process(&mut self, transaction: TransactionInput)
        ensures
            final(self)@ == step(old(self)@, transaction),
            wf(final(self)@),
    {
        if self.is_duplicated(&transaction) {
            proof {
                lemma_abs_wf(self.accounts@, self.transactions@);
            }
            return ;
        }
        match transaction.kind {
            TransactionType::Deposit => self.handle_deposit(transaction),
            TransactionType::Withdrawal => self.handle_withdrawal(transaction),
            TransactionType::Dispute => self.handle_dispute(transaction),
            TransactionType::Resolve => self.handle_resolve(transaction),
            TransactionType::Chargeback => self.handle_chargeback(transaction),
        }
        proof {
            lemma_abs_wf(self.accounts@, self.transactions@);
        }
    }

    /// The account of `client`, or a zeroed one when none exists yet.
    fn account_or_new(&self, client: u16) -> (a: Account)
        ensures
            abs_account(a) == account_or_fresh(self@, client),
    {
        match self.accounts.get(&client) {
            Some(a) => *a,
            None => Account::new(),
        }
    }

    /// The stored deposit record for `tx`, or `None` when no record exists
    /// or the record is a withdrawal marker.
    fn find_deposit(&self, tx: u32) -> (r: Option<Deposit>)
        ensures
            match r {
                Some(d) => self@.records.contains_key(tx) && self@.records[tx]
                    == (TxRecord::Deposit {
                    client: d.client_id,
                    amount: d.amount@,
                    under_dispute: d.under_dispute,
                }),
                None => self@.records.contains_key(tx) ==> self@.records[tx] is Withdrawal,
            },
    {
        match self.transactions.get(&tx) {
            Some(Transaction::Deposit(d)) => Some(*d),
            _ => None,
        }
    }

    fn handle_deposit(&mut self, transaction: TransactionInput)
        ensures
            final(self)@ == step_deposit(old(self)@, transaction),
    {
        let account = self.account_or_new(transaction.client);
        self.accounts.insert(transaction.client, account);
        proof {
            lemma_abs_accounts_insert(old(self).accounts@, transaction.client, account);
            assert(self@ =~= (Ledger {
                accounts: old(self)@.accounts.insert(transaction.client, abs_account(account)),
                records: old(self)@.records,
            }));
        }
        if account.locked {
            return ;
        }
        let deposit = match Deposit::try_new(&transaction) {
            Some(d) => d,
            None => {
                return ;
            },
        };
        let new_available = match account.available.checked_add(deposit.amount) {
            Some(v) => v,
            None => {
                return ;
            },
        };
        let updated = Account { available: new_available, held: account.held, locked: account.locked };
        self.accounts.insert(transaction.client, updated);
        self.transactions.insert(deposit.tx, Transaction::Deposit(deposit));
        proof {
            lemma_abs_accounts_insert(
                old(self).accounts@.insert(transaction.client, account),
                transaction.client,
                updated,
            );
            lemma_abs_records_insert(
                old(self).transactions@,
                deposit.tx,
                Transaction::Deposit(deposit),
            );
            assert(self@.accounts =~= step_deposit(old(self)@, transaction).accounts);
            assert(self@ =~= step_deposit(old(self)@, transaction));
        }
    }

    fn handle_withdrawal(&mut self, transaction: TransactionInput)
        ensures
            final(self)@ == step_withdrawal(old(self)@, transaction),
    {
        let account = self.account_or_new(transaction.client);
        self.accounts.insert(transaction.client, account);
        proof {
            lemma_abs_accounts_insert(old(self).accounts@, transaction.client, account);
            assert(self@ =~= (Ledger {
                accounts: old(self)@.accounts.insert(transaction.client, abs_account(account)),
                records: old(self)@.records,
            }));
        }
        if account.locked {
            return ;
        }
        let amount = match transaction.amount {
            Some(a) => a,
            None => {
                return ;
            },
        };
        if !account.available.ge(amount) {
            return ;
        }
        let new_available = match account.available.checked_sub(amount) {
            Some(v) => v,
            None => {
                return ;
            },
        };
        let updated = Account { available: new_available, held: account.held, locked: account.locked };
        self.accounts.insert(transaction.client, updated);
        self.transactions.insert(transaction.tx, Transaction::Withdrawal);
        proof {
            lemma_abs_accounts_insert(
                old(self).accounts@.insert(transaction.client, account),
                transaction.client,
                updated,
            );
            lemma_abs_records_insert(
                old(self).transactions@,
                transaction.tx,
                Transaction::Withdrawal,
            );
            assert(self@.accounts =~= step_withdrawal(old(self)@, transaction).accounts);
            assert(self@ =~= step_withdrawal(old(self)@, transaction));
        }
    }

    fn handle_dispute(&mut self, transaction: TransactionInput)
        ensures
            final(self)@ == step_dispute(old(self)@, transaction),
    {
        let deposit = match self.find_deposit(transaction.tx) {
            Some(d) => d,
            None => {
                return ;
            },
        };
        if deposit.under_dispute || deposit.client_id != transaction.client {
            return ;
        }
        let account = self.account_or_new(transaction.client);
        self.accounts.insert(transaction.client, account);
        proof {
            lemma_abs_accounts_insert(old(self).accounts@, transaction.client, account);
            assert(self@ =~= (Ledger {
                accounts: old(self)@.accounts.insert(transaction.client, abs_account(account)),
                records: old(self)@.records,
            }));
        }
        let new_available = match account.available.checked_sub(deposit.amount) {
            Some(v) => v,
            None => {
                return ;
            },
        };
        let new_held = match account.held.checked_add(deposit.amount) {
            Some(v) => v,
            None => {
                return ;
            },
        };
        let updated = Account { available: new_available, held: new_held, locked: account.locked };
        self.accounts.insert(transaction.client, updated);
        let marked = Deposit {
            tx: deposit.tx,
            client_id: deposit.client_id,
            amount: deposit.amount,
            under_dispute: true,
        };
        self.transactions.insert(transaction.tx, Transaction::Deposit(marked));
        proof {
            lemma_abs_accounts_insert(
                old(self).accounts@.insert(transaction.client, account),
                transaction.client,
                updated,
            );
            lemma_abs_records_insert(
                old(self).transactions@,
                transaction.tx,
                Transaction::Deposit(marked),
            );
            assert(self@.accounts =~= step_dispute(old(self)@, transaction).accounts);
            assert(self@ =~= step_dispute(old(self)@, transaction));
        }
    }

    fn handle_resolve(&mut self, transaction: TransactionInput)
        ensures
            final(self)@ == step_resolve(old(self)@, transaction),
    {
        let deposit = match self.find_deposit(transaction.tx) {
            Some(d) => d,
            None => {
                return ;
            },
        };
        if !deposit.under_dispute || deposit.client_id != transaction.client {
            return ;
        }
        let account = self.account_or_new(transaction.client);
        self.accounts.insert(transaction.client, account);
        proof {
            lemma_abs_accounts_insert(old(self).accounts@, transaction.client, account);
            assert(self@ =~= (Ledger {
                accounts: old(self)@.accounts.insert(transaction.client, abs_account(account)),
                records: old(self)@.records,
            }));
        }
        let new_held = match account.held.checked_sub(deposit.amount) {
            Some(v) => v,
            None => {
                return ;
            },
        };
        let new_available = match account.available.checked_add(deposit.amount) {
            Some(v) => v,
            None => {
                return ;
            },
        };
        let updated = Account { available: new_available, held: new_held, locked: account.locked };
        self.accounts.insert(transaction.client, updated);
        let cleared = Deposit {
            tx: deposit.tx,
            client_id: deposit.client_id,
            amount: deposit.amount,
            under_dispute: false,
        };
        self.transactions.insert(transaction.tx, Transaction::Deposit(cleared));
        proof {
            lemma_abs_accounts_insert(
                old(self).accounts@.insert(transaction.client, account),
                transaction.client,
                updated,
            );
            lemma_abs_records_insert(
                old(self).transactions@,
                transaction.tx,
                Transaction::Deposit(cleared),
            );
            assert(self@.accounts =~= step_resolve(old(self)@, transaction).accounts);
            assert(self@ =~= step_resolve(old(self)@, transaction));
        }
    }

    fn handle_chargeback(&mut self, transaction: TransactionInput)
        ensures
            final(self)@ == step_chargeback(old(self)@, transaction),
    {
        let deposit = match self.find_deposit(transaction.tx) {
            Some(d) => d,
            None => {
                return ;
            },
        };
        if !deposit.under_dispute || deposit.client_id != transaction.client {
            return ;
        }
        let account = self.account_or_new(transaction.client);
        self.accounts.insert(transaction.client, account);
        proof {
            lemma_abs_accounts_insert(old(self).accounts@, transaction.client, account);
            assert(self@ =~= (Ledger {
                accounts: old(self)@.accounts.insert(transaction.client, abs_account(account)),
                records: old(self)@.records,
            }));
        }
        let new_held = match account.held.checked_sub(deposit.amount) {
            Some(v) => v,
            None => {
                return ;
            },
        };
        let updated = Account { available: account.available, held: new_held, locked: true };
        self.accounts.insert(transaction.client, updated);
        let cleared = Deposit {
            tx: deposit.tx,
            client_id: deposit.client_id,
            amount: deposit.amount,
            under_dispute: false,
        };
        self.transactions.insert(transaction.tx, Transaction::Deposit(cleared));
        proof {
            lemma_abs_accounts_insert(
                old(self).accounts@.insert(transaction.client, account),
                transaction.client,
                updated,
            );
            lemma_abs_records_insert(
                old(self).transactions@,
                transaction.tx,
                Transaction::Deposit(cleared),
            );
            assert(self@.accounts =~= step_chargeback(old(self)@, transaction).accounts);
            assert(self@ =~= step_chargeback(old(self)@, transaction));
        }
    }
}

} // verus!
