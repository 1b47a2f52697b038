use crate::amount::Amount;
use crate::error::PaymentEngineError;
use crate::models::{
    account_of, disputed_in, flagged, ledger_consistent, order_after, recorded, snapshot, Account,
    AccountStore, JournalEntry, Transaction, TransactionStore, TransactionType,
};
use vstd::prelude::*;

verus! {

/// What the engine holds: the accounts, the order they were opened in, and the journal.
pub struct EngineState {
    pub accounts: Map<u16, Account>,
    pub order: Seq<u16>,
    pub journal: Map<u32, JournalEntry>,
}

/// The state before any record.
pub open spec fn empty_state() -> EngineState {
    EngineState {
        accounts: Map::empty(),
        order: Seq::empty(),
        journal: Map::empty(),
    }
}

/// An amount a deposit or a withdrawal may carry: a valid decimal, not negative.
pub open spec fn acceptable(a: Amount) -> bool {
    a.wf() && a@ >= 0
}

/// A journal entry as the engine writes it: an accepted deposit or withdrawal under its own id.
pub open spec fn entry_wf(tx_id: u32, e: JournalEntry) -> bool {
    &&& e.transaction.tx == tx_id
    &&& (e.transaction.transaction_type == TransactionType::Deposit
        || e.transaction.transaction_type == TransactionType::Withdrawal)
    &&& e.transaction.amount matches Some(a) && acceptable(a)
}

/// The invariant of the engine: the store is consistent, every account keeps the ledger
/// invariant, and every journal entry is an accepted deposit or withdrawal.
pub open spec fn state_wf(s: EngineState) -> bool {
    &&& ledger_consistent(s.accounts, s.order)
    &&& forall|c: u16| #[trigger] s.accounts.contains_key(c) ==> s.accounts[c].wf()
    &&& forall|k: u32| #[trigger] s.journal.contains_key(k) ==> entry_wf(k, s.journal[k])
}

/// The state once the account of `client` exists.
pub open spec fn opened(s: EngineState, client: u16) -> EngineState {
    EngineState {
        accounts: s.accounts.insert(client, account_of(s.accounts, client)),
        order: order_after(s.accounts, s.order, client),
        journal: s.journal,
    }
}

/// The state with the account of `client` replaced by the outcome of an operation on it.
pub open spec fn with_account(s: EngineState, client: u16, r: Option<Account>) -> EngineState {
    match r {
        Some(a) => EngineState { accounts: s.accounts.insert(client, a), ..s },
        None => s,
    }
}

pub open spec fn ok_with(s: EngineState) -> (EngineState, Result<(), PaymentEngineError>) {
    (s, Ok(()))
}

/// A deposit, once its account is open.
pub open spec fn deposit_step(s: EngineState, t: Transaction) -> (
    EngineState,
    Result<(), PaymentEngineError>,
) {
    match t.amount {
        None => (s, Err(PaymentEngineError::MissingAmount(t.tx))),
        Some(amount) => if !acceptable(amount) {
            ok_with(s)
        } else {
            match s.accounts[t.client].spec_deposit(amount) {
                Some(a) => ok_with(
                    EngineState {
                        accounts: s.accounts.insert(t.client, a),
                        journal: recorded(s.journal, t),
                        ..s
                    },
                ),
                None => ok_with(s),
            }
        },
    }
}

/// A withdrawal, once its account is open.
pub open spec fn withdrawal_step(s: EngineState, t: Transaction) -> (
    EngineState,
    Result<(), PaymentEngineError>,
) {
    match t.amount {
        None => (s, Err(PaymentEngineError::MissingAmount(t.tx))),
        Some(amount) => if !acceptable(amount) {
            ok_with(s)
        } else {
            match s.accounts[t.client].spec_withdraw(amount) {
                Some(a) => ok_with(
                    EngineState {
                        accounts: s.accounts.insert(t.client, a),
                        journal: recorded(s.journal, t),
                        ..s
                    },
                ),
                None => ok_with(s),
            }
        },
    }
}

/// Whether `t` refers to a recorded transaction of the same client.
pub open spec fn refers_to_own(s: EngineState, t: Transaction) -> bool {
    s.journal.contains_key(t.tx) && s.journal[t.tx].transaction.client == t.client
}

/// A dispute, once its account is open: the referenced deposit's amount goes on hold.
pub open spec fn dispute_step(s: EngineState, t: Transaction) -> (
    EngineState,
    Result<(), PaymentEngineError>,
) {
    if !refers_to_own(s, t) || s.journal[t.tx].transaction.transaction_type
        != TransactionType::Deposit || s.journal[t.tx].disputed {
        ok_with(s)
    } else {
        match s.journal[t.tx].transaction.amount {
            None => (s, Err(PaymentEngineError::MissingAmount(t.tx))),
            Some(amount) => match s.accounts[t.client].spec_hold(amount) {
                Some(a) => ok_with(
                    EngineState {
                        accounts: s.accounts.insert(t.client, a),
                        journal: flagged(s.journal, t.tx, true),
                        ..s
                    },
                ),
                None => ok_with(s),
            },
        }
    }
}

/// A resolve, once its account is open: the held amount of a disputed transaction is released.
pub open spec fn resolve_step(s: EngineState, t: Transaction) -> (
    EngineState,
    Result<(), PaymentEngineError>,
) {
    if !refers_to_own(s, t) || !s.journal[t.tx].disputed {
        ok_with(s)
    } else {
        match s.journal[t.tx].transaction.amount {
            None => (s, Err(PaymentEngineError::MissingAmount(t.tx))),
            Some(amount) => match s.accounts[t.client].spec_release(amount) {
                Some(a) => ok_with(
                    EngineState {
                        accounts: s.accounts.insert(t.client, a),
                        journal: flagged(s.journal, t.tx, false),
                        ..s
                    },
                ),
                None => ok_with(s),
            },
        }
    }
}

/// A chargeback, once its account is open: the held amount of a disputed transaction leaves
/// the account, which is locked.
pub open spec fn chargeback_step(s: EngineState, t: Transaction) -> (
    EngineState,
    Result<(), PaymentEngineError>,
) {
    if !refers_to_own(s, t) || !s.journal[t.tx].disputed {
        ok_with(s)
    } else {
        match s.journal[t.tx].transaction.amount {
            None => (s, Err(PaymentEngineError::MissingAmount(t.tx))),
            Some(amount) => match s.accounts[t.client].spec_chargeback(amount) {
                Some(a) => ok_with(
                    EngineState {
                        accounts: s.accounts.insert(t.client, a),
                        journal: flagged(s.journal, t.tx, false),
                        ..s
                    },
                ),
                None => ok_with(s),
            },
        }
    }
}

/// One record: open the client's account, drop the record if that account is locked and the
/// record is not a dispute, else hand it to the handler of its kind.
pub open spec fn step(s: EngineState, t: Transaction) -> (
    EngineState,
    Result<(), PaymentEngineError>,
) {
    let o = opened(s, t.client);
    if o.accounts[t.client].locked && t.transaction_type != TransactionType::Dispute {
        ok_with(o)
    } else {
        match t.transaction_type {
            TransactionType::Deposit => deposit_step(o, t),
            TransactionType::Withdrawal => withdrawal_step(o, t),
            TransactionType::Dispute => dispute_step(o, t),
            TransactionType::Resolve => resolve_step(o, t),
            TransactionType::Chargeback => chargeback_step(o, t),
        }
    }
}

/// The state after the records `ts`, in order, starting from `s`.
pub open spec fn run(s: EngineState, ts: Seq<Transaction>) -> EngineState
    decreases ts.len(),
{
    if ts.len() == 0 {
        s
    } else {
        step(run(s, ts.drop_last()), ts.last()).0
    }
}

/// The engine: accounts and journal, updated one record at a time.
pub struct PaymentEngine {
    accounts: AccountStore,
    transactions: TransactionStore,
}

impl View for PaymentEngine {
    type V = EngineState;

    closed spec fn view(&self) -> EngineState {
        EngineState {
            accounts: self.accounts@,
            order: self.accounts.order(),
            journal: self.transactions@,
        }
    }
}

impl PaymentEngine {
    pub open spec fn wf(&self) -> bool {
        state_wf(self@)
    }

    pub fn new() -> (r: PaymentEngine)
        ensures
            r@ == empty_state(),
            r.wf(),
    {
        let r = PaymentEngine { accounts: AccountStore::new(), transactions: TransactionStore::new() };
        assert(r@.accounts =~= empty_state().accounts);
        assert(r@.journal =~= empty_state().journal);
        r
    }

    /// Applies one record: see `step`. Every rejection leaves the state as it was (but for the
    /// client's account being opened); a record that lacks a needed amount gives
    /// `MissingAmount`.
    pub fn process_transaction(&mut self, transaction: Transaction) -> (r: Result<
        (),
        PaymentEngineError,
    >)
        requires
            old(self).wf(),
        ensures
            final(self).wf(),
            (final(self)@, r) == step(old(self)@, transaction),
    {
        let ghost s0 = self@;
        proof {
            lemma_opened_wf(s0, transaction.client);
        }
        let locked = {
            let account = self.accounts.get_or_create_account(transaction.client);
            account.locked
        };
        assert(self@ == opened(s0, transaction.client));
        if locked && transaction.transaction_type != TransactionType::Dispute {
            return Ok(());
        }
        match transaction.transaction_type {
            TransactionType::Deposit => self.handle_deposit(transaction),
            TransactionType::Withdrawal => self.handle_withdrawal(transaction),
            TransactionType::Dispute => self.handle_dispute(transaction),
            TransactionType::Resolve => self.handle_resolve(transaction),
            TransactionType::Chargeback => self.handle_chargeback(transaction),
        }
    }

    fn handle_deposit(&mut self, tx: Transaction) -> (r: Result<(), PaymentEngineError>)
        requires
            old(self).wf(),
            tx.transaction_type == TransactionType::Deposit,
            old(self)@.accounts.contains_key(tx.client),
        ensures
            final(self).wf(),
            (final(self)@, r) == deposit_step(old(self)@, tx),
    {
        let ghost s0 = self@;
        let amount = match tx.amount {
            Some(a) => a,
            None => return Err(PaymentEngineError::MissingAmount(tx.tx)),
        };
        if !amount.is_valid() || amount.is_negative() {
            return Ok(());
        }
        let done = {
            let account = self.accounts.get_or_create_account(tx.client);
            account.deposit(amount)
        };
        if done {
            self.transactions.add_transaction(tx);
        } else {
            assert(self@.accounts =~= s0.accounts);
        }
        Ok(())
    }

    fn handle_withdrawal(&mut self, tx: Transaction) -> (r: Result<(), PaymentEngineError>)
        requires
            old(self).wf(),
            tx.transaction_type == TransactionType::Withdrawal,
            old(self)@.accounts.contains_key(tx.client),
        ensures
            final(self).wf(),
            (final(self)@, r) == withdrawal_step(old(self)@, tx),
    {
        let ghost s0 = self@;
        let amount = match tx.amount {
            Some(a) => a,
            None => return Err(PaymentEngineError::MissingAmount(tx.tx)),
        };
        if !amount.is_valid() || amount.is_negative() {
            return Ok(());
        }
        let done = {
            let account = self.accounts.get_or_create_account(tx.client);
            account.withdraw(amount)
        };
        if done {
            self.transactions.add_transaction(tx);
        } else {
            assert(self@.accounts =~= s0.accounts);
        }
        Ok(())
    }

    fn handle_dispute(&mut self, tx: Transaction) -> (r: Result<(), PaymentEngineError>)
        requires
            old(self).wf(),
            old(self)@.accounts.contains_key(tx.client),
        ensures
            final(self).wf(),
            (final(self)@, r) == dispute_step(old(self)@, tx),
    {
        let ghost s0 = self@;
        let referenced = match self.transactions.get_transaction(tx.tx) {
            Some(t) => *t,
            None => return Ok(()),
        };
        if referenced.client != tx.client {
            return Ok(());
        }
        if referenced.transaction_type != TransactionType::Deposit {
            return Ok(());
        }
        if self.transactions.is_disputed(tx.tx) {
            return Ok(());
        }
        let amount = match referenced.amount {
            Some(a) => a,
            None => return Err(PaymentEngineError::MissingAmount(tx.tx)),
        };
        self.transactions.set_disputed(tx.tx, true);
        let held = {
            let account = self.accounts.get_or_create_account(tx.client);
            account.hold(amount)
        };
        if !held {
            self.transactions.set_disputed(tx.tx, false);
            assert(self@.accounts =~= s0.accounts);
            assert(self@.journal =~= s0.journal);
        }
        Ok(())
    }

    fn handle_resolve(&mut self, tx: Transaction) -> (r: Result<(), PaymentEngineError>)
        requires
            old(self).wf(),
            old(self)@.accounts.contains_key(tx.client),
        ensures
            final(self).wf(),
            (final(self)@, r) == resolve_step(old(self)@, tx),
    {
        let ghost s0 = self@;
        let referenced = match self.transactions.get_transaction(tx.tx) {
            Some(t) => *t,
            None => return Ok(()),
        };
        if referenced.client != tx.client {
            return Ok(());
        }
        if !self.transactions.is_disputed(tx.tx) {
            return Ok(());
        }
        let amount = match referenced.amount {
            Some(a) => a,
            None => return Err(PaymentEngineError::MissingAmount(tx.tx)),
        };
        let released = {
            let account = self.accounts.get_or_create_account(tx.client);
            account.release(amount)
        };
        if released {
            self.transactions.set_disputed(tx.tx, false);
        } else {
            assert(self@.accounts =~= s0.accounts);
        }
        Ok(())
    }

    fn handle_chargeback(&mut self, tx: Transaction) -> (r: Result<(), PaymentEngineError>)
        requires
            old(self).wf(),
            old(self)@.accounts.contains_key(tx.client),
        ensures
            final(self).wf(),
            (final(self)@, r) == chargeback_step(old(self)@, tx),
    {
        let ghost s0 = self@;
        let referenced = match self.transactions.get_transaction(tx.tx) {
            Some(t) => *t,
            None => return Ok(()),
        };
        if referenced.client != tx.client {
            return Ok(());
        }
        if !self.transactions.is_disputed(tx.tx) {
            return Ok(());
        }
        let amount = match referenced.amount {
            Some(a) => a,
            None => return Err(PaymentEngineError::MissingAmount(tx.tx)),
        };
        let charged = {
            let account = self.accounts.get_or_create_account(tx.client);
            account.chargeback(amount)
        };
        if charged {
            self.transactions.set_disputed(tx.tx, false);
        } else {
            assert(self@.accounts =~= s0.accounts);
        }
        Ok(())
    }

    /// Applies the records of a batch in order, isolating each record's failure, and leaves
    /// the batch empty.
    pub fn process_transaction_batch(&mut self, transactions: &mut Vec<Transaction>) -> (r: Result<
        (),
        PaymentEngineError,
    >)
        requires
            old(self).wf(),
        ensures
            final(self).wf(),
            final(self)@ == run(old(self)@, old(transactions)@),
            final(transactions)@ == Seq::<Transaction>::empty(),
            r is Ok,
    {
        let ghost s0 = self@;
        let mut i: usize = 0;
        while i < transactions.len()
            invariant
                self.wf(),
                i <= transactions@.len(),
                transactions@ == old(transactions)@,
                self@ == run(s0, transactions@.take(i as int)),
            decreases transactions@.len() - i,
        {
            let t = transactions[i];
            let _ = self.process_transaction(t);
            proof {
                let next = transactions@.take(i + 1);
                assert(next.drop_last() == transactions@.take(i as int));
                assert(next.last() == t);
            }
            i = i + 1;
        }
        assert(transactions@.take(i as int) == transactions@);
        transactions.clear();
        Ok(())
    }

    /// Every account, in the order the accounts were opened.
    pub fn get_accounts(&self) -> (r: Vec<Account>)
        requires
            self.wf(),
        ensures
            r@ == snapshot(self@.accounts, self@.order),
    {
        self.accounts.get_all_accounts()
    }
}

/// Opening an account keeps the engine's invariant.
pub proof fn lemma_opened_wf(s: EngineState, client: u16)
    requires
        state_wf(s),
    ensures
        state_wf(opened(s, client)),
        opened(s, client).accounts.contains_key(client),
{
    crate::models::lemma_open_account(s.accounts, s.order, client);
    let a = account_of(s.accounts, client);
    assert(s.accounts.insert(client, a) == opened(s, client).accounts);
    assert(a.wf()) by {
        if !s.accounts.contains_key(client) {
            assert(a.available@ == 0);
            assert(a.held@ == 0);
            assert(a.total@ == 0);
        }
    }
}

/// Every record leaves the engine's invariant in place: each account keeps
/// `total == available + held` with no balance negative.
pub proof fn lemma_step_keeps_invariant(s: EngineState, t: Transaction)
    requires
        state_wf(s),
    ensures
        state_wf(step(s, t).0),
{
    lemma_opened_wf(s, t.client);
    let o = opened(s, t.client);
    let a = o.accounts[t.client];
    if !(a.locked && t.transaction_type != TransactionType::Dispute) {
        let amount = match t.transaction_type {
            TransactionType::Deposit | TransactionType::Withdrawal => t.amount,
            _ => if o.journal.contains_key(t.tx) {
                o.journal[t.tx].transaction.amount
            } else {
                None
            },
        };
        if let Some(amount) = amount {
            if acceptable(amount) {
                crate::models::lemma_operations_keep_invariant(a, amount);
            }
        }
        let n = step(s, t).0;
        assert forall|k: u32| #[trigger] n.journal.contains_key(k) implies entry_wf(
            k,
            n.journal[k],
        ) by {
            assert(o.journal.contains_key(k) || k == t.tx);
        }
        assert forall|c: u16| #[trigger] n.accounts.contains_key(c) implies n.accounts[c].wf() by {
            assert(o.accounts.contains_key(c));
        }
        crate::models::lemma_open_account(s.accounts, s.order, t.client);
        assert(n.accounts == o.accounts.insert(t.client, n.accounts[t.client]));
    }
}

/// The invariant holds after any sequence of records.
pub proof fn lemma_run_keeps_invariant(s: EngineState, ts: Seq<Transaction>)
    requires
        state_wf(s),
    ensures
        state_wf(run(s, ts)),
    decreases ts.len(),
{
    if ts.len() > 0 {
        lemma_run_keeps_invariant(s, ts.drop_last());
        lemma_step_keeps_invariant(run(s, ts.drop_last()), ts.last());
    }
}

/// A record changes no account but its own client's, and opens no other.
pub proof fn lemma_step_isolates_clients(s: EngineState, t: Transaction, c: u16)
    requires
        c != t.client,
    ensures
        step(s, t).0.accounts.contains_key(c) == s.accounts.contains_key(c),
        s.accounts.contains_key(c) ==> step(s, t).0.accounts[c] == s.accounts[c],
{
}

/// Records of other clients, however many, leave a client's account as it was.
pub proof fn lemma_run_isolates_client(s: EngineState, ts: Seq<Transaction>, c: u16)
    requires
        forall|i: int| 0 <= i < ts.len() ==> (#[trigger] ts[i]).client != c,
    ensures
        run(s, ts).accounts.contains_key(c) == s.accounts.contains_key(c),
        s.accounts.contains_key(c) ==> run(s, ts).accounts[c] == s.accounts[c],
    decreases ts.len(),
{
    if ts.len() > 0 {
        let rest = ts.drop_last();
        assert forall|i: int| 0 <= i < rest.len() implies (#[trigger] rest[i]).client != c by {
            assert(rest[i] == ts[i]);
        }
        lemma_run_isolates_client(s, rest, c);
        assert(ts.last() == ts[ts.len() - 1]);
        lemma_step_isolates_clients(run(s, rest), ts.last(), c);
    }
}

/// A locked account never changes again: it stays locked, and no record, a dispute included,
/// moves any of its funds.
pub proof fn lemma_locked_account_is_frozen(s: EngineState, t: Transaction, c: u16)
    requires
        s.accounts.contains_key(c),
        s.accounts[c].locked,
    ensures
        step(s, t).0.accounts.contains_key(c),
        step(s, t).0.accounts[c] == s.accounts[c],
{
    if t.client != c {
        lemma_step_isolates_clients(s, t, c);
    }
}

/// Once locked, an account stays exactly as it is through any later records.
pub proof fn lemma_run_keeps_locked_account(s: EngineState, ts: Seq<Transaction>, c: u16)
    requires
        s.accounts.contains_key(c),
        s.accounts[c].locked,
    ensures
        run(s, ts).accounts.contains_key(c),
        run(s, ts).accounts[c] == s.accounts[c],
    decreases ts.len(),
{
    if ts.len() > 0 {
        lemma_run_keeps_locked_account(s, ts.drop_last(), c);
        lemma_locked_account_is_frozen(run(s, ts.drop_last()), ts.last(), c);
    }
}

/// The records the engine turns down: a withdrawal beyond the available funds; a dispute,
/// resolve or chargeback that names an unknown transaction or another client's; a resolve or
/// chargeback of a transaction not under dispute, or a dispute of one already under dispute; and
/// any record but a dispute on a locked account.
pub open spec fn turned_down(s: EngineState, t: Transaction) -> bool {
    let a = account_of(s.accounts, t.client);
    let lifecycle = t.transaction_type != TransactionType::Deposit && t.transaction_type
        != TransactionType::Withdrawal;
    ||| (t.transaction_type == TransactionType::Withdrawal && (t.amount matches Some(x) && x@
        > a.available@))
    ||| (lifecycle && !refers_to_own(s, t))
    ||| ((t.transaction_type == TransactionType::Resolve || t.transaction_type
        == TransactionType::Chargeback) && !disputed_in(s.journal, t.tx))
    ||| (t.transaction_type == TransactionType::Dispute && disputed_in(s.journal, t.tx))
    ||| (a.locked && t.transaction_type != TransactionType::Dispute)
}

/// A record that is turned down changes no balance and no dispute flag, and is no error: the
/// only trace it leaves is its client's account, opened if it was new.
pub proof fn lemma_turned_down_changes_nothing(s: EngineState, t: Transaction)
    requires
        turned_down(s, t),
    ensures
        step(s, t) == ok_with(opened(s, t.client)),
        step(s, t).0.accounts[t.client] == account_of(s.accounts, t.client),
{
}

/// Whether `second` names the same client and transaction as `first`.
pub open spec fn same_target(first: Transaction, second: Transaction) -> bool {
    first.client == second.client && first.tx == second.tx
}

/// A dispute that takes effect, followed by a resolve of the same transaction that takes
/// effect, leaves the client's balances and lock as they were before the dispute.
pub proof fn lemma_dispute_then_resolve(s: EngineState, d: Transaction, r: Transaction)
    requires
        state_wf(s),
        d.transaction_type == TransactionType::Dispute,
        r.transaction_type == TransactionType::Resolve,
        same_target(d, r),
        !disputed_in(s.journal, d.tx),
        disputed_in(step(s, d).0.journal, d.tx),
        !disputed_in(step(step(s, d).0, r).0.journal, d.tx),
    ensures
        ({
            let before = account_of(s.accounts, d.client);
            let after = step(step(s, d).0, r).0.accounts[d.client];
            &&& after.available@ == before.available@
            &&& after.held@ == before.held@
            &&& after.total@ == before.total@
            &&& after.locked == before.locked
        }),
{
    lemma_opened_wf(s, d.client);
    let s1 = step(s, d).0;
    lemma_step_keeps_invariant(s, d);
    let o = opened(s, d.client);
    let a = o.accounts[d.client];
    let amount = o.journal[d.tx].transaction.amount->0;
    crate::models::lemma_operations_keep_invariant(a, amount);
    crate::amount::lemma_added(a.held, amount);
    crate::amount::lemma_subtracted(a.available, amount);
    let a1 = s1.accounts[d.client];
    lemma_opened_wf(s1, r.client);
    crate::amount::lemma_added(a1.available, amount);
    crate::amount::lemma_subtracted(a1.held, amount);
}

/// A dispute that takes effect, followed by a chargeback of the same transaction that takes
/// effect, takes the disputed amount out of the total, leaves the held funds as they were
/// before the dispute, and locks the account.
pub proof fn lemma_dispute_then_chargeback(s: EngineState, d: Transaction, c: Transaction)
    requires
        state_wf(s),
        d.transaction_type == TransactionType::Dispute,
        c.transaction_type == TransactionType::Chargeback,
        same_target(d, c),
        !disputed_in(s.journal, d.tx),
        disputed_in(step(s, d).0.journal, d.tx),
        !disputed_in(step(step(s, d).0, c).0.journal, d.tx),
    ensures
        ({
            let before = account_of(s.accounts, d.client);
            let amount = s.journal[d.tx].transaction.amount->0;
            let after = step(step(s, d).0, c).0.accounts[d.client];
            &&& after.available@ == before.available@ - amount@
            &&& after.held@ == before.held@
            &&& after.total@ == before.total@ - amount@
            &&& after.locked
        }),
{
    lemma_opened_wf(s, d.client);
    let s1 = step(s, d).0;
    lemma_step_keeps_invariant(s, d);
    let o = opened(s, d.client);
    let a = o.accounts[d.client];
    let amount = o.journal[d.tx].transaction.amount->0;
    crate::models::lemma_operations_keep_invariant(a, amount);
    crate::amount::lemma_added(a.held, amount);
    crate::amount::lemma_subtracted(a.available, amount);
    let a1 = s1.accounts[d.client];
    lemma_opened_wf(s1, c.client);
    crate::amount::lemma_subtracted(a1.total, amount);
    crate::amount::lemma_subtracted(a1.held, amount);
}

} // verus!
