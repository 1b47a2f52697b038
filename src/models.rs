use crate::amount::{added, lemma_added, lemma_subtracted, rounded, subtracted, Amount, MAX_SCALE};
use std::collections::HashMap;
use vstd::prelude::*;

verus! {

broadcast use vstd::std_specs::hash::group_hash_axioms;

/// The five kinds of record.
#[derive(Clone, Copy, Debug, PartialEq, Eq, Structural)]
pub enum TransactionType {
    Deposit,
    Withdrawal,
    Dispute,
    Resolve,
    Chargeback,
}

/// One input record. `tx` is the record's own id for a deposit or a withdrawal, and the id of
/// the record it refers to for a dispute, a resolve or a chargeback.
#[derive(Clone, Copy, Debug, PartialEq)]
pub struct Transaction {
    pub transaction_type: TransactionType,
    pub client: u16,
    pub tx: u32,
    pub amount: Option<Amount>,
}

/// A client's balances.
#[derive(Clone, Copy, Debug)]
pub struct Account {
    pub client: u16,
    pub available: Amount,
    pub held: Amount,
    pub total: Amount,
    pub locked: bool,
}

/// The account a client starts with: all balances zero, unlocked.
pub open spec fn initial_account(client: u16) -> Account {
    Account {
        client,
        available: Amount { mantissa: 0, scale: 0 },
        held: Amount { mantissa: 0, scale: 0 },
        total: Amount { mantissa: 0, scale: 0 },
        locked: false,
    }
}

/// The account after an operation: the new one where it applied, else the old one unchanged.
pub open spec fn outcome(a: Account, r: Option<Account>) -> Account {
    match r {
        Some(n) => n,
        None => a,
    }
}

impl Account {
    /// The ledger invariant: `total == available + held`, none of them negative.
    pub open spec fn wf(self) -> bool {
        &&& self.available.wf()
        &&& self.held.wf()
        &&& self.total.wf()
        &&& self.available@ >= 0
        &&& self.held@ >= 0
        &&& self.total@ == self.available@ + self.held@
    }

    /// `available += amount; total += amount`, unless locked.
    pub open spec fn spec_deposit(self, amount: Amount) -> Option<Account> {
        if self.locked {
            None
        } else {
            match (added(self.available, amount), added(self.total, amount)) {
                (Some(available), Some(total)) => Some(Account { available, total, ..self }),
                _ => None,
            }
        }
    }

    /// `available -= amount; total -= amount`, unless locked or short of available funds.
    pub open spec fn spec_withdraw(self, amount: Amount) -> Option<Account> {
        if self.locked || self.available@ < amount@ {
            None
        } else {
            match (subtracted(self.available, amount), subtracted(self.total, amount)) {
                (Some(available), Some(total)) => Some(Account { available, total, ..self }),
                _ => None,
            }
        }
    }

    /// `available -= amount; held += amount`, unless locked or short of available funds.
    pub open spec fn spec_hold(self, amount: Amount) -> Option<Account> {
        if self.locked || self.available@ < amount@ {
            None
        } else {
            match (subtracted(self.available, amount), added(self.held, amount)) {
                (Some(available), Some(held)) => Some(Account { available, held, ..self }),
                _ => None,
            }
        }
    }

    /// `held -= amount; available += amount`, unless locked or short of held funds.
    pub open spec fn spec_release(self, amount: Amount) -> Option<Account> {
        if self.locked || self.held@ < amount@ {
            None
        } else {
            match (subtracted(self.held, amount), added(self.available, amount)) {
                (Some(held), Some(available)) => Some(Account { available, held, ..self }),
                _ => None,
            }
        }
    }

    /// `held -= amount; total -= amount; locked = true`, unless locked or short of held funds.
    pub open spec fn spec_chargeback(self, amount: Amount) -> Option<Account> {
        if self.locked || self.held@ < amount@ {
            None
        } else {
            match (subtracted(self.held, amount), subtracted(self.total, amount)) {
                (Some(held), Some(total)) => Some(Account { held, total, locked: true, ..self }),
                _ => None,
            }
        }
    }

    pub fn new(client_id: u16) -> (r: Account)
        ensures
            r == initial_account(client_id),
            r.wf(),
    {
        Account {
            client: client_id,
            available: Amount { mantissa: 0, scale: 0 },
            held: Amount { mantissa: 0, scale: 0 },
            total: Amount { mantissa: 0, scale: 0 },
            locked: false,
        }
    }

    /// The account with each balance rounded to `dp` places after the point, half to even.
    pub fn round_dp(&self, dp: u32) -> (r: Account)
        requires
            self.available.wf(),
            self.held.wf(),
            self.total.wf(),
            dp <= MAX_SCALE,
        ensures
            r == (Account {
                available: rounded(self.available, dp as nat),
                held: rounded(self.held, dp as nat),
                total: rounded(self.total, dp as nat),
                ..*self
            }),
    {
        Account {
            client: self.client,
            available: self.available.round_dp(dp),
            held: self.held.round_dp(dp),
            total: self.total.round_dp(dp),
            locked: self.locked,
        }
    }

    /// Whether a withdrawal of `amount` may go ahead: unlocked, and enough available.
    pub fn has_sufficient_funds(&self, amount: Amount) -> (r: bool)
        requires
            self.available.wf(),
            amount.wf(),
        ensures
            r == (!self.locked && self.available@ >= amount@),
    {
        !self.locked && self.available.ge(&amount)
    }

    /// Adds `amount` to the available and total funds; refused (nothing changes) where the
    /// account is locked.
    pub fn deposit(&mut self, amount: Amount) -> (r: bool)
        requires
            old(self).wf(),
            amount.wf(),
            amount@ >= 0,
        ensures
            r == old(self).spec_deposit(amount) is Some,
            *final(self) == outcome(*old(self), old(self).spec_deposit(amount)),
            final(self).wf(),
            r ==> final(self).available@ == old(self).available@ + amount@ && final(self).total@
                == old(self).total@ + amount@,
    {
        if self.locked {
            return false;
        }
        match (self.available.checked_add(amount), self.total.checked_add(amount)) {
            (Some(available), Some(total)) => {
                self.available = available;
                self.total = total;
                true
            },
            _ => false,
        }
    }

    /// Takes `amount` out of the available and total funds; refused where the account is locked
    /// or holds less than `amount` available.
    pub fn withdraw(&mut self, amount: Amount) -> (r: bool)
        requires
            old(self).wf(),
            amount.wf(),
            amount@ >= 0,
        ensures
            r == old(self).spec_withdraw(amount) is Some,
            *final(self) == outcome(*old(self), old(self).spec_withdraw(amount)),
            final(self).wf(),
            r ==> final(self).available@ == old(self).available@ - amount@ && final(self).total@
                == old(self).total@ - amount@,
    {
        if !self.has_sufficient_funds(amount) {
            return false;
        }
        match (self.available.checked_sub(amount), self.total.checked_sub(amount)) {
            (Some(available), Some(total)) => {
                self.available = available;
                self.total = total;
                true
            },
            _ => false,
        }
    }

    /// Moves `amount` from the available to the held funds; refused where the account is locked
    /// or holds less than `amount` available.
    pub fn hold(&mut self, amount: Amount) -> (r: bool)
        requires
            old(self).wf(),
            amount.wf(),
            amount@ >= 0,
        ensures
            r == old(self).spec_hold(amount) is Some,
            *final(self) == outcome(*old(self), old(self).spec_hold(amount)),
            final(self).wf(),
            r ==> final(self).available@ == old(self).available@ - amount@ && final(self).held@
                == old(self).held@ + amount@,
    {
        if self.locked || !self.available.ge(&amount) {
            return false;
        }
        match (self.available.checked_sub(amount), self.held.checked_add(amount)) {
            (Some(available), Some(held)) => {
                self.available = available;
                self.held = held;
                true
            },
            _ => false,
        }
    }

    /// Moves `amount` from the held back to the available funds; refused where the account is
    /// locked or holds less than `amount`.
    pub fn release(&mut self, amount: Amount) -> (r: bool)
        requires
            old(self).wf(),
            amount.wf(),
            amount@ >= 0,
        ensures
            r == old(self).spec_release(amount) is Some,
            *final(self) == outcome(*old(self), old(self).spec_release(amount)),
            final(self).wf(),
            r ==> final(self).held@ == old(self).held@ - amount@ && final(self).available@
                == old(self).available@ + amount@,
    {
        if self.locked || !self.held.ge(&amount) {
            return false;
        }
        match (self.held.checked_sub(amount), self.available.checked_add(amount)) {
            (Some(held), Some(available)) => {
                self.available = available;
                self.held = held;
                true
            },
            _ => false,
        }
    }

    /// Takes `amount` out of the held and total funds and locks the account for good; refused
    /// where the account is already locked or holds less than `amount`.
    pub fn chargeback(&mut self, amount: Amount) -> (r: bool)
        requires
            old(self).wf(),
            amount.wf(),
            amount@ >= 0,
        ensures
            r == old(self).spec_chargeback(amount) is Some,
            *final(self) == outcome(*old(self), old(self).spec_chargeback(amount)),
            final(self).wf(),
            r ==> final(self).held@ == old(self).held@ - amount@ && final(self).total@
                == old(self).total@ - amount@ && final(self).locked,
    {
        if self.locked || !self.held.ge(&amount) {
            return false;
        }
        match (self.held.checked_sub(amount), self.total.checked_sub(amount)) {
            (Some(held), Some(total)) => {
                self.held = held;
                self.total = total;
                self.locked = true;
                true
            },
            _ => false,
        }
    }
}

/// Each ledger operation that applies keeps the ledger invariant and the client id.
pub proof fn lemma_operations_keep_invariant(a: Account, amount: Amount)
    requires
        a.wf(),
        amount.wf(),
        amount@ >= 0,
    ensures
        a.spec_deposit(amount) matches Some(n) ==> n.wf() && n.client == a.client,
        a.spec_withdraw(amount) matches Some(n) ==> n.wf() && n.client == a.client,
        a.spec_hold(amount) matches Some(n) ==> n.wf() && n.client == a.client,
        a.spec_release(amount) matches Some(n) ==> n.wf() && n.client == a.client,
        a.spec_chargeback(amount) matches Some(n) ==> n.wf() && n.client == a.client,
{
    lemma_added(a.available, amount);
    lemma_added(a.total, amount);
    lemma_added(a.held, amount);
    lemma_subtracted(a.available, amount);
    lemma_subtracted(a.total, amount);
    lemma_subtracted(a.held, amount);
}

/// A recorded deposit or withdrawal, with whether it is under dispute.
#[derive(Clone, Copy, Debug)]
pub struct JournalEntry {
    pub transaction: Transaction,
    pub disputed: bool,
}

/// The journal after recording `tx`: its entry is stored or replaced, and a replaced entry keeps
/// its dispute flag.
pub open spec fn recorded(j: Map<u32, JournalEntry>, tx: Transaction) -> Map<u32, JournalEntry> {
    j.insert(
        tx.tx,
        JournalEntry { transaction: tx, disputed: j.contains_key(tx.tx) && j[tx.tx].disputed },
    )
}

/// The journal after setting the dispute flag of `tx_id`; an unknown id leaves it unchanged.
pub open spec fn flagged(j: Map<u32, JournalEntry>, tx_id: u32, status: bool) -> Map<
    u32,
    JournalEntry,
> {
    if j.contains_key(tx_id) {
        j.insert(tx_id, JournalEntry { disputed: status, ..j[tx_id] })
    } else {
        j
    }
}

/// Whether `tx_id` is known and under dispute.
pub open spec fn disputed_in(j: Map<u32, JournalEntry>, tx_id: u32) -> bool {
    j.contains_key(tx_id) && j[tx_id].disputed
}

/// The journal of accepted deposits and withdrawals, by id, each with its dispute flag.
pub struct TransactionStore {
    entries: HashMap<u32, JournalEntry>,
}

impl View for TransactionStore {
    type V = Map<u32, JournalEntry>;

    closed spec fn view(&self) -> Map<u32, JournalEntry> {
        self.entries@
    }
}

impl TransactionStore {
    pub fn new() -> (r: TransactionStore)
        ensures
            r@ == Map::<u32, JournalEntry>::empty(),
    {
        TransactionStore { entries: HashMap::new() }
    }

    /// Stores `tx` under its id, replacing an earlier entry of that id.
    pub fn add_transaction(&mut self, tx: Transaction)
        ensures
            final(self)@ == recorded(old(self)@, tx),
    {
        let disputed = self.is_disputed(tx.tx);
        self.entries.insert(tx.tx, JournalEntry { transaction: tx, disputed });
    }

    pub fn get_transaction(&self, tx_id: u32) -> (r: Option<&Transaction>)
        ensures
            r is Some <==> self@.contains_key(tx_id),
            r matches Some(t) ==> *t == self@[tx_id].transaction,
    {
        match self.entries.get(&tx_id) {
            Some(entry) => Some(&entry.transaction),
            None => None,
        }
    }

    /// Sets the dispute flag of a recorded transaction; an unknown id is left alone.
    pub fn set_disputed(&mut self, tx_id: u32, status: bool)
        ensures
            final(self)@ == flagged(old(self)@, tx_id, status),
    {
        let found = match self.entries.get(&tx_id) {
            Some(entry) => Some(*entry),
            None => None,
        };
        if let Some(entry) = found {
            self.entries.insert(tx_id, JournalEntry { disputed: status, ..entry });
        }
    }

    /// Whether `tx_id` is recorded and under dispute; `false` for an unknown id.
    pub fn is_disputed(&self, tx_id: u32) -> (r: bool)
        ensures
            r == disputed_in(self@, tx_id),
    {
        match self.entries.get(&tx_id) {
            Some(entry) => entry.disputed,
            None => false,
        }
    }
}

/// The accounts, each under its own client id, and the ids in the order their accounts were
/// opened.
pub open spec fn ledger_consistent(accounts: Map<u16, Account>, order: Seq<u16>) -> bool {
    &&& order.no_duplicates()
    &&& forall|c: u16| accounts.contains_key(c) <==> order.contains(c)
    &&& forall|c: u16| #[trigger] accounts.contains_key(c) ==> accounts[c].client == c
}

/// The account of `client` as the store hands it out: the stored one, or a fresh one.
pub open spec fn account_of(accounts: Map<u16, Account>, client: u16) -> Account {
    if accounts.contains_key(client) {
        accounts[client]
    } else {
        initial_account(client)
    }
}

/// The opening order after `client` is looked up: a new client goes at the end.
pub open spec fn order_after(accounts: Map<u16, Account>, order: Seq<u16>, client: u16) -> Seq<u16> {
    if accounts.contains_key(client) {
        order
    } else {
        order.push(client)
    }
}

/// Opening the account of `client`, under its own id, keeps the store consistent.
pub proof fn lemma_open_account(accounts: Map<u16, Account>, order: Seq<u16>, client: u16)
    requires
        ledger_consistent(accounts, order),
    ensures
        forall|a: Account|
            a.client == client ==> ledger_consistent(
                #[trigger] accounts.insert(client, a),
                order_after(accounts, order, client),
            ),
{
    assert forall|a: Account| a.client == client implies ledger_consistent(
        #[trigger] accounts.insert(client, a),
        order_after(accounts, order, client),
    ) by {
        let m = accounts.insert(client, a);
        let o = order_after(accounts, order, client);
        assert forall|c: u16| m.contains_key(c) <==> o.contains(c) by {
            if !accounts.contains_key(client) {
                assert(o == order.push(client));
                if o.contains(c) && c != client {
                    let i = choose|i: int| 0 <= i < o.len() && o[i] == c;
                    assert(order[i] == c);
                }
                if order.contains(c) {
                    let i = choose|i: int| 0 <= i < order.len() && order[i] == c;
                    assert(o[i] == c);
                }
                assert(o[order.len() as int] == client);
            }
        }
        if !accounts.contains_key(client) {
            assert(!order.contains(client));
            assert forall|i: int, j: int| 0 <= i < j < o.len() implies o[i] != o[j] by {
                if j == order.len() {
                    assert(order[i] == o[i]);
                }
            }
            assert(o.no_duplicates());
        }
        assert forall|c: u16| #[trigger] m.contains_key(c) implies m[c].client == c by {
            if c != client {
                assert(accounts.contains_key(c));
            }
        }
    }
}

/// The accounts in opening order.
pub open spec fn snapshot(accounts: Map<u16, Account>, order: Seq<u16>) -> Seq<Account> {
    order.map_values(|c: u16| accounts[c])
}

/// Every client's account, created on first reference.
pub struct AccountStore {
    accounts: HashMap<u16, Account>,
    order: Vec<u16>,
}

impl View for AccountStore {
    type V = Map<u16, Account>;

    closed spec fn view(&self) -> Map<u16, Account> {
        self.accounts@
    }
}

impl AccountStore {
    /// The client ids in the order their accounts were opened.
    pub closed spec fn order(&self) -> Seq<u16> {
        self.order@
    }

    pub open spec fn wf(&self) -> bool {
        ledger_consistent(self@, self.order())
    }

    pub fn new() -> (r: AccountStore)
        ensures
            r@ == Map::<u16, Account>::empty(),
            r.order() == Seq::<u16>::empty(),
            r.wf(),
    {
        AccountStore { accounts: HashMap::new(), order: Vec::new() }
    }

    /// The account of `client_id`, opened with zero balances on first reference.
    pub fn get_or_create_account(&mut self, client_id: u16) -> (r: &mut Account)
        requires
            old(self).wf(),
        ensures
            *r == account_of(old(self)@, client_id),
            final(self)@ == old(self)@.insert(client_id, *final(r)),
            final(self).order() == order_after(old(self)@, old(self).order(), client_id),
            final(r).client == client_id ==> final(self).wf(),
    {
        proof {
            lemma_open_account(self@, self.order(), client_id);
        }
        if !self.accounts.contains_key(&client_id) {
            self.order.push(client_id);
        }
        self.accounts.entry(client_id).or_insert(Account::new(client_id))
    }

    /// Every account, in the order the accounts were opened.
    pub fn get_all_accounts(&self) -> (r: Vec<Account>)
        requires
            self.wf(),
        ensures
            r@ == snapshot(self@, self.order()),
    {
        let mut r: Vec<Account> = Vec::new();
        let mut i: usize = 0;
        while i < self.order.len()
            invariant
                i <= self.order@.len(),
                self.wf(),
                r@ == snapshot(self@, self.order()).take(i as int),
            decreases self.order@.len() - i,
        {
            let c = self.order[i];
            assert(self.order@.contains(c));
            match self.accounts.get(&c) {
                Some(a) => r.push(*a),
                None => {},
            }
            assert(snapshot(self@, self.order()).take(i + 1) == snapshot(self@, self.order()).take(
                i as int,
            ).push(self@[c]));
            i = i + 1;
        }
        assert(snapshot(self@, self.order()).take(i as int) == snapshot(self@, self.order()));
        r
    }
}

} // verus!
