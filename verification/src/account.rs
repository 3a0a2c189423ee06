//! The per-client account: the transaction record type, its validation, and
//! the account state machine that applies deposits, withdrawals, disputes,
//! resolves and chargebacks.
//!
//! All balances are fixed-point decimals carried as signed counts of
//! ten-thousandths. The mathematical model of an account is [`AccountState`];
//! every executable operation is specified as equal to a pure transition
//! function on that model, and [`state_inv`] is the invariant every reachable
//! account satisfies: the posted and held transactions are disjoint, every
//! stored transaction carries a positive amount under its own id, and the
//! held balance is exactly the sum of the held amounts.

use std::collections::HashMap;
use vstd::prelude::*;

verus! {

broadcast use vstd::std_specs::hash::group_hash_axioms;

/// The kinds of transactions the ledger understands.
#[derive(Debug, Clone, Copy, PartialEq, Eq, Structural)]
pub enum TransactionType {
    Deposit,
    Withdrawal,
    Dispute,
    Resolve,
    Chargeback,
}

/// A single transaction record.
///
/// `amount` is a fixed-point decimal: a signed count of ten-thousandths
/// (four fractional digits). It is meaningful only for deposits and
/// withdrawals; for disputes, resolves and chargebacks the field carries no
/// meaning whether present or not.
#[derive(Debug, Clone, Copy)]
pub struct Transaction {
    pub kind: TransactionType,
    pub client: u16,
    pub tx: u32,
    pub amount: Option<i64>,
}

impl Transaction {
    /// True when the record is semantically fit to reach an account:
    /// a deposit or withdrawal must carry a strictly positive amount;
    /// the referencing kinds are always fit.
    pub open spec fn is_valid(self) -> bool {
        match self.kind {
            TransactionType::Deposit | TransactionType::Withdrawal => match self.amount {
                Some(a) => a > 0,
                None => false,
            },
            _ => true,
        }
    }

    /// Validate a transaction, consuming it.
    ///
    /// Returns the transaction unchanged when it may reach the state machine
    /// and `None` when it is to be silently discarded. Discarding is not an
    /// error: the ledger tolerates noisy input.
    pub fn validate(self) -> (r: Option<Self>)
        ensures
            self.is_valid() <==> r == Some(self),
            !self.is_valid() <==> r is None,
    {
        match self.kind {
            TransactionType::Deposit | TransactionType::Withdrawal => match self.amount {
                Some(a) => if a > 0 {
                    Some(self)
                } else {
                    None
                },
                None => None,
            },
            _ => Some(self),
        }
    }
}

/// The amount a stored transaction carries, as an unbounded integer;
/// zero when the field is absent.
pub open spec fn tx_amount(t: Transaction) -> int {
    match t.amount {
        Some(a) => a as int,
        None => 0,
    }
}

/// The mathematical model of one account.
#[verifier::ext_equal]
pub struct AccountState {
    pub client: u16,
    pub available: int,
    pub held_total: int,
    pub posted: Map<u32, Transaction>,
    pub held: Map<u32, Transaction>,
    pub frozen: bool,
}

/// The state of a freshly created account: empty, zero balances, not frozen.
pub open spec fn fresh_state(client: u16) -> AccountState {
    AccountState {
        client: client,
        available: 0,
        held_total: 0,
        posted: Map::empty(),
        held: Map::empty(),
        frozen: false,
    }
}

/// What holds of every transaction stored in an account, posted or held:
/// it is keyed by its own id and carries a strictly positive amount.
pub open spec fn stored_ok(k: u32, t: Transaction) -> bool {
    &&& t.tx == k
    &&& match t.amount {
        Some(a) => a > 0,
        None => false,
    }
}

/// The sum of the stored amounts of a map of transactions.
pub open spec fn held_sum(m: Map<u32, Transaction>) -> int
    decreases m.dom().len(),
    when m.dom().finite()
{
    if m.dom().len() > 0 {
        let k = m.dom().choose();
        tx_amount(m[k]) + held_sum(m.remove(k))
    } else {
        0
    }
}

/// Summing a finite map of transactions can start at any key it contains.
pub proof fn lemma_held_sum_pick(m: Map<u32, Transaction>, k: u32)
    requires
        m.dom().finite(),
        m.dom().contains(k),
    ensures
        held_sum(m) == tx_amount(m[k]) + held_sum(m.remove(k)),
    decreases m.dom().len(),
{
    let c = m.dom().choose();
    assert(m.dom().len() > 0);
    assert(m.dom().contains(c));
    if c == k {
    } else {
        let mc = m.remove(c);
        let mk = m.remove(k);
        lemma_held_sum_pick(mc, k);
        lemma_held_sum_pick(mk, c);
        assert(mc.remove(k) =~= mk.remove(c));
        assert(mc[k] == m[k]);
        assert(mk[c] == m[c]);
    }
}

/// Inserting a fresh key adds exactly its amount to the sum.
pub proof fn lemma_held_sum_insert(m: Map<u32, Transaction>, k: u32, t: Transaction)
    requires
        m.dom().finite(),
        !m.dom().contains(k),
    ensures
        held_sum(m.insert(k, t)) == held_sum(m) + tx_amount(t),
{
    lemma_held_sum_pick(m.insert(k, t), k);
    assert(m.insert(k, t).remove(k) =~= m);
}

/// A map whose stored amounts are all nonnegative sums to a nonnegative value.
pub proof fn lemma_held_sum_nonneg(m: Map<u32, Transaction>)
    requires
        m.dom().finite(),
        forall|k: u32| #[trigger] m.dom().contains(k) ==> tx_amount(m[k]) >= 0,
    ensures
        held_sum(m) >= 0,
    decreases m.dom().len(),
{
    if m.dom().len() > 0 {
        let c = m.dom().choose();
        assert(m.dom().contains(c));
        lemma_held_sum_nonneg(m.remove(c));
    }
}

/// The invariant of a reachable account state.
pub open spec fn state_inv(s: AccountState) -> bool {
    &&& s.posted.dom().finite()
    &&& s.held.dom().finite()
    &&& forall|k: u32| #[trigger] s.posted.dom().contains(k) ==> !s.held.dom().contains(k)
    &&& forall|k: u32| #[trigger] s.posted.dom().contains(k) ==> stored_ok(k, s.posted[k])
    &&& forall|k: u32| #[trigger] s.held.dom().contains(k) ==> stored_ok(k, s.held[k])
    &&& s.held_total == held_sum(s.held)
    &&& 0 <= s.held_total <= i64::MAX
    &&& i64::MIN <= s.available <= i64::MAX
}

/// A deposit records the transaction and raises the available balance by its
/// amount. It is a no-op when the amount is absent or not positive, when the
/// transaction id is already stored (a reused id is rejected rather than
/// overwritten), or when the new balance would not be representable.
pub open spec fn spec_deposit(s: AccountState, t: Transaction) -> AccountState {
    match t.amount {
        Some(a) => if a > 0 && !s.posted.dom().contains(t.tx) && !s.held.dom().contains(t.tx)
            && s.available + a <= i64::MAX {
            AccountState {
                available: s.available + a,
                posted: s.posted.insert(t.tx, t),
                ..s
            }
        } else {
            s
        },
        None => s,
    }
}

/// When a withdrawal takes effect: a positive amount no larger than the
/// available balance, under a transaction id not already stored.
pub open spec fn spec_withdrawal_ok(s: AccountState, t: Transaction) -> bool {
    match t.amount {
        Some(a) => a > 0 && !s.posted.dom().contains(t.tx) && !s.held.dom().contains(t.tx)
            && s.available >= a,
        None => false,
    }
}

/// A successful withdrawal records the transaction and lowers the available
/// balance by its amount; a failed one leaves no trace.
pub open spec fn spec_withdrawal(s: AccountState, t: Transaction) -> AccountState {
    if spec_withdrawal_ok(s, t) {
        AccountState {
            available: s.available - tx_amount(t),
            posted: s.posted.insert(t.tx, t),
            ..s
        }
    } else {
        s
    }
}

/// A dispute relocates the referenced posted transaction into the held map
/// and moves exactly its stored amount from available to held, leaving the
/// total unchanged. It is a no-op when the id is not posted or when a moved
/// balance would not be representable.
pub open spec fn spec_dispute(s: AccountState, r: u32) -> AccountState {
    if s.posted.dom().contains(r) {
        let t = s.posted[r];
        let a = tx_amount(t);
        if s.available - a >= i64::MIN && s.held_total + a <= i64::MAX {
            AccountState {
                available: s.available - a,
                held_total: s.held_total + a,
                posted: s.posted.remove(r),
                held: s.held.insert(r, t),
                ..s
            }
        } else {
            s
        }
    } else {
        s
    }
}

/// A resolve is the exact inverse of a dispute for the same id: the held
/// transaction returns to the posted map and its stored amount returns to the
/// available balance. It is a no-op when the id is not held or when the new
/// available balance would not be representable.
pub open spec fn spec_resolve(s: AccountState, r: u32) -> AccountState {
    if s.held.dom().contains(r) {
        let t = s.held[r];
        let a = tx_amount(t);
        if s.available + a <= i64::MAX {
            AccountState {
                available: s.available + a,
                held_total: s.held_total - a,
                posted: s.posted.insert(r, t),
                held: s.held.remove(r),
                ..s
            }
        } else {
            s
        }
    } else {
        s
    }
}

/// A chargeback removes the referenced held transaction for good — its amount
/// is forfeited from the total — and freezes the account. It is a no-op when
/// the id is not held.
pub open spec fn spec_chargeback(s: AccountState, r: u32) -> AccountState {
    if s.held.dom().contains(r) {
        AccountState {
            held_total: s.held_total - tx_amount(s.held[r]),
            held: s.held.remove(r),
            frozen: true,
            ..s
        }
    } else {
        s
    }
}

/// The account state machine: one step, dispatched on the transaction kind.
/// The referencing kinds read nothing of the record but its transaction id.
pub open spec fn spec_account_process(s: AccountState, t: Transaction) -> AccountState {
    match t.kind {
        TransactionType::Deposit => spec_deposit(s, t),
        TransactionType::Withdrawal => spec_withdrawal(s, t),
        TransactionType::Dispute => spec_dispute(s, t.tx),
        TransactionType::Resolve => spec_resolve(s, t.tx),
        TransactionType::Chargeback => spec_chargeback(s, t.tx),
    }
}

pub proof fn lemma_deposit_preserves_inv(s: AccountState, t: Transaction)
    requires
        state_inv(s),
    ensures
        state_inv(spec_deposit(s, t)),
{
}

pub proof fn lemma_withdrawal_preserves_inv(s: AccountState, t: Transaction)
    requires
        state_inv(s),
    ensures
        state_inv(spec_withdrawal(s, t)),
{
}

pub proof fn lemma_dispute_preserves_inv(s: AccountState, r: u32)
    requires
        state_inv(s),
    ensures
        state_inv(spec_dispute(s, r)),
{
    if s.posted.dom().contains(r) {
        let t = s.posted[r];
        let a = tx_amount(t);
        if s.available - a >= i64::MIN && s.held_total + a <= i64::MAX {
            lemma_held_sum_insert(s.held, r, t);
        }
    }
}

pub proof fn lemma_resolve_preserves_inv(s: AccountState, r: u32)
    requires
        state_inv(s),
    ensures
        state_inv(spec_resolve(s, r)),
{
    if s.held.dom().contains(r) {
        lemma_held_sum_pick(s.held, r);
        lemma_held_sum_nonneg(s.held.remove(r));
    }
}

pub proof fn lemma_chargeback_preserves_inv(s: AccountState, r: u32)
    requires
        state_inv(s),
    ensures
        state_inv(spec_chargeback(s, r)),
{
    if s.held.dom().contains(r) {
        lemma_held_sum_pick(s.held, r);
        lemma_held_sum_nonneg(s.held.remove(r));
    }
}

/// A freshly created account satisfies the invariant.
pub proof fn lemma_fresh_state_inv(client: u16)
    ensures
        state_inv(fresh_state(client)),
{
}

/// One step of the state machine preserves the account invariant.
pub proof fn lemma_process_preserves_inv(s: AccountState, t: Transaction)
    requires
        state_inv(s),
    ensures
        state_inv(spec_account_process(s, t)),
{
    match t.kind {
        TransactionType::Deposit => lemma_deposit_preserves_inv(s, t),
        TransactionType::Withdrawal => lemma_withdrawal_preserves_inv(s, t),
        TransactionType::Dispute => lemma_dispute_preserves_inv(s, t.tx),
        TransactionType::Resolve => lemma_resolve_preserves_inv(s, t.tx),
        TransactionType::Chargeback => lemma_chargeback_preserves_inv(s, t.tx),
    }
}

/// A single client's account: the posted and held transactions and the
/// derived balances.
pub struct Account {
    pub transactions: HashMap<u32, Transaction>,
    pub held_transactions: HashMap<u32, Transaction>,
    pub available_balance: i64,
    pub held_balance: i64,
    pub frozen: bool,
    pub client_id: u16,
}

impl Account {
    /// The mathematical model of this account.
    pub open spec fn model(self) -> AccountState {
        AccountState {
            client: self.client_id,
            available: self.available_balance as int,
            held_total: self.held_balance as int,
            posted: self.transactions@,
            held: self.held_transactions@,
            frozen: self.frozen,
        }
    }

    /// The account invariant, on the model.
    pub open spec fn inv(self) -> bool {
        state_inv(self.model())
    }

    /// Returns a new client account with zero balances.
    pub fn new(client_id: u16) -> (r: Self)
        ensures
            r.model() == fresh_state(client_id),
            r.inv(),
    {
        let r = Account {
            transactions: HashMap::new(),
            held_transactions: HashMap::new(),
            available_balance: 0,
            held_balance: 0,
            frozen: false,
            client_id,
        };
        proof {
            assert(r.model() =~= fresh_state(client_id));
        }
        r
    }

    /// Apply a deposit.
    pub fn deposit(&mut self, t: Transaction)
        requires
            old(self).inv(),
        ensures
            final(self).inv(),
            final(self).model() == spec_deposit(old(self).model(), t),
    {
        proof {
            lemma_deposit_preserves_inv(self.model(), t);
        }
        if let Some(a) = t.amount {
            if a > 0 && !self.transactions.contains_key(&t.tx)
                && !self.held_transactions.contains_key(&t.tx)
                && self.available_balance <= i64::MAX - a {
                self.available_balance = self.available_balance + a;
                self.transactions.insert(t.tx, t);
            }
        }
    }

    /// Apply a withdrawal; true exactly when it took effect.
    pub fn withdrawal(&mut self, t: Transaction) -> (b: bool)
        requires
            old(self).inv(),
        ensures
            final(self).inv(),
            final(self).model() == spec_withdrawal(old(self).model(), t),
            b == spec_withdrawal_ok(old(self).model(), t),
    {
        proof {
            lemma_withdrawal_preserves_inv(self.model(), t);
        }
        if let Some(a) = t.amount {
            if a > 0 && !self.transactions.contains_key(&t.tx)
                && !self.held_transactions.contains_key(&t.tx)
                && self.available_balance >= a {
                self.available_balance = self.available_balance - a;
                self.transactions.insert(t.tx, t);
                return true;
            }
        }
        false
    }

    /// Apply a dispute referencing `t.tx`. Only the id of the record is
    /// read; an `amount` on a dispute record carries no meaning.
    pub fn dispute(&mut self, t: Transaction)
        requires
            old(self).inv(),
        ensures
            final(self).inv(),
            final(self).model() == spec_dispute(old(self).model(), t.tx),
    {
        proof {
            lemma_dispute_preserves_inv(self.model(), t.tx);
        }
        let r = t.tx;
        let found = match self.transactions.get(&r) {
            Some(p) => Some(*p),
            None => None,
        };
        if let Some(pt) = found {
            let a = match pt.amount {
                Some(x) => x,
                None => 0,
            };
            proof {
                assert(self.model().posted.dom().contains(r));
                assert(stored_ok(r, self.model().posted[r]));
            }
            if self.available_balance >= i64::MIN + a && self.held_balance <= i64::MAX - a {
                self.transactions.remove(&r);
                self.available_balance = self.available_balance - a;
                self.held_balance = self.held_balance + a;
                self.held_transactions.insert(r, pt);
            }
        }
    }

    /// Apply a resolve referencing `t.tx`: the inverse of a dispute of the
    /// same id.
    pub fn resolve(&mut self, t: Transaction)
        requires
            old(self).inv(),
        ensures
            final(self).inv(),
            final(self).model() == spec_resolve(old(self).model(), t.tx),
    {
        proof {
            lemma_resolve_preserves_inv(self.model(), t.tx);
        }
        let r = t.tx;
        let found = match self.held_transactions.get(&r) {
            Some(p) => Some(*p),
            None => None,
        };
        if let Some(pt) = found {
            let a = match pt.amount {
                Some(x) => x,
                None => 0,
            };
            proof {
                assert(self.model().held.dom().contains(r));
                assert(stored_ok(r, self.model().held[r]));
                lemma_held_sum_pick(self.model().held, r);
                lemma_held_sum_nonneg(self.model().held.remove(r));
            }
            if self.available_balance <= i64::MAX - a {
                self.held_transactions.remove(&r);
                self.available_balance = self.available_balance + a;
                self.held_balance = self.held_balance - a;
                self.transactions.insert(r, pt);
            }
        }
    }

    /// Apply a chargeback referencing `t.tx`: the held transaction is removed
    /// for good, its amount is forfeited, and the account freezes.
    pub fn chargeback(&mut self, t: Transaction)
        requires
            old(self).inv(),
        ensures
            final(self).inv(),
            final(self).model() == spec_chargeback(old(self).model(), t.tx),
    {
        proof {
            lemma_chargeback_preserves_inv(self.model(), t.tx);
        }
        let r = t.tx;
        let ghost pre = self.model();
        let removed = self.held_transactions.remove(&r);
        if let Some(pt) = removed {
            let a = match pt.amount {
                Some(x) => x,
                None => 0,
            };
            proof {
                assert(pre.held.dom().contains(r));
                assert(stored_ok(r, pre.held[r]));
                lemma_held_sum_pick(pre.held, r);
                lemma_held_sum_nonneg(pre.held.remove(r));
            }
            self.held_balance = self.held_balance - a;
            self.frozen = true;
        } else {
            proof {
                assert(pre.held.remove(r) =~= pre.held);
                assert(self.model() =~= pre);
            }
        }
    }

    /// Process a single already-validated transaction that applies to this
    /// account: one step of the state machine.
    pub fn process_transaction(&mut self, transaction: Transaction)
        requires
            old(self).inv(),
        ensures
            final(self).inv(),
            final(self).model() == spec_account_process(old(self).model(), transaction),
    {
        match transaction.kind {
            TransactionType::Deposit => self.deposit(transaction),
            TransactionType::Withdrawal => {
                self.withdrawal(transaction);
            },
            TransactionType::Dispute => self.dispute(transaction),
            TransactionType::Resolve => self.resolve(transaction),
            TransactionType::Chargeback => self.chargeback(transaction),
        }
    }

    /// The amount available to the client.
    pub fn get_available_amount(&self) -> (r: i64)
        ensures
            r as int == self.model().available,
    {
        self.available_balance
    }

    /// The held amount: the sum of the stored amounts of all transactions
    /// currently in dispute.
    pub fn get_held_amount(&self) -> (r: i64)
        requires
            self.inv(),
        ensures
            r as int == self.model().held_total,
            r as int == held_sum(self.model().held),
    {
        self.held_balance
    }

    /// The total balance: available plus held.
    pub fn get_total_amount(&self) -> (r: i128)
        ensures
            r as int == self.model().available + self.model().held_total,
    {
        (self.available_balance as i128) + (self.held_balance as i128)
    }

    /// True when the account is frozen and processes no further transactions.
    pub fn is_frozen(&self) -> (r: bool)
        ensures
            r == self.model().frozen,
    {
        self.frozen
    }

    /// The client id this account belongs to.
    pub fn get_id(&self) -> (r: u16)
        ensures
            r == self.model().client,
    {
        self.client_id
    }
}

impl Default for Account {
    /// An account for client id zero with zero balances.
    fn default() -> (r: Self)
        ensures
            r.model() == fresh_state(0),
            r.inv(),
    {
        Account::new(0)
    }
}

} // verus!
