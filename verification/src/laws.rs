//! The ledger's laws: what holds of every account state and every input,
//! proved once and for all over the model transitions of
//! [`crate::account`] and [`crate::account_manager`].
//!
//! The balance invariant itself — the held balance is exactly the sum of the
//! held amounts, and the total is available plus held — is
//! [`crate::account::state_inv`], preserved by every step
//! ([`crate::account::lemma_process_preserves_inv`]).

use vstd::prelude::*;
use crate::account::{AccountState, Transaction, TransactionType, fresh_state,
    lemma_deposit_preserves_inv, lemma_dispute_preserves_inv, lemma_fresh_state_inv,
    lemma_process_preserves_inv, spec_account_process, spec_chargeback, spec_deposit,
    spec_dispute, spec_resolve, spec_withdrawal_ok, state_inv, tx_amount};
use crate::account_manager::spec_manager_process;

verus! {

/// A valid deposit of a positive amount `a` under a fresh transaction id
/// raises the available and total balances by exactly `a` and records the
/// transaction as posted.
pub proof fn law_deposit_adds_amount(s: AccountState, t: Transaction)
    requires
        state_inv(s),
        t.kind == TransactionType::Deposit,
        t.amount matches Some(a) && a > 0,
        !s.posted.dom().contains(t.tx),
        !s.held.dom().contains(t.tx),
        s.available + tx_amount(t) <= i64::MAX,
    ensures
        spec_account_process(s, t).available == s.available + tx_amount(t),
        spec_account_process(s, t).available + spec_account_process(s, t).held_total
            == s.available + s.held_total + tx_amount(t),
        spec_account_process(s, t).posted == s.posted.insert(t.tx, t),
        spec_account_process(s, t).held == s.held,
{
}

/// A withdrawal of a positive amount `a` under a fresh transaction id
/// succeeds exactly when `a` is at most the available balance; on success
/// available and total drop by exactly `a` and the transaction is recorded;
/// on failure the state is unchanged and no record is stored.
pub proof fn law_withdrawal_succeeds_iff(s: AccountState, t: Transaction)
    requires
        state_inv(s),
        t.kind == TransactionType::Withdrawal,
        t.amount matches Some(a) && a > 0,
        !s.posted.dom().contains(t.tx),
        !s.held.dom().contains(t.tx),
    ensures
        spec_withdrawal_ok(s, t) <==> tx_amount(t) <= s.available,
        spec_withdrawal_ok(s, t) ==> {
            &&& spec_account_process(s, t).available == s.available - tx_amount(t)
            &&& spec_account_process(s, t).available + spec_account_process(s, t).held_total
                == s.available + s.held_total - tx_amount(t)
            &&& spec_account_process(s, t).posted == s.posted.insert(t.tx, t)
        },
        !spec_withdrawal_ok(s, t) ==> spec_account_process(s, t) == s,
{
}

/// A dispute of a posted transaction moves exactly the transaction's own
/// stored amount from available to held — the total is unchanged — and
/// relocates the record from posted to held.
pub proof fn law_dispute_moves_stored_amount(s: AccountState, r: u32)
    requires
        state_inv(s),
        s.posted.dom().contains(r),
        s.available - tx_amount(s.posted[r]) >= i64::MIN,
        s.held_total + tx_amount(s.posted[r]) <= i64::MAX,
    ensures
        spec_dispute(s, r).available == s.available - tx_amount(s.posted[r]),
        spec_dispute(s, r).held_total == s.held_total + tx_amount(s.posted[r]),
        spec_dispute(s, r).available + spec_dispute(s, r).held_total
            == s.available + s.held_total,
        spec_dispute(s, r).posted == s.posted.remove(r),
        spec_dispute(s, r).held == s.held.insert(r, s.posted[r]),
{
}

/// The amount field of a dispute, resolve or chargeback record has no
/// effect: processing such a record is determined by the referenced
/// transaction id alone.
pub proof fn law_reference_ignores_record_amount(s: AccountState, t1: Transaction, t2: Transaction)
    requires
        t1.kind == t2.kind,
        t1.kind == TransactionType::Dispute || t1.kind == TransactionType::Resolve
            || t1.kind == TransactionType::Chargeback,
        t1.tx == t2.tx,
    ensures
        spec_account_process(s, t1) == spec_account_process(s, t2),
{
}

/// Resolving a disputed transaction is the exact inverse of the dispute:
/// dispute then resolve of the same id restores the account byte for byte.
pub proof fn law_dispute_resolve_roundtrip(s: AccountState, r: u32)
    requires
        state_inv(s),
        s.posted.dom().contains(r),
        s.available - tx_amount(s.posted[r]) >= i64::MIN,
        s.held_total + tx_amount(s.posted[r]) <= i64::MAX,
    ensures
        spec_resolve(spec_dispute(s, r), r) == s,
{
    let s1 = spec_dispute(s, r);
    lemma_dispute_preserves_inv(s, r);
    assert(s1.held[r] == s.posted[r]);
    assert(spec_resolve(s1, r).posted =~= s.posted);
    assert(spec_resolve(s1, r).held =~= s.held);
    assert(spec_resolve(s1, r) =~= s);
}

/// Depositing, disputing the deposit, and resolving it yields exactly the
/// state the deposit alone yields.
pub proof fn law_deposit_dispute_resolve(s: AccountState, t: Transaction)
    requires
        state_inv(s),
        t.kind == TransactionType::Deposit,
        t.amount matches Some(a) && a > 0,
        !s.posted.dom().contains(t.tx),
        !s.held.dom().contains(t.tx),
        s.available + tx_amount(t) <= i64::MAX,
        s.held_total + tx_amount(t) <= i64::MAX,
    ensures
        spec_resolve(spec_dispute(spec_deposit(s, t), t.tx), t.tx) == spec_deposit(s, t),
{
    let s1 = spec_deposit(s, t);
    lemma_deposit_preserves_inv(s, t);
    law_dispute_resolve_roundtrip(s1, t.tx);
}

/// A chargeback of a disputed transaction forfeits exactly its stored
/// amount from the held and total balances, leaves available untouched,
/// and freezes the account.
pub proof fn law_chargeback_forfeits_and_freezes(s: AccountState, r: u32)
    requires
        state_inv(s),
        s.held.dom().contains(r),
    ensures
        spec_chargeback(s, r).frozen,
        spec_chargeback(s, r).available == s.available,
        spec_chargeback(s, r).held_total == s.held_total - tx_amount(s.held[r]),
        spec_chargeback(s, r).available + spec_chargeback(s, r).held_total
            == s.available + s.held_total - tx_amount(s.held[r]),
        spec_chargeback(s, r).held == s.held.remove(r),
        spec_chargeback(s, r).posted == s.posted,
{
}

/// Once an account is frozen, every later transaction routed to its client —
/// deposits, withdrawals, and disputes or resolves of pre-freeze history
/// alike — leaves the whole ledger unchanged.
pub proof fn law_frozen_blocks_everything(m: Map<u16, AccountState>, t: Transaction)
    requires
        m.dom().contains(t.client),
        m[t.client].frozen,
    ensures
        spec_manager_process(m, t) == m,
{
}

/// A dispute, resolve or chargeback referencing a transaction id that is not
/// in the state it expects leaves the account unchanged.
pub proof fn law_unmatched_reference_is_no_op(s: AccountState, r: u32)
    ensures
        !s.posted.dom().contains(r) ==> spec_dispute(s, r) == s,
        !s.held.dom().contains(r) ==> spec_resolve(s, r) == s,
        !s.held.dom().contains(r) ==> spec_chargeback(s, r) == s,
{
}

/// Every account the ledger ever holds satisfies the balance invariant:
/// posted and held transactions are disjoint, the held balance is exactly
/// the sum of the held amounts, and available plus held is the total.
pub proof fn law_every_account_keeps_invariant(m: Map<u16, AccountState>, t: Transaction)
    requires
        forall|c: u16| #[trigger] m.dom().contains(c) ==> state_inv(m[c]),
    ensures
        forall|c: u16| #[trigger] spec_manager_process(m, t).dom().contains(c) ==> state_inv(
            spec_manager_process(m, t)[c],
        ),
{
    let m2 = spec_manager_process(m, t);
    if t.is_valid() {
        let cur = if m.dom().contains(t.client) {
            m[t.client]
        } else {
            fresh_state(t.client)
        };
        lemma_fresh_state_inv(t.client);
        if !cur.frozen {
            lemma_process_preserves_inv(cur, t);
            assert forall|c: u16| #[trigger] m2.dom().contains(c) implies state_inv(m2[c]) by {
                if c != t.client {
                    assert(m.dom().contains(c));
                }
            }
        }
    }
}

/// An invalid record — a deposit or withdrawal whose amount is missing or
/// not positive — never reaches any account: the ledger is unchanged, and
/// in particular no account is created for an unknown client.
pub proof fn law_invalid_never_reaches_account(m: Map<u16, AccountState>, t: Transaction)
    requires
        !t.is_valid(),
    ensures
        spec_manager_process(m, t) == m,
{
}

} // verus!
