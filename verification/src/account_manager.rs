//! The ledger-wide router: owns every client account, creates accounts
//! lazily, and dispatches each validated transaction to the account it
//! targets.

use std::collections::HashMap;
use vstd::prelude::*;
use crate::account::{Account, AccountState, Transaction, fresh_state, spec_account_process};

verus! {

broadcast use vstd::std_specs::hash::group_hash_axioms;

/// The account manager: all accounts, keyed by client id.
pub struct AccountManager {
    pub accounts: HashMap<u16, Account>,
}

/// One routing step of the whole ledger. An invalid record is discarded
/// before any account is touched or created; the target account is created
/// on first sight of its client id; a frozen account accepts nothing at all,
/// disputes and resolves of its pre-freeze history included — that is a
/// deliberate policy, not an accident.
pub open spec fn spec_manager_process(
    m: Map<u16, AccountState>,
    t: Transaction,
) -> Map<u16, AccountState> {
    if !t.is_valid() {
        m
    } else {
        let cur = if m.dom().contains(t.client) {
            m[t.client]
        } else {
            fresh_state(t.client)
        };
        if cur.frozen {
            m
        } else {
            m.insert(t.client, spec_account_process(cur, t))
        }
    }
}

impl AccountManager {
    /// The mathematical model of the ledger: the model of every account,
    /// keyed by client id.
    pub open spec fn model(self) -> Map<u16, AccountState> {
        Map::new(
            |c: u16| self.accounts@.dom().contains(c),
            |c: u16| self.accounts@[c].model(),
        )
    }

    /// Every stored account satisfies the account invariant and sits under
    /// its own client id.
    pub open spec fn inv(self) -> bool {
        forall|c: u16| #[trigger] self.accounts@.dom().contains(c)
            ==> self.accounts@[c].inv() && self.accounts@[c].model().client == c
    }

    /// Process a single transaction: validate it, find or create the target
    /// account, and let the account apply it unless the account is frozen.
    pub fn process_transaction(&mut self, transaction: Transaction)
        requires
            old(self).inv(),
        ensures
            final(self).inv(),
            final(self).model() == spec_manager_process(old(self).model(), transaction),
    {
        let ghost pre = self.model();
        if let Some(t) = transaction.validate() {
            let opt = self.accounts.remove(&t.client);
            match opt {
                Some(mut account) => {
                    if !account.is_frozen() {
                        account.process_transaction(t);
                    }
                    self.accounts.insert(t.client, account);
                    proof {
                        assert(self.model() =~= spec_manager_process(pre, transaction));
                    }
                },
                None => {
                    let mut account = Account::new(t.client);
                    account.process_transaction(t);
                    self.accounts.insert(t.client, account);
                    proof {
                        assert(self.model() =~= spec_manager_process(pre, transaction));
                    }
                },
            }
        } else {
            proof {
                assert(self.model() =~= spec_manager_process(pre, transaction));
            }
        }
    }

    /// The available balance of a given client, zero when the client is
    /// unknown.
    pub fn _get_client_balance(&self, client_id: &u16) -> (r: i64)
        ensures
            r as int == if self.model().dom().contains(*client_id) {
                self.model()[*client_id].available
            } else {
                0
            },
    {
        match self.accounts.get(client_id) {
            Some(client) => client.get_available_amount(),
            None => 0,
        }
    }
}

impl Default for AccountManager {
    /// An empty ledger with no accounts.
    fn default() -> (r: Self)
        ensures
            r.model() == Map::<u16, AccountState>::empty(),
            r.inv(),
    {
        let r = AccountManager { accounts: HashMap::new() };
        proof {
            assert(r.model() =~= Map::<u16, AccountState>::empty());
        }
        r
    }
}

} // verus!
