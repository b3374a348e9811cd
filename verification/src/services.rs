//! The transaction engine: how one incoming record moves the ledger and the
//! store from one state to the next.

use crate::accounts::Account;
use crate::accounts::AccountsCache;
use crate::accounts::acc_index;
use crate::accounts::accounts_wf;
use crate::accounts::chargeback_effect;
use crate::accounts::deposit_effect;
use crate::accounts::dispute_effect;
use crate::accounts::has_client;
use crate::accounts::initialize_effect;
use crate::accounts::lemma_acc_index;
use crate::accounts::resolve_effect;
use crate::accounts::withdrawal_effect;
use crate::transactions::Transaction;
use crate::transactions::TransactionCache;
use crate::transactions::TransactionType;
use crate::transactions::insert_effect;
use crate::transactions::lemma_tx_index;
use crate::transactions::store_wf;
use crate::transactions::tx_index;
use vstd::prelude::*;

verus! {

/// The ledger after one record is applied to the state `(acc, store)`.
///
/// The decision order is: a record for an unknown client opens an account
/// only when it is a deposit and is dropped otherwise; a deposit or
/// withdrawal for a known client is always retained; a locked account drops
/// every record; otherwise the record's kind dispatches to the matching
/// balance mutation, with the dispute lifecycle guarded by the retained
/// record's dispute flag.
pub open spec fn step_accounts(acc: Seq<Account>, store: Seq<Transaction>, tx: Transaction) -> Seq<
    Account,
> {
    if !has_client(acc, tx.client_id) {
        initialize_effect(acc, tx)
    } else {
        let i = acc_index(acc, tx.client_id);
        let a = acc[i];
        if a.locked {
            acc
        } else {
            match tx.transaction_type {
                TransactionType::Deposit => acc.update(i, deposit_effect(a, tx.amount->0)),
                TransactionType::Withdrawal => acc.update(i, withdrawal_effect(a, tx.amount->0)),
                TransactionType::Dispute => {
                    let j = tx_index(store, tx.tx_id);
                    if j >= 0 {
                        acc.update(i, dispute_effect(a, store[j].amount->0))
                    } else {
                        acc
                    }
                },
                TransactionType::Resolve => {
                    let j = tx_index(store, tx.tx_id);
                    if j >= 0 && store[j].disputed {
                        acc.update(i, resolve_effect(a, store[j].amount->0))
                    } else {
                        acc
                    }
                },
                TransactionType::Chargeback => {
                    let j = tx_index(store, tx.tx_id);
                    if j >= 0 && store[j].disputed {
                        acc.update(i, chargeback_effect(a, store[j].amount->0))
                    } else {
                        acc
                    }
                },
            }
        }
    }
}

/// The store after one record is applied to the state `(acc, store)`.
///
/// A deposit or withdrawal is retained (also when its client's account is
/// locked or its client is unknown-but-bootstrapped); a dispute sets the
/// referenced record's flag, a resolve or chargeback of a disputed record
/// clears it; everything else leaves the store alone.
pub open spec fn step_store(acc: Seq<Account>, store: Seq<Transaction>, tx: Transaction) -> Seq<
    Transaction,
> {
    if !has_client(acc, tx.client_id) {
        if tx.transaction_type is Deposit {
            insert_effect(store, tx)
        } else {
            store
        }
    } else {
        let i = acc_index(acc, tx.client_id);
        let a = acc[i];
        if a.locked {
            insert_effect(store, tx)
        } else {
            match tx.transaction_type {
                TransactionType::Deposit => insert_effect(store, tx),
                TransactionType::Withdrawal => insert_effect(store, tx),
                TransactionType::Dispute => {
                    let j = tx_index(store, tx.tx_id);
                    if j >= 0 {
                        store.update(j, Transaction { disputed: true, ..store[j] })
                    } else {
                        store
                    }
                },
                TransactionType::Resolve => {
                    let j = tx_index(store, tx.tx_id);
                    if j >= 0 && store[j].disputed {
                        store.update(j, Transaction { disputed: false, ..store[j] })
                    } else {
                        store
                    }
                },
                TransactionType::Chargeback => {
                    let j = tx_index(store, tx.tx_id);
                    if j >= 0 && store[j].disputed {
                        store.update(j, Transaction { disputed: false, ..store[j] })
                    } else {
                        store
                    }
                },
            }
        }
    }
}

/// One step keeps both state invariants: distinct clients with conserved
/// funds in the ledger, and a store of distinct, well-formed deposits and
/// withdrawals.
pub proof fn lemma_step_preserves_wf(acc: Seq<Account>, store: Seq<Transaction>, tx: Transaction)
    requires
        accounts_wf(acc),
        store_wf(store),
        tx.wf(),
    ensures
        accounts_wf(step_accounts(acc, store, tx)),
        store_wf(step_store(acc, store, tx)),
{
    lemma_acc_index(acc, tx.client_id);
    lemma_tx_index(store, tx.tx_id);
}

/// The engine. It exclusively owns the ledger and the store for the
/// duration of a run; records are applied in arrival order.
pub struct TransactionService {
    accounts: AccountsCache,
    transactions: TransactionCache,
}

impl TransactionService {
    /// The ledger state, in account-opening order.
    pub closed spec fn ledger(&self) -> Seq<Account> {
        self.accounts@
    }

    /// The retained deposit and withdrawal records.
    pub closed spec fn retained(&self) -> Seq<Transaction> {
        self.transactions@
    }

    /// Both state invariants hold.
    pub open spec fn wf(&self) -> bool {
        accounts_wf(self.ledger()) && store_wf(self.retained())
    }

    pub fn new() -> (r: TransactionService)
        ensures
            r.wf(),
            r.ledger() == Seq::<Account>::empty(),
            r.retained() == Seq::<Transaction>::empty(),
    {
        TransactionService { accounts: AccountsCache::new(), transactions: TransactionCache::new() }
    }

    /// Render the current ledger as the final report.
    pub fn print_accounts(&self) -> (r: String)
        ensures
            r@ == crate::format::report_chars(self.ledger()),
    {
        crate::format::render_report(&self.accounts)
    }

    /// Apply one record: the new state is exactly `step_accounts` and
    /// `step_store` of the old one.
    pub fn apply_transaction(&mut self, tx: &Transaction)
        requires
            old(self).wf(),
            tx.wf(),
        ensures
            final(self).wf(),
            final(self).ledger() == step_accounts(old(self).ledger(), old(self).retained(), *tx),
            final(self).retained() == step_store(old(self).ledger(), old(self).retained(), *tx),
    {
        proof {
            lemma_step_preserves_wf(self.ledger(), self.retained(), *tx);
        }
        let idx_opt = self.accounts.find(&tx.client_id);
        match idx_opt {
            None => {
                // A new account is defined by its opening deposit: any other
                // first-ever kind for this client is dropped, unretained.
                if let TransactionType::Deposit = tx.transaction_type {
                    self.accounts.initialize_account(tx);
                    self.transactions.insert(*tx);
                }
            },
            Some(i) => {
                self.transactions.insert(*tx);
                let a = self.accounts.account_at(i);
                if a.locked {
                    return ;
                }
                match tx.transaction_type {
                    TransactionType::Deposit => {
                        let mut acct = a;
                        acct.apply_deposit(tx.amount.unwrap());
                        self.accounts.set_account(i, acct);
                    },
                    TransactionType::Withdrawal => {
                        let mut acct = a;
                        acct.apply_withdrawal(tx.amount.unwrap());
                        self.accounts.set_account(i, acct);
                    },
                    TransactionType::Dispute => {
                        match self.transactions.find(&tx.tx_id) {
                            Some(j) => {
                                let r = self.transactions.record_at(j);
                                self.transactions.set_disputed(j, true);
                                let mut acct = a;
                                acct.apply_dispute(r.amount.unwrap());
                                self.accounts.set_account(i, acct);
                            },
                            None => {},
                        }
                    },
                    TransactionType::Resolve => {
                        match self.transactions.find(&tx.tx_id) {
                            Some(j) => {
                                let r = self.transactions.record_at(j);
                                if r.disputed {
                                    self.transactions.set_disputed(j, false);
                                    let mut acct = a;
                                    acct.apply_resolve(r.amount.unwrap());
                                    self.accounts.set_account(i, acct);
                                }
                            },
                            None => {},
                        }
                    },
                    TransactionType::Chargeback => {
                        match self.transactions.find(&tx.tx_id) {
                            Some(j) => {
                                let r = self.transactions.record_at(j);
                                if r.disputed {
                                    self.transactions.set_disputed(j, false);
                                    let mut acct = a;
                                    acct.apply_chargeback(r.amount.unwrap());
                                    self.accounts.set_account(i, acct);
                                }
                            },
                            None => {},
                        }
                    },
                }
            },
        }
    }
}

} // verus!
