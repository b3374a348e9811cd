//! The laws the engine obeys, stated over the step functions and proved for
//! every state and record.

use crate::accounts::Account;
use crate::accounts::accounts_wf;
use crate::accounts::dispute_effect;
use crate::accounts::fits_i64;
use crate::accounts::has_client;
use crate::accounts::lemma_acc_index;
use crate::accounts::resolve_effect;
use crate::services::step_accounts;
use crate::services::step_store;
use crate::services::lemma_step_preserves_wf;
use crate::transactions::Transaction;
use crate::transactions::TransactionType;
use crate::transactions::has_tx;
use crate::transactions::lemma_tx_index;
use crate::transactions::store_wf;
use crate::transactions::tx_index;
use vstd::prelude::*;

verus! {

/// Conservation at rest: after a record is applied to a well-formed state,
/// every account in the ledger keeps `total == available + held`.
pub proof fn lemma_conservation(
    acc: Seq<Account>,
    store: Seq<Transaction>,
    tx: Transaction,
    i: int,
)
    requires
        accounts_wf(acc),
        store_wf(store),
        tx.wf(),
        0 <= i < step_accounts(acc, store, tx).len(),
    ensures
        step_accounts(acc, store, tx)[i].inv(),
{
    lemma_step_preserves_wf(acc, store, tx);
}

/// Lock monotonicity: once an account is locked, no record mutates it.
pub proof fn lemma_lock_monotone(
    acc: Seq<Account>,
    store: Seq<Transaction>,
    tx: Transaction,
    i: int,
)
    requires
        accounts_wf(acc),
        0 <= i < acc.len(),
        acc[i].locked,
    ensures
        0 <= i < step_accounts(acc, store, tx).len(),
        step_accounts(acc, store, tx)[i] == acc[i],
{
    lemma_acc_index(acc, tx.client_id);
}

/// Whether every record of a stream is well formed.
pub open spec fn all_wf(txs: Seq<Transaction>) -> bool {
    forall|k: int| 0 <= k < txs.len() ==> (#[trigger] txs[k]).wf()
}

/// The state after a whole stream of records is applied, one step per
/// record, in arrival order.
pub open spec fn run_records(
    acc: Seq<Account>,
    store: Seq<Transaction>,
    txs: Seq<Transaction>,
) -> (Seq<Account>, Seq<Transaction>)
    decreases txs.len(),
{
    if txs.len() == 0 {
        (acc, store)
    } else {
        run_records(
            step_accounts(acc, store, txs[0]),
            step_store(acc, store, txs[0]),
            txs.drop_first(),
        )
    }
}

/// A whole stream keeps both state invariants; in particular every account
/// still conserves funds after every record has been applied.
pub proof fn lemma_run_preserves_wf(acc: Seq<Account>, store: Seq<Transaction>, txs: Seq<Transaction>)
    requires
        accounts_wf(acc),
        store_wf(store),
        all_wf(txs),
    ensures
        accounts_wf(run_records(acc, store, txs).0),
        store_wf(run_records(acc, store, txs).1),
    decreases txs.len(),
{
    if txs.len() > 0 {
        lemma_step_preserves_wf(acc, store, txs[0]);
        assert forall|k: int| 0 <= k < txs.drop_first().len() implies (#[trigger] txs.drop_first()[
            k
        ]).wf() by {
            assert(txs.drop_first()[k] == txs[k + 1]);
        }
        lemma_run_preserves_wf(
            step_accounts(acc, store, txs[0]),
            step_store(acc, store, txs[0]),
            txs.drop_first(),
        );
    }
}

/// Lock monotonicity over a whole stream: once an account is locked, no
/// subsequent record mutates it, however long the rest of the stream is.
pub proof fn lemma_lock_monotone_run(
    acc: Seq<Account>,
    store: Seq<Transaction>,
    txs: Seq<Transaction>,
    i: int,
)
    requires
        accounts_wf(acc),
        store_wf(store),
        all_wf(txs),
        0 <= i < acc.len(),
        acc[i].locked,
    ensures
        0 <= i < run_records(acc, store, txs).0.len(),
        run_records(acc, store, txs).0[i] == acc[i],
    decreases txs.len(),
{
    if txs.len() > 0 {
        lemma_lock_monotone(acc, store, txs[0], i);
        lemma_step_preserves_wf(acc, store, txs[0]);
        assert forall|k: int| 0 <= k < txs.drop_first().len() implies (#[trigger] txs.drop_first()[
            k
        ]).wf() by {
            assert(txs.drop_first()[k] == txs[k + 1]);
        }
        lemma_lock_monotone_run(
            step_accounts(acc, store, txs[0]),
            step_store(acc, store, txs[0]),
            txs.drop_first(),
            i,
        );
    }
}

/// Dispute retention: a dispute, resolve or chargeback that changed
/// anything referenced a retained record, and every retained record is a
/// deposit or a withdrawal.
pub proof fn lemma_dispute_retention(acc: Seq<Account>, store: Seq<Transaction>, tx: Transaction)
    requires
        store_wf(store),
        tx.transaction_type is Dispute || tx.transaction_type is Resolve
            || tx.transaction_type is Chargeback,
        step_accounts(acc, store, tx) != acc || step_store(acc, store, tx) != store,
    ensures
        has_tx(store, tx.tx_id),
        store[tx_index(store, tx.tx_id)].transaction_type is Deposit || store[
            tx_index(store, tx.tx_id)
        ].transaction_type is Withdrawal,
{
    lemma_tx_index(store, tx.tx_id);
}

/// Undisputed guard: a resolve or chargeback that changed anything found
/// the referenced record's dispute flag set.
pub proof fn lemma_undisputed_guard(acc: Seq<Account>, store: Seq<Transaction>, tx: Transaction)
    requires
        tx.transaction_type is Resolve || tx.transaction_type is Chargeback,
        step_accounts(acc, store, tx) != acc || step_store(acc, store, tx) != store,
    ensures
        has_tx(store, tx.tx_id),
        store[tx_index(store, tx.tx_id)].disputed,
{
    lemma_tx_index(store, tx.tx_id);
}

/// The dispute flag, in turn, is set only by a dispute of that very
/// transaction id: an incoming record arrives undisputed, and any record
/// whose flag is set after a step either had it set before and was left
/// alone, or is the target of this dispute. So a resolve or chargeback
/// takes effect exactly when the last effective event for its transaction
/// id was a dispute.
pub proof fn lemma_flag_set_only_by_dispute(
    acc: Seq<Account>,
    store: Seq<Transaction>,
    tx: Transaction,
    j: int,
)
    requires
        store_wf(store),
        !tx.disputed,
        0 <= j < step_store(acc, store, tx).len(),
        step_store(acc, store, tx)[j].disputed,
    ensures
        (j < store.len() && store[j].disputed && step_store(acc, store, tx)[j] == store[j]) || (
        tx.transaction_type is Dispute && step_store(acc, store, tx)[j].tx_id == tx.tx_id),
{
    lemma_acc_index(acc, tx.client_id);
    lemma_tx_index(store, tx.tx_id);
}

/// Withdrawal safety: a withdrawal changes an account only when the account
/// belongs to the record's client and has at least the amount available.
pub proof fn lemma_withdrawal_safety(
    acc: Seq<Account>,
    store: Seq<Transaction>,
    tx: Transaction,
    i: int,
)
    requires
        accounts_wf(acc),
        tx.transaction_type is Withdrawal,
        0 <= i < acc.len(),
    ensures
        0 <= i < step_accounts(acc, store, tx).len(),
        step_accounts(acc, store, tx)[i] != acc[i] ==> acc[i].client == tx.client_id && acc[
            i
        ].available >= tx.amount->0,
{
    lemma_acc_index(acc, tx.client_id);
}

/// Bootstrap: the first record touching a new client changes nothing at all
/// unless it is a deposit.
pub proof fn lemma_bootstrap(acc: Seq<Account>, store: Seq<Transaction>, tx: Transaction)
    requires
        !has_client(acc, tx.client_id),
        !(tx.transaction_type is Deposit),
    ensures
        step_accounts(acc, store, tx) == acc,
        step_store(acc, store, tx) == store,
{
}

/// Round trip: resolving right after disputing restores the available and
/// held funds, and neither step moves the total.
pub proof fn lemma_dispute_resolve_roundtrip(a: Account, x: i64)
    requires
        fits_i64(a.available - x),
        fits_i64(a.held + x),
    ensures
        resolve_effect(dispute_effect(a, x), x) == a,
        dispute_effect(a, x).total == a.total,
{
}

} // verus!
