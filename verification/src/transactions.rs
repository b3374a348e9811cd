//! Transaction records and the store that retains them by transaction id.

use vstd::prelude::*;

verus! {

/// The five kinds of record the engine understands. Deposits and withdrawals
/// move funds; the other three drive the dispute lifecycle of an earlier
/// deposit or withdrawal.
#[derive(Clone, Copy, Debug, PartialEq, Eq, Structural)]
pub enum TransactionType {
    Deposit,
    Withdrawal,
    Dispute,
    Resolve,
    Chargeback,
}

/// One decoded input record. Amounts are fixed-scale integers counting
/// ten-thousandths, so `12_5000` stands for `12.5`. The `amount` field is
/// meaningful only for deposits and withdrawals; `disputed` starts `false`
/// and is flipped by the engine while the record sits in the store.
#[derive(Clone, Copy, Debug)]
pub struct Transaction {
    pub transaction_type: TransactionType,
    pub client_id: u16,
    pub tx_id: u32,
    pub amount: Option<i64>,
    pub disputed: bool,
}

impl Transaction {
    /// A record is well formed when a deposit or withdrawal carries a
    /// non-negative amount.
    pub open spec fn wf(&self) -> bool {
        (self.transaction_type is Deposit || self.transaction_type is Withdrawal) ==> (
            self.amount is Some && self.amount->0 >= 0
        )
    }
}

/// Index of the first retained record in `s` with transaction id `t`, or
/// `-1` when no record has it.
pub open spec fn tx_index(s: Seq<Transaction>, t: u32) -> int
    decreases s.len(),
{
    if s.len() == 0 {
        -1
    } else if s[0].tx_id == t {
        0
    } else {
        let r = tx_index(s.drop_first(), t);
        if r < 0 {
            -1
        } else {
            r + 1
        }
    }
}

/// Whether some retained record in `s` has transaction id `t`.
pub open spec fn has_tx(s: Seq<Transaction>, t: u32) -> bool {
    tx_index(s, t) >= 0
}

/// `tx_index` either points at the first record with the id, or is negative
/// and no record has it.
pub proof fn lemma_tx_index(s: Seq<Transaction>, t: u32)
    ensures
        tx_index(s, t) >= 0 ==> tx_index(s, t) < s.len() && s[tx_index(s, t)].tx_id == t,
        tx_index(s, t) >= 0 ==> forall|j: int| 0 <= j < tx_index(s, t) ==> s[j].tx_id != t,
        tx_index(s, t) < 0 ==> forall|j: int| 0 <= j < s.len() ==> s[j].tx_id != t,
    decreases s.len(),
{
    if s.len() != 0 && s[0].tx_id != t {
        lemma_tx_index(s.drop_first(), t);
        assert forall|j: int| 1 <= j < s.len() implies s.drop_first()[j - 1] == s[j] by {}
    }
}

/// Converse direction: an index that is first for id `t` is `tx_index`.
pub proof fn lemma_tx_index_is_first(s: Seq<Transaction>, t: u32, i: int)
    requires
        0 <= i < s.len(),
        s[i].tx_id == t,
        forall|j: int| 0 <= j < i ==> s[j].tx_id != t,
    ensures
        tx_index(s, t) == i,
    decreases s.len(),
{
    if s[0].tx_id != t {
        lemma_tx_index_is_first(s.drop_first(), t, i - 1);
    }
}

/// Converse direction: an id that no record has yields a negative index.
pub proof fn lemma_tx_index_absent(s: Seq<Transaction>, t: u32)
    requires
        forall|j: int| 0 <= j < s.len() ==> s[j].tx_id != t,
    ensures
        tx_index(s, t) < 0,
    decreases s.len(),
{
    if s.len() != 0 {
        lemma_tx_index_absent(s.drop_first(), t);
    }
}

/// Well-formedness of the store: transaction ids are pairwise distinct and
/// every retained record is a well-formed deposit or withdrawal.
pub open spec fn store_wf(s: Seq<Transaction>) -> bool {
    &&& forall|i: int, j: int|
        #![trigger s[i].tx_id, s[j].tx_id]
        0 <= i < j < s.len() ==> s[i].tx_id != s[j].tx_id
    &&& forall|i: int|
        0 <= i < s.len() ==> (#[trigger] s[i]).wf() && (s[i].transaction_type is Deposit
            || s[i].transaction_type is Withdrawal)
}

/// What retaining a record does to the store: a deposit or withdrawal
/// replaces the record that already carries its transaction id, or is
/// appended when the id is new; any other kind changes nothing.
pub open spec fn insert_effect(s: Seq<Transaction>, tx: Transaction) -> Seq<Transaction> {
    if tx.transaction_type is Deposit || tx.transaction_type is Withdrawal {
        if tx_index(s, tx.tx_id) >= 0 {
            s.update(tx_index(s, tx.tx_id), tx)
        } else {
            s.push(tx)
        }
    } else {
        s
    }
}

/// The in-memory store of every deposit and withdrawal seen so far, keyed by
/// transaction id. Dispute, resolve and chargeback records are consumed by
/// the engine but never retained.
pub struct TransactionCache {
    store: Vec<Transaction>,
}

impl View for TransactionCache {
    type V = Seq<Transaction>;

    closed spec fn view(&self) -> Seq<Transaction> {
        self.store@
    }
}

impl TransactionCache {
    pub fn new() -> (r: TransactionCache)
        ensures
            r@ == Seq::<Transaction>::empty(),
    {
        TransactionCache { store: Vec::new() }
    }

    /// Position of the record with the given id, when one is retained.
    pub fn find(&self, tx_id: &u32) -> (r: Option<usize>)
        ensures
            match r {
                Some(i) => i < self@.len() && i == tx_index(self@, *tx_id) && self@[
                    i as int
                ].tx_id == *tx_id,
                None => !has_tx(self@, *tx_id),
            },
    {
        let ghost s = self@;
        let mut i: usize = 0;
        while i < self.store.len()
            invariant
                i <= s.len(),
                s == self@,
                forall|j: int| 0 <= j < i ==> s[j].tx_id != *tx_id,
            decreases s.len() - i,
        {
            if self.store[i].tx_id == *tx_id {
                proof {
                    lemma_tx_index_is_first(s, *tx_id, i as int);
                }
                return Some(i);
            }
            i = i + 1;
        }
        proof {
            lemma_tx_index_absent(s, *tx_id);
        }
        None
    }

    /// Retain a deposit or withdrawal under its transaction id, last write
    /// winning; consume any other kind without retaining it.
    pub fn insert(&mut self, tx: Transaction)
        ensures
            final(self)@ == insert_effect(old(self)@, tx),
    {
        match tx.transaction_type {
            TransactionType::Withdrawal | TransactionType::Deposit => {
                match self.find(&tx.tx_id) {
                    Some(i) => {
                        self.store[i] = tx;
                    },
                    None => {
                        self.store.push(tx);
                    },
                }
            },
            _ => {},
        }
    }

    /// A mutable borrow of the retained record with the given id, when one
    /// exists.
    pub fn get_mut(&mut self, tx_id: &u32) -> (r: Option<&mut Transaction>)
        ensures
            match r {
                Some(t) => has_tx(old(self)@, *tx_id) && *t == old(self)@[tx_index(
                    old(self)@,
                    *tx_id,
                )] && final(self)@ == old(self)@.update(tx_index(old(self)@, *tx_id), *final(t)),
                None => !has_tx(old(self)@, *tx_id) && final(self)@ == old(self)@,
            },
    {
        match self.find(tx_id) {
            Some(i) => Some(&mut self.store[i]),
            None => None,
        }
    }

    pub fn contains_key(&mut self, tx_id: &u32) -> (r: bool)
        ensures
            *final(self) == *old(self),
            r == has_tx(old(self)@, *tx_id),
    {
        self.find(tx_id).is_some()
    }

    /// The retained record at a known position, by value.
    pub fn record_at(&self, i: usize) -> (tx: Transaction)
        requires
            i < self@.len(),
        ensures
            tx == self@[i as int],
    {
        self.store[i]
    }

    /// Flip the dispute flag of the record at a known position.
    pub fn set_disputed(&mut self, i: usize, disputed: bool)
        requires
            i < old(self)@.len(),
        ensures
            final(self)@ == old(self)@.update(
                i as int,
                Transaction { disputed, ..old(self)@[i as int] },
            ),
    {
        let mut tx = self.store[i];
        tx.disputed = disputed;
        self.store[i] = tx;
    }
}

} // verus!
