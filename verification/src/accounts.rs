//! Per-client account state, the exact effect of each balance mutation, and
//! the ledger that maps client ids to accounts.

use crate::transactions::Transaction;
use crate::transactions::TransactionType;
use vstd::prelude::*;

verus! {

/// True when `v` can be stored in an `i64`. Balance mutations that would
/// leave this range are dropped, the same way the engine drops any other
/// record that fails a guard.
pub open spec fn fits_i64(v: int) -> bool {
    i64::MIN <= v <= i64::MAX
}

/// One client's account. Balances are fixed-scale integers counting
/// ten-thousandths.
#[derive(Clone, Copy, Debug, PartialEq, Eq, Structural)]
pub struct Account {
    /// The unique client id for the account in question.
    pub client: u16,
    /// Funds free for withdrawal or further dispute.
    pub available: i64,
    /// Funds currently held for dispute.
    pub held: i64,
    /// The sum of the available and the held funds.
    pub total: i64,
    /// Set once a chargeback occurs; suppresses every later mutation.
    pub locked: bool,
}

impl Account {
    /// Conservation: the total is always the available plus the held funds.
    pub open spec fn inv(&self) -> bool {
        self.total == self.available + self.held
    }
}

/// What a deposit of `x` does: both `available` and `total` grow by `x`,
/// unless either sum leaves the `i64` range, in which case nothing changes.
pub open spec fn deposit_effect(a: Account, x: i64) -> Account {
    if fits_i64(a.available + x) && fits_i64(a.total + x) {
        Account {
            client: a.client,
            available: (a.available + x) as i64,
            held: a.held,
            total: (a.total + x) as i64,
            locked: a.locked,
        }
    } else {
        a
    }
}

/// What a withdrawal of `x` does: nothing when `available < x` (or when the
/// new total would leave the `i64` range); otherwise `available` and `total`
/// shrink by `x`.
pub open spec fn withdrawal_effect(a: Account, x: i64) -> Account {
    if a.available >= x && fits_i64(a.available - x) && fits_i64(a.total - x) {
        Account {
            client: a.client,
            available: (a.available - x) as i64,
            held: a.held,
            total: (a.total - x) as i64,
            locked: a.locked,
        }
    } else {
        a
    }
}

/// What disputing a record of amount `x` does: the amount moves from
/// `available` to `held`; `total` is untouched. There is no guard against
/// `available` going negative.
pub open spec fn dispute_effect(a: Account, x: i64) -> Account {
    if fits_i64(a.available - x) && fits_i64(a.held + x) {
        Account {
            client: a.client,
            available: (a.available - x) as i64,
            held: (a.held + x) as i64,
            total: a.total,
            locked: a.locked,
        }
    } else {
        a
    }
}

/// What resolving a dispute of amount `x` does: the amount moves back from
/// `held` to `available`; `total` is untouched.
pub open spec fn resolve_effect(a: Account, x: i64) -> Account {
    if fits_i64(a.held - x) && fits_i64(a.available + x) {
        Account {
            client: a.client,
            available: (a.available + x) as i64,
            held: (a.held - x) as i64,
            total: a.total,
            locked: a.locked,
        }
    } else {
        a
    }
}

/// What a chargeback of amount `x` does: the held amount and the total both
/// shrink by `x`, and the account is locked.
pub open spec fn chargeback_effect(a: Account, x: i64) -> Account {
    if fits_i64(a.held - x) && fits_i64(a.total - x) {
        Account {
            client: a.client,
            available: a.available,
            held: (a.held - x) as i64,
            total: (a.total - x) as i64,
            locked: true,
        }
    } else {
        Account {
            client: a.client,
            available: a.available,
            held: a.held,
            total: a.total,
            locked: true,
        }
    }
}

impl Account {
    /// A brand new account holds its opening deposit as available funds,
    /// holds nothing for dispute, and is not locked.
    pub fn new(client_id: u16, initial_deposit: i64) -> (a: Account)
        ensures
            a == (Account {
                client: client_id,
                available: initial_deposit,
                held: 0,
                total: initial_deposit,
                locked: false,
            }),
    {
        Account {
            client: client_id,
            total: initial_deposit,
            held: 0,
            available: initial_deposit,
            locked: false,
        }
    }

    pub fn apply_deposit(&mut self, deposit_amt: i64)
        ensures
            *final(self) == deposit_effect(*old(self), deposit_amt),
    {
        match (self.available.checked_add(deposit_amt), self.total.checked_add(deposit_amt)) {
            (Some(av), Some(t)) => {
                self.available = av;
                self.total = t;
            },
            _ => {},
        }
    }

    pub fn apply_withdrawal(&mut self, withdrawal_amt: i64)
        ensures
            *final(self) == withdrawal_effect(*old(self), withdrawal_amt),
    {
        if self.available < withdrawal_amt {
            return;
        }
        match (self.available.checked_sub(withdrawal_amt), self.total.checked_sub(withdrawal_amt)) {
            (Some(av), Some(t)) => {
                self.available = av;
                self.total = t;
            },
            _ => {},
        }
    }

    pub fn apply_dispute(&mut self, disputed_amt: i64)
        ensures
            *final(self) == dispute_effect(*old(self), disputed_amt),
    {
        match (self.available.checked_sub(disputed_amt), self.held.checked_add(disputed_amt)) {
            (Some(av), Some(h)) => {
                self.available = av;
                self.held = h;
            },
            _ => {},
        }
    }

    pub fn apply_resolve(&mut self, resolve_amt: i64)
        ensures
            *final(self) == resolve_effect(*old(self), resolve_amt),
    {
        match (self.held.checked_sub(resolve_amt), self.available.checked_add(resolve_amt)) {
            (Some(h), Some(av)) => {
                self.held = h;
                self.available = av;
            },
            _ => {},
        }
    }

    pub fn apply_chargeback(&mut self, chargeback_amt: i64)
        ensures
            *final(self) == chargeback_effect(*old(self), chargeback_amt),
    {
        self.locked = true;
        match (self.held.checked_sub(chargeback_amt), self.total.checked_sub(chargeback_amt)) {
            (Some(h), Some(t)) => {
                self.held = h;
                self.total = t;
            },
            _ => {},
        }
    }
}

/// Index of the first account in `s` that belongs to client `c`, or `-1`
/// when no account does.
pub open spec fn acc_index(s: Seq<Account>, c: u16) -> int
    decreases s.len(),
{
    if s.len() == 0 {
        -1
    } else if s[0].client == c {
        0
    } else {
        let r = acc_index(s.drop_first(), c);
        if r < 0 {
            -1
        } else {
            r + 1
        }
    }
}

/// Whether some account in `s` belongs to client `c`.
pub open spec fn has_client(s: Seq<Account>, c: u16) -> bool {
    acc_index(s, c) >= 0
}

/// `acc_index` either points at the first account of the client, or is
/// negative and no account belongs to the client.
pub proof fn lemma_acc_index(s: Seq<Account>, c: u16)
    ensures
        acc_index(s, c) >= 0 ==> acc_index(s, c) < s.len() && s[acc_index(s, c)].client == c,
        acc_index(s, c) >= 0 ==> forall|j: int| 0 <= j < acc_index(s, c) ==> s[j].client != c,
        acc_index(s, c) < 0 ==> forall|j: int| 0 <= j < s.len() ==> s[j].client != c,
    decreases s.len(),
{
    if s.len() != 0 && s[0].client != c {
        lemma_acc_index(s.drop_first(), c);
        assert forall|j: int| 1 <= j < s.len() implies s.drop_first()[j - 1] == s[j] by {}
    }
}

/// Converse direction: an index that is first for client `c` is `acc_index`.
pub proof fn lemma_acc_index_is_first(s: Seq<Account>, c: u16, i: int)
    requires
        0 <= i < s.len(),
        s[i].client == c,
        forall|j: int| 0 <= j < i ==> s[j].client != c,
    ensures
        acc_index(s, c) == i,
    decreases s.len(),
{
    if s[0].client != c {
        lemma_acc_index_is_first(s.drop_first(), c, i - 1);
    }
}

/// Converse direction: a client that owns no account has a negative index.
pub proof fn lemma_acc_index_absent(s: Seq<Account>, c: u16)
    requires
        forall|j: int| 0 <= j < s.len() ==> s[j].client != c,
    ensures
        acc_index(s, c) < 0,
    decreases s.len(),
{
    if s.len() != 0 {
        lemma_acc_index_absent(s.drop_first(), c);
    }
}

/// Well-formedness of a ledger: client ids are pairwise distinct and every
/// account conserves funds.
pub open spec fn accounts_wf(s: Seq<Account>) -> bool {
    &&& forall|i: int, j: int|
        #![trigger s[i].client, s[j].client]
        0 <= i < j < s.len() ==> s[i].client != s[j].client
    &&& forall|i: int| 0 <= i < s.len() ==> (#[trigger] s[i]).inv()
}

/// The in-memory ledger: the current state of every client account, in the
/// order the accounts were opened.
pub struct AccountsCache {
    store: Vec<Account>,
}

impl View for AccountsCache {
    type V = Seq<Account>;

    closed spec fn view(&self) -> Seq<Account> {
        self.store@
    }
}

impl AccountsCache {
    pub fn new() -> (r: AccountsCache)
        ensures
            r@ == Seq::<Account>::empty(),
    {
        AccountsCache { store: Vec::new() }
    }

    /// Position of the client's account, when one exists.
    pub fn find(&self, client_id: &u16) -> (r: Option<usize>)
        ensures
            match r {
                Some(i) => i < self@.len() && i == acc_index(self@, *client_id) && self@[
                    i as int
                ].client == *client_id,
                None => !has_client(self@, *client_id),
            },
    {
        let ghost s = self@;
        let mut i: usize = 0;
        while i < self.store.len()
            invariant
                i <= s.len(),
                s == self@,
                forall|j: int| 0 <= j < i ==> s[j].client != *client_id,
            decreases s.len() - i,
        {
            if self.store[i].client == *client_id {
                proof {
                    lemma_acc_index_is_first(s, *client_id, i as int);
                }
                return Some(i);
            }
            i = i + 1;
        }
        proof {
            lemma_acc_index_absent(s, *client_id);
        }
        None
    }

    /// A mutable borrow of the client's account, when one exists.
    pub fn get_mut(&mut self, client_id: &u16) -> (r: Option<&mut Account>)
        ensures
            match r {
                Some(a) => has_client(old(self)@, *client_id) && *a == old(self)@[acc_index(
                    old(self)@,
                    *client_id,
                )] && final(self)@ == old(self)@.update(
                    acc_index(old(self)@, *client_id),
                    *final(a),
                ),
                None => !has_client(old(self)@, *client_id) && final(self)@ == old(self)@,
            },
    {
        match self.find(client_id) {
            Some(i) => Some(&mut self.store[i]),
            None => None,
        }
    }

    pub fn contains_key(&mut self, client_id: &u16) -> (r: bool)
        ensures
            *final(self) == *old(self),
            r == has_client(old(self)@, *client_id),
    {
        self.find(client_id).is_some()
    }

    /// How many accounts the ledger holds.
    pub fn len(&self) -> (n: usize)
        ensures
            n == self@.len(),
    {
        self.store.len()
    }

    /// The account at a known position, by value.
    pub fn account_at(&self, i: usize) -> (a: Account)
        requires
            i < self@.len(),
        ensures
            a == self@[i as int],
    {
        self.store[i]
    }

    /// Overwrite the account at a known position.
    pub fn set_account(&mut self, i: usize, a: Account)
        requires
            i < old(self)@.len(),
        ensures
            final(self)@ == old(self)@.update(i as int, a),
    {
        self.store[i] = a;
    }

    /// Open an account for the record's client when the record is a deposit;
    /// any other kind is refused and leaves the ledger unchanged.
    pub fn initialize_account(&mut self, tx: &Transaction)
        requires
            tx.wf(),
            !has_client(old(self)@, tx.client_id),
        ensures
            final(self)@ == initialize_effect(old(self)@, *tx),
    {
        if let TransactionType::Deposit = tx.transaction_type {
            let new_account = Account::new(tx.client_id, tx.amount.unwrap());
            self.store.push(new_account);
        }
    }
}

/// What opening an account does to the ledger: a deposit appends a fresh
/// account funded with its amount; any other kind changes nothing.
pub open spec fn initialize_effect(s: Seq<Account>, tx: Transaction) -> Seq<Account> {
    if tx.transaction_type is Deposit {
        s.push(
            Account {
                client: tx.client_id,
                available: tx.amount->0,
                held: 0,
                total: tx.amount->0,
                locked: false,
            },
        )
    } else {
        s
    }
}

} // verus!
