use csv_transaction_processing::accounts::Account;
use csv_transaction_processing::accounts::AccountsCache;
use csv_transaction_processing::services::TransactionService;
use csv_transaction_processing::transactions::Transaction;
use csv_transaction_processing::transactions::TransactionCache;
use csv_transaction_processing::transactions::TransactionType;

fn record(kind: TransactionType, client: u16, tx: u32, amount: Option<i64>) -> Transaction {
    Transaction { transaction_type: kind, client_id: client, tx_id: tx, amount, disputed: false }
}

#[test]
fn account_mutators_move_the_balances() {
    let mut a = Account::new(7, 5_0000);
    assert_eq!((a.available, a.held, a.total, a.locked), (5_0000, 0, 5_0000, false));
    a.apply_deposit(2_5000);
    assert_eq!((a.available, a.held, a.total), (7_5000, 0, 7_5000));
    a.apply_withdrawal(1_0000);
    assert_eq!((a.available, a.held, a.total), (6_5000, 0, 6_5000));
    a.apply_dispute(2_0000);
    assert_eq!((a.available, a.held, a.total), (4_5000, 2_0000, 6_5000));
    a.apply_resolve(2_0000);
    assert_eq!((a.available, a.held, a.total), (6_5000, 0, 6_5000));
    a.apply_dispute(6_5000);
    a.apply_chargeback(6_5000);
    assert_eq!((a.available, a.held, a.total, a.locked), (0, 0, 0, true));
}

#[test]
fn withdrawal_beyond_available_is_a_no_op() {
    let mut a = Account::new(1, 1_0000);
    a.apply_withdrawal(1_0001);
    assert_eq!((a.available, a.total), (1_0000, 1_0000));
}

#[test]
fn deposit_overflow_is_a_no_op() {
    let mut a = Account::new(1, i64::MAX);
    a.apply_deposit(1);
    assert_eq!((a.available, a.total), (i64::MAX, i64::MAX));
}

#[test]
fn ledger_opens_accounts_only_for_deposits() {
    let mut cache = AccountsCache::new();
    cache.initialize_account(&record(TransactionType::Deposit, 3, 1, Some(4_0000)));
    assert!(cache.contains_key(&3));
    assert!(!cache.contains_key(&4));
    let i = cache.find(&3).unwrap();
    let a = cache.account_at(i);
    assert_eq!((a.client, a.available, a.held, a.total, a.locked), (3, 4_0000, 0, 4_0000, false));
}

#[test]
fn get_mut_reaches_the_stored_account() {
    let mut cache = AccountsCache::new();
    cache.initialize_account(&record(TransactionType::Deposit, 3, 1, Some(4_0000)));
    assert!(cache.get_mut(&9).is_none());
    let a = cache.get_mut(&3).unwrap();
    a.apply_deposit(1_0000);
    let i = cache.find(&3).unwrap();
    assert_eq!(cache.account_at(i).available, 5_0000);
}

#[test]
fn get_mut_reaches_the_retained_record() {
    let mut store = TransactionCache::new();
    store.insert(record(TransactionType::Deposit, 1, 1, Some(1_0000)));
    assert!(store.get_mut(&2).is_none());
    let r = store.get_mut(&1).unwrap();
    r.disputed = true;
    let i = store.find(&1).unwrap();
    assert!(store.record_at(i).disputed);
}

#[test]
fn store_retains_only_deposits_and_withdrawals() {
    let mut store = TransactionCache::new();
    store.insert(record(TransactionType::Deposit, 1, 1, Some(1_0000)));
    store.insert(record(TransactionType::Withdrawal, 1, 2, Some(5000)));
    store.insert(record(TransactionType::Dispute, 1, 3, None));
    assert!(store.contains_key(&1));
    assert!(store.contains_key(&2));
    assert!(!store.contains_key(&3));
}

#[test]
fn store_insert_overwrites_and_clears_the_flag() {
    let mut store = TransactionCache::new();
    store.insert(record(TransactionType::Deposit, 1, 1, Some(1_0000)));
    let i = store.find(&1).unwrap();
    store.set_disputed(i, true);
    assert!(store.record_at(i).disputed);
    store.insert(record(TransactionType::Deposit, 1, 1, Some(2_0000)));
    let j = store.find(&1).unwrap();
    let r = store.record_at(j);
    assert_eq!(r.amount, Some(2_0000));
    assert!(!r.disputed);
}

#[test]
fn service_applies_a_dispute_lifecycle() {
    let mut svc = TransactionService::new();
    svc.apply_transaction(&record(TransactionType::Deposit, 1, 1, Some(5_0000)));
    svc.apply_transaction(&record(TransactionType::Dispute, 1, 1, None));
    let held = svc.print_accounts();
    assert_eq!(held, "client,available,held,total,locked\n1,0.0000,5.0000,5.0000,false\n");
    svc.apply_transaction(&record(TransactionType::Resolve, 1, 1, None));
    let released = svc.print_accounts();
    assert_eq!(released, "client,available,held,total,locked\n1,5.0000,0.0000,5.0000,false\n");
}

#[test]
fn service_reports_accounts_in_opening_order() {
    let mut svc = TransactionService::new();
    svc.apply_transaction(&record(TransactionType::Deposit, 9, 1, Some(1_0000)));
    svc.apply_transaction(&record(TransactionType::Deposit, 2, 2, Some(2_0000)));
    let got = svc.print_accounts();
    assert_eq!(
        got,
        "client,available,held,total,locked\n9,1.0000,0.0000,1.0000,false\n2,2.0000,0.0000,2.0000,false\n"
    );
}
