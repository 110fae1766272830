use lever::sync::rerwlock::Container;
use lever::txn::conflicts::{Compare, CompareSet, ConflictManager};
use lever::txn::errors::TxnErrorType;
use lever::txn::readset::{ReadMark, ReadSet};
use lever::txn::transact::{
    TransactionConcurrency, TransactionIsolation, TransactionState, Txn, TxnManager,
};
use lever::txn::vars::TVar;
use lever::txn::version::Version;
use lever::txn::writeset::{WriteMark, WriteSet};
use std::cmp::Ordering;

fn build(mgr: &mut TxnManager<i64>, iso: TransactionIsolation) -> Txn<i64> {
    mgr.txn_build(
        TransactionConcurrency::Optimistic,
        iso,
        100,
        1,
        "txn_label".to_string(),
    )
    .unwrap()
}

#[test]
fn single_thread_counter() {
    let mut mgr: TxnManager<i64> = TxnManager::manager();
    let var = TVar::new(&mut mgr, 100);
    let mut txn = build(&mut mgr, TransactionIsolation::RepeatableRead);
    let seen = txn
        .begin(&mut mgr, |t, m| {
            let v = t.read(m, &var);
            t.write(m, &var, v + 1);
            v
        })
        .unwrap();
    assert_eq!(seen, 100);
    assert_eq!(var.get_data(&mgr), 101);
    assert_eq!(mgr.stamp_of(var.get_id()), 1);
    assert_eq!(mgr.version_clock(), 1);
}

#[test]
fn committed_write_is_read_next() {
    let mut mgr: TxnManager<i64> = TxnManager::manager();
    let var = TVar::new(&mut mgr, 0);
    let mut txn = build(&mut mgr, TransactionIsolation::Serializable);
    txn.begin(&mut mgr, |t, m| t.write(m, &var, 42)).unwrap();
    let got = txn.begin(&mut mgr, |t, m| t.read(m, &var)).unwrap();
    assert_eq!(got, 42);
}

#[test]
fn racing_serializable_writers() {
    let mut mgr: TxnManager<i64> = TxnManager::manager();
    let var = TVar::new(&mut mgr, 100);
    let mut a = build(&mut mgr, TransactionIsolation::Serializable);
    let mut b = build(&mut mgr, TransactionIsolation::Serializable);
    a.start(&mgr);
    b.start(&mgr);
    a.write(&mut mgr, &var, 200);
    b.write(&mut mgr, &var, 300);
    // The first writer was overtaken before it committed.
    assert!(!a.commit(&mut mgr));
    assert_eq!(a.get_state(), TransactionState::RolledBack);
    assert!(b.commit(&mut mgr));
    assert_eq!(var.get_data(&mgr), 300);
    assert_eq!(mgr.stamp_of(var.get_id()), 1);
    // The loser runs once more and sees the winner's value.
    a.start(&mgr);
    assert_eq!(a.read(&mgr, &var), 300);
    a.write(&mut mgr, &var, 200);
    assert!(a.commit(&mut mgr));
    assert_eq!(var.get_data(&mgr), 200);
    assert_eq!(mgr.stamp_of(var.get_id()), 2);
}

#[test]
fn stale_read_fails_validation() {
    let mut mgr: TxnManager<i64> = TxnManager::manager();
    let var = TVar::new(&mut mgr, 1);
    let mut reader = build(&mut mgr, TransactionIsolation::RepeatableRead);
    let mut writer = build(&mut mgr, TransactionIsolation::RepeatableRead);
    reader.start(&mgr);
    assert_eq!(reader.read(&mgr, &var), 1);
    writer.start(&mgr);
    writer.write(&mut mgr, &var, 2);
    assert!(writer.commit(&mut mgr));
    assert!(!reader.validate(&mgr));
    assert!(!reader.commit(&mut mgr));
    assert_eq!(mgr.version_clock(), 1);
}

#[test]
fn bank_transfers_keep_money() {
    let mut mgr: TxnManager<i64> = TxnManager::manager();
    let alice1 = TVar::new(&mut mgr, 50);
    let alice2 = TVar::new(&mut mgr, 50);
    let bob = TVar::new(&mut mgr, 0);
    let mut txn = build(&mut mgr, TransactionIsolation::Serializable);
    for i in 0..500 {
        if i % 2 == 0 {
            txn.begin(&mut mgr, |t, m| {
                let a1 = t.read(m, &alice1);
                let a2 = t.read(m, &alice2);
                if a1 + a2 >= 100 {
                    t.write(m, &alice1, a1 - 100);
                    let b = t.read(m, &bob);
                    t.write(m, &bob, b + 100);
                }
            })
            .unwrap();
        } else {
            txn.begin(&mut mgr, |t, m| {
                let a1 = t.read(m, &alice1);
                let a2 = t.read(m, &alice2);
                let b = t.read(m, &bob);
                assert!(a1 + a2 >= 0);
                assert!(b != 200);
                t.write(m, &alice1, 50);
                t.write(m, &alice2, 50);
                t.write(m, &bob, 0);
            })
            .unwrap();
        }
    }
    assert_eq!(alice1.get_data(&mgr), 50);
}

#[test]
fn rollback_is_reported() {
    let mut mgr: TxnManager<i64> = TxnManager::manager();
    let var = TVar::new(&mut mgr, 7);
    let mut txn = build(&mut mgr, TransactionIsolation::RepeatableRead);
    let r = txn.begin(&mut mgr, |t, m| {
        t.write(m, &var, 8);
        t.rollback();
    });
    assert_eq!(r, Err(TxnErrorType::Abort));
    assert_eq!(var.get_data(&mgr), 7);
    assert_eq!(mgr.version_clock(), 0);
}

#[test]
fn rollback_only_is_reported() {
    let mut mgr: TxnManager<i64> = TxnManager::manager();
    let var = TVar::new(&mut mgr, 7);
    let mut txn = build(&mut mgr, TransactionIsolation::RepeatableRead);
    let r = txn.begin(&mut mgr, |t, m| {
        t.write(m, &var, 8);
        t.set_rollback_only(true);
    });
    assert_eq!(r, Err(TxnErrorType::Abort));
    assert_eq!(var.get_data(&mgr), 7);
}

#[test]
fn unsupported_configurations() {
    let mut mgr: TxnManager<i64> = TxnManager::manager();
    let r = mgr.txn_build(
        TransactionConcurrency::Optimistic,
        TransactionIsolation::ReadCommitted,
        0,
        0,
        "rc".to_string(),
    );
    assert!(matches!(r, Err(TxnErrorType::NotImplemented)));
    let r = mgr.txn_build(
        TransactionConcurrency::Pessimistic,
        TransactionIsolation::Serializable,
        0,
        0,
        "pcc".to_string(),
    );
    assert!(matches!(r, Err(TxnErrorType::NotImplemented)));
}

#[test]
fn txn_ids_count_up() {
    let mut mgr: TxnManager<i64> = TxnManager::manager();
    let a = build(&mut mgr, TransactionIsolation::RepeatableRead);
    let b = build(&mut mgr, TransactionIsolation::Serializable);
    assert_eq!(a.get_id(), 1);
    assert_eq!(b.get_id(), 2);
}

#[test]
fn suspended_transaction_reads_published_data() {
    let mut mgr: TxnManager<i64> = TxnManager::manager();
    let var = TVar::new(&mut mgr, 5);
    let mut txn = build(&mut mgr, TransactionIsolation::RepeatableRead);
    txn.start(&mgr);
    txn.write(&mut mgr, &var, 6);
    assert_eq!(txn.read(&mgr, &var), 6);
    txn.suspend();
    assert_eq!(txn.get_state(), TransactionState::Suspended);
    assert_eq!(txn.read(&mgr, &var), 5);
    assert_eq!(txn.write(&mut mgr, &var, 9), 5);
    txn.resume();
    assert_eq!(txn.read(&mgr, &var), 6);
    assert!(txn.commit(&mut mgr));
    assert_eq!(var.get_data(&mgr), 6);
}

#[test]
fn write_raises_modrev_once() {
    let mut mgr: TxnManager<i64> = TxnManager::manager();
    let var = TVar::new_with_timeout(&mut mgr, 5, 10);
    let mut txn = build(&mut mgr, TransactionIsolation::RepeatableRead);
    txn.start(&mgr);
    assert_eq!(mgr.modrev_of(0), 0);
    txn.write(&mut mgr, &var, 6);
    txn.write(&mut mgr, &var, 7);
    assert_eq!(mgr.modrev_of(0), 1);
    assert!(txn.commit(&mut mgr));
    assert_eq!(*mgr.published(0), 7);
    assert_eq!(mgr.var_count(), 1);
}

#[test]
fn read_set_keeps_first_observation() {
    let mut rs = ReadSet::local();
    rs.add(3, ReadMark { stamp: 1, modrev: 1 });
    rs.add(3, ReadMark { stamp: 9, modrev: 9 });
    rs.add(1, ReadMark { stamp: 4, modrev: 5 });
    assert_eq!(rs.get(3), Some(ReadMark { stamp: 1, modrev: 1 }));
    assert_eq!(rs.get(2), None);
    assert_eq!(rs.get_all(), vec![1, 3]);
    assert_eq!(rs.get_all_versions(), vec![Version::Read(1), Version::Read(3)]);
    assert_eq!(rs.first(), 1);
    rs.clear();
    assert_eq!(rs.first(), u64::MAX);
    assert!(rs.get_all().is_empty());
}

#[test]
fn write_set_put_and_lookup() {
    let mut ws: WriteSet<i64> = WriteSet::local();
    ws.put(2, WriteMark { value: 20, stamp: 4, modrev: 5 });
    ws.put(0, WriteMark { value: 10, stamp: 3, modrev: 3 });
    ws.put(2, WriteMark { value: 21, stamp: 4, modrev: 5 });
    assert_eq!(ws.get(2).map(|m| m.value), Some(21));
    assert!(ws.get(1).is_none());
    assert_eq!(ws.get_by_stamp(3), Some(&10));
    assert_eq!(ws.get_by_stamp(7), None);
    assert_eq!(ws.get_all_keys(), vec![0, 2]);
    ws.clear();
    assert!(ws.get_all_keys().is_empty());
}

#[test]
fn version_entries() {
    let mut v = Version::Read(4);
    assert_eq!(*v.extract(), 4);
    assert_eq!(v.read(), 4);
    v.write(9);
    assert_eq!(v, Version::Write(9));
}

#[test]
fn compare_orders_by_revision() {
    let a = Compare::new(3, true, CompareSet::ReadLocal);
    let b = Compare::new(5, false, CompareSet::WriteLocal);
    assert!(a.check(&b, Ordering::Less));
    assert!(b.check(&a, Ordering::Greater));
    assert!(a.check(&a, Ordering::Equal));
    assert!(!a.check(&b, Ordering::Equal));
}

#[test]
fn conflict_check_matches_validation() {
    let mut mgr: TxnManager<i64> = TxnManager::manager();
    let var = TVar::new(&mut mgr, 1);
    let mut txn = build(&mut mgr, TransactionIsolation::Serializable);
    txn.start(&mgr);
    txn.read(&mgr, &var);
    assert!(txn.validate(&mgr));
    let mut rs = ReadSet::local();
    rs.add(0, ReadMark { stamp: 0, modrev: 0 });
    let ws: WriteSet<i64> = WriteSet::local();
    let mut cells = Vec::new();
    cells.push(lever::txn::vars::VarState { data: 1_i64, stamp: 0, modrev: 0 });
    assert!(ConflictManager::check(&TransactionIsolation::Serializable, 0, &rs, &ws, &cells));
    cells[0].modrev = 1;
    assert!(!ConflictManager::check(&TransactionIsolation::RepeatableRead, 0, &rs, &ws, &cells));
    assert!(ConflictManager::check(&TransactionIsolation::ReadCommitted, 0, &rs, &ws, &cells));
    cells[0].stamp = 1;
    assert!(!ConflictManager::check(&TransactionIsolation::ReadCommitted, 0, &rs, &ws, &cells));
}

#[test]
fn write_set_locks_all_or_nothing() {
    let mut locks = vec![Container::new(), Container::new(), Container::new()];
    let mut ws: WriteSet<i64> = WriteSet::local();
    ws.put(0, WriteMark { value: 1, stamp: 0, modrev: 1 });
    ws.put(2, WriteMark { value: 2, stamp: 0, modrev: 1 });
    // Another thread reads variable 2: no lock is taken.
    assert!(locks[2].try_lock_read(9));
    assert!(!ws.try_lock(&mut locks, 1));
    assert!(!locks[0].writer_from_current_thread(1));
    assert!(locks[2].try_release_read(9));
    assert!(ws.try_lock(&mut locks, 1));
    assert!(locks[0].writer_from_current_thread(1));
    assert!(!locks[1].writer_from_current_thread(1));
    assert!(locks[2].writer_from_current_thread(1));
    ws.unlock(&mut locks, 1);
    assert!(!locks[0].writer_from_current_thread(1));
    assert!(!locks[2].writer_from_current_thread(1));
}
