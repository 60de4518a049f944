//! End-to-end exercises of the OCC and 2PL engines over the object
//! store, the tables, and the redo log.

use pnvm::counter::BenchmarkCounter;
use pnvm::lock::{LockType, Transaction2PL};
use pnvm::occ::TransactionOCC;
use pnvm::plog::NvmLog;
use pnvm::table::Table;
use pnvm::tbox::{u32_from_vec, u32_to_vec, ObjStore, TBox};
use pnvm::tcore::{OidFac, TplOutcome};
use pnvm::txn::{Tid, TidFac};

#[test]
fn tbox_write_then_commit() {
    let mut store = ObjStore::new();
    let mut fac = OidFac::new();
    let mut tables: Vec<Table> = Vec::new();
    let mut log = NvmLog::new();
    let b = TBox::new(&mut store, &mut fac, 7);
    assert_eq!(b.raw_read(&store), 7);
    b.raw_write(&mut store, 9);
    assert_eq!(b.raw_read(&store), 9);
    assert_eq!(store.get_version(b.slot_), 0);
    b.raw_write(&mut store, 7);

    let mut tx = TransactionOCC::new(Tid::new(1));
    let bytes = tx.read(&store, b.slot_);
    assert_eq!(u32_from_vec(&bytes), 7);
    tx.write(&store, b.slot_, u32_to_vec(8));
    assert!(tx.try_commit(&mut store, &mut tables, &mut log));
    assert_eq!(b.raw_read(&store), 8);
    assert_eq!(store.get_version(b.slot_), 1);
}

#[test]
fn single_record_increment_run() {
    // Four workers' worth of sequential increments: every one of the
    // 40 000 transactions reads x and writes x + 1; none is lost.
    let mut store = ObjStore::new();
    let mut fac = OidFac::new();
    let mut tables: Vec<Table> = Vec::new();
    let mut log = NvmLog::new();
    let mut counter = BenchmarkCounter::new();
    let x = TBox::new(&mut store, &mut fac, 0);

    let mut tid_fac = TidFac::new();
    for _ in 0..40_000u32 {
        let tid = tid_fac.get_next();
        let mut tx = TransactionOCC::new(tid);
        let cur = u32_from_vec(&tx.read(&store, x.slot_));
        tx.write(&store, x.slot_, u32_to_vec(cur + 1));
        if tx.try_commit(&mut store, &mut tables, &mut log) {
            counter.success();
        } else {
            counter.abort();
        }
    }
    assert_eq!(x.raw_read(&store), 40_000);
    assert_eq!(counter.success_cnt, 40_000);
    assert_eq!(counter.abort_cnt, 0);
}

#[test]
fn read_snapshot_never_torn() {
    // A reader that saw (a, b) = (1, 1) and then raced a writer that
    // installed (2, 2) must fail validation rather than observe the
    // torn pair (1, 2).
    let mut store = ObjStore::new();
    let mut fac = OidFac::new();
    let mut tables: Vec<Table> = Vec::new();
    let mut log = NvmLog::new();
    let a = TBox::new(&mut store, &mut fac, 0);
    let b = TBox::new(&mut store, &mut fac, 0);

    // Writer: (a, b) = (1, 1).
    let mut w1 = TransactionOCC::new(Tid::new(1));
    w1.write(&store, a.slot_, u32_to_vec(1));
    w1.write(&store, b.slot_, u32_to_vec(1));
    assert!(w1.try_commit(&mut store, &mut tables, &mut log));

    // Reader observes a = 1 ...
    let mut r = TransactionOCC::new(Tid::new(2));
    let seen_a = u32_from_vec(&r.read(&store, a.slot_));
    assert_eq!(seen_a, 1);

    // ... while the writer installs (2, 2) ...
    let mut w2 = TransactionOCC::new(Tid::new(3));
    w2.write(&store, a.slot_, u32_to_vec(2));
    w2.write(&store, b.slot_, u32_to_vec(2));
    assert!(w2.try_commit(&mut store, &mut tables, &mut log));

    // ... so the reader now sees b = 2 and must not commit.
    let seen_b = u32_from_vec(&r.read(&store, b.slot_));
    assert_eq!(seen_b, 2);
    assert!(!r.try_commit(&mut store, &mut tables, &mut log));

    // A fresh reader sees the consistent pair (2, 2) and commits.
    let mut r2 = TransactionOCC::new(Tid::new(4));
    assert_eq!(u32_from_vec(&r2.read(&store, a.slot_)), 2);
    assert_eq!(u32_from_vec(&r2.read(&store, b.slot_)), 2);
    assert!(r2.try_commit(&mut store, &mut tables, &mut log));
}

#[test]
fn should_abort_rolls_back() {
    let mut store = ObjStore::new();
    let mut fac = OidFac::new();
    let mut tables: Vec<Table> = Vec::new();
    let mut log = NvmLog::new();
    let x = TBox::new(&mut store, &mut fac, 5);

    let mut tx = TransactionOCC::new(Tid::new(9));
    tx.write(&store, x.slot_, u32_to_vec(99));
    tx.should_abort();
    let log_len = log.bytes.len();
    assert!(!tx.try_commit(&mut store, &mut tables, &mut log));
    assert_eq!(x.raw_read(&store), 5);
    assert_eq!(log.bytes.len(), log_len);
    assert_eq!(store.get_version(x.slot_), 0);
}

#[test]
fn failed_validation_leaves_log_untouched() {
    let mut store = ObjStore::new();
    let mut fac = OidFac::new();
    let mut tables: Vec<Table> = Vec::new();
    let mut log = NvmLog::new();
    let x = TBox::new(&mut store, &mut fac, 0);

    let mut r = TransactionOCC::new(Tid::new(1));
    let _ = r.read(&store, x.slot_);
    let mut w = TransactionOCC::new(Tid::new(2));
    w.write(&store, x.slot_, u32_to_vec(1));
    assert!(w.try_commit(&mut store, &mut tables, &mut log));
    let log_len = log.bytes.len();
    r.write(&store, x.slot_, u32_to_vec(7));
    assert!(!r.try_commit(&mut store, &mut tables, &mut log));
    assert_eq!(log.bytes.len(), log_len);
    assert_eq!(x.raw_read(&store), 1);
}

#[test]
fn wait_die_two_contenders() {
    // Tid 5 (older) holds the row; Tid 9 (younger) must die, retry
    // after the older committed, and only then get through.
    let mut store = ObjStore::new();
    let mut fac = OidFac::new();
    let mut log = NvmLog::new();

    let row = TBox::new(&mut store, &mut fac, 100);

    let mut t5 = Transaction2PL::new(Tid::new(5));
    assert_eq!(t5.write_lock(&mut store, row.slot_), TplOutcome::Granted);

    let mut t9 = Transaction2PL::new(Tid::new(9));
    assert_eq!(t9.write_lock(&mut store, row.slot_), TplOutcome::Die);
    assert!(!t9.abort(&mut store));

    t5.write(&mut store, row.slot_, u32_to_vec(101));
    assert!(t5.try_commit(&mut store, &mut log));
    assert_eq!(row.raw_read(&store), 101);

    // The dead transaction retries with a fresh Tid and now wins.
    let mut t9b = Transaction2PL::new(Tid::new(10));
    assert_eq!(t9b.write_lock(&mut store, row.slot_), TplOutcome::Granted);
    t9b.write(&mut store, row.slot_, u32_to_vec(102));
    assert!(t9b.try_commit(&mut store, &mut log));
    assert_eq!(row.raw_read(&store), 102);
}

#[test]
fn wait_die_older_waits() {
    // The older contender never dies: blocked by a younger writer it
    // is told to wait.
    let mut store = ObjStore::new();
    let mut fac = OidFac::new();
    let row = TBox::new(&mut store, &mut fac, 0);

    let mut young = Transaction2PL::new(Tid::new(9));
    assert_eq!(young.write_lock(&mut store, row.slot_), TplOutcome::Granted);

    let mut old_tx = Transaction2PL::new(Tid::new(5));
    assert_eq!(old_tx.write_lock(&mut store, row.slot_), TplOutcome::Wait);
    assert_eq!(old_tx.read_lock(&mut store, row.slot_), TplOutcome::Wait);

    // Once the younger finishes, the older gets the lock.
    let mut log = NvmLog::new();
    assert!(young.try_commit(&mut store, &mut log));
    assert_eq!(old_tx.write_lock(&mut store, row.slot_), TplOutcome::Granted);
    assert!(old_tx.try_commit(&mut store, &mut log));
}

#[test]
fn tpl_read_locks_shared() {
    let mut store = ObjStore::new();
    let mut fac = OidFac::new();
    let row = TBox::new(&mut store, &mut fac, 3);

    let mut t1 = Transaction2PL::new(Tid::new(1));
    let mut t2 = Transaction2PL::new(Tid::new(2));
    assert_eq!(t1.read_lock(&mut store, row.slot_), TplOutcome::Granted);
    assert_eq!(t2.read_lock(&mut store, row.slot_), TplOutcome::Granted);
    assert_eq!(u32_from_vec(&t1.read(&store, row.slot_)), 3);
    assert_eq!(u32_from_vec(&t2.read(&store, row.slot_)), 3);
    assert!(t1.has_lock(row.slot_, LockType::Read));
    let mut log = NvmLog::new();
    assert!(t1.try_commit(&mut store, &mut log));
    assert!(t2.try_commit(&mut store, &mut log));
    // Both readers gone: the sub-record is clear again.
    assert_eq!(store.objs[row.slot_].vers_.tpl_reader_cnt_, 0);
    assert_eq!(store.objs[row.slot_].vers_.tpl_reader_, 0);
}

#[test]
fn table_push_and_delete_through_occ() {
    let mut store = ObjStore::new();
    let mut fac = OidFac::new();
    let mut log = NvmLog::new();
    let table = Table::new_with_buckets(4, &mut fac, String::from("stock"));
    let mut tables: Vec<Table> = vec![table];

    // Transactional insert: invisible until commit.
    let mut tx = TransactionOCC::new(Tid::new(1));
    let row = vec![1u8, 2, 3, 4];
    tables[0].push(&mut tx, &mut store, &mut fac, 0, row.clone(), 77, Vec::new(), 77);
    assert!(tables[0].retrieve(77, 77).is_none());
    assert!(tx.try_commit(&mut store, &mut tables, &mut log));
    let slot = tables[0].retrieve(77, 77).expect("row visible after commit");
    assert_eq!(store.read_bytes(slot), row);
    assert_eq!(store.get_key(slot), 77);

    // Transactional delete: the key goes, the row keeps its slot.
    let mut tx2 = TransactionOCC::new(Tid::new(2));
    assert!(tables[0].delete(&mut tx2, &store, 0, 77, 77));
    assert!(tables[0].retrieve(77, 77).is_some());
    assert!(tx2.try_commit(&mut store, &mut tables, &mut log));
    assert!(tables[0].retrieve(77, 77).is_none());
    assert_eq!(store.read_bytes(slot), row);

    // Deleting a missing key reports false.
    let mut tx3 = TransactionOCC::new(Tid::new(3));
    assert!(!tables[0].delete(&mut tx3, &store, 0, 4242, 0));
}

#[test]
fn push_raw_bulk_load() {
    let mut store = ObjStore::new();
    let mut fac = OidFac::new();
    let mut table = Table::new_with_buckets(2, &mut fac, String::from("item"));
    table.push_raw(&mut store, &mut fac, vec![9u8, 9], 5, Vec::new(), 5);
    table.push_raw(&mut store, &mut fac, vec![8u8, 8], 6, Vec::new(), 6);
    let s5 = table.retrieve(5, 5).unwrap();
    let s6 = table.retrieve(6, 6).unwrap();
    assert_eq!(store.read_bytes(s5), vec![9u8, 9]);
    assert_eq!(store.read_bytes(s6), vec![8u8, 8]);
    assert!(table.retrieve(7, 7).is_none());
}

#[test]
fn read_returns_own_buffered_write() {
    // A transaction that wrote a record reads its own buffered
    // bytes, not the installed image.
    let mut store = ObjStore::new();
    let mut fac = OidFac::new();
    let mut tables: Vec<Table> = Vec::new();
    let mut log = NvmLog::new();
    let x = TBox::new(&mut store, &mut fac, 1);

    let mut tx = TransactionOCC::new(Tid::new(2));
    tx.write(&store, x.slot_, u32_to_vec(50));
    assert_eq!(u32_from_vec(&tx.read(&store, x.slot_)), 50);
    assert_eq!(x.raw_read(&store), 1);
    assert!(tx.try_commit(&mut store, &mut tables, &mut log));
    assert_eq!(x.raw_read(&store), 50);
    assert!(tx.txn_info().has_commit());
    assert!(tx.txn_info().has_persist());
}
