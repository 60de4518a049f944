//! The engine's building blocks one by one: factories, the version
//! word, status records, counters, pieces, the pipelined
//! transaction, the persistent allocator and the secondary index.

use pnvm::counter::BenchmarkCounter;
use pnvm::parnvm::{DataRecord, Pid, Piece, PieceOCC, PieceState, TransactionParOCCRaw, TxnRegistry};
use pnvm::plog::NvmLog;
use pnvm::table::{IndexMap, SecIndex, Table};
use pnvm::tbox::{u32_from_vec, u32_to_vec, ObjStore, TBox};
use pnvm::tcore::{ObjectId, OidFac, TplOutcome, TVersion};
use pnvm::txn::{PmemFac, Tid, TidFac, TxnInfo};

#[test]
fn tid_factory_masks_and_counts() {
    let mut fac = TidFac::new();
    fac.set_thd_mask(3);
    let t1 = fac.get_thd_next();
    let t2 = fac.get_next();
    assert_eq!(t1.value(), (3 << 24) | 1);
    assert_eq!(t2.value(), (3 << 24) | 2);
    assert_ne!(t1.value(), t2.value());
    let t3 = Tid::get_thread_tid(&mut fac);
    assert_eq!(t3.value(), (3 << 24) | 3);
}

#[test]
fn oid_factory_never_repeats() {
    let mut fac = OidFac::new();
    fac.set_obj_mask(5);
    let a = fac.get_obj_next();
    let b = fac.get_next();
    assert_eq!(a.value(), (5u64 << 52) | 1);
    assert_eq!(b.value(), (5u64 << 52) | 2);
    assert_ne!(a.value(), b.value());
    // Distinct thread masks never collide either.
    let mut other = OidFac::new();
    other.set_mask(6);
    let c = other.get_next();
    assert_ne!(a.value(), c.value());
    assert_ne!(b.value(), c.value());
    assert_ne!(ObjectId::new(1).value(), 0);
}

#[test]
fn occ_lock_is_reentrant() {
    // Lock three times with one Tid; two unlocks leave it held, the
    // third releases it.
    let mut v = TVersion::new();
    let me = Tid::new(4);
    assert!(v.lock(me));
    assert!(v.lock(me));
    assert!(v.lock(me));
    assert!(!v.lock(Tid::new(5)));
    assert_eq!(v.get_count(), 3);
    v.unlock();
    v.unlock();
    assert_eq!(v.get_locker(), 4);
    v.unlock();
    assert_eq!(v.get_locker(), 0);
    assert!(v.lock(Tid::new(5)));
}

#[test]
fn version_check_semantics() {
    let mut v = TVersion::new();
    assert!(v.check_version(0, 9));
    v.set_version(7);
    assert!(v.check_version(7, 9));
    assert!(!v.check_version(0, 9));
    assert!(v.lock(Tid::new(3)));
    assert!(v.check_version(7, 3));
    assert!(!v.check_version(7, 9));
    assert_eq!(v.get_version(), 7);
}

#[test]
fn tpl_upgrade_from_own_read() {
    // The only reader may upgrade to the write lock.
    let mut v = TVersion::new();
    assert_eq!(v.read_lock(6), TplOutcome::Granted);
    assert_eq!(v.write_lock(6), TplOutcome::Granted);
    v.write_unlock(6);
    v.read_unlock(6);
    assert_eq!(v.tpl_reader_, 0);
    assert_eq!(v.tpl_reader_cnt_, 0);
    assert_eq!(v.tpl_writer_, 0);
}

#[test]
fn txn_info_lifecycle() {
    let mut info = TxnInfo::new(Tid::new(8));
    assert!(!info.has_commit());
    assert!(!info.has_persist());
    assert!(!info.has_lock());
    assert_eq!(info.rank(), 0);
    info.lock();
    assert!(info.has_lock());
    info.unlock();
    info.start(2);
    assert!(info.has_started(1));
    assert!(!info.has_started(2));
    assert!(info.has_finished(0));
    info.commit();
    info.persist();
    assert!(info.has_commit());
    assert!(info.has_persist());
    assert_eq!(info.id().value(), 8);
}

#[test]
fn benchmark_counter_tallies() {
    let mut c = BenchmarkCounter::new();
    c.start(100);
    c.success();
    c.success();
    c.abort();
    c.success_piece();
    c.abort_piece();
    c.new_order_done();
    c.get_time();
    c.set_get_time(55);
    c.mmap();
    c.flush(64);
    c.log(28);
    c.timestamp();
    c.add_time(5);
    let snap = c.copy(400);
    assert_eq!(snap.success_cnt, 2);
    assert_eq!(snap.abort_cnt, 1);
    assert_eq!(snap.success_piece_cnt, 1);
    assert_eq!(snap.abort_piece_cnt, 1);
    assert_eq!(snap.new_order_cnt, 1);
    assert_eq!(snap.get_time_cnt, 1);
    assert_eq!(snap.avg_get_time, 55);
    assert_eq!(snap.mmap_cnt, 1);
    assert_eq!(snap.pmem_flush_size, 64);
    assert_eq!(snap.pmem_log_size, 28);
    assert_eq!(snap.success_over_time, vec![2]);
    assert_eq!(snap.duration, 300);
    c.reset_cnt(500);
    assert_eq!(c.success_cnt, 0);
    assert_eq!(c.start, 500);
}

#[test]
fn piece_descriptors() {
    let p = Piece::new(Pid::new(3), String::from("neworder"), "stock-update", 2);
    assert_eq!(*p.id(), Pid::new(3));
    assert_eq!(p.rank(), 2);
    let q = PieceOCC::new(Pid::new(4), String::from("payment"), "warehouse", 1);
    assert_eq!(*q.id(), Pid::new(4));
    assert_eq!(q.rank(), 1);
    let d = DataRecord::new(vec![1, 2], 9);
    let l = d.as_log(Tid::new(5));
    assert_eq!(l.header.txn_id, 5);
    assert_eq!(l.header.len, 2);
    assert_eq!(l.data.oid, 9);
    let st = PieceState::Ready;
    assert_ne!(st, PieceState::Persisted);
}

#[test]
fn parocc_dependency_pipeline() {
    // Writer 1 commits a piece; writer 2 touches the same record,
    // picks the dependency up, and may not make its own commit
    // durable before its predecessor started past it, committed, and
    // persisted.
    let mut store = ObjStore::new();
    let mut fac = OidFac::new();
    let mut tables: Vec<Table> = Vec::new();
    let mut log = NvmLog::new();
    let mut reg = TxnRegistry::with_default();
    let x = TBox::new(&mut store, &mut fac, 0);

    let mut t1 = TransactionParOCCRaw::new(Tid::new(1), &mut reg);
    t1.piece().write(&store, x.slot_, u32_to_vec(1));
    assert!(t1.try_commit_piece(&mut store, &mut tables, &mut log, &reg));
    assert_eq!(x.raw_read(&store), 1);
    assert_eq!(t1.deps_.len(), 0);

    let mut t2 = TransactionParOCCRaw::new(Tid::new(2), &mut reg);
    let seen = u32_from_vec(&t2.piece().read(&store, x.slot_));
    assert_eq!(seen, 1);
    t2.piece().write(&store, x.slot_, u32_to_vec(2));
    assert!(t2.try_commit_piece(&mut store, &mut tables, &mut log, &reg));
    assert_eq!(t2.deps_.len(), 1);

    // Rank monotonicity: the wait on rank 1 holds until the
    // predecessor's rank exceeds it or it has committed.
    assert!(!t2.wait_deps_start(&reg, 1));
    t1.update_rank(&mut reg, 2);
    assert!(t2.wait_deps_start(&reg, 1));
    assert!(!t2.wait_deps_start(&reg, 2));
    assert!(!t2.wait_deps_commit(&reg));
    assert!(!t2.wait_deps_persist(&reg));

    t1.commit(&mut log, &mut reg);
    assert!(t2.wait_deps_start(&reg, 9));
    assert!(t2.wait_deps_commit(&reg));
    assert!(t2.wait_deps_persist(&reg));
    t2.commit(&mut log, &mut reg);
}

#[test]
fn parocc_piece_failure_rolls_back() {
    let mut store = ObjStore::new();
    let mut fac = OidFac::new();
    let mut tables: Vec<Table> = Vec::new();
    let mut log = NvmLog::new();
    let mut reg = TxnRegistry::with_default();
    let x = TBox::new(&mut store, &mut fac, 5);

    // A reader that lost the race fails its piece commit; nothing
    // changes and the transaction aborts as a whole.
    let mut loser = TransactionParOCCRaw::new(Tid::new(3), &mut reg);
    let _ = loser.piece().read(&store, x.slot_);
    let mut winner = TransactionParOCCRaw::new(Tid::new(4), &mut reg);
    winner.piece().write(&store, x.slot_, u32_to_vec(6));
    assert!(winner.try_commit_piece(&mut store, &mut tables, &mut log, &reg));
    loser.piece().write(&store, x.slot_, u32_to_vec(7));
    assert!(!loser.try_commit_piece(&mut store, &mut tables, &mut log, &reg));
    assert_eq!(x.raw_read(&store), 6);
    loser.abort(&mut reg);
    // Nobody waits on an aborted transaction.
    let probe = TransactionParOCCRaw::new(Tid::new(5), &mut reg);
    let _ = probe;
}

#[test]
fn pmem_allocator_grows_by_doubling() {
    let mut fac = PmemFac::new();
    fac.init();
    let (c0, o0) = fac.allocate(64);
    assert_eq!((c0, o0), (0, 0));
    let (c1, o1) = fac.allocate(64);
    assert_eq!((c1, o1), (0, 64));
    // Exhaust the first chunk: the next grant comes from a fresh
    // chunk and the capacity doubles.
    let big = 0x4000_0000 - 1;
    let (c2, o2) = fac.allocate(big);
    assert_eq!((c2, o2), (1, 0));
    assert_eq!(fac.pmem_cap_, 0x8000_0000);
    let (c3, o3) = fac.allocate(16);
    assert_eq!((c3, o3), (1, big));
}

#[test]
fn secondary_index_buckets() {
    let mut idx = SecIndex::new_with_buckets(4);
    idx.insert_index(10, 100);
    idx.unlock_bucket(10);
    idx.insert_index(10, 101);
    idx.unlock_bucket(10);
    idx.insert_index(11, 200);
    idx.unlock_bucket(11);
    {
        let hits = idx.find_one_bucket(10).expect("key present");
        assert_eq!(hits, &vec![100, 101]);
    }
    idx.unlock_bucket(10);
    {
        assert!(idx.find_one_bucket(12).is_none());
    }
    idx.unlock_bucket(12);
    let empty = SecIndex::new();
    assert_eq!(empty.buckets_.len(), 0);
}

#[test]
fn index_map_semantics() {
    let mut m = IndexMap::new();
    assert!(m.get(1).is_none());
    m.insert(1, 10);
    m.insert(2, 20);
    m.insert(1, 11);
    assert_eq!(m.get(1), Some(11));
    assert_eq!(m.get(2), Some(20));
    m.remove(1);
    assert!(m.get(1).is_none());
    assert_eq!(m.get(2), Some(20));
    m.remove(3);
    assert_eq!(m.get(2), Some(20));
}
