//! The redo log on the wire and its replay: format, crash points,
//! idempotence, and field-granular flushing.

use pnvm::occ::TransactionOCC;
use pnvm::plog::{persist_log, persist_txn, replay, NvmLog, PLog, RecoveredState};
use pnvm::table::Table;
use pnvm::tbox::{u32_to_vec, ObjStore, TBox};
use pnvm::tcore::OidFac;
use pnvm::txn::Tid;

#[test]
fn header_wire_format() {
    // A TXN_COMMIT marker: kind 1, payload length 4, Tid, ten bytes
    // of padding, then the Tid once more as payload — little-endian,
    // 24-byte header, densely packed.
    let mut log = NvmLog::new();
    persist_txn(&mut log, 0x0504_0302);
    assert_eq!(log.bytes.len(), 28);
    assert_eq!(&log.bytes[0..2], &[1, 0]);
    assert_eq!(&log.bytes[2..10], &[4, 0, 0, 0, 0, 0, 0, 0]);
    assert_eq!(&log.bytes[10..14], &[2, 3, 4, 5]);
    assert_eq!(&log.bytes[14..24], &[0u8; 10]);
    assert_eq!(&log.bytes[24..28], &[2, 3, 4, 5]);
    assert_eq!(log.binds, vec![0]);
}

#[test]
fn data_record_wire_format() {
    let mut log = NvmLog::new();
    let p = PLog::new(vec![0xAA, 0xBB, 0xCC], 42, Tid::new(7));
    persist_log(&mut log, &vec![p]);
    assert_eq!(log.bytes.len(), 27);
    assert_eq!(&log.bytes[0..2], &[0, 0]);
    assert_eq!(&log.bytes[2..10], &[3, 0, 0, 0, 0, 0, 0, 0]);
    assert_eq!(&log.bytes[10..14], &[7, 0, 0, 0]);
    assert_eq!(&log.bytes[24..27], &[0xAA, 0xBB, 0xCC]);
    assert_eq!(log.binds, vec![42]);
}

#[test]
fn crash_before_marker_recovers_pre_state() {
    // DATA written, no TXN_COMMIT: the record is not authoritative,
    // and replay reconstructs the pre-transaction state.
    let mut log = NvmLog::new();
    let mut state = RecoveredState::new();
    state.set(42, vec![1, 1, 1]);
    persist_log(&mut log, &vec![PLog::new(vec![9, 9, 9], 42, Tid::new(7))]);
    assert!(replay(&log.bytes, &log.binds, &mut state));
    assert_eq!(state.get(42).unwrap(), &vec![1, 1, 1]);
}

#[test]
fn crash_after_marker_recovers_post_state() {
    // DATA then TXN_COMMIT: the record is authoritative, and replay
    // reconstructs the post-transaction state.
    let mut log = NvmLog::new();
    let mut state = RecoveredState::new();
    state.set(42, vec![1, 1, 1]);
    persist_log(&mut log, &vec![PLog::new(vec![9, 9, 9], 42, Tid::new(7))]);
    persist_txn(&mut log, 7);
    assert!(replay(&log.bytes, &log.binds, &mut state));
    assert_eq!(state.get(42).unwrap(), &vec![9, 9, 9]);
}

#[test]
fn marker_covers_only_its_tid() {
    // The marker of one Tid makes nothing of another Tid
    // authoritative.
    let mut log = NvmLog::new();
    persist_log(&mut log, &vec![PLog::new(vec![5], 1, Tid::new(7))]);
    persist_log(&mut log, &vec![PLog::new(vec![6], 2, Tid::new(8))]);
    persist_txn(&mut log, 8);
    let mut state = RecoveredState::new();
    assert!(replay(&log.bytes, &log.binds, &mut state));
    assert!(state.get(1).is_none());
    assert_eq!(state.get(2).unwrap(), &vec![6]);
}

#[test]
fn replay_twice_is_replay_once() {
    let mut log = NvmLog::new();
    persist_log(&mut log, &vec![PLog::new(vec![3, 1, 4], 10, Tid::new(2))]);
    persist_log(&mut log, &vec![PLog::new(vec![1, 5, 9], 10, Tid::new(3))]);
    persist_txn(&mut log, 2);
    persist_txn(&mut log, 3);

    let mut once = RecoveredState::new();
    assert!(replay(&log.bytes, &log.binds, &mut once));
    let mut twice = RecoveredState::new();
    assert!(replay(&log.bytes, &log.binds, &mut twice));
    assert!(replay(&log.bytes, &log.binds, &mut twice));
    // The last committed DATA for the object wins, once or twice.
    assert_eq!(once.get(10).unwrap(), &vec![1, 5, 9]);
    assert_eq!(twice.get(10).unwrap(), &vec![1, 5, 9]);
}

#[test]
fn torn_tail_is_refused() {
    let mut log = NvmLog::new();
    persist_log(&mut log, &vec![PLog::new(vec![1, 2], 5, Tid::new(4))]);
    persist_txn(&mut log, 4);
    let mut bytes = log.bytes.clone();
    bytes.pop();
    let mut state = RecoveredState::new();
    assert!(!replay(&bytes, &log.binds, &mut state));
    // And a binding table of the wrong length is refused too.
    let mut short_binds = log.binds.clone();
    short_binds.pop();
    assert!(!replay(&log.bytes, &short_binds, &mut state));
}

#[test]
fn commit_log_replays_to_committed_value() {
    // A whole committed transaction through the engine: its log
    // alone rebuilds the installed value.
    let mut store = ObjStore::new();
    let mut fac = OidFac::new();
    let mut tables: Vec<Table> = Vec::new();
    let mut log = NvmLog::new();
    let x = TBox::new(&mut store, &mut fac, 17);
    let oid = x.get_id();

    let mut tx = TransactionOCC::new(Tid::new(6));
    tx.write(&store, x.slot_, u32_to_vec(23));
    assert!(tx.try_commit(&mut store, &mut tables, &mut log));

    let mut state = RecoveredState::new();
    assert!(replay(&log.bytes, &log.binds, &mut state));
    assert_eq!(state.get(oid.value()).unwrap(), &u32_to_vec(23));
}

#[test]
fn field_granular_flush() {
    // A 128-byte record with six tracked fields; a write-field on
    // fields 3 and 4 flushes only their extents to the mirror, and
    // replay still restores the full value.
    let mut store = ObjStore::new();
    let mut fac = OidFac::new();
    let mut log = NvmLog::new();
    let mut table = Table::new_with_buckets(1, &mut fac, String::from("wide"));
    let offsets: Vec<usize> = vec![0, 16, 32, 48, 64, 96, 128];
    let old_img: Vec<u8> = vec![0u8; 128];
    table.push_raw(&mut store, &mut fac, old_img.clone(), 1, offsets, 1);
    let slot = table.retrieve(1, 1).unwrap();
    let oid = store.get_id(slot);
    let mut tables: Vec<Table> = vec![table];

    let new_img: Vec<u8> = vec![7u8; 128];
    let mut tx = TransactionOCC::new(Tid::new(9));
    tx.write_field(&store, slot, new_img.clone(), vec![3, 4]);
    assert!(tx.try_commit(&mut store, &mut tables, &mut log));

    // Volatile image: fully new. Mirror: new only on the extents of
    // fields 3 and 4, [48, 64) and [64, 96).
    assert_eq!(store.read_bytes(slot), new_img);
    let pm = &store.objs[slot].pmem_;
    for p in 0..128usize {
        if (48..96).contains(&p) {
            assert_eq!(pm[p], 7, "flushed byte {}", p);
        } else {
            assert_eq!(pm[p], 0, "unflushed byte {}", p);
        }
    }

    // The log holds the whole buffered image, so replay restores the
    // full record.
    let mut state = RecoveredState::new();
    assert!(replay(&log.bytes, &log.binds, &mut state));
    assert_eq!(state.get(oid.value()).unwrap(), &new_img);
}
