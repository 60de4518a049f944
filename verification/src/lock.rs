//! The wait-die two-phase-locking (2PL) transaction.
//!
//! Locks are acquired at access time through the version word's
//! wait-die sub-record: a refused lock means the transaction must
//! die and retry with a fresh Tid. Writes are write-through — the
//! new image is installed immediately — and the persistence tail
//! (log, flush, commit marker) runs at try-commit, which then
//! releases every lock.

use vstd::prelude::*;

verus! {

use crate::plog::{NvmLog, PLog, SpecRec, LOG_KIND_DATA, LOG_KIND_TXN, u32_le_bytes};
use crate::tbox::{in_mask_extents, ObjStore, TObj};
use crate::tcore::{FieldArray, TplOutcome, TVersion};
use crate::txn::{Tid, TxState, TxnInfo};

/// The two lock kinds of the 2PL sub-record.
#[derive(Clone, Copy, Debug, PartialEq, Eq, Structural, Hash)]
pub enum LockType {
    Read,
    Write,
}

/// A wait-die 2PL transaction: its Tid, the locks it holds (store
/// slot and kind, in acquisition order), the rows it wrote with
/// their optional field masks, its status record, and the caller's
/// abort request.
pub struct Transaction2PL {
    pub tid_: Tid,
    pub state_: TxState,
    pub locks_: Vec<(usize, LockType)>,
    pub records_: Vec<(usize, Option<FieldArray>)>,
    pub txn_info_: TxnInfo,
    pub should_abort_: bool,
}

impl Transaction2PL {
    /// Whether this transaction holds a lock of kind `lt` on `slot`.
    pub open spec fn holds(self, slot: int, lt: LockType) -> bool {
        exists|i: int|
            0 <= i < self.locks_@.len() && (#[trigger] self.locks_@[i]).0 == slot && self.locks_@[
                i].1 == lt
    }

    /// Whether `slot` is among the written rows.
    pub open spec fn recorded(self, slot: int) -> bool {
        exists|i: int| 0 <= i < self.records_@.len() && (#[trigger] self.records_@[i]).0 == slot
    }

    /// The Tid is real, no lock is held twice, and no row is
    /// recorded twice.
    pub open spec fn wf(self) -> bool {
        &&& self.tid_.spec_value() != 0
        &&& forall|i: int, j: int|
            0 <= i < j < self.locks_@.len() ==> !(self.locks_@[i].0 == self.locks_@[j].0
                && self.locks_@[i].1 == self.locks_@[j].1)
        &&& forall|i: int, j: int|
            0 <= i < j < self.records_@.len() ==> self.records_@[i].0 != self.records_@[j].0
    }

    /// Every held lock names a store object whose sub-record shows
    /// it: readers counted for read locks, this Tid as writer for
    /// write locks.
    pub open spec fn locks_consistent(self, store: ObjStore) -> bool {
        forall|i: int|
            0 <= i < self.locks_@.len() ==> {
                let s = (#[trigger] self.locks_@[i]).0 as int;
                &&& self.locks_@[i].0 < store.objs@.len()
                &&& (self.locks_@[i].1 == LockType::Read ==> store.obj_vers(
                    s,
                ).spec_tpl_reader_cnt() > 0)
                &&& (self.locks_@[i].1 == LockType::Write ==> store.obj_vers(s).spec_tpl_writer()
                    == self.tid_.spec_value())
            }
    }

    /// Every recorded row names a store object, and a masked row has
    /// a mirror of the image's length and mask entries inside the
    /// offset table.
    pub open spec fn records_ok(self, store: ObjStore) -> bool {
        forall|i: int|
            0 <= i < self.records_@.len() ==> {
                let s = (#[trigger] self.records_@[i]).0 as int;
                &&& self.records_@[i].0 < store.objs@.len()
                &&& (self.records_@[i].1 matches Some(fs) ==> {
                    &&& store.obj_pmem(s).len() == store.obj_bytes(s).len()
                    &&& forall|f: int|
                        0 <= f < fs@.len() ==> (#[trigger] fs@[f]) + 1 < store.objs@[
                            s].fields_offset_@.len()
                })
            }
    }

    pub fn new(tid: Tid) -> (tx: Transaction2PL)
        requires
            tid.spec_value() != 0,
        ensures
            tx.wf(),
            tx.tid_ == tid,
            tx.state_ == TxState::EMBRYO,
            tx.locks_@.len() == 0,
            tx.records_@.len() == 0,
            !tx.should_abort_,
            tx.txn_info_.spec_tid() == tid,
    {
        Transaction2PL {
            tid_: tid,
            state_: TxState::EMBRYO,
            locks_: Vec::new(),
            records_: Vec::new(),
            txn_info_: TxnInfo::new(tid),
            should_abort_: false,
        }
    }

    pub fn id(&self) -> (t: Tid)
        ensures
            t == self.tid_,
    {
        self.tid_
    }

    pub fn txn_info(&self) -> (info: &TxnInfo)
        ensures
            *info == self.txn_info_,
    {
        &self.txn_info_
    }

    /// Asks the transaction to abort at try-commit.
    pub fn should_abort(&mut self)
        ensures
            final(self).should_abort_,
            final(self).tid_ == old(self).tid_,
            final(self).locks_ == old(self).locks_,
            final(self).records_ == old(self).records_,
            final(self).state_ == old(self).state_,
            final(self).txn_info_ == old(self).txn_info_,
    {
        self.should_abort_ = true;
    }

    /// Whether a lock of kind `lt` on `slot` is already held.
    #[verifier::loop_isolation(false)]
    pub fn has_lock(&self, slot: usize, lt: LockType) -> (b: bool)
        ensures
            b == self.holds(slot as int, lt),
    {
        let n: usize = self.locks_.len();
        let mut i: usize = 0;
        while i < n
            invariant
                i <= n,
                forall|a: int|
                    0 <= a < i ==> !((#[trigger] self.locks_@[a]).0 == slot as int
                        && self.locks_@[a].1 == lt),
            decreases n - i,
        {
            if self.locks_[i].0 == slot && self.locks_[i].1 == lt {
                proof {
                    assert(self.locks_@[i as int].0 == slot as int && self.locks_@[i as int].1
                        == lt);
                }
                return true;
            }
            i = i + 1;
        }
        proof {
            if self.holds(slot as int, lt) {
                let w = choose|w: int|
                    0 <= w < self.locks_@.len() && (#[trigger] self.locks_@[w]).0 == slot as int
                        && self.locks_@[w].1 == lt;
                assert(false);
            }
        }
        false
    }

    /// One wait-die read-lock attempt on a row: Granted adds the
    /// lock; Die means this transaction must abort and retry; Wait
    /// means try again.
    pub fn read_lock(&mut self, store: &mut ObjStore, slot: usize) -> (r: TplOutcome)
        requires
            old(self).wf(),
            old(store).wf(),
            slot < old(store).objs@.len(),
            old(self).locks_consistent(*old(store)),
            !old(self).holds(slot as int, LockType::Read),
            old(store).obj_vers(slot as int).spec_tpl_reader_cnt() < u32::MAX,
        ensures
            final(self).wf(),
            final(store).wf(),
            final(self).tid_ == old(self).tid_,
            final(self).state_ == old(self).state_,
            final(self).txn_info_ == old(self).txn_info_,
            final(self).should_abort_ == old(self).should_abort_,
            final(self).records_ == old(self).records_,
            final(store).objs@.len() == old(store).objs@.len(),
            forall|i: int|
                0 <= i < old(store).objs@.len() && i != slot ==> final(store).objs@[i] == old(
                    store,
                ).objs@[i],
            r == old(store).obj_vers(slot as int).spec_read_lock_decision(
                old(self).tid_.spec_value(),
            ),
            r == TplOutcome::Granted ==> {
                &&& final(self).locks_@ == old(self).locks_@.push((slot, LockType::Read))
                &&& final(store).obj_vers(slot as int).spec_tpl_reader_cnt() == old(
                    store,
                ).obj_vers(slot as int).spec_tpl_reader_cnt() + 1
                &&& (final(store).objs@[slot as int] == TObj {
                    vers_: final(store).obj_vers(slot as int),
                    ..old(store).objs@[slot as int]
                })
                &&& final(store).obj_vers(slot as int).spec_tpl_writer() == old(store).obj_vers(
                    slot as int,
                ).spec_tpl_writer()
                &&& final(store).obj_vers(slot as int).spec_last_writer() == old(store).obj_vers(
                    slot as int,
                ).spec_last_writer()
                &&& final(self).locks_consistent(*final(store))
            },
            r != TplOutcome::Granted ==> *final(self) == *old(self) && final(store).objs@ == old(
                store,
            ).objs@,
            r != TplOutcome::Granted ==> final(self).locks_consistent(*final(store)),
    {
        let tidv: u32 = self.tid_.value();
        let outcome: TplOutcome = {
            let o: &mut TObj = &mut store.objs[slot];
            o.vers_.read_lock(tidv)
        };
        let granted: bool = outcome == TplOutcome::Granted;
        if granted {
            self.locks_.push((slot, LockType::Read));
            proof {
                assert forall|i: int, j: int|
                    0 <= i < j < self.locks_@.len() implies !(self.locks_@[i].0 == self.locks_@[
                    j].0 && self.locks_@[i].1 == self.locks_@[j].1) by {
                    if j == self.locks_@.len() - 1 {
                        assert(!((#[trigger] old(self).locks_@[i]).0 == slot as int && old(
                            self,
                        ).locks_@[i].1 == LockType::Read));
                    }
                }
                assert forall|i: int| 0 <= i < self.locks_@.len() implies {
                    let s = (#[trigger] self.locks_@[i]).0 as int;
                    &&& self.locks_@[i].0 < store.objs@.len()
                    &&& (self.locks_@[i].1 == LockType::Read ==> store.obj_vers(
                        s,
                    ).spec_tpl_reader_cnt() > 0)
                    &&& (self.locks_@[i].1 == LockType::Write ==> store.obj_vers(
                        s,
                    ).spec_tpl_writer() == self.tid_.spec_value())
                } by {
                    if i < self.locks_@.len() - 1 {
                        assert(self.locks_@[i] == old(self).locks_@[i]);
                    }
                }
            }
        } else {
            proof {
                assert(store.objs@ =~= old(store).objs@);
            }
        }
        outcome
    }

    /// One wait-die write-lock attempt on a row. A reentrant write
    /// lock by the same Tid is an invariant violation and is
    /// excluded.
    pub fn write_lock(&mut self, store: &mut ObjStore, slot: usize) -> (r: TplOutcome)
        requires
            old(self).wf(),
            old(store).wf(),
            slot < old(store).objs@.len(),
            old(self).locks_consistent(*old(store)),
            !old(self).holds(slot as int, LockType::Write),
            old(store).obj_vers(slot as int).spec_tpl_writer() != old(self).tid_.spec_value(),
        ensures
            final(self).wf(),
            final(store).wf(),
            final(self).tid_ == old(self).tid_,
            final(self).state_ == old(self).state_,
            final(self).txn_info_ == old(self).txn_info_,
            final(self).should_abort_ == old(self).should_abort_,
            final(self).records_ == old(self).records_,
            final(store).objs@.len() == old(store).objs@.len(),
            forall|i: int|
                0 <= i < old(store).objs@.len() && i != slot ==> final(store).objs@[i] == old(
                    store,
                ).objs@[i],
            r == old(store).obj_vers(slot as int).spec_write_lock_decision(
                old(self).tid_.spec_value(),
            ),
            r == TplOutcome::Granted ==> {
                &&& final(self).locks_@ == old(self).locks_@.push((slot, LockType::Write))
                &&& final(store).obj_vers(slot as int).spec_tpl_writer() == old(
                    self,
                ).tid_.spec_value()
                &&& (final(store).objs@[slot as int] == TObj {
                    vers_: final(store).obj_vers(slot as int),
                    ..old(store).objs@[slot as int]
                })
                &&& final(store).obj_vers(slot as int).spec_last_writer() == old(store).obj_vers(
                    slot as int,
                ).spec_last_writer()
                &&& final(store).obj_vers(slot as int).spec_tpl_reader_cnt() == old(
                    store,
                ).obj_vers(slot as int).spec_tpl_reader_cnt()
                &&& final(self).locks_consistent(*final(store))
            },
            r != TplOutcome::Granted ==> *final(self) == *old(self) && final(store).objs@ == old(
                store,
            ).objs@,
            r != TplOutcome::Granted ==> final(self).locks_consistent(*final(store)),
    {
        let tidv: u32 = self.tid_.value();
        let outcome: TplOutcome = {
            let o: &mut TObj = &mut store.objs[slot];
            o.vers_.write_lock(tidv)
        };
        let granted: bool = outcome == TplOutcome::Granted;
        if granted {
            self.locks_.push((slot, LockType::Write));
            proof {
                assert forall|i: int, j: int|
                    0 <= i < j < self.locks_@.len() implies !(self.locks_@[i].0 == self.locks_@[
                    j].0 && self.locks_@[i].1 == self.locks_@[j].1) by {
                    if j == self.locks_@.len() - 1 {
                        assert(!((#[trigger] old(self).locks_@[i]).0 == slot as int && old(
                            self,
                        ).locks_@[i].1 == LockType::Write));
                    }
                }
                assert forall|i: int| 0 <= i < self.locks_@.len() implies {
                    let s = (#[trigger] self.locks_@[i]).0 as int;
                    &&& self.locks_@[i].0 < store.objs@.len()
                    &&& (self.locks_@[i].1 == LockType::Read ==> store.obj_vers(
                        s,
                    ).spec_tpl_reader_cnt() > 0)
                    &&& (self.locks_@[i].1 == LockType::Write ==> store.obj_vers(
                        s,
                    ).spec_tpl_writer() == self.tid_.spec_value())
                } by {
                    if i < self.locks_@.len() - 1 {
                        assert(self.locks_@[i] == old(self).locks_@[i]);
                    }
                }
            }
        } else {
            proof {
                assert(store.objs@ =~= old(store).objs@);
            }
        }
        outcome
    }

    /// Reads a locked row: a fresh copy of its current image, which
    /// under 2PL already reflects this transaction's own writes.
    pub fn read(&self, store: &ObjStore, slot: usize) -> (r: Vec<u8>)
        requires
            slot < store.objs@.len(),
            self.holds(slot as int, LockType::Read) || self.holds(slot as int, LockType::Write),
        ensures
            r@ == store.obj_bytes(slot as int),
    {
        store.read_bytes(slot)
    }
}

} // verus!

verus! {

/// A lock of kind `lt` on `slot` among the first `m` held locks.
pub open spec fn holds_upto(locks: Seq<(usize, LockType)>, m: int, slot: int, lt: LockType) -> bool {
    exists|i: int| 0 <= i < m && (#[trigger] locks[i]).0 == slot && locks[i].1 == lt
}

/// A version word with this transaction's locks given back: the
/// writer cleared if a write lock was held, one reader fewer (and
/// the readers-max cleared with the last reader) if a read lock was
/// held.
pub open spec fn released_vers(v: TVersion, had_r: bool, had_w: bool) -> TVersion {
    TVersion {
        tpl_writer_: if had_w {
            0
        } else {
            v.tpl_writer_
        },
        tpl_reader_cnt_: if had_r {
            (v.tpl_reader_cnt_ - 1) as u32
        } else {
            v.tpl_reader_cnt_
        },
        tpl_reader_: if had_r && v.tpl_reader_cnt_ == 1 {
            0
        } else {
            v.tpl_reader_
        },
        ..v
    }
}

/// The DATA records the first `i` written rows contribute: one per
/// row, its payload the row's installed image.
pub open spec fn recs2_upto(
    records: Seq<(usize, Option<FieldArray>)>,
    store: ObjStore,
    tid: u32,
    i: int,
) -> Seq<SpecRec>
    decreases i,
    when 0 <= i <= records.len()
{
    if i <= 0 {
        Seq::empty()
    } else {
        recs2_upto(records, store, tid, i - 1) + seq![
            SpecRec {
                kind: LOG_KIND_DATA,
                tid: tid,
                payload: store.obj_bytes(records[i - 1].0 as int),
            },
        ]
    }
}

/// The bindings of those DATA records: the written rows' ids.
pub open spec fn binds2_upto(
    records: Seq<(usize, Option<FieldArray>)>,
    store: ObjStore,
    i: int,
) -> Seq<u64>
    decreases i,
    when 0 <= i <= records.len()
{
    if i <= 0 {
        Seq::empty()
    } else {
        binds2_upto(records, store, i - 1) + seq![
            store.objs@[records[i - 1].0 as int].id_.spec_value(),
        ]
    }
}

impl Transaction2PL {
    /// Write-through write of a whole record image: installs the
    /// bytes immediately under the held write lock and remembers the
    /// row for the persistence tail.
    #[verifier::loop_isolation(false)]
    pub fn write(&mut self, store: &mut ObjStore, slot: usize, bytes: Vec<u8>)
        requires
            old(self).wf(),
            old(store).wf(),
            slot < old(store).objs@.len(),
            old(self).holds(slot as int, LockType::Write),
            old(self).locks_consistent(*old(store)),
            old(self).records_ok(*old(store)),
            old(store).objs@[slot as int].fields_offset_@.len() > 0 ==> old(store).objs@[
                slot as int].fields_offset_@[old(store).objs@[slot as int].fields_offset_@.len()
                - 1] <= bytes@.len(),
        ensures
            final(self).wf(),
            final(store).wf(),
            final(self).tid_ == old(self).tid_,
            final(self).state_ == old(self).state_,
            final(self).txn_info_ == old(self).txn_info_,
            final(self).should_abort_ == old(self).should_abort_,
            final(self).locks_ == old(self).locks_,
            final(store).objs@.len() == old(store).objs@.len(),
            forall|i: int|
                0 <= i < old(store).objs@.len() && i != slot ==> final(store).objs@[i] == old(
                    store,
                ).objs@[i],
            final(store).obj_bytes(slot as int) == bytes@,
            (final(store).objs@[slot as int] == TObj {
                data_: final(store).objs@[slot as int].data_,
                vers_: TVersion {
                    last_writer_: old(self).tid_.spec_value(),
                    ..old(store).obj_vers(slot as int)
                },
                ..old(store).objs@[slot as int]
            }),
            final(self).recorded(slot as int),
            final(self).records_@.len() <= old(self).records_@.len() + 1,
            forall|i: int|
                0 <= i < final(self).records_@.len() ==> ((#[trigger] final(self).records_@[i]).0
                    == slot as int && final(self).records_@[i].1 is None)
                    || (final(self).records_@[i] == old(self).records_@[i]
                    && final(self).records_@[i].0 != slot as int),
            final(self).locks_consistent(*final(store)),
    {
        store.obj_install(slot, bytes, self.tid_.value());
        let n: usize = self.records_.len();
        let mut i: usize = 0;
        while i < n
            invariant
                i <= n,
                self.tid_ == old(self).tid_,
                self.state_ == old(self).state_,
                self.txn_info_ == old(self).txn_info_,
                self.should_abort_ == old(self).should_abort_,
                self.locks_ == old(self).locks_,
                self.records_ == old(self).records_,
                forall|a: int| 0 <= a < i ==> (#[trigger] self.records_@[a]).0 != slot as int,
            decreases n - i,
        {
            if self.records_[i].0 == slot {
                self.records_.set(i, (slot, None));
                proof {
                    assert(self.records_@[i as int].0 == slot as int);
                    assert forall|a: int, b: int|
                        0 <= a < b < self.records_@.len() implies self.records_@[a].0
                        != self.records_@[b].0 by {
                        assert(old(self).records_@[a].0 != old(self).records_@[b].0);
                    }
                }
                return;
            }
            i = i + 1;
        }
        self.records_.push((slot, None));
        proof {
            assert(self.records_@[self.records_@.len() - 1].0 == slot as int);
            assert forall|a: int, b: int|
                0 <= a < b < self.records_@.len() implies self.records_@[a].0 != self.records_@[
                b].0 by {
                if b == self.records_@.len() - 1 {
                    assert((#[trigger] self.records_@[a]).0 != slot as int);
                }
            }
        }
    }

    /// Write-through write restricted to the masked fields: installs
    /// the whole buffered image (fields were copied in entirety) but
    /// the persistence tail will flush only the masked extents.
    #[verifier::loop_isolation(false)]
    pub fn write_field(&mut self, store: &mut ObjStore, slot: usize, bytes: Vec<u8>, fields: FieldArray)
        requires
            old(self).wf(),
            old(store).wf(),
            slot < old(store).objs@.len(),
            old(self).holds(slot as int, LockType::Write),
            old(self).locks_consistent(*old(store)),
            old(self).records_ok(*old(store)),
            bytes@.len() == old(store).obj_bytes(slot as int).len(),
            old(store).obj_pmem(slot as int).len() == old(store).obj_bytes(slot as int).len(),
            forall|f: int|
                0 <= f < fields@.len() ==> (#[trigger] fields@[f]) + 1 < old(store).objs@[
                    slot as int].fields_offset_@.len(),
        ensures
            final(self).wf(),
            final(store).wf(),
            final(self).tid_ == old(self).tid_,
            final(self).state_ == old(self).state_,
            final(self).txn_info_ == old(self).txn_info_,
            final(self).should_abort_ == old(self).should_abort_,
            final(self).locks_ == old(self).locks_,
            final(store).objs@.len() == old(store).objs@.len(),
            forall|i: int|
                0 <= i < old(store).objs@.len() && i != slot ==> final(store).objs@[i] == old(
                    store,
                ).objs@[i],
            final(store).obj_bytes(slot as int) == bytes@,
            (final(store).objs@[slot as int] == TObj {
                data_: final(store).objs@[slot as int].data_,
                vers_: TVersion {
                    last_writer_: old(self).tid_.spec_value(),
                    ..old(store).obj_vers(slot as int)
                },
                ..old(store).objs@[slot as int]
            }),
            final(self).recorded(slot as int),
            forall|i: int|
                0 <= i < final(self).records_@.len() ==> ((#[trigger] final(self).records_@[i]).0
                    == slot as int && (final(self).records_@[i].1 matches Some(fs) && fs@
                    == fields@)) || (final(self).records_@[i] == old(self).records_@[i]
                    && final(self).records_@[i].0 != slot as int),
            final(self).locks_consistent(*final(store)),
            final(self).records_ok(*final(store)),
    {
        proof {
            assert(old(store).objs@[slot as int].fields_offset_@.len() > 0 ==> old(store).objs@[
                slot as int].fields_offset_@[old(store).objs@[slot as int].fields_offset_@.len()
                - 1] <= bytes@.len());
        }
        store.obj_install(slot, bytes, self.tid_.value());
        let n: usize = self.records_.len();
        let mut i: usize = 0;
        while i < n
            invariant
                i <= n,
                self.tid_ == old(self).tid_,
                self.state_ == old(self).state_,
                self.txn_info_ == old(self).txn_info_,
                self.should_abort_ == old(self).should_abort_,
                self.locks_ == old(self).locks_,
                self.records_ == old(self).records_,
                forall|a: int| 0 <= a < i ==> (#[trigger] self.records_@[a]).0 != slot as int,
            decreases n - i,
        {
            if self.records_[i].0 == slot {
                self.records_.set(i, (slot, Some(fields)));
                proof {
                    assert(self.records_@[i as int].0 == slot as int);
                    assert forall|a: int, b: int|
                        0 <= a < b < self.records_@.len() implies self.records_@[a].0
                        != self.records_@[b].0 by {
                        assert(old(self).records_@[a].0 != old(self).records_@[b].0);
                    }
                }
                return;
            }
            i = i + 1;
        }
        self.records_.push((slot, Some(fields)));
        proof {
            assert(self.records_@[self.records_@.len() - 1].0 == slot as int);
            assert forall|a: int, b: int|
                0 <= a < b < self.records_@.len() implies self.records_@[a].0 != self.records_@[
                b].0 by {
                if b == self.records_@.len() - 1 {
                    assert((#[trigger] self.records_@[a]).0 != slot as int);
                }
            }
        }
    }
}

} // verus!

verus! {

impl Transaction2PL {
    /// Gives back every lock this transaction holds, touching
    /// nothing else.
    #[verifier::loop_isolation(false)]
    fn release_locks(&self, store: &mut ObjStore)
        requires
            self.wf(),
            old(store).wf(),
            self.locks_consistent(*old(store)),
        ensures
            final(store).wf(),
            final(store).objs@.len() == old(store).objs@.len(),
            forall|s: int|
                0 <= s < old(store).objs@.len() ==> (final(store).objs@[s] == TObj {
                    vers_: released_vers(
                        old(store).obj_vers(s),
                        self.holds(s, LockType::Read),
                        self.holds(s, LockType::Write),
                    ),
                    ..old(store).objs@[s]
                }),
    {
        let ghost store0 = *old(store);
        let tidv: u32 = self.tid_.value();
        let n: usize = self.locks_.len();
        let mut ui: usize = 0;
        while ui < n
            invariant
                ui <= n,
                store.wf(),
                store.objs@.len() == store0.objs@.len(),
                forall|s: int|
                    0 <= s < store0.objs@.len() ==> (store.objs@[s] == TObj {
                        vers_: released_vers(
                            store0.obj_vers(s),
                            holds_upto(self.locks_@, ui as int, s, LockType::Read),
                            holds_upto(self.locks_@, ui as int, s, LockType::Write),
                        ),
                        ..store0.objs@[s]
                    }),
            decreases n - ui,
        {
            let slot: usize = self.locks_[ui].0;
            let is_read: bool = self.locks_[ui].1 == LockType::Read;
            proof {
                assert(self.locks_@[ui as int].0 == slot as int);
                assert(slot < store0.objs@.len());
                if holds_upto(self.locks_@, ui as int, slot as int, self.locks_@[ui as int].1) {
                    let w = choose|w: int|
                        0 <= w < ui && (#[trigger] self.locks_@[w]).0 == slot as int
                            && self.locks_@[w].1 == self.locks_@[ui as int].1;
                    assert(false);
                }
            }
            let ghost objs_pre = store.objs@;
            if is_read {
                proof {
                    assert(self.locks_@[ui as int].1 == LockType::Read);
                    assert(store0.obj_vers(slot as int).spec_tpl_reader_cnt() > 0);
                    assert(store.obj_vers(slot as int).spec_tpl_reader_cnt() == store0.obj_vers(
                        slot as int,
                    ).spec_tpl_reader_cnt());
                }
                let o: &mut TObj = &mut store.objs[slot];
                o.vers_.read_unlock(tidv);
            } else {
                proof {
                    assert(self.locks_@[ui as int].1 == LockType::Write);
                    assert(store.obj_vers(slot as int).spec_tpl_writer() == tidv);
                }
                let o: &mut TObj = &mut store.objs[slot];
                o.vers_.write_unlock(tidv);
            }
            proof {
                assert forall|s: int|
                    0 <= s < store0.objs@.len() implies (store.objs@[s] == TObj {
                    vers_: released_vers(
                        store0.obj_vers(s),
                        holds_upto(self.locks_@, ui as int + 1, s, LockType::Read),
                        holds_upto(self.locks_@, ui as int + 1, s, LockType::Write),
                    ),
                    ..store0.objs@[s]
                }) by {
                    if s == slot as int {
                        assert(holds_upto(
                            self.locks_@,
                            ui as int + 1,
                            s,
                            self.locks_@[ui as int].1,
                        )) by {
                            assert(self.locks_@[ui as int].0 == s && self.locks_@[ui as int].1
                                == self.locks_@[ui as int].1);
                        }
                        if is_read {
                            assert(!holds_upto(self.locks_@, ui as int + 1, s, LockType::Write)
                                == !holds_upto(self.locks_@, ui as int, s, LockType::Write)) by {
                                if holds_upto(self.locks_@, ui as int + 1, s, LockType::Write) {
                                    let q = choose|q: int|
                                        0 <= q < ui as int + 1 && (#[trigger] self.locks_@[q]).0
                                            == s && self.locks_@[q].1 == LockType::Write;
                                    assert(q != ui);
                                }
                            }
                        } else {
                            assert(!holds_upto(self.locks_@, ui as int + 1, s, LockType::Read)
                                == !holds_upto(self.locks_@, ui as int, s, LockType::Read)) by {
                                if holds_upto(self.locks_@, ui as int + 1, s, LockType::Read) {
                                    let q = choose|q: int|
                                        0 <= q < ui as int + 1 && (#[trigger] self.locks_@[q]).0
                                            == s && self.locks_@[q].1 == LockType::Read;
                                    assert(q != ui);
                                }
                            }
                        }
                    } else {
                        assert(store.objs@[s] == objs_pre[s]);
                        assert(holds_upto(self.locks_@, ui as int + 1, s, LockType::Read)
                            == holds_upto(self.locks_@, ui as int, s, LockType::Read)) by {
                            if holds_upto(self.locks_@, ui as int + 1, s, LockType::Read) {
                                let q = choose|q: int|
                                    0 <= q < ui as int + 1 && (#[trigger] self.locks_@[q]).0 == s
                                        && self.locks_@[q].1 == LockType::Read;
                                assert(q != ui);
                            }
                        }
                        assert(holds_upto(self.locks_@, ui as int + 1, s, LockType::Write)
                            == holds_upto(self.locks_@, ui as int, s, LockType::Write)) by {
                            if holds_upto(self.locks_@, ui as int + 1, s, LockType::Write) {
                                let q = choose|q: int|
                                    0 <= q < ui as int + 1 && (#[trigger] self.locks_@[q]).0 == s
                                        && self.locks_@[q].1 == LockType::Write;
                                assert(q != ui);
                            }
                        }
                    }
                }
            }
            ui = ui + 1;
        }
        proof {
            assert forall|s: int|
                0 <= s < store0.objs@.len() implies {
                &&& holds_upto(self.locks_@, n as int, s, LockType::Read) == self.holds(
                    s,
                    LockType::Read,
                )
                &&& holds_upto(self.locks_@, n as int, s, LockType::Write) == self.holds(
                    s,
                    LockType::Write,
                )
            } by {}
        }
    }

    /// Try-commit: the persistence tail of a 2PL transaction whose
    /// writes are already installed. Appends one DATA record per
    /// written row, flushes each row's mirror (whole, or only the
    /// masked extents), appends the TXN_COMMIT marker, and releases
    /// every lock. When the caller asked to abort, only the locks
    /// are released and nothing reaches the log.
    #[verifier::loop_isolation(false)]
    pub fn try_commit(&mut self, store: &mut ObjStore, log: &mut NvmLog) -> (r: bool)
        requires
            old(self).wf(),
            old(store).wf(),
            old(log).wf(),
            old(self).locks_consistent(*old(store)),
            old(self).records_ok(*old(store)),
        ensures
            final(self).wf(),
            final(store).wf(),
            final(log).wf(),
            final(self).tid_ == old(self).tid_,
            final(self).locks_@.len() == 0,
            final(self).records_@.len() == 0,
            !final(self).should_abort_,
            r ==> final(self).txn_info_.spec_committed() && final(self).txn_info_.spec_persist(),
            r == !old(self).should_abort_,
            r ==> final(self).state_ == TxState::COMMITTED,
            !r ==> final(self).state_ == TxState::ABORTED,
            final(store).objs@.len() == old(store).objs@.len(),
            forall|s: int|
                0 <= s < old(store).objs@.len() ==> (final(store).objs@[s] == TObj {
                    pmem_: final(store).objs@[s].pmem_,
                    vers_: released_vers(
                        old(store).obj_vers(s),
                        old(self).holds(s, LockType::Read),
                        old(self).holds(s, LockType::Write),
                    ),
                    ..old(store).objs@[s]
                }),
            !r ==> *final(log) == *old(log),
            !r ==> forall|s: int|
                0 <= s < old(store).objs@.len() ==> final(store).objs@[s].pmem_ == old(
                    store,
                ).objs@[s].pmem_,
            r ==> forall|s: int|
                0 <= s < old(store).objs@.len() && !old(self).recorded(s) ==> final(store).objs@[
                    s].pmem_ == old(store).objs@[s].pmem_,
            r ==> forall|i: int|
                0 <= i < old(self).records_@.len() ==> {
                    let s = (#[trigger] old(self).records_@[i]).0 as int;
                    match old(self).records_@[i].1 {
                        Option::Some(fs) => final(store).obj_pmem(s).len() == old(
                            store,
                        ).obj_pmem(s).len() && (forall|p: int|
                            0 <= p < old(store).obj_pmem(s).len() ==> final(store).obj_pmem(s)[p]
                                == (if in_mask_extents(
                                old(store).objs@[s].fields_offset_@,
                                fs@,
                                p,
                            ) {
                                old(store).obj_bytes(s)[p]
                            } else {
                                old(store).obj_pmem(s)[p]
                            })),
                        Option::None => final(store).obj_pmem(s) == old(store).obj_bytes(s),
                    }
                },
            r ==> final(log).recs() == old(log).recs() + recs2_upto(
                old(self).records_@,
                *old(store),
                old(self).tid_.spec_value(),
                old(self).records_@.len() as int,
            ) + seq![
                SpecRec {
                    kind: LOG_KIND_TXN,
                    tid: old(self).tid_.spec_value(),
                    payload: u32_le_bytes(old(self).tid_.spec_value()),
                },
            ],
            r ==> final(log).binds@ == old(log).binds@ + binds2_upto(
                old(self).records_@,
                *old(store),
                old(self).records_@.len() as int,
            ) + seq![0u64],
    {
        let ghost store0 = *old(store);
        let ghost recs0 = old(self).records_@;
        let tidv: u32 = self.tid_.value();
        if self.should_abort_ {
            self.release_locks(store);
            self.state_ = TxState::ABORTED;
            self.should_abort_ = false;
            self.locks_ = Vec::new();
            self.records_ = Vec::new();
            return false;
        }
        // Log the written rows.
        let n: usize = self.records_.len();
        let mut logs: Vec<PLog> = Vec::new();
        let mut gi: usize = 0;
        while gi < n
            invariant
                gi <= n,
                logs@.map(|q: int, p: PLog| p.spec_rec()) == recs2_upto(
                    recs0,
                    store0,
                    tidv,
                    gi as int,
                ),
                logs@.map(|q: int, p: PLog| p.data.oid) == binds2_upto(recs0, store0, gi as int),
                forall|q: int| 0 <= q < logs@.len() ==> (#[trigger] logs@[q]).wf(),
            decreases n - gi,
        {
            let ghost logs_pre = logs@;
            let slot: usize = self.records_[gi].0;
            proof {
                assert(self.records_@[gi as int].0 == slot);
                assert(slot < store0.objs@.len());
            }
            let payload: Vec<u8> = store.read_bytes(slot);
            let oid64: u64 = store.get_id(slot).value();
            logs.push(PLog::new(payload, oid64, self.tid_));
            proof {
                let ghost newrec = SpecRec {
                    kind: LOG_KIND_DATA,
                    tid: tidv,
                    payload: store0.obj_bytes(slot as int),
                };
                assert(logs@[logs@.len() - 1].spec_rec() == newrec);
                assert(logs@.map(|q: int, p: PLog| p.spec_rec()) =~= logs_pre.map(
                    |q: int, p: PLog| p.spec_rec(),
                ).push(newrec));
                assert(logs@.map(|q: int, p: PLog| p.data.oid) =~= logs_pre.map(
                    |q: int, p: PLog| p.data.oid,
                ).push(oid64));
                assert(recs2_upto(recs0, store0, tidv, gi as int + 1) =~= recs2_upto(
                    recs0,
                    store0,
                    tidv,
                    gi as int,
                ).push(newrec));
                assert(binds2_upto(recs0, store0, gi as int + 1) =~= binds2_upto(
                    recs0,
                    store0,
                    gi as int,
                ).push(oid64));
            }
            gi = gi + 1;
        }
        crate::plog::persist_log(log, &logs);
        // Flush the written rows' mirrors.
        let mut pi: usize = 0;
        while pi < n
            invariant
                pi <= n,
                store.wf(),
                store.objs@.len() == store0.objs@.len(),
                forall|s: int|
                    0 <= s < store0.objs@.len() && !(exists|q: int|
                        0 <= q < pi && (#[trigger] recs0[q]).0 == s) ==> store.objs@[s]
                        == store0.objs@[s],
                forall|q: int|
                    0 <= q < pi ==> {
                        let s = (#[trigger] recs0[q]).0 as int;
                        &&& (store.objs@[s] == TObj {
                            pmem_: store.objs@[s].pmem_,
                            ..store0.objs@[s]
                        })
                        &&& (match recs0[q].1 {
                            Option::Some(fs) => store.obj_pmem(s).len() == store0.obj_pmem(
                                s,
                            ).len() && (forall|p: int|
                                0 <= p < store0.obj_pmem(s).len() ==> store.obj_pmem(s)[p] == (
                                if in_mask_extents(store0.objs@[s].fields_offset_@, fs@, p) {
                                    store0.obj_bytes(s)[p]
                                } else {
                                    store0.obj_pmem(s)[p]
                                })),
                            Option::None => store.obj_pmem(s) == store0.obj_bytes(s),
                        })
                    },
            decreases n - pi,
        {
            let slot: usize = self.records_[pi].0;
            proof {
                assert(self.records_@[pi as int].0 == slot);
                assert(slot < store0.objs@.len());
                assert forall|q: int| 0 <= q < n && q != pi as int implies (#[trigger] recs0[
                    q]).0 != slot by {}
                assert(store.objs@[slot as int] == store0.objs@[slot as int]);
            }
            let ghost objs_pre = store.objs@;
            store.obj_flush_masked(slot, &self.records_[pi].1);
            proof {
                assert forall|x: int| 0 <= x < store.objs@.len() && x != slot as int
                    implies store.objs@[x] == objs_pre[x] by {}
                assert forall|s: int|
                    0 <= s < store0.objs@.len() && !(exists|q: int|
                        0 <= q < pi as int + 1 && (#[trigger] recs0[q]).0 == s) implies store
                    .objs@[s] == store0.objs@[s] by {
                    if s != slot as int {
                        if exists|q: int| 0 <= q < pi && (#[trigger] recs0[q]).0 == s {
                            let q = choose|q: int| 0 <= q < pi && (#[trigger] recs0[q]).0 == s;
                            assert(0 <= q < pi as int + 1 && recs0[q].0 == s);
                        }
                    } else {
                        assert(recs0[pi as int].0 == s);
                    }
                }
                assert forall|q: int|
                    0 <= q < pi as int + 1 implies {
                    let s = (#[trigger] recs0[q]).0 as int;
                    &&& (store.objs@[s] == TObj {
                        pmem_: store.objs@[s].pmem_,
                        ..store0.objs@[s]
                    })
                    &&& (match recs0[q].1 {
                        Option::Some(fs) => store.obj_pmem(s).len() == store0.obj_pmem(s).len()
                            && (forall|p: int|
                            0 <= p < store0.obj_pmem(s).len() ==> store.obj_pmem(s)[p] == (
                            if in_mask_extents(store0.objs@[s].fields_offset_@, fs@, p) {
                                store0.obj_bytes(s)[p]
                            } else {
                                store0.obj_pmem(s)[p]
                            })),
                        Option::None => store.obj_pmem(s) == store0.obj_bytes(s),
                    })
                } by {
                    if q != pi as int {
                        assert(recs0[q].0 != slot);
                        assert(store.objs@[recs0[q].0 as int] == objs_pre[recs0[q].0 as int]);
                    } else {
                        assert(self.records_@[pi as int].1 == recs0[pi as int].1);
                    }
                }
            }
            pi = pi + 1;
        }
        // Commit marker, then release every lock.
        crate::plog::persist_txn(log, tidv);
        proof {
            assert(self.locks_consistent(*store)) by {
                assert forall|i: int| 0 <= i < self.locks_@.len() implies {
                    let s = (#[trigger] self.locks_@[i]).0 as int;
                    &&& self.locks_@[i].0 < store.objs@.len()
                    &&& (self.locks_@[i].1 == LockType::Read ==> store.obj_vers(
                        s,
                    ).spec_tpl_reader_cnt() > 0)
                    &&& (self.locks_@[i].1 == LockType::Write ==> store.obj_vers(
                        s,
                    ).spec_tpl_writer() == self.tid_.spec_value())
                } by {
                    let s = self.locks_@[i].0 as int;
                    assert(store.obj_vers(s).spec_tpl_reader_cnt() == store0.obj_vers(
                        s,
                    ).spec_tpl_reader_cnt() && store.obj_vers(s).spec_tpl_writer()
                        == store0.obj_vers(s).spec_tpl_writer());
                }
            }
        }
        let ghost store_mid = *store;
        self.release_locks(store);
        proof {
            assert forall|s: int|
                0 <= s < store0.objs@.len() implies (store.objs@[s] == TObj {
                pmem_: store.objs@[s].pmem_,
                vers_: released_vers(
                    store0.obj_vers(s),
                    self.holds(s, LockType::Read),
                    self.holds(s, LockType::Write),
                ),
                ..store0.objs@[s]
            }) by {
                assert(store.objs@[s] == TObj {
                    vers_: released_vers(
                        store_mid.obj_vers(s),
                        self.holds(s, LockType::Read),
                        self.holds(s, LockType::Write),
                    ),
                    ..store_mid.objs@[s]
                });
                assert(store_mid.obj_vers(s) == store0.obj_vers(s));
            }
        }
        self.state_ = TxState::COMMITTED;
        self.txn_info_.commit();
        self.txn_info_.persist();
        self.should_abort_ = false;
        self.locks_ = Vec::new();
        self.records_ = Vec::new();
        true
    }

    /// Aborts: releases every lock and drops the transaction's
    /// bookkeeping. The installed write-through values stay — under
    /// wait-die the caller retries with a fresh Tid.
    pub fn abort(&mut self, store: &mut ObjStore) -> (r: bool)
        requires
            old(self).wf(),
            old(store).wf(),
            old(self).locks_consistent(*old(store)),
        ensures
            !r,
            final(self).wf(),
            final(store).wf(),
            final(self).state_ == TxState::ABORTED,
            final(self).locks_@.len() == 0,
            final(self).records_@.len() == 0,
            !final(self).should_abort_,
            final(self).tid_ == old(self).tid_,
            final(store).objs@.len() == old(store).objs@.len(),
            forall|s: int|
                0 <= s < old(store).objs@.len() ==> (final(store).objs@[s] == TObj {
                    vers_: released_vers(
                        old(store).obj_vers(s),
                        old(self).holds(s, LockType::Read),
                        old(self).holds(s, LockType::Write),
                    ),
                    ..old(store).objs@[s]
                }),
    {
        self.release_locks(store);
        self.state_ = TxState::ABORTED;
        self.should_abort_ = false;
        self.locks_ = Vec::new();
        self.records_ = Vec::new();
        false
    }
}

} // verus!
