//! The optimistic (OCC) transaction.
//!
//! Reads and writes only buffer: a read records the version it
//! observed, a write stashes the new bytes in its access tag. All
//! effects happen at try-commit, in the classical pipeline: lock the
//! write set, validate the read set, log the writes, install them,
//! flush the persistent mirrors, append the commit marker, release.
//! A transaction either fully commits or is fully rolled back.

use vstd::prelude::*;

verus! {

use crate::plog::{NvmLog, PLog, SpecRec, LOG_KIND_DATA, LOG_KIND_TXN, u32_le_bytes};
use crate::table::{Bucket, BucketView, Table};
use crate::tbox::ObjStore;
use crate::tcore::{FieldArray, ObjectId, Operation, TTag, TVersion};
use crate::txn::{AbortReason, Tid, TxState, TxnInfo};

/// Whether a tag is the one keyed by `(oid, op)`.
pub open spec fn tag_matches(t: TTag, oid: ObjectId, op: Operation) -> bool {
    t.oid_ == oid && t.op_ == op
}

/// The buckets of every table, as the specifications see them.
pub open spec fn tables_view(tables: Seq<Table>) -> Seq<Seq<BucketView>> {
    tables.map(|i: int, t: Table| t.tview())
}

/// An optimistic transaction: its Tid, lifecycle state, the access
/// tag set keyed by (ObjectId, Operation), its shared status record,
/// and the caller's abort request.
pub struct TransactionOCC {
    pub tid_: Tid,
    pub state_: TxState,
    pub deps_: Vec<TTag>,
    pub txn_info_: TxnInfo,
    pub should_abort_: bool,
}

impl TransactionOCC {
    /// The Tid is real and no two tags share a key.
    pub open spec fn wf(self) -> bool {
        &&& self.tid_.spec_value() != 0
        &&& forall|i: int, j: int|
            0 <= i < j < self.deps_@.len() ==> !(self.deps_@[i].oid_ == self.deps_@[j].oid_
                && self.deps_@[i].op_ == self.deps_@[j].op_)
    }

    /// Every tag's slot names a store object carrying the tag's
    /// ObjectId.
    pub open spec fn tags_bound(self, store: ObjStore) -> bool {
        forall|i: int|
            0 <= i < self.deps_@.len() ==> (#[trigger] self.deps_@[i]).obj_ < store.objs@.len()
                && store.objs@[self.deps_@[i].obj_ as int].id_ == self.deps_@[i].oid_
    }

    /// No two written tags share a store slot.
    pub open spec fn write_objs_distinct(self) -> bool {
        writes_distinct_of(self.deps_@)
    }

    pub open spec fn spec_has_tag(self, oid: ObjectId, op: Operation) -> bool {
        exists|i: int| 0 <= i < self.deps_@.len() && tag_matches(#[trigger] self.deps_@[i], oid, op)
    }

    /// The index of the tag keyed by `(oid, op)` (unique when `wf`).
    pub open spec fn spec_tag_idx(self, oid: ObjectId, op: Operation) -> int {
        choose|i: int| 0 <= i < self.deps_@.len() && tag_matches(#[trigger] self.deps_@[i], oid, op)
    }

    /// Whether some written tag covers the store slot `obj`.
    pub open spec fn obj_write_tagged(self, obj: int) -> bool {
        exists|j: int|
            0 <= j < self.deps_@.len() && (#[trigger] self.deps_@[j]).has_write_ && self.deps_@[
                j].obj_ == obj
    }

    /// The lock phase can take every write lock: each written object
    /// is unlocked or already held by this transaction.
    pub open spec fn commit_locks_ok(self, store: ObjStore) -> bool {
        locks_ok_of(self.deps_@, store, self.tid_.spec_value())
    }

    /// Validation passes: every read observed the version that is
    /// still current, and nobody else holds the object unless this
    /// transaction itself wrote it.
    pub open spec fn commit_reads_ok(self, store: ObjStore) -> bool {
        reads_ok_of(self.deps_@, store, self.tid_.spec_value())
    }

    /// Serializability check of one transaction, as the log-order
    /// test: commit succeeds exactly when every observed read still
    /// matches the object's last writer and every written object can
    /// be locked.
    pub open spec fn commit_ok(self, store: ObjStore) -> bool {
        self.commit_locks_ok(store) && self.commit_reads_ok(store)
    }

    pub fn new(tid: Tid) -> (tx: TransactionOCC)
        requires
            tid.spec_value() != 0,
        ensures
            tx.wf(),
            tx.tid_ == tid,
            tx.state_ == TxState::EMBRYO,
            tx.deps_@.len() == 0,
            !tx.should_abort_,
            tx.txn_info_.spec_tid() == tid,
            !tx.txn_info_.spec_committed(),
            !tx.txn_info_.spec_persist(),
            !tx.txn_info_.spec_locked(),
            tx.txn_info_.spec_rank() == 0,
    {
        TransactionOCC {
            tid_: tid,
            state_: TxState::EMBRYO,
            deps_: Vec::new(),
            txn_info_: TxnInfo::new(tid),
            should_abort_: false,
        }
    }

    pub fn id(&self) -> (t: Tid)
        ensures
            t == self.tid_,
    {
        self.tid_
    }

    pub fn txn_info(&self) -> (info: &TxnInfo)
        ensures
            *info == self.txn_info_,
    {
        &self.txn_info_
    }

    /// Asks the transaction to abort at try-commit.
    pub fn should_abort(&mut self)
        ensures
            final(self).should_abort_,
            final(self).tid_ == old(self).tid_,
            final(self).state_ == old(self).state_,
            final(self).deps_ == old(self).deps_,
            final(self).txn_info_ == old(self).txn_info_,
    {
        self.should_abort_ = true;
    }

    /// The tag keyed by `(oid, op)`, creating it if absent; returns
    /// its position in the tag set.
    #[verifier::loop_isolation(false)]
    pub fn retrieve_tag(&mut self, oid: ObjectId, obj: usize, op: Operation) -> (k: usize)
        requires
            old(self).wf(),
        ensures
            final(self).wf(),
            final(self).tid_ == old(self).tid_,
            final(self).state_ == old(self).state_,
            final(self).txn_info_ == old(self).txn_info_,
            final(self).should_abort_ == old(self).should_abort_,
            k < final(self).deps_@.len(),
            tag_matches(final(self).deps_@[k as int], oid, op),
            old(self).spec_has_tag(oid, op) ==> *final(self) == *old(self) && k == old(
                self,
            ).spec_tag_idx(oid, op),
            !old(self).spec_has_tag(oid, op) ==> {
                &&& k == old(self).deps_@.len()
                &&& final(self).deps_@.len() == old(self).deps_@.len() + 1
                &&& forall|i: int|
                    0 <= i < old(self).deps_@.len() ==> final(self).deps_@[i] == old(self).deps_@[i]
                &&& final(self).deps_@[k as int].obj_ == obj
                &&& final(self).deps_@[k as int].vers_ == 0
                &&& !final(self).deps_@[k as int].has_write_
                &&& !final(self).deps_@[k as int].is_lock_
                &&& final(self).deps_@[k as int].fields_ is None
                &&& final(self).deps_@[k as int].write_val_ is None
                &&& final(self).deps_@[k as int].bucket_ is None
            },
    {
        let n: usize = self.deps_.len();
        let mut i: usize = 0;
        while i < n
            invariant
                i <= n,
                *self == *old(self),
                forall|a: int| 0 <= a < i ==> !tag_matches(self.deps_@[a], oid, op),
            decreases n - i,
        {
            if self.deps_[i].oid_ == oid && self.deps_[i].op_ == op {
                proof {
                    assert(tag_matches(self.deps_@[i as int], oid, op));
                    assert(self.spec_has_tag(oid, op));
                    let w = self.spec_tag_idx(oid, op);
                    assert(w == i as int);
                }
                return i;
            }
            i = i + 1;
        }
        proof {
            if old(self).spec_has_tag(oid, op) {
                let w = choose|w: int|
                    0 <= w < self.deps_@.len() && tag_matches(#[trigger] self.deps_@[w], oid, op);
                assert(false);
            }
        }
        self.deps_.push(TTag::new(oid, obj, op));
        n
    }
}

} // verus!

verus! {

impl TransactionOCC {
    /// Reads one object: tags it, records the version observed, and
    /// returns the buffered write if this transaction already wrote
    /// it, else the object's current bytes.
    pub fn read(&mut self, store: &ObjStore, obj: usize) -> (r: Vec<u8>)
        requires
            old(self).wf(),
            old(self).tags_bound(*store),
            store.wf(),
            obj < store.objs@.len(),
        ensures
            final(self).wf(),
            final(self).tags_bound(*store),
            final(self).tid_ == old(self).tid_,
            final(self).state_ == old(self).state_,
            final(self).txn_info_ == old(self).txn_info_,
            final(self).should_abort_ == old(self).should_abort_,
            ({
                let oid = store.objs@[obj as int].id_;
                let vcur = store.obj_vers(obj as int).spec_last_writer();
                if old(self).spec_has_tag(oid, Operation::RWrite) {
                    let k = old(self).spec_tag_idx(oid, Operation::RWrite);
                    &&& final(self).deps_@.len() == old(self).deps_@.len()
                    &&& forall|i: int|
                        0 <= i < old(self).deps_@.len() && i != k ==> final(self).deps_@[i] == old(
                            self,
                        ).deps_@[i]
                    &&& (final(self).deps_@[k] == TTag {
                        vers_: vcur,
                        has_read_: true,
                        ..old(self).deps_@[k]
                    })
                    &&& (match old(self).deps_@[k].write_val_ {
                        Option::Some(w) => r@ == w@,
                        Option::None => r@ == store.obj_bytes(old(self).deps_@[k].obj_ as int),
                    })
                } else {
                    &&& final(self).deps_@.len() == old(self).deps_@.len() + 1
                    &&& forall|i: int|
                        0 <= i < old(self).deps_@.len() ==> final(self).deps_@[i] == old(
                            self,
                        ).deps_@[i]
                    &&& tag_matches(
                        final(self).deps_@[old(self).deps_@.len() as int],
                        oid,
                        Operation::RWrite,
                    )
                    &&& final(self).deps_@[old(self).deps_@.len() as int].obj_ == obj
                    &&& final(self).deps_@[old(self).deps_@.len() as int].vers_ == vcur
                    &&& final(self).deps_@[old(self).deps_@.len() as int].has_read_
                    &&& !final(self).deps_@[old(self).deps_@.len() as int].has_write_
                    &&& final(self).deps_@[old(self).deps_@.len() as int].write_val_ is None
                    &&& final(self).deps_@[old(self).deps_@.len() as int].fields_ is None
                    &&& final(self).deps_@[old(self).deps_@.len() as int].bucket_ is None
                    &&& !final(self).deps_@[old(self).deps_@.len() as int].is_lock_
                    &&& r@ == store.obj_bytes(obj as int)
                }
            }),
    {
        let oid: ObjectId = store.get_id(obj);
        let vcur: u32 = store.get_version(obj);
        let k: usize = self.retrieve_tag(oid, obj, Operation::RWrite);
        self.deps_[k].add_version(vcur);
        let slot: usize = self.deps_[k].obj_;
        match &self.deps_[k].write_val_ {
            Option::Some(w) => crate::plog::copy_range(w, 0, w.len()),
            Option::None => store.read_bytes(slot),
        }
    }

    /// Buffers a write of the whole record image.
    pub fn write(&mut self, store: &ObjStore, obj: usize, val: Vec<u8>)
        requires
            old(self).wf(),
            old(self).tags_bound(*store),
            store.wf(),
            obj < store.objs@.len(),
        ensures
            final(self).wf(),
            final(self).tags_bound(*store),
            final(self).tid_ == old(self).tid_,
            final(self).state_ == old(self).state_,
            final(self).txn_info_ == old(self).txn_info_,
            final(self).should_abort_ == old(self).should_abort_,
            ({
                let oid = store.objs@[obj as int].id_;
                if old(self).spec_has_tag(oid, Operation::RWrite) {
                    let k = old(self).spec_tag_idx(oid, Operation::RWrite);
                    &&& final(self).deps_@.len() == old(self).deps_@.len()
                    &&& forall|i: int|
                        0 <= i < old(self).deps_@.len() && i != k ==> final(self).deps_@[i] == old(
                            self,
                        ).deps_@[i]
                    &&& final(self).deps_@[k].write_val_ matches Some(w) && w@ == val@
                    &&& final(self).deps_@[k].has_write_
                    &&& final(self).deps_@[k].oid_ == old(self).deps_@[k].oid_
                    &&& final(self).deps_@[k].op_ == old(self).deps_@[k].op_
                    &&& final(self).deps_@[k].obj_ == old(self).deps_@[k].obj_
                    &&& final(self).deps_@[k].vers_ == old(self).deps_@[k].vers_
                    &&& final(self).deps_@[k].is_lock_ == old(self).deps_@[k].is_lock_
                    &&& final(self).deps_@[k].fields_ == old(self).deps_@[k].fields_
                    &&& final(self).deps_@[k].bucket_ == old(self).deps_@[k].bucket_
                } else {
                    &&& final(self).deps_@.len() == old(self).deps_@.len() + 1
                    &&& forall|i: int|
                        0 <= i < old(self).deps_@.len() ==> final(self).deps_@[i] == old(
                            self,
                        ).deps_@[i]
                    &&& tag_matches(
                        final(self).deps_@[old(self).deps_@.len() as int],
                        oid,
                        Operation::RWrite,
                    )
                    &&& final(self).deps_@[old(self).deps_@.len() as int].obj_ == obj
                    &&& final(self).deps_@[old(self).deps_@.len() as int].vers_ == 0
                    &&& final(self).deps_@[old(self).deps_@.len() as int].has_write_
                    &&& final(self).deps_@[old(self).deps_@.len() as int].write_val_ matches Some(
                        w,
                    ) && w@ == val@
                    &&& final(self).deps_@[old(self).deps_@.len() as int].fields_ is None
                    &&& final(self).deps_@[old(self).deps_@.len() as int].bucket_ is None
                    &&& !final(self).deps_@[old(self).deps_@.len() as int].is_lock_
                }
            }),
    {
        let oid: ObjectId = store.get_id(obj);
        let k: usize = self.retrieve_tag(oid, obj, Operation::RWrite);
        self.deps_[k].write(val);
    }

    /// Buffers a write and attaches the field mask the persistence
    /// step will flush.
    pub fn write_field(&mut self, store: &ObjStore, obj: usize, val: Vec<u8>, fields: FieldArray)
        requires
            old(self).wf(),
            old(self).tags_bound(*store),
            store.wf(),
            obj < store.objs@.len(),
        ensures
            final(self).wf(),
            final(self).tags_bound(*store),
            final(self).tid_ == old(self).tid_,
            final(self).state_ == old(self).state_,
            final(self).txn_info_ == old(self).txn_info_,
            final(self).should_abort_ == old(self).should_abort_,
            ({
                let oid = store.objs@[obj as int].id_;
                let k = if old(self).spec_has_tag(oid, Operation::RWrite) {
                    old(self).spec_tag_idx(oid, Operation::RWrite)
                } else {
                    old(self).deps_@.len() as int
                };
                &&& final(self).deps_@.len() == (if old(self).spec_has_tag(
                    oid,
                    Operation::RWrite,
                ) {
                    old(self).deps_@.len() as int
                } else {
                    (old(self).deps_@.len() + 1) as int
                })
                &&& forall|i: int|
                    0 <= i < old(self).deps_@.len() && i != k ==> final(self).deps_@[i] == old(
                        self,
                    ).deps_@[i]
                &&& tag_matches(final(self).deps_@[k], oid, Operation::RWrite)
                &&& final(self).deps_@[k].obj_ == (if old(self).spec_has_tag(
                    oid,
                    Operation::RWrite,
                ) {
                    old(self).deps_@[k].obj_
                } else {
                    obj
                })
                &&& final(self).deps_@[k].has_write_
                &&& final(self).deps_@[k].write_val_ matches Some(w) && w@ == val@
                &&& final(self).deps_@[k].fields_ matches Some(f) && f@ == fields@
            }),
    {
        let oid: ObjectId = store.get_id(obj);
        let k: usize = self.retrieve_tag(oid, obj, Operation::RWrite);
        self.deps_[k].write(val);
        self.deps_[k].set_fields(fields);
    }

    /// Gives up without touching anything: possible only while no
    /// lock is held, so the tag set is simply dropped.
    pub fn abort(&mut self, reason: AbortReason) -> (r: bool)
        requires
            forall|i: int| 0 <= i < old(self).deps_@.len() ==> !(#[trigger] old(self).deps_@[
                i]).is_lock_,
        ensures
            !r,
            final(self).state_ == TxState::ABORTED,
            final(self).deps_@.len() == 0,
            !final(self).should_abort_,
            final(self).tid_ == old(self).tid_,
            final(self).txn_info_ == old(self).txn_info_,
    {
        let _ = reason;
        self.state_ = TxState::ABORTED;
        self.deps_ = Vec::new();
        self.should_abort_ = false;
        false
    }
}

} // verus!

verus! {

/// Whether one of the first `m` tags writes the store slot `s`.
pub open spec fn write_tagged_upto(tags: Seq<TTag>, m: int, s: int) -> bool {
    exists|j: int| 0 <= j < m && (#[trigger] tags[j]).has_write_ && tags[j].obj_ == s
}

/// The DATA records the first `i` tags contribute to the log: one
/// per written tag, its payload the buffered bytes, or the object's
/// image for a structural (insert or delete) tag.
pub open spec fn data_recs_upto(tags: Seq<TTag>, store: ObjStore, tid: u32, i: int) -> Seq<SpecRec>
    decreases i,
    when 0 <= i <= tags.len()
{
    if i <= 0 {
        Seq::empty()
    } else {
        data_recs_upto(tags, store, tid, i - 1) + (if tags[i - 1].has_write_ {
            seq![
                SpecRec {
                    kind: LOG_KIND_DATA,
                    tid: tid,
                    payload: (match tags[i - 1].write_val_ {
                        Option::Some(w) => w@,
                        Option::None => store.obj_bytes(tags[i - 1].obj_ as int),
                    }),
                },
            ]
        } else {
            Seq::empty()
        })
    }
}

/// The bindings of those DATA records: the written objects' ids.
pub open spec fn data_binds_upto(tags: Seq<TTag>, i: int) -> Seq<u64>
    decreases i,
    when 0 <= i <= tags.len()
{
    if i <= 0 {
        Seq::empty()
    } else {
        data_binds_upto(tags, i - 1) + (if tags[i - 1].has_write_ {
            seq![tags[i - 1].oid_.spec_value()]
        } else {
            Seq::empty()
        })
    }
}

/// What one tag installs structurally: a Push appends its row to its
/// bucket and indexes its key at the new position; a Delete removes
/// the key from the index; anything else changes nothing.
pub open spec fn apply_tag_structural(
    t: TTag,
    store: ObjStore,
    tvs: Seq<Seq<BucketView>>,
) -> Seq<Seq<BucketView>> {
    if t.has_write_ && t.bucket_ is Some {
        let ti = (t.bucket_->0).0 as int;
        let bi = (t.bucket_->0).1 as int;
        if 0 <= ti < tvs.len() && 0 <= bi < tvs[ti].len() {
            let bv = tvs[ti][bi];
            let key = store.objs@[t.obj_ as int].key_;
            if t.op_ == Operation::Push {
                tvs.update(
                    ti,
                    tvs[ti].update(
                        bi,
                        BucketView {
                            rows: bv.rows.push(t.obj_),
                            index: bv.index.insert(key, bv.rows.len() as usize),
                        },
                    ),
                )
            } else if t.op_ == Operation::Delete {
                tvs.update(
                    ti,
                    tvs[ti].update(bi, BucketView { rows: bv.rows, index: bv.index.remove(key) }),
                )
            } else {
                tvs
            }
        } else {
            tvs
        }
    } else {
        tvs
    }
}

/// The buckets after the first `i` tags have installed, in tag
/// order.
pub open spec fn install_tables_upto(
    tags: Seq<TTag>,
    store: ObjStore,
    tvs0: Seq<Seq<BucketView>>,
    i: int,
) -> Seq<Seq<BucketView>>
    decreases i,
    when 0 <= i <= tags.len()
{
    if i <= 0 {
        tvs0
    } else {
        apply_tag_structural(tags[i - 1], store, install_tables_upto(tags, store, tvs0, i - 1))
    }
}

/// Whether `p` lies in the extent of one of the masked fields.
pub open spec fn in_field_extents(offs: Seq<usize>, fs: Seq<usize>, p: int) -> bool {
    exists|k: int|
        0 <= k < fs.len() && offs[(#[trigger] fs[k]) as int] <= p < offs[fs[k] + 1]
}

/// Whether `p` lies in the extent of one of the first `m` masked
/// fields.
pub open spec fn in_field_extents_upto(offs: Seq<usize>, fs: Seq<usize>, m: int, p: int) -> bool {
    exists|k: int|
        0 <= k < m && k < fs.len() && offs[(#[trigger] fs[k]) as int] <= p < offs[fs[k] + 1]
}

/// Taking the OCC lock and releasing it once returns the word to
/// where it started.
proof fn lemma_lock_roundtrip(v: TVersion, tid: u32)
    requires
        v.wf(),
        tid != 0,
        v.spec_lock_owner() == 0 || v.spec_lock_owner() == tid,
        v.spec_count() < u32::MAX,
    ensures
        v.spec_after_lock(tid).spec_after_unlock() == v,
{
}

} // verus!

verus! {

use crate::tbox::TObj;

/// Whether one of the tags in `lo..hi` writes the store slot `s`.
pub open spec fn write_tagged_range(tags: Seq<TTag>, lo: int, hi: int, s: int) -> bool {
    exists|j: int| lo <= j < hi && (#[trigger] tags[j]).has_write_ && tags[j].obj_ == s
}

impl TransactionOCC {
    /// Releases the write locks the lock phase took on the first
    /// `upto` tags, restoring the store to its pre-commit state.
    #[verifier::loop_isolation(false)]
    fn rollback_locks(&self, store: &mut ObjStore, upto: usize, Ghost(store0): Ghost<ObjStore>)
        requires
            self.wf(),
            self.write_objs_distinct(),
            self.tags_bound(store0),
            store0.wf(),
            old(store).wf(),
            upto <= self.deps_@.len(),
            old(store).objs@.len() == store0.objs@.len(),
            forall|s: int|
                0 <= s < store0.objs@.len() && !write_tagged_upto(self.deps_@, upto as int, s)
                    ==> old(store).objs@[s] == store0.objs@[s],
            forall|i: int|
                0 <= i < upto && (#[trigger] self.deps_@[i]).has_write_ ==> (old(store).objs@[
                    self.deps_@[i].obj_ as int] == TObj {
                    vers_: store0.obj_vers(self.deps_@[i].obj_ as int).spec_after_lock(
                        self.tid_.spec_value(),
                    ),
                    ..store0.objs@[self.deps_@[i].obj_ as int]
                }),
            forall|i: int|
                0 <= i < upto && (#[trigger] self.deps_@[i]).has_write_ ==> {
                    let v = store0.obj_vers(self.deps_@[i].obj_ as int);
                    &&& (v.spec_lock_owner() == 0 || v.spec_lock_owner() == self.tid_.spec_value())
                    &&& v.spec_count() < u32::MAX
                },
        ensures
            final(store).wf(),
            final(store).objs@ == store0.objs@,
    {
        let mut ri: usize = 0;
        while ri < upto
            invariant
                ri <= upto,
                store.wf(),
                store.objs@.len() == store0.objs@.len(),
                forall|s: int|
                    0 <= s < store0.objs@.len() && !write_tagged_range(
                        self.deps_@,
                        ri as int,
                        upto as int,
                        s,
                    ) ==> store.objs@[s] == store0.objs@[s],
                forall|i: int|
                    ri <= i < upto && (#[trigger] self.deps_@[i]).has_write_ ==> (store.objs@[
                        self.deps_@[i].obj_ as int] == TObj {
                        vers_: store0.obj_vers(self.deps_@[i].obj_ as int).spec_after_lock(
                            self.tid_.spec_value(),
                        ),
                        ..store0.objs@[self.deps_@[i].obj_ as int]
                    }),
            decreases upto - ri,
        {
            let hw: bool = self.deps_[ri].has_write_;
            if hw {
                let oi: usize = self.deps_[ri].obj_;
                proof {
                    assert(self.deps_@[ri as int].has_write_);
                    assert(write_tagged_range(self.deps_@, ri as int, upto as int, oi as int));
                    lemma_lock_roundtrip(
                        store0.obj_vers(oi as int),
                        self.tid_.spec_value(),
                    );
                }
                store.obj_unlock(oi);
                proof {
                    assert(store.objs@[oi as int] == store0.objs@[oi as int]);
                    assert forall|s: int|
                        0 <= s < store0.objs@.len() && !write_tagged_range(
                            self.deps_@,
                            ri as int + 1,
                            upto as int,
                            s,
                        ) implies store.objs@[s] == store0.objs@[s] by {
                        if s != oi as int {
                            if write_tagged_range(self.deps_@, ri as int, upto as int, s) {
                                let j = choose|j: int|
                                    ri <= j < upto && (#[trigger] self.deps_@[j]).has_write_
                                        && self.deps_@[j].obj_ == s;
                                assert(j == ri);
                                assert(false);
                            }
                        }
                    }
                }
            } else {
                proof {
                    assert forall|s: int|
                        0 <= s < store0.objs@.len() && !write_tagged_range(
                            self.deps_@,
                            ri as int + 1,
                            upto as int,
                            s,
                        ) implies store.objs@[s] == store0.objs@[s] by {
                        if write_tagged_range(self.deps_@, ri as int, upto as int, s) {
                            let j = choose|j: int|
                                ri <= j < upto && (#[trigger] self.deps_@[j]).has_write_
                                    && self.deps_@[j].obj_ == s;
                            assert(j != ri);
                        }
                    }
                }
            }
            ri = ri + 1;
        }
        proof {
            assert(store.objs@ =~= store0.objs@);
        }
    }
}

} // verus!

verus! {


/// The tag set after the lock phase: written tags carry the lock
/// flag, the rest are untouched.
pub open spec fn deps_locked(deps0: Seq<TTag>, deps1: Seq<TTag>) -> bool {
    &&& deps1.len() == deps0.len()
    &&& forall|i: int|
        0 <= i < deps0.len() ==> deps1[i] == (if deps0[i].has_write_ {
            TTag { is_lock_: true, ..deps0[i] }
        } else {
            deps0[i]
        })
}

/// Every written tag's object was lockable in the entry store.
pub open spec fn locks_ok_of(deps: Seq<TTag>, store: ObjStore, tid: u32) -> bool {
    forall|i: int|
        0 <= i < deps.len() && (#[trigger] deps[i]).has_write_ ==> {
            let owner = store.obj_vers(deps[i].obj_ as int).spec_lock_owner();
            owner == 0 || owner == tid
        }
}

/// Every read tag still matches the entry store.
pub open spec fn reads_ok_of(deps: Seq<TTag>, store: ObjStore, tid: u32) -> bool {
    forall|i: int|
        0 <= i < deps.len() && (#[trigger] deps[i]).has_read_ ==> {
            let v = store.obj_vers(deps[i].obj_ as int);
            &&& v.spec_last_writer() == deps[i].vers_
            &&& (v.spec_lock_owner() == 0 || v.spec_lock_owner() == tid || write_tagged_upto(
                deps,
                deps.len() as int,
                deps[i].obj_ as int,
            ))
        }
}

/// The store after the lock phase: written objects hold this
/// transaction's lock, everything else is untouched.
pub open spec fn store_locked(deps0: Seq<TTag>, store0: ObjStore, st: ObjStore, tid: u32) -> bool {
    &&& st.objs@.len() == store0.objs@.len()
    &&& forall|s: int|
        0 <= s < store0.objs@.len() && !write_tagged_upto(deps0, deps0.len() as int, s)
            ==> st.objs@[s] == store0.objs@[s]
    &&& forall|i: int|
        0 <= i < deps0.len() && (#[trigger] deps0[i]).has_write_ ==> (st.objs@[
            deps0[i].obj_ as int] == TObj {
            vers_: store0.obj_vers(deps0[i].obj_ as int).spec_after_lock(tid),
            ..store0.objs@[deps0[i].obj_ as int]
        })
}

/// The store after install: written objects carry their new image
/// and the committing Tid as last writer, still locked.
pub open spec fn store_installed(
    deps0: Seq<TTag>,
    store0: ObjStore,
    st: ObjStore,
    tid: u32,
) -> bool {
    &&& st.objs@.len() == store0.objs@.len()
    &&& forall|s: int|
        0 <= s < store0.objs@.len() && !write_tagged_upto(deps0, deps0.len() as int, s)
            ==> st.objs@[s] == store0.objs@[s]
    &&& forall|i: int|
        0 <= i < deps0.len() && (#[trigger] deps0[i]).has_write_ ==> {
            let s = deps0[i].obj_ as int;
            let o1 = st.objs@[s];
            &&& (o1 == TObj {
                data_: o1.data_,
                vers_: TVersion {
                    last_writer_: tid,
                    ..store0.obj_vers(s).spec_after_lock(tid)
                },
                ..store0.objs@[s]
            })
            &&& (match deps0[i].write_val_ {
                Option::Some(w) => o1.bytes() == w@,
                Option::None => o1.bytes() == store0.obj_bytes(s),
            })
        }
}

/// What a written object's mirror holds after the persist step.
pub open spec fn pmem_flushed(t: TTag, store0: ObjStore, o1: TObj) -> bool {
    let s = t.obj_ as int;
    match t.fields_ {
        Option::Some(fs) => o1.pmem_@.len() == store0.obj_pmem(s).len() && (forall|p: int|
            0 <= p < store0.obj_pmem(s).len() ==> o1.pmem_@[p] == (if in_field_extents(
                store0.objs@[s].fields_offset_@,
                fs@,
                p,
            ) {
                o1.bytes()[p]
            } else {
                store0.obj_pmem(s)[p]
            })),
        Option::None => o1.pmem_@ == o1.bytes(),
    }
}

/// The store after the persist step: mirrors flushed, still locked.
pub open spec fn store_persisted(
    deps0: Seq<TTag>,
    store0: ObjStore,
    st: ObjStore,
    tid: u32,
) -> bool {
    &&& st.objs@.len() == store0.objs@.len()
    &&& forall|s: int|
        0 <= s < store0.objs@.len() && !write_tagged_upto(deps0, deps0.len() as int, s)
            ==> st.objs@[s] == store0.objs@[s]
    &&& forall|i: int|
        0 <= i < deps0.len() && (#[trigger] deps0[i]).has_write_ ==> {
            let s = deps0[i].obj_ as int;
            let o1 = st.objs@[s];
            &&& (o1 == TObj {
                data_: o1.data_,
                pmem_: o1.pmem_,
                vers_: TVersion {
                    last_writer_: tid,
                    ..store0.obj_vers(s).spec_after_lock(tid)
                },
                ..store0.objs@[s]
            })
            &&& (match deps0[i].write_val_ {
                Option::Some(w) => o1.bytes() == w@,
                Option::None => o1.bytes() == store0.obj_bytes(s),
            })
            &&& pmem_flushed(deps0[i], store0, o1)
        }
}

/// The store once the commit is done: locks released, the new last
/// writer stamped, new images live and mirrored.
pub open spec fn store_final(deps0: Seq<TTag>, store0: ObjStore, st: ObjStore, tid: u32) -> bool {
    &&& st.objs@.len() == store0.objs@.len()
    &&& forall|s: int|
        0 <= s < store0.objs@.len() && !write_tagged_upto(deps0, deps0.len() as int, s)
            ==> st.objs@[s] == store0.objs@[s]
    &&& forall|i: int|
        0 <= i < deps0.len() && (#[trigger] deps0[i]).has_write_ ==> {
            let s = deps0[i].obj_ as int;
            let o1 = st.objs@[s];
            &&& (o1 == TObj {
                data_: o1.data_,
                pmem_: o1.pmem_,
                vers_: TVersion { last_writer_: tid, ..store0.obj_vers(s) },
                ..store0.objs@[s]
            })
            &&& (match deps0[i].write_val_ {
                Option::Some(w) => o1.bytes() == w@,
                Option::None => o1.bytes() == store0.obj_bytes(s),
            })
            &&& pmem_flushed(deps0[i], store0, o1)
        }
}

/// The machine-limit and layout conditions the commit pipeline
/// needs: lock-count headroom, buffered images that cover the offset
/// table, and fixed-layout masked writes.
pub open spec fn commit_prereqs(deps: Seq<TTag>, store: ObjStore) -> bool {
    &&& forall|i: int|
        0 <= i < deps.len() && (#[trigger] deps[i]).has_write_ ==> store.obj_vers(
            deps[i].obj_ as int,
        ).spec_count() < u32::MAX
    &&& forall|i: int|
        0 <= i < deps.len() ==> ((#[trigger] deps[i]).write_val_ matches Some(w) ==> {
            let offs = store.objs@[deps[i].obj_ as int].fields_offset_@;
            offs.len() > 0 ==> offs[offs.len() - 1] <= w@.len()
        })
    &&& forall|i: int|
        0 <= i < deps.len() ==> ((#[trigger] deps[i]).fields_ matches Some(fs) ==> {
            let s = deps[i].obj_ as int;
            &&& deps[i].write_val_ matches Some(w) && w@.len() == store.obj_bytes(s).len()
            &&& store.obj_pmem(s).len() == store.obj_bytes(s).len()
            &&& forall|f: int|
                0 <= f < fs@.len() ==> (#[trigger] fs@[f]) + 1 < store.objs@[
                    s].fields_offset_@.len()
        })
}

/// The bucket targets of Push and Delete tags name real buckets.
pub open spec fn buckets_ok(deps: Seq<TTag>, tables: Seq<Table>) -> bool {
    forall|i: int|
        0 <= i < deps.len() ==> ((#[trigger] deps[i]).bucket_ matches Some(tb) ==> tb.0
            < tables.len() && tb.1 < tables[tb.0 as int].buckets@.len())
}

/// The tables' shape and their buckets' version words, identities
/// and persistent counters are untouched.
pub open spec fn tables_frame(t0: Seq<Table>, t1: Seq<Table>) -> bool {
    &&& t1.len() == t0.len()
    &&& forall|t: int| 0 <= t < t0.len() ==> (#[trigger] t1[t]).wf()
    &&& forall|t: int|
        0 <= t < t0.len() ==> (#[trigger] t1[t]).bucket_num == t0[t].bucket_num && t1[t].name_
            == t0[t].name_ && t1[t].buckets@.len() == t0[t].buckets@.len()
    &&& forall|t: int, b: int|
        0 <= t < t0.len() && 0 <= b < t0[t].buckets@.len() ==> {
            &&& (#[trigger] t1[t].buckets@[b]).vers_ == t0[t].buckets@[b].vers_
            &&& t1[t].buckets@[b].id_ == t0[t].buckets@[b].id_
            &&& t1[t].buckets@[b].pmem_offset_ == t0[t].buckets@[b].pmem_offset_
        }
}

} // verus!

verus! {

impl TransactionOCC {
    /// Lock phase: takes the write lock on every written tag in tag
    /// order. On the first refusal every lock already taken is
    /// released again, so failure leaves the store exactly as it
    /// was.
    #[verifier::loop_isolation(false)]
    pub fn lock(&mut self, store: &mut ObjStore) -> (ok: bool)
        requires
            old(self).wf(),
            old(store).wf(),
            old(self).tags_bound(*old(store)),
            old(self).write_objs_distinct(),
            commit_prereqs(old(self).deps_@, *old(store)),
        ensures
            final(self).wf(),
            final(store).wf(),
            final(self).tid_ == old(self).tid_,
            final(self).state_ == old(self).state_,
            final(self).txn_info_ == old(self).txn_info_,
            final(self).should_abort_ == old(self).should_abort_,
            final(self).deps_@.len() == old(self).deps_@.len(),
            forall|i: int|
                0 <= i < old(self).deps_@.len() ==> ((#[trigger] final(self).deps_@[i]) == old(
                    self,
                ).deps_@[i] || final(self).deps_@[i] == TTag {
                    is_lock_: true,
                    ..old(self).deps_@[i]
                }),
            ok == locks_ok_of(old(self).deps_@, *old(store), old(self).tid_.spec_value()),
            ok ==> deps_locked(old(self).deps_@, final(self).deps_@),
            ok ==> store_locked(
                old(self).deps_@,
                *old(store),
                *final(store),
                old(self).tid_.spec_value(),
            ),
            !ok ==> final(store).objs@ == old(store).objs@,
    {
        let ghost deps0 = old(self).deps_@;
        let ghost store0 = *old(store);
        let tidv: u32 = self.tid_.value();
        let n: usize = self.deps_.len();
        let mut li: usize = 0;
        while li < n
            invariant
                li <= n,
                store.wf(),
                self.tid_ == old(self).tid_,
                self.state_ == old(self).state_,
                self.txn_info_ == old(self).txn_info_,
                self.should_abort_ == old(self).should_abort_,
                self.deps_@.len() == n,
                forall|i: int| li <= i < n ==> self.deps_@[i] == deps0[i],
                forall|i: int|
                    0 <= i < li ==> self.deps_@[i] == (if deps0[i].has_write_ {
                        TTag { is_lock_: true, ..deps0[i] }
                    } else {
                        deps0[i]
                    }),
                store.objs@.len() == store0.objs@.len(),
                forall|s: int|
                    0 <= s < store0.objs@.len() && !write_tagged_upto(deps0, li as int, s)
                        ==> store.objs@[s] == store0.objs@[s],
                forall|i: int|
                    0 <= i < li && (#[trigger] deps0[i]).has_write_ ==> (store.objs@[
                        deps0[i].obj_ as int] == TObj {
                        vers_: store0.obj_vers(deps0[i].obj_ as int).spec_after_lock(tidv),
                        ..store0.objs@[deps0[i].obj_ as int]
                    }),
                forall|i: int|
                    0 <= i < li && (#[trigger] deps0[i]).has_write_ ==> {
                        let owner = store0.obj_vers(deps0[i].obj_ as int).spec_lock_owner();
                        owner == 0 || owner == tidv
                    },
            decreases n - li,
        {
            let hw: bool = self.deps_[li].has_write_;
            if hw {
                let oi: usize = self.deps_[li].obj_;
                proof {
                    assert(deps0[li as int].has_write_);
                    if write_tagged_upto(deps0, li as int, oi as int) {
                        let j = choose|j: int|
                            0 <= j < li && (#[trigger] deps0[j]).has_write_ && deps0[j].obj_
                                == oi as int;
                        assert(false);
                    }
                    assert(store.objs@[oi as int] == store0.objs@[oi as int]);
                }
                let got: bool = store.obj_lock(oi, self.tid_);
                if got {
                    self.deps_[li].is_lock_ = true;
                    proof {
                        assert(self.deps_@[li as int] == TTag {
                            is_lock_: true,
                            ..deps0[li as int]
                        });
                        assert forall|s: int|
                            0 <= s < store0.objs@.len() && !write_tagged_upto(
                                deps0,
                                li as int + 1,
                                s,
                            ) implies store.objs@[s] == store0.objs@[s] by {
                            if write_tagged_upto(deps0, li as int, s) {
                                assert(write_tagged_upto(deps0, li as int + 1, s)) by {
                                    let j = choose|j: int|
                                        0 <= j < li && (#[trigger] deps0[j]).has_write_ && deps0[
                                            j].obj_ == s;
                                    assert(0 <= j < li + 1 && deps0[j].has_write_ && deps0[j].obj_
                                        == s);
                                }
                            }
                        }
                    }
                } else {
                    proof {
                        assert(!locks_ok_of(deps0, store0, tidv)) by {
                            assert(deps0[li as int].has_write_);
                            assert(store0.obj_vers(deps0[li as int].obj_ as int).spec_lock_owner()
                                != 0 && store0.obj_vers(
                                deps0[li as int].obj_ as int,
                            ).spec_lock_owner() != tidv);
                        }
                    }
                    proof {
                        assert forall|s: int| write_tagged_upto(self.deps_@, li as int, s)
                            == write_tagged_upto(deps0, li as int, s) by {
                            if write_tagged_upto(self.deps_@, li as int, s) {
                                let j = choose|j: int|
                                    0 <= j < li && (#[trigger] self.deps_@[j]).has_write_
                                        && self.deps_@[j].obj_ == s;
                                assert(deps0[j].has_write_ && deps0[j].obj_ == s);
                                assert(write_tagged_upto(deps0, li as int, s));
                            }
                            if write_tagged_upto(deps0, li as int, s) {
                                let j = choose|j: int|
                                    0 <= j < li && (#[trigger] deps0[j]).has_write_ && deps0[
                                        j].obj_ == s;
                                assert(self.deps_@[j].has_write_ && self.deps_@[j].obj_ == s);
                                assert(write_tagged_upto(self.deps_@, li as int, s));
                            }
                        }
                        assert forall|i: int|
                            0 <= i < li && (#[trigger] self.deps_@[i]).has_write_ implies {
                            &&& (store.objs@[self.deps_@[i].obj_ as int] == TObj {
                                vers_: store0.obj_vers(self.deps_@[i].obj_ as int).spec_after_lock(
                                    self.tid_.spec_value(),
                                ),
                                ..store0.objs@[self.deps_@[i].obj_ as int]
                            })
                            &&& {
                                let v = store0.obj_vers(self.deps_@[i].obj_ as int);
                                &&& (v.spec_lock_owner() == 0 || v.spec_lock_owner()
                                    == self.tid_.spec_value())
                                &&& v.spec_count() < u32::MAX
                            }
                        } by {
                            assert(deps0[i].has_write_);
                            assert(self.deps_@[i].obj_ == deps0[i].obj_);
                        }
                        assert forall|s: int|
                            0 <= s < store0.objs@.len() && !write_tagged_upto(
                                self.deps_@,
                                li as int,
                                s,
                            ) implies store.objs@[s] == store0.objs@[s] by {
                            assert(!write_tagged_upto(deps0, li as int, s));
                        }
                    }
                    self.rollback_locks(store, li, Ghost(store0));
                    proof {
                        assert(self.wf()) by {
                            assert forall|a: int, b: int|
                                0 <= a < b < self.deps_@.len() implies !(self.deps_@[a].oid_
                                == self.deps_@[b].oid_ && self.deps_@[a].op_ == self.deps_@[
                                b].op_) by {
                                assert(self.deps_@[a].oid_ == deps0[a].oid_ && self.deps_@[a].op_
                                    == deps0[a].op_);
                                assert(self.deps_@[b].oid_ == deps0[b].oid_ && self.deps_@[b].op_
                                    == deps0[b].op_);
                            }
                        }
                    }
                    return false;
                }
            } else {
                proof {
                    assert forall|s: int|
                        0 <= s < store0.objs@.len() && !write_tagged_upto(deps0, li as int + 1, s)
                            implies store.objs@[s] == store0.objs@[s] by {
                        if write_tagged_upto(deps0, li as int, s) {
                            assert(write_tagged_upto(deps0, li as int + 1, s)) by {
                                let j = choose|j: int|
                                    0 <= j < li && (#[trigger] deps0[j]).has_write_ && deps0[
                                        j].obj_ == s;
                                assert(0 <= j < li + 1 && deps0[j].has_write_ && deps0[j].obj_
                                    == s);
                            }
                        }
                    }
                }
            }
            li = li + 1;
        }
        true
    }

    /// Validate phase: checks, without touching anything, that every
    /// read tag still sees the version it observed and that nobody
    /// else holds its object. The result equals the read-set test on
    /// the entry store.
    #[verifier::loop_isolation(false)]
    fn commit_validate_phase(
        &self,
        store: &ObjStore,
        Ghost(deps0): Ghost<Seq<TTag>>,
        Ghost(store0): Ghost<ObjStore>,
    ) -> (ok: bool)
        requires
            self.wf(),
            store.wf(),
            store0.wf(),
            self.tags_bound(store0),
            deps_locked(deps0, self.deps_@),
            store_locked(deps0, store0, *store, self.tid_.spec_value()),
        ensures
            ok == reads_ok_of(deps0, store0, self.tid_.spec_value()),
    {
        let tidv: u32 = self.tid_.value();
        let n: usize = self.deps_.len();
        let mut ci: usize = 0;
        while ci < n
            invariant
                ci <= n,
                forall|i: int|
                    0 <= i < ci && (#[trigger] deps0[i]).has_read_ ==> {
                        let v = store0.obj_vers(deps0[i].obj_ as int);
                        &&& v.spec_last_writer() == deps0[i].vers_
                        &&& (v.spec_lock_owner() == 0 || v.spec_lock_owner() == tidv
                            || write_tagged_upto(deps0, n as int, deps0[i].obj_ as int))
                    },
            decreases n - ci,
        {
            let hr: bool = self.deps_[ci].has_read_;
            if hr {
                let oi: usize = self.deps_[ci].obj_;
                let vobs: u32 = self.deps_[ci].vers_;
                proof {
                    assert(self.deps_@[ci as int] == (if deps0[ci as int].has_write_ {
                        TTag { is_lock_: true, ..deps0[ci as int] }
                    } else {
                        deps0[ci as int]
                    }));
                    assert(deps0[ci as int].has_read_);
                    assert(vobs == deps0[ci as int].vers_);
                    assert(oi == deps0[ci as int].obj_);
                    assert(deps0[ci as int].obj_ < store0.objs@.len()) by {
                        assert(self.deps_@[ci as int].obj_ < store0.objs@.len());
                    }
                }
                let okc: bool = store.obj_check(oi, vobs, tidv);
                proof {
                    let v0 = store0.obj_vers(oi as int);
                    if write_tagged_upto(deps0, n as int, oi as int) {
                        let j = choose|j: int|
                            0 <= j < n && (#[trigger] deps0[j]).has_write_ && deps0[j].obj_
                                == oi as int;
                        assert(store.objs@[oi as int] == TObj {
                            vers_: v0.spec_after_lock(tidv),
                            ..store0.objs@[oi as int]
                        });
                        assert(okc == (v0.spec_last_writer() == vobs));
                    } else {
                        assert(store.objs@[oi as int] == store0.objs@[oi as int]);
                    }
                }
                if !okc {
                    proof {
                        assert(!reads_ok_of(deps0, store0, tidv)) by {
                            assert(deps0[ci as int].has_read_);
                        }
                    }
                    return false;
                }
            }
            ci = ci + 1;
        }
        true
    }
}

} // verus!

verus! {

impl TransactionOCC {
    /// Log phase: one DATA record per written tag, its payload the
    /// buffered bytes (or the object's image for structural tags),
    /// appended to the redo log as one batch.
    #[verifier::loop_isolation(false)]
    fn commit_log_phase(
        &self,
        store: &ObjStore,
        log: &mut NvmLog,
        Ghost(deps0): Ghost<Seq<TTag>>,
        Ghost(store0): Ghost<ObjStore>,
    )
        requires
            self.wf(),
            store.wf(),
            store0.wf(),
            old(log).wf(),
            self.tags_bound(store0),
            deps_locked(deps0, self.deps_@),
            store_locked(deps0, store0, *store, self.tid_.spec_value()),
        ensures
            final(log).wf(),
            final(log).recs() == old(log).recs() + data_recs_upto(
                deps0,
                store0,
                self.tid_.spec_value(),
                deps0.len() as int,
            ),
            final(log).binds@ == old(log).binds@ + data_binds_upto(deps0, deps0.len() as int),
    {
        let ghost tidg = self.tid_.spec_value();
        let tidv: u32 = self.tid_.value();
        let n: usize = self.deps_.len();
        let mut logs: Vec<PLog> = Vec::new();
        let mut gi: usize = 0;
        while gi < n
            invariant
                gi <= n,
                logs@.map(|q: int, p: PLog| p.spec_rec()) == data_recs_upto(
                    deps0,
                    store0,
                    tidv,
                    gi as int,
                ),
                logs@.map(|q: int, p: PLog| p.data.oid) == data_binds_upto(deps0, gi as int),
                forall|q: int| 0 <= q < logs@.len() ==> (#[trigger] logs@[q]).wf(),
            decreases n - gi,
        {
            let ghost logs_pre = logs@;
            let hw: bool = self.deps_[gi].has_write_;
            if hw {
                let oi: usize = self.deps_[gi].obj_;
                proof {
                    assert(deps0[gi as int].has_write_);
                    assert(self.deps_@[gi as int].obj_ == deps0[gi as int].obj_);
                    assert(write_tagged_upto(deps0, deps0.len() as int, oi as int)) by {
                        assert(deps0[gi as int].has_write_ && deps0[gi as int].obj_ == oi as int);
                    }
                    assert(store.objs@[oi as int].bytes() == store0.obj_bytes(oi as int));
                }
                let payload: Vec<u8> = match &self.deps_[gi].write_val_ {
                    Option::Some(w) => crate::plog::copy_range(w, 0, w.len()),
                    Option::None => store.read_bytes(oi),
                };
                proof {
                    assert(self.deps_@[gi as int].write_val_ == deps0[gi as int].write_val_);
                    assert(payload@ == (match deps0[gi as int].write_val_ {
                        Option::Some(w) => w@,
                        Option::None => store0.obj_bytes(deps0[gi as int].obj_ as int),
                    }));
                }
                let oid64: u64 = self.deps_[gi].oid_.value();
                logs.push(PLog::new(payload, oid64, self.tid_));
                proof {
                    let ghost newrec = SpecRec {
                        kind: LOG_KIND_DATA,
                        tid: tidv,
                        payload: (match deps0[gi as int].write_val_ {
                            Option::Some(w) => w@,
                            Option::None => store0.obj_bytes(deps0[gi as int].obj_ as int),
                        }),
                    };
                    assert(logs@[logs@.len() - 1].spec_rec() == newrec);
                    assert(logs@.map(|q: int, p: PLog| p.spec_rec()) =~= logs_pre.map(
                        |q: int, p: PLog| p.spec_rec(),
                    ).push(logs@[logs@.len() - 1].spec_rec()));
                    assert(logs@.map(|q: int, p: PLog| p.data.oid) =~= logs_pre.map(
                        |q: int, p: PLog| p.data.oid,
                    ).push(oid64));
                    assert(data_recs_upto(deps0, store0, tidv, gi as int + 1) =~= data_recs_upto(
                        deps0,
                        store0,
                        tidv,
                        gi as int,
                    ).push(logs@[logs@.len() - 1].spec_rec()));
                    assert(data_binds_upto(deps0, gi as int + 1) =~= data_binds_upto(
                        deps0,
                        gi as int,
                    ).push(oid64));
                }
            } else {
                proof {
                    assert(self.deps_@[gi as int].has_write_ == deps0[gi as int].has_write_);
                    assert(data_recs_upto(deps0, store0, tidv, gi as int + 1) =~= data_recs_upto(
                        deps0,
                        store0,
                        tidv,
                        gi as int,
                    ));
                    assert(data_binds_upto(deps0, gi as int + 1) =~= data_binds_upto(
                        deps0,
                        gi as int,
                    ));
                }
            }
            gi = gi + 1;
        }
        crate::plog::persist_log(log, &logs);
    }
}

} // verus!

verus! {

/// No two written tags share a store slot (over a plain tag
/// sequence).
pub open spec fn writes_distinct_of(deps: Seq<TTag>) -> bool {
    forall|i: int, j: int|
        0 <= i < j < deps.len() && (#[trigger] deps[i]).has_write_ && (#[trigger] deps[
            j]).has_write_ ==> deps[i].obj_ != deps[j].obj_
}

/// Replacing one bucket's contents moves the tables view by an
/// update at that bucket alone.
proof fn lemma_tables_view_update(pre: Seq<Table>, post: Seq<Table>, ti: int, bi: int)
    requires
        post.len() == pre.len(),
        0 <= ti < pre.len(),
        0 <= bi < pre[ti].buckets@.len(),
        post[ti].buckets@.len() == pre[ti].buckets@.len(),
        forall|t: int| 0 <= t < pre.len() && t != ti ==> post[t] == pre[t],
        forall|b: int|
            0 <= b < pre[ti].buckets@.len() && b != bi ==> post[ti].buckets@[b] == pre[
                ti].buckets@[b],
    ensures
        tables_view(post) == tables_view(pre).update(
            ti,
            tables_view(pre)[ti].update(bi, post[ti].buckets@[bi].bview()),
        ),
{
    let bv = post[ti].buckets@[bi].bview();
    assert(post[ti].tview() =~= pre[ti].tview().update(bi, bv));
    assert forall|t: int| 0 <= t < pre.len() && t != ti implies tables_view(post)[t]
        == tables_view(pre)[t] by {
        assert(post[t] == pre[t]);
    }
    assert(tables_view(post) =~= tables_view(pre).update(
        ti,
        tables_view(pre)[ti].update(bi, bv),
    ));
}

impl TransactionOCC {
    /// Install phase: every written tag's buffered bytes become the
    /// live image with this Tid as last writer; tagged inserts link
    /// their rows into their buckets and tagged deletes drop their
    /// keys, in tag order.
    #[verifier::loop_isolation(false)]
    fn commit_install_phase(
        &self,
        store: &mut ObjStore,
        tables: &mut Vec<Table>,
        Ghost(deps0): Ghost<Seq<TTag>>,
        Ghost(store0): Ghost<ObjStore>,
    )
        requires
            self.wf(),
            store0.wf(),
            old(store).wf(),
            self.tags_bound(store0),
            writes_distinct_of(deps0),
            deps_locked(deps0, self.deps_@),
            store_locked(deps0, store0, *old(store), self.tid_.spec_value()),
            commit_prereqs(deps0, store0),
            buckets_ok(deps0, old(tables)@),
            forall|t: int| 0 <= t < old(tables)@.len() ==> (#[trigger] old(tables)@[t]).wf(),
        ensures
            final(store).wf(),
            store_installed(deps0, store0, *final(store), self.tid_.spec_value()),
            tables_frame(old(tables)@, final(tables)@),
            tables_view(final(tables)@) == install_tables_upto(
                deps0,
                store0,
                tables_view(old(tables)@),
                deps0.len() as int,
            ),
    {
        let ghost tv0 = tables_view(old(tables)@);
        let tidv: u32 = self.tid_.value();
        let n: usize = self.deps_.len();
        let mut ii: usize = 0;
        while ii < n
            invariant
                ii <= n,
                store.wf(),
                store.objs@.len() == store0.objs@.len(),
                forall|s: int|
                    0 <= s < store0.objs@.len() && !write_tagged_upto(deps0, n as int, s)
                        ==> store.objs@[s] == store0.objs@[s],
                forall|j: int|
                    ii <= j < n && (#[trigger] deps0[j]).has_write_ ==> (store.objs@[
                        deps0[j].obj_ as int] == TObj {
                        vers_: store0.obj_vers(deps0[j].obj_ as int).spec_after_lock(tidv),
                        ..store0.objs@[deps0[j].obj_ as int]
                    }),
                forall|j: int|
                    0 <= j < ii && (#[trigger] deps0[j]).has_write_ ==> {
                        let s = deps0[j].obj_ as int;
                        let o1 = store.objs@[s];
                        &&& (o1 == TObj {
                            data_: o1.data_,
                            vers_: TVersion {
                                last_writer_: tidv,
                                ..store0.obj_vers(s).spec_after_lock(tidv)
                            },
                            ..store0.objs@[s]
                        })
                        &&& (match deps0[j].write_val_ {
                            Option::Some(w) => o1.bytes() == w@,
                            Option::None => o1.bytes() == store0.obj_bytes(s),
                        })
                    },
                tables_frame(old(tables)@, tables@),
                tables_view(tables@) == install_tables_upto(deps0, store0, tv0, ii as int),
            decreases n - ii,
        {
            let hw: bool = self.deps_[ii].has_write_;
            let ghost tv_pre = tables_view(tables@);
            let ghost tbl_pre = tables@;
            proof {
                assert(self.deps_@[ii as int] == (if deps0[ii as int].has_write_ {
                    TTag { is_lock_: true, ..deps0[ii as int] }
                } else {
                    deps0[ii as int]
                }));
            }
            if hw {
                let oi: usize = self.deps_[ii].obj_;
                proof {
                    assert(deps0[ii as int].has_write_);
                    assert(oi == deps0[ii as int].obj_);
                    assert(write_tagged_upto(deps0, n as int, oi as int)) by {
                        assert(deps0[ii as int].has_write_ && deps0[ii as int].obj_ == oi as int);
                    }
                    assert(store.objs@[oi as int].bytes() == store0.obj_bytes(oi as int));
                    assert(store.objs@[oi as int].fields_offset_ == store0.objs@[
                        oi as int].fields_offset_);
                }
                let newbytes: Vec<u8> = match &self.deps_[ii].write_val_ {
                    Option::Some(w) => crate::plog::copy_range(w, 0, w.len()),
                    Option::None => store.read_bytes(oi),
                };
                proof {
                    assert(self.deps_@[ii as int].write_val_ == deps0[ii as int].write_val_);
                    assert(newbytes@ == (match deps0[ii as int].write_val_ {
                        Option::Some(w) => w@,
                        Option::None => store0.obj_bytes(oi as int),
                    }));
                }
                let ghost objs_pre = store.objs@;
                store.obj_install(oi, newbytes, tidv);
                proof {
                    assert forall|x: int| 0 <= x < store.objs@.len() && x != oi as int
                        implies store.objs@[x] == objs_pre[x] by {}
                    assert forall|j: int|
                        0 <= j < n && j != ii as int && (#[trigger] deps0[j]).has_write_ implies
                        deps0[j].obj_ != oi as int by {}
                    assert forall|s: int|
                        0 <= s < store0.objs@.len() && !write_tagged_upto(deps0, n as int, s)
                            implies store.objs@[s] == store0.objs@[s] by {
                        assert(s != oi as int);
                    }
                    assert(store.objs@[oi as int] == TObj {
                        data_: store.objs@[oi as int].data_,
                        vers_: TVersion {
                            last_writer_: tidv,
                            ..store0.obj_vers(oi as int).spec_after_lock(tidv)
                        },
                        ..store0.objs@[oi as int]
                    });
                    assert forall|j: int|
                        ii as int + 1 <= j < n && (#[trigger] deps0[j]).has_write_ implies (
                    store.objs@[deps0[j].obj_ as int] == TObj {
                        vers_: store0.obj_vers(deps0[j].obj_ as int).spec_after_lock(tidv),
                        ..store0.objs@[deps0[j].obj_ as int]
                    }) by {
                        assert(deps0[j].obj_ != oi as int);
                        assert(self.deps_@[j].obj_ == deps0[j].obj_);
                        assert(self.deps_@[j].obj_ < store0.objs@.len());
                        assert(store.objs@[deps0[j].obj_ as int] == objs_pre[deps0[
                            j].obj_ as int]);
                    }
                    assert forall|j: int|
                        0 <= j < ii as int + 1 && (#[trigger] deps0[j]).has_write_ implies {
                        let s = deps0[j].obj_ as int;
                        let o1 = store.objs@[s];
                        &&& (o1 == TObj {
                            data_: o1.data_,
                            vers_: TVersion {
                                last_writer_: tidv,
                                ..store0.obj_vers(s).spec_after_lock(tidv)
                            },
                            ..store0.objs@[s]
                        })
                        &&& (match deps0[j].write_val_ {
                            Option::Some(w) => o1.bytes() == w@,
                            Option::None => o1.bytes() == store0.obj_bytes(s),
                        })
                    } by {
                        if j != ii as int {
                            assert(deps0[j].obj_ != oi as int);
                            assert(self.deps_@[j].obj_ == deps0[j].obj_);
                            assert(self.deps_@[j].obj_ < store0.objs@.len());
                            assert(store.objs@[deps0[j].obj_ as int] == objs_pre[deps0[
                                j].obj_ as int]);
                        }
                    }
                }
                let has_bucket: bool = match &self.deps_[ii].bucket_ {
                    Option::Some(_) => true,
                    Option::None => false,
                };
                if has_bucket {
                    let tb: (usize, usize) = match &self.deps_[ii].bucket_ {
                        Option::Some(x) => (x.0, x.1),
                        Option::None => (0, 0),
                    };
                    proof {
                        assert(self.deps_@[ii as int].bucket_ == deps0[ii as int].bucket_);
                        assert(deps0[ii as int].bucket_ matches Some(p) && p.0 == tb.0 && p.1
                            == tb.1);
                        assert(tb.0 < tables@.len() && tb.1 < tables@[tb.0 as int].buckets@.len());
                    }
                    let key: u64 = store.get_key(oi);
                    proof {
                        assert(key == store0.objs@[oi as int].key_);
                    }
                    let is_push: bool = self.deps_[ii].op_ == Operation::Push;
                    let is_del: bool = self.deps_[ii].op_ == Operation::Delete;
                    proof {
                        assert(is_push == (deps0[ii as int].op_ == Operation::Push));
                        assert(is_del == (deps0[ii as int].op_ == Operation::Delete));
                    }
                    if is_push || is_del {
                        let tref: &mut Table = &mut tables[tb.0];
                        let bref: &mut Bucket = &mut tref.buckets[tb.1];
                        if is_push {
                            bref.push_row(oi, key);
                        } else {
                            bref.delete_key(key);
                        }
                        proof {
                            assert(tables@[tb.0 as int].buckets@.len() == tbl_pre[
                                tb.0 as int].buckets@.len());
                            lemma_tables_view_update(tbl_pre, tables@, tb.0 as int, tb.1 as int);
                            assert(tv_pre[tb.0 as int][tb.1 as int] == tbl_pre[
                                tb.0 as int].buckets@[tb.1 as int].bview());
                            assert(tables_view(tables@) == apply_tag_structural(
                                deps0[ii as int],
                                store0,
                                tv_pre,
                            ));
                            assert(tables@[tb.0 as int].wf());
                            assert(tables_frame(old(tables)@, tables@));
                        }
                    } else {
                        proof {
                            assert(tables_view(tables@) == apply_tag_structural(
                                deps0[ii as int],
                                store0,
                                tv_pre,
                            ));
                        }
                    }
                } else {
                    proof {
                        assert(self.deps_@[ii as int].bucket_ == deps0[ii as int].bucket_);
                        assert(tables_view(tables@) == apply_tag_structural(
                            deps0[ii as int],
                            store0,
                            tv_pre,
                        ));
                    }
                }
            } else {
                proof {
                    assert(!deps0[ii as int].has_write_);
                    assert(tables_view(tables@) == apply_tag_structural(
                        deps0[ii as int],
                        store0,
                        tv_pre,
                    ));
                }
            }
            ii = ii + 1;
        }
    }
}

} // verus!

verus! {

impl TransactionOCC {
    /// Persist phase: flushes every written record's mirror — the
    /// whole image, or only the masked field extents.
    #[verifier::loop_isolation(false)]
    fn commit_persist_phase(
        &self,
        store: &mut ObjStore,
        Ghost(deps0): Ghost<Seq<TTag>>,
        Ghost(store0): Ghost<ObjStore>,
    )
        requires
            self.wf(),
            store0.wf(),
            old(store).wf(),
            self.tags_bound(store0),
            writes_distinct_of(deps0),
            deps_locked(deps0, self.deps_@),
            store_installed(deps0, store0, *old(store), self.tid_.spec_value()),
            commit_prereqs(deps0, store0),
        ensures
            final(store).wf(),
            store_persisted(deps0, store0, *final(store), self.tid_.spec_value()),
    {
        let tidv: u32 = self.tid_.value();
        let n: usize = self.deps_.len();
        let mut pi: usize = 0;
        while pi < n
            invariant
                pi <= n,
                store.wf(),
                store.objs@.len() == store0.objs@.len(),
                forall|s: int|
                    0 <= s < store0.objs@.len() && !write_tagged_upto(deps0, n as int, s)
                        ==> store.objs@[s] == store0.objs@[s],
                forall|j: int|
                    0 <= j < n && (#[trigger] deps0[j]).has_write_ ==> {
                        let s = deps0[j].obj_ as int;
                        let o1 = store.objs@[s];
                        &&& (o1 == TObj {
                            data_: o1.data_,
                            pmem_: o1.pmem_,
                            vers_: TVersion {
                                last_writer_: tidv,
                                ..store0.obj_vers(s).spec_after_lock(tidv)
                            },
                            ..store0.objs@[s]
                        })
                        &&& (match deps0[j].write_val_ {
                            Option::Some(w) => o1.bytes() == w@,
                            Option::None => o1.bytes() == store0.obj_bytes(s),
                        })
                    },
                forall|j: int|
                    pi <= j < n && (#[trigger] deps0[j]).has_write_ ==> store.objs@[
                        deps0[j].obj_ as int].pmem_ == store0.objs@[deps0[j].obj_ as int].pmem_,
                forall|j: int|
                    0 <= j < pi && (#[trigger] deps0[j]).has_write_ ==> pmem_flushed(
                        deps0[j],
                        store0,
                        store.objs@[deps0[j].obj_ as int],
                    ),
            decreases n - pi,
        {
            let hw: bool = self.deps_[pi].has_write_;
            proof {
                assert(self.deps_@[pi as int] == (if deps0[pi as int].has_write_ {
                    TTag { is_lock_: true, ..deps0[pi as int] }
                } else {
                    deps0[pi as int]
                }));
            }
            if hw {
                let oi: usize = self.deps_[pi].obj_;
                proof {
                    assert(deps0[pi as int].has_write_);
                    assert(oi == deps0[pi as int].obj_);
                    assert forall|j: int|
                        0 <= j < n && j != pi as int && (#[trigger] deps0[j]).has_write_ implies
                        deps0[j].obj_ != oi as int by {}
                    assert(self.deps_@[pi as int].fields_ == deps0[pi as int].fields_);
                }
                let ghost objs_pre = store.objs@;
                let has_fields: bool = match &self.deps_[pi].fields_ {
                    Option::Some(_) => true,
                    Option::None => false,
                };
                if has_fields {
                    let fl: usize = match &self.deps_[pi].fields_ {
                        Option::Some(fs) => fs.len(),
                        Option::None => 0,
                    };
                    let ghost fs0 = deps0[pi as int].fields_->0@;
                    let ghost offs0 = store0.objs@[oi as int].fields_offset_@;
                    proof {
                        assert(fl == fs0.len());
                        assert(store.objs@[oi as int].fields_offset_ == store0.objs@[
                            oi as int].fields_offset_);
                        assert(store.objs@[oi as int].pmem_@ == store0.obj_pmem(oi as int));
                        assert(deps0[pi as int].write_val_ matches Some(w) && store.objs@[
                            oi as int].bytes() == w@);
                        assert(store.objs@[oi as int].bytes().len() == store0.obj_bytes(
                            oi as int,
                        ).len());
                    }
                    let mut fi: usize = 0;
                    while fi < fl
                        invariant
                            fi <= fl,
                            store.wf(),
                            store.objs@.len() == store0.objs@.len(),
                            forall|s: int|
                                0 <= s < store0.objs@.len() && s != oi as int ==> store.objs@[s]
                                    == objs_pre[s],
                            store.objs@[oi as int].pmem_@.len() == store0.obj_pmem(
                                oi as int,
                            ).len(),
                            (store.objs@[oi as int] == TObj {
                                pmem_: store.objs@[oi as int].pmem_,
                                ..objs_pre[oi as int]
                            }),
                            forall|p: int|
                                0 <= p < store0.obj_pmem(oi as int).len() ==> store.objs@[
                                    oi as int].pmem_@[p] == (if in_field_extents_upto(
                                    offs0,
                                    fs0,
                                    fi as int,
                                    p,
                                ) {
                                    store.objs@[oi as int].bytes()[p]
                                } else {
                                    store0.obj_pmem(oi as int)[p]
                                }),
                        decreases fl - fi,
                    {
                        let f: usize = match &self.deps_[pi].fields_ {
                            Option::Some(fs) => fs[fi],
                            Option::None => 0,
                        };
                        proof {
                            assert(f == fs0[fi as int]);
                            assert(fs0[fi as int] + 1 < offs0.len());
                            assert(store.objs@[oi as int].fields_offset_@ == offs0);
                        }
                        store.obj_flush_field(oi, f);
                        proof {
                            assert forall|p: int|
                                0 <= p < store0.obj_pmem(oi as int).len() implies store.objs@[
                                oi as int].pmem_@[p] == (if in_field_extents_upto(
                                offs0,
                                fs0,
                                fi as int + 1,
                                p,
                            ) {
                                store.objs@[oi as int].bytes()[p]
                            } else {
                                store0.obj_pmem(oi as int)[p]
                            }) by {
                                if in_field_extents_upto(offs0, fs0, fi as int + 1, p) {
                                    if !(offs0[f as int] <= p < offs0[f + 1]) {
                                        let k = choose|k: int|
                                            0 <= k < fi as int + 1 && k < fs0.len() && offs0[(
                                            #[trigger] fs0[k]) as int] <= p < offs0[fs0[k] + 1];
                                        assert(k < fi as int);
                                        assert(in_field_extents_upto(offs0, fs0, fi as int, p));
                                    }
                                } else {
                                    assert(!in_field_extents_upto(offs0, fs0, fi as int, p));
                                    assert(!(offs0[f as int] <= p < offs0[f + 1])) by {
                                        if offs0[f as int] <= p < offs0[f + 1] {
                                            assert(in_field_extents_upto(
                                                offs0,
                                                fs0,
                                                fi as int + 1,
                                                p,
                                            )) by {
                                                assert(offs0[fs0[fi as int] as int] <= p < offs0[
                                                    fs0[fi as int] + 1]);
                                            }
                                        }
                                    }
                                }
                            }
                        }
                        fi = fi + 1;
                    }
                    proof {
                        assert(pmem_flushed(
                            deps0[pi as int],
                            store0,
                            store.objs@[oi as int],
                        )) by {
                            assert forall|p: int|
                                0 <= p < store0.obj_pmem(oi as int).len() implies (
                            in_field_extents_upto(offs0, fs0, fl as int, p) == in_field_extents(
                                offs0,
                                fs0,
                                p,
                            )) by {
                                if in_field_extents(offs0, fs0, p) {
                                    let k = choose|k: int|
                                        0 <= k < fs0.len() && offs0[(#[trigger] fs0[k]) as int]
                                            <= p < offs0[fs0[k] + 1];
                                    assert(in_field_extents_upto(offs0, fs0, fl as int, p));
                                }
                            }
                        }
                    }
                } else {
                    store.obj_flush_whole(oi);
                    proof {
                        assert(pmem_flushed(deps0[pi as int], store0, store.objs@[oi as int]));
                    }
                }
                proof {
                    assert forall|x: int| 0 <= x < store.objs@.len() && x != oi as int
                        implies store.objs@[x] == objs_pre[x] by {}
                    assert forall|j: int|
                        0 <= j < n && (#[trigger] deps0[j]).has_write_ implies {
                        let s = deps0[j].obj_ as int;
                        let o1 = store.objs@[s];
                        &&& (o1 == TObj {
                            data_: o1.data_,
                            pmem_: o1.pmem_,
                            vers_: TVersion {
                                last_writer_: tidv,
                                ..store0.obj_vers(s).spec_after_lock(tidv)
                            },
                            ..store0.objs@[s]
                        })
                        &&& (match deps0[j].write_val_ {
                            Option::Some(w) => o1.bytes() == w@,
                            Option::None => o1.bytes() == store0.obj_bytes(s),
                        })
                    } by {
                        if j != pi as int {
                            assert(deps0[j].obj_ != oi as int);
                            assert(self.deps_@[j].obj_ == deps0[j].obj_);
                            assert(self.deps_@[j].obj_ < store0.objs@.len());
                            assert(store.objs@[deps0[j].obj_ as int] == objs_pre[deps0[
                                j].obj_ as int]);
                        }
                    }
                    assert forall|j: int|
                        0 <= j < pi as int + 1 && (#[trigger] deps0[j]).has_write_ implies
                        pmem_flushed(deps0[j], store0, store.objs@[deps0[j].obj_ as int]) by {
                        if j != pi as int {
                            assert(deps0[j].obj_ != oi as int);
                            assert(self.deps_@[j].obj_ == deps0[j].obj_);
                            assert(self.deps_@[j].obj_ < store0.objs@.len());
                            assert(store.objs@[deps0[j].obj_ as int] == objs_pre[deps0[
                                j].obj_ as int]);
                        }
                    }
                    assert forall|j: int|
                        pi as int + 1 <= j < n && (#[trigger] deps0[j]).has_write_ implies store
                        .objs@[deps0[j].obj_ as int].pmem_ == store0.objs@[
                        deps0[j].obj_ as int].pmem_ by {
                        assert(deps0[j].obj_ != oi as int);
                        assert(self.deps_@[j].obj_ == deps0[j].obj_);
                        assert(self.deps_@[j].obj_ < store0.objs@.len());
                        assert(store.objs@[deps0[j].obj_ as int] == objs_pre[deps0[
                            j].obj_ as int]);
                    }
                    assert forall|s: int|
                        0 <= s < store0.objs@.len() && !write_tagged_upto(deps0, n as int, s)
                            implies store.objs@[s] == store0.objs@[s] by {
                        assert(s != oi as int);
                    }
                }
            }
            pi = pi + 1;
        }
    }

    /// Release phase: every lock the commit took goes back; the
    /// version words return to their entry state with the new last
    /// writer stamped in.
    #[verifier::loop_isolation(false)]
    fn commit_release_phase(
        &self,
        store: &mut ObjStore,
        Ghost(deps0): Ghost<Seq<TTag>>,
        Ghost(store0): Ghost<ObjStore>,
    )
        requires
            self.wf(),
            store0.wf(),
            old(store).wf(),
            self.tags_bound(store0),
            writes_distinct_of(deps0),
            deps_locked(deps0, self.deps_@),
            store_persisted(deps0, store0, *old(store), self.tid_.spec_value()),
            locks_ok_of(deps0, store0, self.tid_.spec_value()),
            commit_prereqs(deps0, store0),
        ensures
            final(store).wf(),
            store_final(deps0, store0, *final(store), self.tid_.spec_value()),
    {
        let tidv: u32 = self.tid_.value();
        let n: usize = self.deps_.len();
        let mut ui: usize = 0;
        while ui < n
            invariant
                ui <= n,
                store.wf(),
                store.objs@.len() == store0.objs@.len(),
                forall|s: int|
                    0 <= s < store0.objs@.len() && !write_tagged_upto(deps0, n as int, s)
                        ==> store.objs@[s] == store0.objs@[s],
                forall|j: int|
                    0 <= j < n && (#[trigger] deps0[j]).has_write_ ==> {
                        let s = deps0[j].obj_ as int;
                        let o1 = store.objs@[s];
                        &&& (o1 == TObj {
                            data_: o1.data_,
                            pmem_: o1.pmem_,
                            vers_: (if write_tagged_upto(deps0, ui as int, s) {
                                TVersion { last_writer_: tidv, ..store0.obj_vers(s) }
                            } else {
                                TVersion {
                                    last_writer_: tidv,
                                    ..store0.obj_vers(s).spec_after_lock(tidv)
                                }
                            }),
                            ..store0.objs@[s]
                        })
                        &&& (match deps0[j].write_val_ {
                            Option::Some(w) => o1.bytes() == w@,
                            Option::None => o1.bytes() == store0.obj_bytes(s),
                        })
                        &&& pmem_flushed(deps0[j], store0, o1)
                    },
            decreases n - ui,
        {
            let hw: bool = self.deps_[ui].has_write_;
            proof {
                assert(self.deps_@[ui as int] == (if deps0[ui as int].has_write_ {
                    TTag { is_lock_: true, ..deps0[ui as int] }
                } else {
                    deps0[ui as int]
                }));
            }
            if hw {
                let oi: usize = self.deps_[ui].obj_;
                proof {
                    assert(deps0[ui as int].has_write_);
                    assert(oi == deps0[ui as int].obj_);
                    if write_tagged_upto(deps0, ui as int, oi as int) {
                        let j = choose|j: int|
                            0 <= j < ui && (#[trigger] deps0[j]).has_write_ && deps0[j].obj_
                                == oi as int;
                        assert(false);
                    }
                    let v0 = store0.obj_vers(oi as int);
                    assert(v0.spec_lock_owner() == 0 || v0.spec_lock_owner() == tidv);
                    assert(v0.wf());
                    assert(store.obj_vers(oi as int).spec_count() > 0);
                }
                let ghost objs_pre = store.objs@;
                store.obj_unlock(oi);
                proof {
                    assert forall|x: int| 0 <= x < store.objs@.len() && x != oi as int
                        implies store.objs@[x] == objs_pre[x] by {}
                    let v0 = store0.obj_vers(oi as int);
                    assert(store.objs@[oi as int].vers_ == TVersion {
                        last_writer_: tidv,
                        ..v0
                    });
                    assert forall|j: int|
                        0 <= j < n && (#[trigger] deps0[j]).has_write_ implies {
                        let s = deps0[j].obj_ as int;
                        let o1 = store.objs@[s];
                        &&& (o1 == TObj {
                            data_: o1.data_,
                            pmem_: o1.pmem_,
                            vers_: (if write_tagged_upto(deps0, ui as int + 1, s) {
                                TVersion { last_writer_: tidv, ..store0.obj_vers(s) }
                            } else {
                                TVersion {
                                    last_writer_: tidv,
                                    ..store0.obj_vers(s).spec_after_lock(tidv)
                                }
                            }),
                            ..store0.objs@[s]
                        })
                        &&& (match deps0[j].write_val_ {
                            Option::Some(w) => o1.bytes() == w@,
                            Option::None => o1.bytes() == store0.obj_bytes(s),
                        })
                        &&& pmem_flushed(deps0[j], store0, o1)
                    } by {
                        assert(self.deps_@[j].obj_ == deps0[j].obj_);
                        assert(self.deps_@[j].obj_ < store0.objs@.len());
                        if deps0[j].obj_ == oi as int {
                            assert(write_tagged_upto(deps0, ui as int + 1, oi as int)) by {
                                assert(deps0[ui as int].has_write_ && deps0[ui as int].obj_
                                    == oi as int);
                            }
                        } else {
                            assert(store.objs@[deps0[j].obj_ as int] == objs_pre[deps0[
                                j].obj_ as int]);
                            assert(write_tagged_upto(deps0, ui as int + 1, deps0[j].obj_ as int)
                                == write_tagged_upto(deps0, ui as int, deps0[j].obj_ as int)) by {
                                if write_tagged_upto(deps0, ui as int + 1, deps0[j].obj_ as int) {
                                    let q = choose|q: int|
                                        0 <= q < ui as int + 1 && (#[trigger] deps0[
                                            q]).has_write_ && deps0[q].obj_ == deps0[
                                            j].obj_ as int;
                                    assert(q != ui);
                                    assert(write_tagged_upto(
                                        deps0,
                                        ui as int,
                                        deps0[j].obj_ as int,
                                    ));
                                }
                            }
                        }
                    }
                    assert forall|s: int|
                        0 <= s < store0.objs@.len() && !write_tagged_upto(deps0, n as int, s)
                            implies store.objs@[s] == store0.objs@[s] by {
                        assert(s != oi as int);
                    }
                }
            } else {
                proof {
                    assert forall|j: int|
                        0 <= j < n && (#[trigger] deps0[j]).has_write_ implies (write_tagged_upto(
                        deps0,
                        ui as int + 1,
                        deps0[j].obj_ as int,
                    ) == write_tagged_upto(deps0, ui as int, deps0[j].obj_ as int)) by {
                        if write_tagged_upto(deps0, ui as int + 1, deps0[j].obj_ as int) {
                            let q = choose|q: int|
                                0 <= q < ui as int + 1 && (#[trigger] deps0[q]).has_write_
                                    && deps0[q].obj_ == deps0[j].obj_ as int;
                            assert(q != ui);
                            assert(write_tagged_upto(deps0, ui as int, deps0[j].obj_ as int));
                        }
                    }
                }
            }
            ui = ui + 1;
        }
        proof {
            assert forall|j: int|
                0 <= j < n && (#[trigger] deps0[j]).has_write_ implies write_tagged_upto(
                deps0,
                n as int,
                deps0[j].obj_ as int,
            ) by {
                assert(deps0[j].has_write_ && deps0[j].obj_ == deps0[j].obj_ as int);
            }
        }
    }
}

} // verus!

verus! {

impl TransactionOCC {
    /// Try-commit: the whole OCC pipeline — lock the write set in
    /// tag order, validate the read set, log the writes, install
    /// them, flush the persistent mirrors, append the TXN_COMMIT
    /// marker, release every lock. Succeeds exactly when the caller
    /// did not ask to abort and both the lock and the validation
    /// test pass on the entry state; any failure rolls everything
    /// back, leaving store, log and tables untouched. Either way the
    /// tag set is cleared and the transaction is finished.
    pub fn try_commit(
        &mut self,
        store: &mut ObjStore,
        tables: &mut Vec<Table>,
        log: &mut NvmLog,
    ) -> (r: bool)
        requires
            old(self).wf(),
            old(store).wf(),
            old(log).wf(),
            old(self).tags_bound(*old(store)),
            old(self).write_objs_distinct(),
            forall|t: int| 0 <= t < old(tables)@.len() ==> (#[trigger] old(tables)@[t]).wf(),
            buckets_ok(old(self).deps_@, old(tables)@),
            commit_prereqs(old(self).deps_@, *old(store)),
        ensures
            final(self).wf(),
            final(store).wf(),
            final(log).wf(),
            final(self).tid_ == old(self).tid_,
            final(self).txn_info_.spec_tid() == old(self).txn_info_.spec_tid(),
            final(self).txn_info_.spec_rank() == old(self).txn_info_.spec_rank(),
            r ==> final(self).txn_info_.spec_committed() && final(self).txn_info_.spec_persist(),
            !r ==> final(self).txn_info_ == old(self).txn_info_,
            final(self).deps_@.len() == 0,
            !final(self).should_abort_,
            r == (!old(self).should_abort_ && old(self).commit_ok(*old(store))),
            r ==> final(self).state_ == TxState::COMMITTED,
            !r ==> final(self).state_ == TxState::ABORTED,
            !r ==> final(store).objs@ == old(store).objs@ && *final(log) == *old(log)
                && final(tables)@ == old(tables)@,
            r ==> store_final(
                old(self).deps_@,
                *old(store),
                *final(store),
                old(self).tid_.spec_value(),
            ),
            r ==> final(log).recs() == old(log).recs() + data_recs_upto(
                old(self).deps_@,
                *old(store),
                old(self).tid_.spec_value(),
                old(self).deps_@.len() as int,
            ) + seq![
                SpecRec {
                    kind: LOG_KIND_TXN,
                    tid: old(self).tid_.spec_value(),
                    payload: u32_le_bytes(old(self).tid_.spec_value()),
                },
            ],
            r ==> final(log).binds@ == old(log).binds@ + data_binds_upto(
                old(self).deps_@,
                old(self).deps_@.len() as int,
            ) + seq![0u64],
            r ==> tables_view(final(tables)@) == install_tables_upto(
                old(self).deps_@,
                *old(store),
                tables_view(old(tables)@),
                old(self).deps_@.len() as int,
            ),
            tables_frame(old(tables)@, final(tables)@),
    {
        let ghost deps0 = old(self).deps_@;
        let ghost store0 = *old(store);

        if self.should_abort_ {
            self.state_ = TxState::ABORTED;
            self.should_abort_ = false;
            self.deps_ = Vec::new();
            return false;
        }

        let ok1: bool = self.lock(store);
        if !ok1 {
            self.state_ = TxState::ABORTED;
            self.should_abort_ = false;
            self.deps_ = Vec::new();
            proof {
                assert(store.objs@ == old(store).objs@);
            }
            return false;
        }
        let ok2: bool = self.commit_validate_phase(store, Ghost(deps0), Ghost(store0));
        if !ok2 {
            let n: usize = self.deps_.len();
            proof {
                assert(n == deps0.len());
                assert forall|s: int| write_tagged_upto(self.deps_@, n as int, s)
                    == write_tagged_upto(deps0, n as int, s) by {
                    if write_tagged_upto(self.deps_@, n as int, s) {
                        let j = choose|j: int|
                            0 <= j < n && (#[trigger] self.deps_@[j]).has_write_ && self.deps_@[
                                j].obj_ == s;
                        assert(deps0[j].has_write_ && deps0[j].obj_ == s);
                        assert(write_tagged_upto(deps0, n as int, s));
                    }
                    if write_tagged_upto(deps0, n as int, s) {
                        let j = choose|j: int|
                            0 <= j < n && (#[trigger] deps0[j]).has_write_ && deps0[j].obj_ == s;
                        assert(self.deps_@[j].has_write_ && self.deps_@[j].obj_ == s);
                        assert(write_tagged_upto(self.deps_@, n as int, s));
                    }
                }
                assert forall|i: int|
                    0 <= i < n && (#[trigger] self.deps_@[i]).has_write_ implies {
                    &&& (store.objs@[self.deps_@[i].obj_ as int] == TObj {
                        vers_: store0.obj_vers(self.deps_@[i].obj_ as int).spec_after_lock(
                            self.tid_.spec_value(),
                        ),
                        ..store0.objs@[self.deps_@[i].obj_ as int]
                    })
                    &&& {
                        let v = store0.obj_vers(self.deps_@[i].obj_ as int);
                        &&& (v.spec_lock_owner() == 0 || v.spec_lock_owner()
                            == self.tid_.spec_value())
                        &&& v.spec_count() < u32::MAX
                    }
                } by {
                    assert(deps0[i].has_write_);
                    assert(self.deps_@[i].obj_ == deps0[i].obj_);
                }
            }
            self.rollback_locks(store, n, Ghost(store0));
            self.state_ = TxState::ABORTED;
            self.should_abort_ = false;
            self.deps_ = Vec::new();
            proof {
                assert(store.objs@ == store0.objs@);
            }
            return false;
        }
        self.commit_log_phase(store, log, Ghost(deps0), Ghost(store0));
        self.commit_install_phase(store, tables, Ghost(deps0), Ghost(store0));
        self.commit_persist_phase(store, Ghost(deps0), Ghost(store0));
        let tidv: u32 = self.tid_.value();
        crate::plog::persist_txn(log, tidv);
        self.commit_release_phase(store, Ghost(deps0), Ghost(store0));
        self.state_ = TxState::COMMITTED;
        self.txn_info_.commit();
        self.txn_info_.persist();
        self.deps_ = Vec::new();
        proof {
            assert(final(log).recs() =~= old(log).recs() + data_recs_upto(
                deps0,
                store0,
                self.tid_.spec_value(),
                deps0.len() as int,
            ) + seq![
                SpecRec {
                    kind: LOG_KIND_TXN,
                    tid: self.tid_.spec_value(),
                    payload: u32_le_bytes(self.tid_.spec_value()),
                },
            ]);
            assert(final(log).binds@ =~= old(log).binds@ + data_binds_upto(
                deps0,
                deps0.len() as int,
            ) + seq![0u64]);
        }
        true
    }
}

} // verus!

verus! {

use crate::tcore::{oid_value, OidFac};

impl Table {
    /// Every row slot of every bucket names a store object.
    pub open spec fn rows_bound(self, store: ObjStore) -> bool {
        forall|b: int, r: int|
            0 <= b < self.buckets@.len() && 0 <= r < self.buckets@[b].rows@.len()
                ==> self.buckets@[b].rows@[r] < store.objs@.len()
    }

    /// Transactional insert (OCC): wraps the entry in a fresh record
    /// appended to the store, and tags the access as Push; the
    /// bucket link is installed at commit.
    pub fn push(
        &self,
        tx: &mut TransactionOCC,
        store: &mut ObjStore,
        fac: &mut OidFac,
        table_idx: usize,
        bytes: Vec<u8>,
        key: u64,
        offsets: Vec<usize>,
        bucket_key: usize,
    )
        requires
            self.wf(),
            old(tx).wf(),
            old(store).wf(),
            old(fac).wf(),
            old(fac).spec_next() < 0x0010_0000_0000_0000,
            old(tx).tags_bound(*old(store)),
            old(tx).write_objs_distinct(),
            forall|i: int|
                0 <= i < old(store).objs@.len() ==> (#[trigger] old(store).objs@[
                    i]).id_.spec_value() != oid_value(old(fac).spec_mask(), old(fac).spec_next()),
            forall|a: int, b: int|
                0 <= a <= b < offsets@.len() ==> (#[trigger] offsets@[a]) <= (#[trigger] offsets@[
                    b]),
            offsets@.len() > 0 ==> offsets@[offsets@.len() - 1] <= bytes@.len(),
        ensures
            final(tx).wf(),
            final(store).wf(),
            final(fac).wf(),
            final(tx).tags_bound(*final(store)),
            final(tx).write_objs_distinct(),
            final(store).objs@.len() == old(store).objs@.len() + 1,
            forall|i: int|
                0 <= i < old(store).objs@.len() ==> final(store).objs@[i] == old(store).objs@[i],
            final(store).obj_bytes(old(store).objs@.len() as int) == bytes@,
            final(store).objs@[old(store).objs@.len() as int].key_ == key,
            final(store).obj_vers(old(store).objs@.len() as int) == TVersion::spec_clear(),
            final(fac).spec_next() == old(fac).spec_next() + 1,
            final(fac).spec_mask() == old(fac).spec_mask(),
            final(tx).tid_ == old(tx).tid_,
            final(tx).state_ == old(tx).state_,
            final(tx).txn_info_ == old(tx).txn_info_,
            final(tx).should_abort_ == old(tx).should_abort_,
            final(tx).deps_@.len() == old(tx).deps_@.len() + 1,
            forall|i: int|
                0 <= i < old(tx).deps_@.len() ==> final(tx).deps_@[i] == old(tx).deps_@[i],
            ({
                let t = final(tx).deps_@[old(tx).deps_@.len() as int];
                &&& t.op_ == Operation::Push
                &&& t.obj_ == old(store).objs@.len()
                &&& t.oid_.spec_value() == oid_value(old(fac).spec_mask(), old(fac).spec_next())
                &&& t.has_write_
                &&& t.write_val_ is None
                &&& t.fields_ is None
                &&& !t.is_lock_
                &&& t.vers_ == 0
                &&& t.bucket_ matches Some(tb) && tb.0 == table_idx && tb.1 == (bucket_key
                    % self.bucket_num)
            }),
    {
        let id: ObjectId = fac.get_next();
        proof {
            if tx.spec_has_tag(id, Operation::Push) {
                let i = choose|i: int|
                    0 <= i < tx.deps_@.len() && tag_matches(#[trigger] tx.deps_@[i], id,
                    Operation::Push);
                assert(old(store).objs@[tx.deps_@[i].obj_ as int].id_ == id);
                assert(false);
            }
        }
        let slot: usize = store.alloc_obj(id, key, bytes, offsets);
        let k: usize = tx.retrieve_tag(id, slot, Operation::Push);
        tx.deps_[k].set_write();
        let bkt: usize = bucket_key % self.bucket_num;
        tx.deps_[k].set_bucket(table_idx, bkt);
        proof {
            assert forall|i: int, j: int|
                0 <= i < j < tx.deps_@.len() && (#[trigger] tx.deps_@[i]).has_write_
                    && (#[trigger] tx.deps_@[j]).has_write_ implies tx.deps_@[i].obj_
                != tx.deps_@[j].obj_ by {
                if j == tx.deps_@.len() - 1 {
                    assert(tx.deps_@[i] == old(tx).deps_@[i]);
                    assert(tx.deps_@[i].obj_ < old(store).objs@.len());
                }
            }
            assert forall|i: int|
                0 <= i < tx.deps_@.len() implies (#[trigger] tx.deps_@[i]).obj_
                < store.objs@.len() && store.objs@[tx.deps_@[i].obj_ as int].id_ == tx.deps_@[
                i].oid_ by {
                if i < tx.deps_@.len() - 1 {
                    assert(tx.deps_@[i] == old(tx).deps_@[i]);
                    assert(tx.deps_@[i].obj_ < old(store).objs@.len());
                    assert(store.objs@[tx.deps_@[i].obj_ as int] == old(store).objs@[tx.deps_@[
                        i].obj_ as int]);
                }
            }
        }
    }

    /// Transactional delete (OCC): tags the row under `key` as
    /// Delete; the index entry is removed at commit. Returns false,
    /// changing nothing, when no such row exists.
    pub fn delete(
        &self,
        tx: &mut TransactionOCC,
        store: &ObjStore,
        table_idx: usize,
        key: u64,
        bucket_idx: usize,
    ) -> (r: bool)
        requires
            self.wf(),
            old(tx).wf(),
            store.wf(),
            old(tx).tags_bound(*store),
            self.rows_bound(*store),
        ensures
            final(tx).wf(),
            final(tx).tags_bound(*store),
            final(tx).tid_ == old(tx).tid_,
            final(tx).state_ == old(tx).state_,
            final(tx).txn_info_ == old(tx).txn_info_,
            final(tx).should_abort_ == old(tx).should_abort_,
            r == self.tview()[(bucket_idx % self.bucket_num) as int].index.dom().contains(key),
            !r ==> *final(tx) == *old(tx),
            r ==> ({
                let bv = self.tview()[(bucket_idx % self.bucket_num) as int];
                let slot = bv.rows[bv.index[key] as int];
                let oid = store.objs@[slot as int].id_;
                if old(tx).spec_has_tag(oid, Operation::Delete) {
                    let k = old(tx).spec_tag_idx(oid, Operation::Delete);
                    &&& final(tx).deps_@.len() == old(tx).deps_@.len()
                    &&& forall|i: int|
                        0 <= i < old(tx).deps_@.len() && i != k ==> final(tx).deps_@[i] == old(
                            tx,
                        ).deps_@[i]
                    &&& final(tx).deps_@[k].has_write_
                    &&& final(tx).deps_@[k].bucket_ matches Some(tb) && tb.0 == table_idx && tb.1
                        == (bucket_idx % self.bucket_num)
                    &&& final(tx).deps_@[k].oid_ == oid
                    &&& final(tx).deps_@[k].op_ == Operation::Delete
                    &&& final(tx).deps_@[k].obj_ == old(tx).deps_@[k].obj_
                    &&& final(tx).deps_@[k].write_val_ == old(tx).deps_@[k].write_val_
                    &&& final(tx).deps_@[k].fields_ == old(tx).deps_@[k].fields_
                } else {
                    &&& final(tx).deps_@.len() == old(tx).deps_@.len() + 1
                    &&& forall|i: int|
                        0 <= i < old(tx).deps_@.len() ==> final(tx).deps_@[i] == old(tx).deps_@[i]
                    &&& ({
                        let t = final(tx).deps_@[old(tx).deps_@.len() as int];
                        &&& t.oid_ == oid
                        &&& t.op_ == Operation::Delete
                        &&& t.obj_ == slot
                        &&& t.has_write_
                        &&& t.write_val_ is None
                        &&& t.fields_ is None
                        &&& !t.is_lock_
                        &&& (t.bucket_ matches Some(tb) && tb.0 == table_idx && tb.1 == (
                        bucket_idx % self.bucket_num))
                    })
                }
            }),
    {
        let bkt: usize = bucket_idx % self.bucket_num;
        match self.buckets[bkt].retrieve(key) {
            Option::None => false,
            Option::Some(slot) => {
                proof {
                    assert(self.tview()[bkt as int] == self.buckets@[bkt as int].bview());
                    assert(slot < store.objs@.len());
                }
                let oid: ObjectId = store.get_id(slot);
                let k: usize = tx.retrieve_tag(oid, slot, Operation::Delete);
                tx.deps_[k].set_write();
                tx.deps_[k].set_bucket(table_idx, bkt);
                true
            },
        }
    }
}

} // verus!

verus! {

/// Serializability as the log-order test: a transaction that
/// try-commit accepts observed, for every tag it read, exactly the
/// version that is still current — its read set matches the last
/// writers it observed, and nobody else holds what it wrote, so the
/// order of commit markers in the log is a valid serial order.
pub proof fn lemma_commit_reads_match_observed(tx: TransactionOCC, store: ObjStore)
    requires
        tx.commit_ok(store),
    ensures
        forall|i: int|
            0 <= i < tx.deps_@.len() && (#[trigger] tx.deps_@[i]).has_read_ ==> store.obj_vers(
                tx.deps_@[i].obj_ as int,
            ).spec_last_writer() == tx.deps_@[i].vers_,
        forall|i: int|
            0 <= i < tx.deps_@.len() && (#[trigger] tx.deps_@[i]).has_write_ ==> {
                let owner = store.obj_vers(tx.deps_@[i].obj_ as int).spec_lock_owner();
                owner == 0 || owner == tx.tid_.spec_value()
            },
{
}

} // verus!
