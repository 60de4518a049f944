//! The pipelined ParOCC transaction and its pieces.
//!
//! A long transaction runs as a sequence of pieces, each committed
//! with the OCC pipeline and published immediately; `rank` numbers
//! the piece currently executing. Every touched record is stamped
//! with a handle to the writer's status record, so a later reader
//! detects an uncommitted dependency and waits — for its
//! predecessors to start past its own rank, to commit, and to
//! persist — before making its own commit durable. The waits
//! themselves are busy loops the embedding program runs; the library
//! provides the decision each iteration takes.

use vstd::prelude::*;

verus! {

use crate::occ::TransactionOCC;
use crate::plog::{NvmLog, PLog, u32_le_bytes, SpecRec, LOG_KIND_TXN};
use crate::tbox::{ObjStore, TObj};
use crate::tcore::TVersion;
use crate::txn::{Tid, TxState, TxnInfo};

/// Identifier of one piece within a pipelined transaction.
#[derive(Eq, PartialEq, Structural, Hash, Debug, Clone, Copy)]
pub struct Pid(u32);

impl Pid {
    pub closed spec fn spec_value(self) -> u32 {
        self.0
    }

    pub fn new(pid: u32) -> (p: Pid)
        ensures
            p.spec_value() == pid,
    {
        Pid(pid)
    }
}

/// Lifecycle of one piece.
#[derive(Debug, Copy, Clone, PartialEq, Eq, Structural)]
pub enum PieceState {
    Ready,
    Running,
    Executed,
    Persisted,
}

/// Descriptor of one piece of a pipelined transaction: its
/// identifier, the owning transaction's name, a title for
/// diagnostics, and the rank at which it runs. The work itself is a
/// callback the embedding program keeps and runs against the
/// transaction.
#[derive(Debug)]
pub struct Piece {
    pub pid_: Pid,
    pub tname_: String,
    pub title_: &'static str,
    pub rank_: usize,
}

impl Piece {
    pub fn new(pid: Pid, tname: String, title: &'static str, rank: usize) -> (p: Piece)
        ensures
            p.pid_ == pid,
            p.tname_@ == tname@,
            p.title_@ == title@,
            p.rank_ == rank,
    {
        Piece { pid_: pid, tname_: tname, title_: title, rank_: rank }
    }

    pub fn id(&self) -> (p: &Pid)
        ensures
            *p == self.pid_,
    {
        &self.pid_
    }

    pub fn rank(&self) -> (r: usize)
        ensures
            r == self.rank_,
    {
        self.rank_
    }
}

/// Descriptor of one OCC-committed piece; the callback stays with
/// the embedding program.
#[derive(Debug)]
pub struct PieceOCC {
    pub pid_: Pid,
    pub tname_: String,
    pub title_: &'static str,
    pub rank_: usize,
}

impl PieceOCC {
    pub fn new(pid: Pid, tname: String, title: &'static str, rank: usize) -> (p: PieceOCC)
        ensures
            p.pid_ == pid,
            p.tname_@ == tname@,
            p.title_@ == title@,
            p.rank_ == rank,
    {
        PieceOCC { pid_: pid, tname_: tname, title_: title, rank_: rank }
    }

    pub fn id(&self) -> (p: &Pid)
        ensures
            *p == self.pid_,
    {
        &self.pid_
    }

    pub fn rank(&self) -> (r: usize)
        ensures
            r == self.rank_,
    {
        self.rank_
    }
}

/// One record image captured for logging: the bytes and the object
/// they belong to.
#[derive(Debug)]
pub struct DataRecord {
    pub bytes: Vec<u8>,
    pub oid: u64,
}

impl DataRecord {
    pub fn new(bytes: Vec<u8>, oid: u64) -> (d: DataRecord)
        ensures
            d.bytes@ == bytes@,
            d.oid == oid,
    {
        DataRecord { bytes: bytes, oid: oid }
    }

    /// The DATA log record for this image, keyed by the given Tid.
    pub fn as_log(&self, id: Tid) -> (p: PLog)
        ensures
            p.wf(),
            p.header.log_kind == crate::plog::LOG_KIND_DATA,
            p.header.txn_id == id.spec_value(),
            p.data.bytes@ == self.bytes@,
            p.data.oid == self.oid,
    {
        let copy: Vec<u8> = crate::plog::copy_range(&self.bytes, 0, self.bytes.len());
        PLog::new(copy, self.oid, id)
    }
}

/// The run's shared table of transaction status records: the
/// sequential stand-in for the reference-counted handles that
/// records and transactions share. A handle is a slot in this table.
#[derive(Debug)]
pub struct TxnRegistry {
    pub infos: Vec<TxnInfo>,
}

impl TxnRegistry {
    pub fn new() -> (reg: TxnRegistry)
        ensures
            reg.infos@.len() == 0,
    {
        TxnRegistry { infos: Vec::new() }
    }

    /// Slot 0 is conventionally the default record (committed and
    /// persisted), so fresh version words point at something nobody
    /// waits on.
    pub fn with_default() -> (reg: TxnRegistry)
        ensures
            reg.infos@.len() == 1,
            reg.infos@[0].spec_committed(),
            reg.infos@[0].spec_persist(),
    {
        let mut infos: Vec<TxnInfo> = Vec::new();
        infos.push(TxnInfo::default());
        TxnRegistry { infos: infos }
    }

    /// Registers one transaction's status record; its slot is the
    /// handle records will carry.
    pub fn register(&mut self, info: TxnInfo) -> (idx: usize)
        ensures
            idx == old(self).infos@.len(),
            final(self).infos@ == old(self).infos@.push(info),
    {
        let idx: usize = self.infos.len();
        self.infos.push(info);
        idx
    }

    pub fn get(&self, idx: usize) -> (info: &TxnInfo)
        requires
            idx < self.infos@.len(),
        ensures
            *info == self.infos@[idx as int],
    {
        &self.infos[idx]
    }
}

/// A pipelined transaction: the OCC engine for the piece being
/// built, the set of predecessors it must wait for (their Tids and
/// registry slots), its own registry slot, and the caller's abort
/// request.
pub struct TransactionParOCCRaw {
    pub piece_: TransactionOCC,
    pub deps_: Vec<(u32, usize)>,
    pub status_: TxState,
    pub info_idx_: usize,
    pub early_abort_: bool,
}

impl TransactionParOCCRaw {
    /// Every recorded dependency names a registry slot.
    pub open spec fn deps_bound(self, reg: TxnRegistry) -> bool {
        forall|i: int|
            0 <= i < self.deps_@.len() ==> (#[trigger] self.deps_@[i]).1 < reg.infos@.len()
    }

    /// Registers the transaction and hands back its handle.
    pub fn new(tid: Tid, reg: &mut TxnRegistry) -> (tx: TransactionParOCCRaw)
        requires
            tid.spec_value() != 0,
        ensures
            tx.piece_.wf(),
            tx.piece_.tid_ == tid,
            tx.piece_.deps_@.len() == 0,
            tx.deps_@.len() == 0,
            tx.status_ == TxState::EMBRYO,
            !tx.early_abort_,
            tx.info_idx_ == old(reg).infos@.len(),
            final(reg).infos@ == old(reg).infos@.push(tx.piece_.txn_info_),
            !tx.piece_.txn_info_.spec_committed(),
            !tx.piece_.txn_info_.spec_persist(),
            tx.piece_.txn_info_.spec_tid() == tid,
            tx.piece_.txn_info_.spec_rank() == 0,
            tx.deps_bound(*final(reg)),
    {
        let piece = TransactionOCC::new(tid);
        let info: TxnInfo = *piece.txn_info();
        let idx: usize = reg.register(info);
        TransactionParOCCRaw {
            piece_: piece,
            deps_: Vec::new(),
            status_: TxState::EMBRYO,
            info_idx_: idx,
            early_abort_: false,
        }
    }

    /// Asks the whole transaction to abort.
    pub fn should_abort(&mut self)
        ensures
            final(self).early_abort_,
            final(self).piece_ == old(self).piece_,
            final(self).deps_ == old(self).deps_,
            final(self).status_ == old(self).status_,
            final(self).info_idx_ == old(self).info_idx_,
    {
        self.early_abort_ = true;
    }

    /// The OCC engine of the piece being built: reads, writes and
    /// piece commits go through it.
    pub fn piece(&mut self) -> (p: &mut TransactionOCC)
        ensures
            *p == old(self).piece_,
            (*final(self) == TransactionParOCCRaw { piece_: *final(p), ..*old(self) }),
    {
        &mut self.piece_
    }

    pub fn id(&self) -> (t: Tid)
        ensures
            t == self.piece_.tid_,
    {
        self.piece_.id()
    }

    pub fn status(&self) -> (s: &TxState)
        ensures
            *s == self.status_,
    {
        &self.status_
    }

    /// The rank this transaction is executing, read from its status
    /// record.
    pub fn cur_rank(&self, reg: &TxnRegistry) -> (r: usize)
        requires
            self.info_idx_ < reg.infos@.len(),
        ensures
            r == reg.infos@[self.info_idx_ as int].spec_rank(),
    {
        reg.get(self.info_idx_).rank()
    }

    pub fn activate_txn(&mut self)
        ensures
            final(self).status_ == TxState::ACTIVE,
            final(self).piece_ == old(self).piece_,
            final(self).deps_ == old(self).deps_,
            final(self).info_idx_ == old(self).info_idx_,
            final(self).early_abort_ == old(self).early_abort_,
    {
        self.status_ = TxState::ACTIVE;
    }

    /// Advances this transaction's rank to the piece about to run.
    pub fn update_rank(&self, reg: &mut TxnRegistry, rank: usize)
        requires
            self.info_idx_ < old(reg).infos@.len(),
        ensures
            final(reg).infos@.len() == old(reg).infos@.len(),
            forall|i: int|
                0 <= i < old(reg).infos@.len() && i != self.info_idx_ ==> final(reg).infos@[i]
                    == old(reg).infos@[i],
            final(reg).infos@[self.info_idx_ as int].spec_rank() == rank,
            final(reg).infos@[self.info_idx_ as int].spec_committed() == old(reg).infos@[
                self.info_idx_ as int].spec_committed(),
            final(reg).infos@[self.info_idx_ as int].spec_persist() == old(reg).infos@[
                self.info_idx_ as int].spec_persist(),
            final(reg).infos@[self.info_idx_ as int].spec_tid() == old(reg).infos@[
                self.info_idx_ as int].spec_tid(),
    {
        let info: &mut TxnInfo = &mut reg.infos[self.info_idx_];
        info.start(rank);
    }

    /// One iteration of the start wait: true exactly when every
    /// predecessor has either committed or advanced past the rank
    /// about to run, so the piece may start. The embedding program
    /// loops until this holds — rank order per record lineage is
    /// preserved.
    #[verifier::loop_isolation(false)]
    pub fn wait_deps_start(&self, reg: &TxnRegistry, to_run_rank: usize) -> (ready: bool)
        requires
            self.deps_bound(*reg),
        ensures
            ready == forall|i: int|
                0 <= i < self.deps_@.len() ==> {
                    let info = reg.infos@[(#[trigger] self.deps_@[i]).1 as int];
                    info.spec_committed() || info.spec_rank() > to_run_rank
                },
    {
        let n: usize = self.deps_.len();
        let mut i: usize = 0;
        while i < n
            invariant
                i <= n,
                forall|a: int|
                    0 <= a < i ==> {
                        let info = reg.infos@[(#[trigger] self.deps_@[a]).1 as int];
                        info.spec_committed() || info.spec_rank() > to_run_rank
                    },
            decreases n - i,
        {
            let idx: usize = self.deps_[i].1;
            let info: &TxnInfo = reg.get(idx);
            if !(info.has_commit() || info.has_started(to_run_rank)) {
                proof {
                    assert(!(reg.infos@[self.deps_@[i as int].1 as int].spec_committed()
                        || reg.infos@[self.deps_@[i as int].1 as int].spec_rank() > to_run_rank));
                }
                return false;
            }
            i = i + 1;
        }
        true
    }

    /// One iteration of the commit wait: true exactly when every
    /// predecessor has committed.
    #[verifier::loop_isolation(false)]
    pub fn wait_deps_commit(&self, reg: &TxnRegistry) -> (ready: bool)
        requires
            self.deps_bound(*reg),
        ensures
            ready == forall|i: int|
                0 <= i < self.deps_@.len() ==> reg.infos@[(#[trigger] self.deps_@[
                    i]).1 as int].spec_committed(),
    {
        let n: usize = self.deps_.len();
        let mut i: usize = 0;
        while i < n
            invariant
                i <= n,
                forall|a: int|
                    0 <= a < i ==> reg.infos@[(#[trigger] self.deps_@[
                        a]).1 as int].spec_committed(),
            decreases n - i,
        {
            let idx: usize = self.deps_[i].1;
            if !reg.get(idx).has_commit() {
                return false;
            }
            i = i + 1;
        }
        true
    }

    /// One iteration of the durability wait: true exactly when every
    /// predecessor's commit marker is durable. The log replayer may
    /// then keep this transaction's marker too.
    #[verifier::loop_isolation(false)]
    pub fn wait_deps_persist(&self, reg: &TxnRegistry) -> (ready: bool)
        requires
            self.deps_bound(*reg),
        ensures
            ready == forall|i: int|
                0 <= i < self.deps_@.len() ==> reg.infos@[(#[trigger] self.deps_@[
                    i]).1 as int].spec_persist(),
    {
        let n: usize = self.deps_.len();
        let mut i: usize = 0;
        while i < n
            invariant
                i <= n,
                forall|a: int|
                    0 <= a < i ==> reg.infos@[(#[trigger] self.deps_@[a]).1 as int].spec_persist(),
            decreases n - i,
        {
            let idx: usize = self.deps_[i].1;
            if !reg.get(idx).has_persist() {
                return false;
            }
            i = i + 1;
        }
        true
    }
}

} // verus!

verus! {

use crate::occ::{
    buckets_ok, commit_prereqs, data_recs_upto, install_tables_upto, pmem_flushed, tables_frame,
    tables_view, write_tagged_upto,
};
use crate::table::Table;
use crate::tcore::TTag;

/// Every version word's status handle names a registry slot.
pub open spec fn store_infos_bound(store: ObjStore, reg: TxnRegistry) -> bool {
    forall|s: int|
        0 <= s < store.objs@.len() ==> (#[trigger] store.objs@[s]).vers_.spec_access_info()
            < reg.infos@.len()
}

/// The store after a committed piece: as after an OCC commit, with
/// every written record's status handle swapped to the committing
/// transaction's slot, so later readers see the dependency.
pub open spec fn store_piece_final(
    deps0: Seq<TTag>,
    store0: ObjStore,
    st: ObjStore,
    tid: u32,
    aidx: usize,
) -> bool {
    &&& st.objs@.len() == store0.objs@.len()
    &&& forall|s: int|
        0 <= s < store0.objs@.len() && !write_tagged_upto(deps0, deps0.len() as int, s)
            ==> st.objs@[s] == store0.objs@[s]
    &&& forall|i: int|
        0 <= i < deps0.len() && (#[trigger] deps0[i]).has_write_ ==> {
            let s = deps0[i].obj_ as int;
            let o1 = st.objs@[s];
            &&& (o1 == TObj {
                data_: o1.data_,
                pmem_: o1.pmem_,
                vers_: TVersion {
                    last_writer_: tid,
                    access_info_: aidx,
                    ..store0.obj_vers(s)
                },
                ..store0.objs@[s]
            })
            &&& (match deps0[i].write_val_ {
                Option::Some(w) => o1.bytes() == w@,
                Option::None => o1.bytes() == store0.obj_bytes(s),
            })
            &&& pmem_flushed(deps0[i], store0, o1)
        }
}

impl TransactionParOCCRaw {
    /// Commits the piece built so far: the OCC pipeline on its tags,
    /// then every written record's status handle is stamped with
    /// this transaction, and every uncommitted foreign writer whose
    /// record this piece wrote joins the dependency set. On failure
    /// everything is rolled back and the piece is dropped; the
    /// caller retries it.
    #[verifier::loop_isolation(false)]
    #[verifier::rlimit(80)]
    pub fn try_commit_piece(
        &mut self,
        store: &mut ObjStore,
        tables: &mut Vec<Table>,
        log: &mut NvmLog,
        reg: &TxnRegistry,
    ) -> (r: bool)
        requires
            old(self).piece_.wf(),
            old(store).wf(),
            old(log).wf(),
            old(self).piece_.tags_bound(*old(store)),
            old(self).piece_.write_objs_distinct(),
            forall|i: int|
                0 <= i < old(self).piece_.deps_@.len() ==> !(#[trigger] old(self).piece_.deps_@[
                    i]).is_lock_,
            forall|t: int| 0 <= t < old(tables)@.len() ==> (#[trigger] old(tables)@[t]).wf(),
            buckets_ok(old(self).piece_.deps_@, old(tables)@),
            commit_prereqs(old(self).piece_.deps_@, *old(store)),
            store_infos_bound(*old(store), *reg),
            old(self).deps_bound(*reg),
        ensures
            final(self).piece_.wf(),
            final(store).wf(),
            final(log).wf(),
            final(self).piece_.tid_ == old(self).piece_.tid_,
            final(self).info_idx_ == old(self).info_idx_,
            final(self).early_abort_ == old(self).early_abort_,
            final(self).piece_.deps_@.len() == 0,
            final(self).deps_bound(*reg),
            r == (!old(self).piece_.should_abort_ && old(self).piece_.commit_ok(*old(store))),
            !r ==> final(store).objs@ == old(store).objs@ && *final(log) == *old(log)
                && final(tables)@ == old(tables)@ && final(self).deps_ == old(self).deps_,
            r ==> store_piece_final(
                old(self).piece_.deps_@,
                *old(store),
                *final(store),
                old(self).piece_.tid_.spec_value(),
                old(self).info_idx_,
            ),
            r ==> final(log).recs() == old(log).recs() + data_recs_upto(
                old(self).piece_.deps_@,
                *old(store),
                old(self).piece_.tid_.spec_value(),
                old(self).piece_.deps_@.len() as int,
            ) + seq![
                SpecRec {
                    kind: LOG_KIND_TXN,
                    tid: old(self).piece_.tid_.spec_value(),
                    payload: u32_le_bytes(old(self).piece_.tid_.spec_value()),
                },
            ],
            r ==> tables_view(final(tables)@) == install_tables_upto(
                old(self).piece_.deps_@,
                *old(store),
                tables_view(old(tables)@),
                old(self).piece_.deps_@.len() as int,
            ),
            tables_frame(old(tables)@, final(tables)@),
            forall|i: int|
                0 <= i < old(self).deps_@.len() ==> final(self).deps_@[i] == old(self).deps_@[i],
            r ==> forall|i: int|
                old(self).deps_@.len() <= i < final(self).deps_@.len() ==> {
                    let d = #[trigger] final(self).deps_@[i];
                    &&& d.1 < reg.infos@.len()
                    &&& !reg.infos@[d.1 as int].spec_committed()
                    &&& d.0 == reg.infos@[d.1 as int].spec_tid().spec_value()
                    &&& d.0 != old(self).piece_.tid_.spec_value()
                },
            r ==> forall|j: int|
                0 <= j < old(self).piece_.deps_@.len() && (#[trigger] old(self).piece_.deps_@[
                    j]).has_write_ ==> {
                    let aidx = old(store).obj_vers(
                        old(self).piece_.deps_@[j].obj_ as int,
                    ).spec_access_info();
                    (!reg.infos@[aidx as int].spec_committed()
                        && reg.infos@[aidx as int].spec_tid().spec_value() != old(
                        self,
                    ).piece_.tid_.spec_value()) ==> exists|d: int|
                        0 <= d < final(self).deps_@.len() && (#[trigger] final(self).deps_@[d]).1
                            == aidx
                },
    {
        let me_tid: u32 = self.piece_.tid_.value();
        let ghost deps0 = self.piece_.deps_@;
        let ghost store0 = *old(store);
        // Collect the written slots and the uncommitted foreign
        // writers they currently point at.
        let n: usize = self.piece_.deps_.len();
        let mut wslots: Vec<usize> = Vec::new();
        let mut cands: Vec<(u32, usize)> = Vec::new();
        let mut ci: usize = 0;
        while ci < n
            invariant
                ci <= n,
                forall|a: int|
                    0 <= a < wslots@.len() ==> (#[trigger] wslots@[a]) < store0.objs@.len()
                        && write_tagged_upto(deps0, n as int, wslots@[a] as int),
                forall|j: int|
                    0 <= j < ci && (#[trigger] deps0[j]).has_write_ ==> wslots@.contains(
                        deps0[j].obj_,
                    ),
                forall|a: int|
                    0 <= a < cands@.len() ==> {
                        let d = #[trigger] cands@[a];
                        &&& d.1 < reg.infos@.len()
                        &&& !reg.infos@[d.1 as int].spec_committed()
                        &&& d.0 == reg.infos@[d.1 as int].spec_tid().spec_value()
                        &&& d.0 != me_tid
                    },
                forall|j: int|
                    0 <= j < ci && (#[trigger] deps0[j]).has_write_ ==> {
                        let aidx = store0.obj_vers(deps0[j].obj_ as int).spec_access_info();
                        (!reg.infos@[aidx as int].spec_committed()
                            && reg.infos@[aidx as int].spec_tid().spec_value() != me_tid)
                            ==> exists|a: int|
                            0 <= a < cands@.len() && (#[trigger] cands@[a]).1 == aidx
                    },
            decreases n - ci,
        {
            let ghost c_pre = cands@;
            let hw: bool = self.piece_.deps_[ci].has_write_;
            if hw {
                let slot: usize = self.piece_.deps_[ci].obj_;
                proof {
                    assert(deps0[ci as int].has_write_ && deps0[ci as int].obj_ == slot);
                }
                let ghost ws_pre = wslots@;
                wslots.push(slot);
                proof {
                    assert forall|j: int|
                        0 <= j < ci as int + 1 && (#[trigger] deps0[j]).has_write_ implies wslots@
                        .contains(deps0[j].obj_) by {
                        if j < ci as int {
                            assert(ws_pre.contains(deps0[j].obj_));
                            let a = choose|a: int|
                                0 <= a < ws_pre.len() && (#[trigger] ws_pre[a]) == deps0[j].obj_;
                            assert(wslots@[a] == deps0[j].obj_);
                        } else {
                            assert(wslots@[wslots@.len() - 1] == deps0[j].obj_);
                        }
                    }
                    assert forall|a: int|
                        0 <= a < wslots@.len() implies (#[trigger] wslots@[a])
                        < store0.objs@.len() && write_tagged_upto(
                        deps0,
                        n as int,
                        wslots@[a] as int,
                    ) by {
                        if a < ws_pre.len() {
                            assert(wslots@[a] == ws_pre[a]);
                        } else {
                            assert(wslots@[a] == slot);
                            assert(self.piece_.deps_@[ci as int].obj_ < store0.objs@.len());
                            assert(write_tagged_upto(deps0, n as int, slot as int)) by {
                                assert(deps0[ci as int].has_write_ && deps0[ci as int].obj_
                                    == slot as int);
                            }
                        }
                    }
                }
                let aidx: usize = store.objs[slot].vers_.get_access_info();
                proof {
                    assert(aidx == store0.obj_vers(slot as int).spec_access_info());
                }
                let info: &TxnInfo = reg.get(aidx);
                if !info.has_commit() && info.id().value() != me_tid {
                    let t: u32 = info.id().value();
                    cands.push((t, aidx));
                    proof {
                        assert(cands@[cands@.len() - 1].1 == aidx);
                    }
                }
                proof {
                    assert forall|j: int|
                        0 <= j < ci as int + 1 && (#[trigger] deps0[j]).has_write_ implies {
                        let ax = store0.obj_vers(deps0[j].obj_ as int).spec_access_info();
                        (!reg.infos@[ax as int].spec_committed()
                            && reg.infos@[ax as int].spec_tid().spec_value() != me_tid)
                            ==> exists|a: int|
                            0 <= a < cands@.len() && (#[trigger] cands@[a]).1 == ax
                    } by {
                        let ax = store0.obj_vers(deps0[j].obj_ as int).spec_access_info();
                        if !reg.infos@[ax as int].spec_committed() && reg.infos@[
                            ax as int].spec_tid().spec_value() != me_tid {
                            if j < ci as int {
                                let a = choose|a: int|
                                    0 <= a < c_pre.len() && (#[trigger] c_pre[a]).1 == ax;
                                assert(cands@[a] == c_pre[a]);
                            } else {
                                assert(ax == aidx);
                                assert(cands@[cands@.len() - 1].1 == ax);
                            }
                        }
                    }
                }
            } else {
                proof {
                    assert forall|j: int|
                        0 <= j < ci as int + 1 && (#[trigger] deps0[j]).has_write_ implies wslots@
                        .contains(deps0[j].obj_) by {
                        assert(j < ci as int);
                    }
                }
            }
            proof {
                assert(self.piece_.deps_@[ci as int].has_write_ == deps0[ci as int].has_write_);
            }
            ci = ci + 1;
        }
        // The OCC pipeline on this piece's tags.
        let committed: bool = self.piece_.try_commit(store, tables, log);
        if committed {
            // Stamp every written record with this transaction's
            // handle, and adopt the collected dependencies.
            let ghost store_mid = *store;
            let m: usize = wslots.len();
            let mut si: usize = 0;
            while si < m
                invariant
                    si <= m,
                    store.wf(),
                    store.objs@.len() == store_mid.objs@.len(),
                    forall|a: int|
                        0 <= a < wslots@.len() ==> (#[trigger] wslots@[a]) < store_mid.objs@.len()
                            && write_tagged_upto(deps0, n as int, wslots@[a] as int),
                    forall|s: int|
                        0 <= s < store_mid.objs@.len() && !(exists|a: int|
                            0 <= a < si && (#[trigger] wslots@[a]) == s) ==> store.objs@[s]
                            == store_mid.objs@[s],
                    forall|a: int|
                        0 <= a < si ==> (store.objs@[(#[trigger] wslots@[a]) as int] == TObj {
                            vers_: TVersion {
                                access_info_: self.info_idx_,
                                ..store_mid.obj_vers(wslots@[a] as int)
                            },
                            ..store_mid.objs@[wslots@[a] as int]
                        }),
                decreases m - si,
            {
                let slot: usize = wslots[si];
                let ghost objs_pre = store.objs@;
                let o: &mut TObj = &mut store.objs[slot];
                o.vers_.set_access_info(self.info_idx_);
                proof {
                    assert forall|x: int| 0 <= x < store.objs@.len() && x != slot as int
                        implies store.objs@[x] == objs_pre[x] by {}
                    assert forall|s: int|
                        0 <= s < store_mid.objs@.len() && !(exists|a: int|
                            0 <= a < si as int + 1 && (#[trigger] wslots@[a]) == s)
                        implies store.objs@[s] == store_mid.objs@[s] by {
                        assert(s != slot as int) by {
                            assert(wslots@[si as int] == slot);
                        }
                        if exists|a: int| 0 <= a < si && (#[trigger] wslots@[a]) == s {
                            let a = choose|a: int| 0 <= a < si && (#[trigger] wslots@[a]) == s;
                            assert(0 <= a < si as int + 1 && wslots@[a] == s);
                        }
                    }
                    assert forall|a: int|
                        0 <= a < si as int + 1 implies (store.objs@[(
                    #[trigger] wslots@[a]) as int] == TObj {
                        vers_: TVersion {
                            access_info_: self.info_idx_,
                            ..store_mid.obj_vers(wslots@[a] as int)
                        },
                        ..store_mid.objs@[wslots@[a] as int]
                    }) by {
                        if a < si as int {
                            if wslots@[a] != slot {
                                assert(store.objs@[wslots@[a] as int] == objs_pre[wslots@[
                                    a] as int]);
                            } else {
                                assert(store.objs@[wslots@[a] as int] == store.objs@[
                                    slot as int]);
                            }
                        }
                    }
                }
                si = si + 1;
            }
            let ghost piece_after = self.piece_;
            let ghost cands_snap = cands@;
            let mut di: usize = 0;
            let cn: usize = cands.len();
            while di < cn
                invariant
                    di <= cn,
                    cands@ == cands_snap,
                    self.deps_@.len() == old(self).deps_@.len() + di,
                    forall|i: int|
                        0 <= i < old(self).deps_@.len() ==> self.deps_@[i] == old(self).deps_@[i],
                    forall|i: int|
                        old(self).deps_@.len() <= i < self.deps_@.len() ==> self.deps_@[i]
                            == cands@[i - old(self).deps_@.len()],
                    self.piece_ == piece_after,
                    self.info_idx_ == old(self).info_idx_,
                    self.early_abort_ == old(self).early_abort_,
                    self.status_ == old(self).status_,
                decreases cn - di,
            {
                let d: (u32, usize) = cands[di];
                self.deps_.push(d);
                di = di + 1;
            }
            proof {
                assert forall|i: int|
                    0 <= i < self.deps_@.len() implies (#[trigger] self.deps_@[i]).1
                    < reg.infos@.len() by {
                    if i < old(self).deps_@.len() {
                        assert(self.deps_@[i] == old(self).deps_@[i]);
                    } else {
                        assert(self.deps_@[i] == cands@[i - old(self).deps_@.len()]);
                    }
                }
                assert forall|i: int|
                    0 <= i < deps0.len() && (#[trigger] deps0[i]).has_write_ implies {
                    let s = deps0[i].obj_ as int;
                    let o1 = store.objs@[s];
                    &&& (o1 == TObj {
                        data_: o1.data_,
                        pmem_: o1.pmem_,
                        vers_: TVersion {
                            last_writer_: me_tid,
                            access_info_: self.info_idx_,
                            ..store0.obj_vers(s)
                        },
                        ..store0.objs@[s]
                    })
                    &&& (match deps0[i].write_val_ {
                        Option::Some(w) => o1.bytes() == w@,
                        Option::None => o1.bytes() == store0.obj_bytes(s),
                    })
                    &&& pmem_flushed(deps0[i], store0, o1)
                } by {
                    assert(wslots@.contains(deps0[i].obj_));
                    let a = choose|a: int| 0 <= a < wslots@.len() && (#[trigger] wslots@[a])
                        == deps0[i].obj_;
                    assert(store.objs@[deps0[i].obj_ as int] == TObj {
                        vers_: TVersion {
                            access_info_: self.info_idx_,
                            ..store_mid.obj_vers(deps0[i].obj_ as int)
                        },
                        ..store_mid.objs@[deps0[i].obj_ as int]
                    });
                }
                assert forall|s: int|
                    0 <= s < store0.objs@.len() && !write_tagged_upto(
                        deps0,
                        deps0.len() as int,
                        s,
                    ) implies store.objs@[s] == store0.objs@[s] by {
                    if exists|a: int| 0 <= a < wslots@.len() && (#[trigger] wslots@[a]) == s {
                        let a = choose|a: int|
                            0 <= a < wslots@.len() && (#[trigger] wslots@[a]) == s;
                        assert(write_tagged_upto(deps0, n as int, wslots@[a] as int));
                    }
                }
                assert forall|j: int|
                    0 <= j < deps0.len() && (#[trigger] deps0[j]).has_write_ implies {
                    let ax = store0.obj_vers(deps0[j].obj_ as int).spec_access_info();
                    (!reg.infos@[ax as int].spec_committed()
                        && reg.infos@[ax as int].spec_tid().spec_value() != me_tid)
                        ==> exists|d: int|
                        0 <= d < self.deps_@.len() && (#[trigger] self.deps_@[d]).1 == ax
                } by {
                    let ax = store0.obj_vers(deps0[j].obj_ as int).spec_access_info();
                    if !reg.infos@[ax as int].spec_committed() && reg.infos@[
                        ax as int].spec_tid().spec_value() != me_tid {
                        let a = choose|a: int|
                            0 <= a < cands_snap.len() && (#[trigger] cands_snap[a]).1 == ax;
                        assert(self.deps_@[old(self).deps_@.len() + a] == cands_snap[a]);
                    }
                }
            }
            true
        } else {
            false
        }
    }
}

} // verus!

verus! {

use crate::txn::AbortReason;

impl TransactionParOCCRaw {
    /// Transaction commit: with every predecessor committed, the
    /// transaction is marked committed and its TXN_COMMIT marker
    /// goes to the log; with every predecessor also durable, its own
    /// persisted flag is set. The embedding program loops on
    /// `wait_deps_commit` and `wait_deps_persist` first.
    pub fn commit(&mut self, log: &mut NvmLog, reg: &mut TxnRegistry)
        requires
            old(log).wf(),
            old(self).info_idx_ < old(reg).infos@.len(),
            old(self).deps_bound(*old(reg)),
            forall|i: int|
                0 <= i < old(self).deps_@.len() ==> old(reg).infos@[(#[trigger] old(self).deps_@[
                    i]).1 as int].spec_committed(),
            forall|i: int|
                0 <= i < old(self).deps_@.len() ==> old(reg).infos@[(#[trigger] old(self).deps_@[
                    i]).1 as int].spec_persist(),
        ensures
            final(log).wf(),
            final(self).status_ == TxState::PERSIST,
            final(self).piece_ == old(self).piece_,
            final(self).deps_ == old(self).deps_,
            final(self).info_idx_ == old(self).info_idx_,
            final(reg).infos@.len() == old(reg).infos@.len(),
            forall|i: int|
                0 <= i < old(reg).infos@.len() && i != old(self).info_idx_ ==> final(reg).infos@[
                    i] == old(reg).infos@[i],
            final(reg).infos@[old(self).info_idx_ as int].spec_committed(),
            final(reg).infos@[old(self).info_idx_ as int].spec_persist(),
            final(reg).infos@[old(self).info_idx_ as int].spec_tid() == old(reg).infos@[old(
                self,
            ).info_idx_ as int].spec_tid(),
            final(reg).infos@[old(self).info_idx_ as int].spec_rank() == old(reg).infos@[old(
                self,
            ).info_idx_ as int].spec_rank(),
            final(log).recs() == old(log).recs().push(
                SpecRec {
                    kind: LOG_KIND_TXN,
                    tid: old(self).piece_.tid_.spec_value(),
                    payload: u32_le_bytes(old(self).piece_.tid_.spec_value()),
                },
            ),
            final(log).binds@ == old(log).binds@.push(0),
    {
        let idx: usize = self.info_idx_;
        let tidv: u32 = self.piece_.id().value();
        {
            let info: &mut TxnInfo = &mut reg.infos[idx];
            info.commit();
        }
        crate::plog::persist_txn(log, tidv);
        {
            let info: &mut TxnInfo = &mut reg.infos[idx];
            info.persist();
        }
        self.status_ = TxState::PERSIST;
    }

    /// Aborts the whole transaction: the piece in flight is dropped,
    /// and the status record is marked committed and persisted so no
    /// successor waits forever. Already-installed pieces stay
    /// visible; compensating them is the embedding program's affair.
    pub fn abort(&mut self, reg: &mut TxnRegistry)
        requires
            old(self).info_idx_ < old(reg).infos@.len(),
            forall|i: int|
                0 <= i < old(self).piece_.deps_@.len() ==> !(#[trigger] old(self).piece_.deps_@[
                    i]).is_lock_,
        ensures
            final(self).status_ == TxState::ABORTED,
            final(self).piece_.deps_@.len() == 0,
            final(self).info_idx_ == old(self).info_idx_,
            final(self).deps_ == old(self).deps_,
            final(reg).infos@.len() == old(reg).infos@.len(),
            forall|i: int|
                0 <= i < old(reg).infos@.len() && i != old(self).info_idx_ ==> final(reg).infos@[
                    i] == old(reg).infos@[i],
            final(reg).infos@[old(self).info_idx_ as int].spec_committed(),
            final(reg).infos@[old(self).info_idx_ as int].spec_persist(),
    {
        let idx: usize = self.info_idx_;
        {
            let info: &mut TxnInfo = &mut reg.infos[idx];
            info.commit();
            info.persist();
        }
        self.piece_.abort(AbortReason::User);
        self.status_ = TxState::ABORTED;
    }
}

} // verus!
