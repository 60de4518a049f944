//! Object identifiers and the per-object version word.
//!
//! The version word is the single synchronisation point of every
//! record: it carries the OCC state (last writer, reentrant write
//! lock) and the wait-die 2PL sub-record (writer, readers-max,
//! reader count). Every transition is a method with an exact
//! contract; the laws at the bottom state lock reentrancy and the
//! wait-die conflict rules over those transitions.

use vstd::prelude::*;

verus! {

use crate::txn::Tid;

/// Globally unique 64-bit object identifier: a 12-bit thread mask in
/// the high bits, a monotonically increasing per-thread counter in the
/// low 52 bits. Never reused in a run.
#[derive(PartialEq, Eq, Structural, Copy, Clone, Debug, Hash)]
pub struct ObjectId(u64);

impl ObjectId {
    pub closed spec fn spec_value(self) -> u64 {
        self.0
    }

    pub fn new(id: u64) -> (o: ObjectId)
        ensures
            o.spec_value() == id,
    {
        ObjectId(id)
    }

    pub fn value(self) -> (v: u64)
        ensures
            v == self.spec_value(),
    {
        self.0
    }
}

/// The identifier a factory with thread mask `mask` builds from the
/// counter value `next`.
pub open spec fn oid_value(mask: u64, next: u64) -> u64 {
    next | (mask << 52)
}

/// Per-thread factory of object identifiers.
pub struct OidFac {
    mask_: u64,
    next_id_: u64,
}

impl OidFac {
    pub closed spec fn spec_mask(self) -> u64 {
        self.mask_
    }

    pub closed spec fn spec_next(self) -> u64 {
        self.next_id_
    }

    /// The mask fits in 12 bits and the counter has left 0 behind.
    pub closed spec fn wf(self) -> bool {
        1 <= self.next_id_ && self.mask_ < 0x1000
    }

    pub fn new() -> (fac: OidFac)
        ensures
            fac.wf(),
            fac.spec_mask() == 0,
            fac.spec_next() == 1,
    {
        OidFac { mask_: 0, next_id_: 1 }
    }

    pub fn set_mask(&mut self, mask: u64)
        requires
            mask < 0x1000,
        ensures
            final(self).spec_mask() == mask,
            final(self).spec_next() == old(self).spec_next(),
            old(self).wf() ==> final(self).wf(),
    {
        self.mask_ = mask;
    }

    /// The calling thread's factory takes its mask.
    pub fn set_obj_mask(&mut self, mask: u64)
        requires
            mask < 0x1000,
        ensures
            final(self).spec_mask() == mask,
            final(self).spec_next() == old(self).spec_next(),
            old(self).wf() ==> final(self).wf(),
    {
        self.set_mask(mask);
    }

    pub fn get_next(&mut self) -> (o: ObjectId)
        requires
            old(self).wf(),
            old(self).spec_next() < 0x0010_0000_0000_0000,
        ensures
            final(self).wf(),
            o.spec_value() == oid_value(old(self).spec_mask(), old(self).spec_next()),
            o.spec_value() != 0,
            final(self).spec_next() == old(self).spec_next() + 1,
            final(self).spec_mask() == old(self).spec_mask(),
    {
        let ret: u64 = self.next_id_ | (self.mask_ << 52);
        proof {
            lemma_oid_value_nonzero(self.mask_, self.next_id_);
        }
        self.next_id_ = self.next_id_ + 1;
        ObjectId(ret)
    }

    /// Draws the next identifier from the calling thread's factory.
    pub fn get_obj_next(&mut self) -> (o: ObjectId)
        requires
            old(self).wf(),
            old(self).spec_next() < 0x0010_0000_0000_0000,
        ensures
            final(self).wf(),
            o.spec_value() == oid_value(old(self).spec_mask(), old(self).spec_next()),
            o.spec_value() != 0,
            final(self).spec_next() == old(self).spec_next() + 1,
            final(self).spec_mask() == old(self).spec_mask(),
    {
        self.get_next()
    }
}

/// A nonzero counter always yields a nonzero identifier, whatever
/// the mask.
proof fn lemma_oid_value_nonzero(mask: u64, next: u64)
    requires
        1 <= next,
    ensures
        oid_value(mask, next) != 0,
{
    assert((next | (mask << 52)) != 0) by (bit_vector)
        requires
            1 <= next,
    ;
}

/// Object identity: one factory never issues the same identifier
/// twice, because the counter occupies the low 52 bits only and only
/// grows. Two draws with distinct counter values are distinct.
pub proof fn lemma_oid_distinct_same_thread(mask: u64, n1: u64, n2: u64)
    requires
        n1 < 0x0010_0000_0000_0000,
        n2 < 0x0010_0000_0000_0000,
        n1 != n2,
    ensures
        oid_value(mask, n1) != oid_value(mask, n2),
{
    assert((n1 | (mask << 52)) != (n2 | (mask << 52))) by (bit_vector)
        requires
            n1 < 0x0010_0000_0000_0000,
            n2 < 0x0010_0000_0000_0000,
            n1 != n2,
    ;
}

/// Object identity across threads: factories with distinct 12-bit
/// masks never collide, whatever their counters, so no identifier is
/// reused anywhere in a run.
pub proof fn lemma_oid_distinct_threads(m1: u64, n1: u64, m2: u64, n2: u64)
    requires
        m1 < 0x1000,
        m2 < 0x1000,
        m1 != m2,
        n1 < 0x0010_0000_0000_0000,
        n2 < 0x0010_0000_0000_0000,
    ensures
        oid_value(m1, n1) != oid_value(m2, n2),
{
    assert((n1 | (m1 << 52)) != (n2 | (m2 << 52))) by (bit_vector)
        requires
            m1 < 0x1000,
            m2 < 0x1000,
            m1 != m2,
            n1 < 0x0010_0000_0000_0000,
            n2 < 0x0010_0000_0000_0000,
    ;
}

/// The operation an access tag records.
#[derive(Clone, Copy, Debug, PartialEq, Eq, Structural, Hash)]
pub enum Operation {
    RWrite,
    Delete,
    Push,
}

/// Outcome of one wait-die lock attempt: the lock was granted, the
/// requester must die (abort and retry with a fresh Tid), or it may
/// wait and try again.
#[derive(Clone, Copy, Debug, PartialEq, Eq, Structural)]
pub enum TplOutcome {
    Granted,
    Die,
    Wait,
}

/// The version word attached to every object that participates in
/// transactions: the OCC triple (last writer, lock owner, reentrant
/// count), a handle to the last writer's status record, and the
/// wait-die 2PL sub-record (writer, readers-max, reader count).
#[derive(Clone, Copy, Debug)]
pub struct TVersion {
    pub last_writer_: u32,
    pub lock_owner_: u32,
    pub count_: u32,
    pub access_info_: usize,
    pub tpl_writer_: u32,
    pub tpl_reader_: u32,
    pub tpl_reader_cnt_: u32,
}

impl TVersion {
    pub open spec fn spec_last_writer(self) -> u32 {
        self.last_writer_
    }

    pub open spec fn spec_lock_owner(self) -> u32 {
        self.lock_owner_
    }

    pub open spec fn spec_count(self) -> u32 {
        self.count_
    }

    pub open spec fn spec_access_info(self) -> usize {
        self.access_info_
    }

    pub open spec fn spec_tpl_writer(self) -> u32 {
        self.tpl_writer_
    }

    pub open spec fn spec_tpl_reader(self) -> u32 {
        self.tpl_reader_
    }

    pub open spec fn spec_tpl_reader_cnt(self) -> u32 {
        self.tpl_reader_cnt_
    }

    /// The OCC lock is held exactly when its count is positive, and
    /// the reader sub-record is empty exactly when its count is zero.
    pub open spec fn wf(self) -> bool {
        &&& (self.spec_lock_owner() == 0 <==> self.spec_count() == 0)
        &&& (self.spec_tpl_reader() == 0 <==> self.spec_tpl_reader_cnt() == 0)
    }

    /// The all-clear word: nothing written, nothing locked.
    pub open spec fn spec_clear() -> TVersion {
        TVersion {
            last_writer_: 0,
            lock_owner_: 0,
            count_: 0,
            access_info_: 0,
            tpl_writer_: 0,
            tpl_reader_: 0,
            tpl_reader_cnt_: 0,
        }
    }

    /// All clear: nothing written, nothing locked.
    pub fn new() -> (v: TVersion)
        ensures
            v == TVersion::spec_clear(),
            v.wf(),
            v.spec_last_writer() == 0,
            v.spec_lock_owner() == 0,
            v.spec_count() == 0,
            v.spec_access_info() == 0,
            v.spec_tpl_writer() == 0,
            v.spec_tpl_reader() == 0,
            v.spec_tpl_reader_cnt() == 0,
    {
        TVersion {
            last_writer_: 0,
            lock_owner_: 0,
            count_: 0,
            access_info_: 0,
            tpl_writer_: 0,
            tpl_reader_: 0,
            tpl_reader_cnt_: 0,
        }
    }

    /// A version word whose last writer is the transaction behind the
    /// given status handle (used when a transactional insert creates
    /// the row).
    pub fn new_with_info(tid: u32, access_info: usize) -> (v: TVersion)
        ensures
            v.wf(),
            v.spec_last_writer() == tid,
            v.spec_lock_owner() == 0,
            v.spec_count() == 0,
            v.spec_access_info() == access_info,
            v.spec_tpl_writer() == 0,
            v.spec_tpl_reader() == 0,
            v.spec_tpl_reader_cnt() == 0,
    {
        TVersion {
            last_writer_: tid,
            lock_owner_: 0,
            count_: 0,
            access_info_: access_info,
            tpl_writer_: 0,
            tpl_reader_: 0,
            tpl_reader_cnt_: 0,
        }
    }

    /// The state after a granted OCC lock by `tid`.
    pub open spec fn spec_after_lock(self, tid: u32) -> TVersion {
        TVersion {
            lock_owner_: tid,
            count_: (self.spec_count() + 1) as u32,
            ..self
        }
    }

    /// The state after one OCC unlock.
    pub open spec fn spec_after_unlock(self) -> TVersion {
        TVersion {
            lock_owner_: if self.spec_count() == 1 {
                0
            } else {
                self.spec_lock_owner()
            },
            count_: (self.spec_count() - 1) as u32,
            ..self
        }
    }

    /// OCC write lock: granted when free or already held by the same
    /// Tid (reentrant); each grant raises the count by one.
    pub fn lock(&mut self, tid: Tid) -> (r: bool)
        requires
            tid.spec_value() != 0,
            old(self).wf(),
            old(self).spec_count() < u32::MAX,
        ensures
            r == (old(self).spec_lock_owner() == 0 || old(self).spec_lock_owner()
                == tid.spec_value()),
            r ==> *final(self) == old(self).spec_after_lock(tid.spec_value()),
            !r ==> *final(self) == *old(self),
            final(self).wf(),
    {
        let t: u32 = tid.value();
        if self.lock_owner_ == 0 || self.lock_owner_ == t {
            self.lock_owner_ = t;
            self.count_ = self.count_ + 1;
            true
        } else {
            false
        }
    }

    /// OCC unlock: drops the count by one; the lock is released only
    /// when the count reaches zero. A call without a matching lock is
    /// an invariant violation and is excluded.
    pub fn unlock(&mut self)
        requires
            old(self).wf(),
            old(self).spec_count() > 0,
        ensures
            *final(self) == old(self).spec_after_unlock(),
            final(self).spec_count() == old(self).spec_count() - 1,
            final(self).spec_lock_owner() == (if old(self).spec_count() == 1 {
                0u32
            } else {
                old(self).spec_lock_owner()
            }),
            final(self).spec_last_writer() == old(self).spec_last_writer(),
            final(self).wf(),
    {
        self.count_ = self.count_ - 1;
        if self.count_ == 0 {
            self.lock_owner_ = 0;
        }
    }

    pub fn get_locker(&self) -> (r: u32)
        ensures
            r == self.spec_lock_owner(),
    {
        self.lock_owner_
    }

    pub fn get_count(&self) -> (r: u32)
        ensures
            r == self.spec_count(),
    {
        self.count_
    }

    /// OCC validation: the word is not write-locked by another
    /// transaction and the last writer matches the version the
    /// transaction observed when it read.
    pub fn check_version(&self, cur: u32, tid: u32) -> (r: bool)
        ensures
            r == ((self.spec_lock_owner() == 0 || self.spec_lock_owner() == tid)
                && self.spec_last_writer() == cur),
    {
        (self.lock_owner_ == 0 || self.lock_owner_ == tid) && self.last_writer_ == cur
    }

    pub fn get_version(&self) -> (r: u32)
        ensures
            r == self.spec_last_writer(),
    {
        self.last_writer_
    }

    /// OCC install: stamp the committing transaction as last writer.
    pub fn set_version(&mut self, tid: u32)
        ensures
            final(self).spec_last_writer() == tid,
            final(self).spec_lock_owner() == old(self).spec_lock_owner(),
            final(self).spec_count() == old(self).spec_count(),
            final(self).spec_access_info() == old(self).spec_access_info(),
            final(self).spec_tpl_writer() == old(self).spec_tpl_writer(),
            final(self).spec_tpl_reader() == old(self).spec_tpl_reader(),
            final(self).spec_tpl_reader_cnt() == old(self).spec_tpl_reader_cnt(),
            old(self).wf() ==> final(self).wf(),
    {
        self.last_writer_ = tid;
    }

    /// Handle to the status record of the last writer's transaction.
    pub fn get_access_info(&self) -> (r: usize)
        ensures
            r == self.spec_access_info(),
    {
        self.access_info_
    }

    pub fn set_access_info(&mut self, info: usize)
        ensures
            final(self).spec_access_info() == info,
            final(self).spec_last_writer() == old(self).spec_last_writer(),
            final(self).spec_lock_owner() == old(self).spec_lock_owner(),
            final(self).spec_count() == old(self).spec_count(),
            final(self).spec_tpl_writer() == old(self).spec_tpl_writer(),
            final(self).spec_tpl_reader() == old(self).spec_tpl_reader(),
            final(self).spec_tpl_reader_cnt() == old(self).spec_tpl_reader_cnt(),
            old(self).wf() ==> final(self).wf(),
    {
        self.access_info_ = info;
    }

    /// What one wait-die read-lock attempt by `tid` decides on this
    /// word: granted when no writer holds it or the writer is `tid`
    /// itself; die when the writer is older (smaller Tid); wait when
    /// the writer is younger.
    pub open spec fn spec_read_lock_decision(self, tid: u32) -> TplOutcome {
        if self.spec_tpl_writer() == 0 || self.spec_tpl_writer() == tid {
            TplOutcome::Granted
        } else if self.spec_tpl_writer() < tid {
            TplOutcome::Die
        } else {
            TplOutcome::Wait
        }
    }

    /// What one wait-die write-lock attempt by `tid` decides on this
    /// word. Against a writer: die if the writer is older, wait if
    /// younger. Against readers: granted when there are none, or when
    /// `tid` is the only reader (upgrade); die when the youngest
    /// reader is younger than `tid`; wait otherwise.
    pub open spec fn spec_write_lock_decision(self, tid: u32) -> TplOutcome {
        if self.spec_tpl_writer() != 0 {
            if self.spec_tpl_writer() < tid {
                TplOutcome::Die
            } else {
                TplOutcome::Wait
            }
        } else if self.spec_tpl_reader() == 0 {
            TplOutcome::Granted
        } else if self.spec_tpl_reader() > tid {
            TplOutcome::Die
        } else if self.spec_tpl_reader() == tid {
            if self.spec_tpl_reader_cnt() == 1 {
                TplOutcome::Granted
            } else {
                TplOutcome::Wait
            }
        } else {
            TplOutcome::Wait
        }
    }

    /// One wait-die read-lock attempt. A grant adds the caller to the
    /// reader count and raises the readers-max Tid; die and wait leave
    /// the word unchanged, and the caller aborts or retries.
    pub fn read_lock(&mut self, tid: u32) -> (r: TplOutcome)
        requires
            tid != 0,
            old(self).wf(),
            old(self).spec_tpl_reader_cnt() < u32::MAX,
        ensures
            r == old(self).spec_read_lock_decision(tid),
            r == TplOutcome::Granted ==> {
                &&& final(self).spec_tpl_reader_cnt() == old(self).spec_tpl_reader_cnt() + 1
                &&& final(self).spec_tpl_reader() == (if old(self).spec_tpl_reader() >= tid {
                    old(self).spec_tpl_reader()
                } else {
                    tid
                })
                &&& final(self).spec_tpl_writer() == old(self).spec_tpl_writer()
                &&& final(self).spec_last_writer() == old(self).spec_last_writer()
                &&& final(self).spec_lock_owner() == old(self).spec_lock_owner()
                &&& final(self).spec_count() == old(self).spec_count()
                &&& final(self).spec_access_info() == old(self).spec_access_info()
            },
            r != TplOutcome::Granted ==> *final(self) == *old(self),
            final(self).wf(),
    {
        if self.tpl_writer_ == 0 || self.tpl_writer_ == tid {
            if self.tpl_reader_ < tid {
                self.tpl_reader_ = tid;
            }
            self.tpl_reader_cnt_ = self.tpl_reader_cnt_ + 1;
            TplOutcome::Granted
        } else if self.tpl_writer_ < tid {
            TplOutcome::Die
        } else {
            TplOutcome::Wait
        }
    }

    /// One wait-die write-lock attempt. A grant installs the caller
    /// as writer; die and wait leave the word unchanged. A reentrant
    /// write lock by the same Tid is an invariant violation and is
    /// excluded.
    pub fn write_lock(&mut self, tid: u32) -> (r: TplOutcome)
        requires
            tid != 0,
            old(self).wf(),
            old(self).spec_tpl_writer() != tid,
        ensures
            r == old(self).spec_write_lock_decision(tid),
            r == TplOutcome::Granted ==> {
                &&& final(self).spec_tpl_writer() == tid
                &&& final(self).spec_tpl_reader() == old(self).spec_tpl_reader()
                &&& final(self).spec_tpl_reader_cnt() == old(self).spec_tpl_reader_cnt()
                &&& final(self).spec_last_writer() == old(self).spec_last_writer()
                &&& final(self).spec_lock_owner() == old(self).spec_lock_owner()
                &&& final(self).spec_count() == old(self).spec_count()
                &&& final(self).spec_access_info() == old(self).spec_access_info()
            },
            r != TplOutcome::Granted ==> *final(self) == *old(self),
            final(self).wf(),
    {
        if self.tpl_writer_ != 0 {
            if self.tpl_writer_ < tid {
                TplOutcome::Die
            } else {
                TplOutcome::Wait
            }
        } else if self.tpl_reader_ == 0 {
            self.tpl_writer_ = tid;
            TplOutcome::Granted
        } else if self.tpl_reader_ > tid {
            TplOutcome::Die
        } else if self.tpl_reader_ == tid {
            if self.tpl_reader_cnt_ == 1 {
                self.tpl_writer_ = tid;
                TplOutcome::Granted
            } else {
                TplOutcome::Wait
            }
        } else {
            TplOutcome::Wait
        }
    }

    /// Releases one read lock; the last reader out clears the
    /// readers-max Tid.
    pub fn read_unlock(&mut self, tid: u32)
        requires
            old(self).wf(),
            old(self).spec_tpl_reader_cnt() > 0,
        ensures
            final(self).spec_tpl_reader_cnt() == old(self).spec_tpl_reader_cnt() - 1,
            final(self).spec_tpl_reader() == (if old(self).spec_tpl_reader_cnt() == 1 {
                0u32
            } else {
                old(self).spec_tpl_reader()
            }),
            final(self).spec_tpl_writer() == old(self).spec_tpl_writer(),
            final(self).spec_last_writer() == old(self).spec_last_writer(),
            final(self).spec_lock_owner() == old(self).spec_lock_owner(),
            final(self).spec_count() == old(self).spec_count(),
            final(self).spec_access_info() == old(self).spec_access_info(),
            final(self).wf(),
    {
        self.tpl_reader_cnt_ = self.tpl_reader_cnt_ - 1;
        if self.tpl_reader_cnt_ == 0 {
            self.tpl_reader_ = 0;
        }
    }

    /// Releases the write lock. A release by anyone but the holder is
    /// an invariant violation and is excluded.
    pub fn write_unlock(&mut self, tid: u32)
        requires
            old(self).wf(),
            old(self).spec_tpl_writer() == tid,
        ensures
            final(self).spec_tpl_writer() == 0,
            final(self).spec_tpl_reader() == old(self).spec_tpl_reader(),
            final(self).spec_tpl_reader_cnt() == old(self).spec_tpl_reader_cnt(),
            final(self).spec_last_writer() == old(self).spec_last_writer(),
            final(self).spec_lock_owner() == old(self).spec_lock_owner(),
            final(self).spec_count() == old(self).spec_count(),
            final(self).spec_access_info() == old(self).spec_access_info(),
            final(self).wf(),
    {
        self.tpl_writer_ = 0;
    }
}

impl Default for TVersion {
    fn default() -> (v: TVersion)
        ensures
            v.wf(),
            v.spec_last_writer() == 0,
            v.spec_lock_owner() == 0,
            v.spec_count() == 0,
            v.spec_access_info() == 0,
            v.spec_tpl_writer() == 0,
            v.spec_tpl_reader() == 0,
            v.spec_tpl_reader_cnt() == 0,
    {
        TVersion::new()
    }
}

/// The word after `k` granted OCC locks by `tid`.
pub open spec fn lock_n(v: TVersion, tid: u32, k: nat) -> TVersion
    decreases k,
{
    if k == 0 {
        v
    } else {
        lock_n(v, tid, (k - 1) as nat).spec_after_lock(tid)
    }
}

/// The word after `k` OCC unlocks.
pub open spec fn unlock_n(v: TVersion, k: nat) -> TVersion
    decreases k,
{
    if k == 0 {
        v
    } else {
        unlock_n(v, (k - 1) as nat).spec_after_unlock()
    }
}

proof fn lemma_lock_n_state(v: TVersion, tid: u32, k: nat)
    requires
        v.spec_lock_owner() == 0,
        v.spec_count() == 0,
        k <= u32::MAX,
        1 <= k,
    ensures
        lock_n(v, tid, k).spec_lock_owner() == tid,
        lock_n(v, tid, k).spec_count() == k,
    decreases k,
{
    if k == 1 {
        assert(lock_n(v, tid, 0) == v);
    } else {
        lemma_lock_n_state(v, tid, (k - 1) as nat);
    }
}

proof fn lemma_unlock_n_state(w: TVersion, j: nat)
    requires
        w.spec_count() <= u32::MAX,
        j < w.spec_count(),
    ensures
        unlock_n(w, j).spec_lock_owner() == w.spec_lock_owner(),
        unlock_n(w, j).spec_count() == w.spec_count() - j,
    decreases j,
{
    if j > 0 {
        lemma_unlock_n_state(w, (j - 1) as nat);
    }
}

/// Reentrancy of the OCC lock: starting from an unlocked word, the
/// same Tid may lock `k` times; after any `j <= k - 1` unlocks the
/// lock is still held by that Tid, and the `k`-th unlock releases it.
pub proof fn lemma_occ_lock_reentrant(v: TVersion, tid: u32, k: nat, j: nat)
    requires
        v.spec_lock_owner() == 0,
        v.spec_count() == 0,
        tid != 0,
        1 <= k <= u32::MAX,
        j <= k,
    ensures
        j < k ==> unlock_n(lock_n(v, tid, k), j).spec_lock_owner() == tid,
        j == k ==> unlock_n(lock_n(v, tid, k), j).spec_lock_owner() == 0,
{
    lemma_lock_n_state(v, tid, k);
    let w = lock_n(v, tid, k);
    if j < k {
        if j > 0 {
            lemma_unlock_n_state(w, j);
        }
    } else {
        lemma_unlock_n_state(w, (k - 1) as nat);
    }
}

/// Wait-die against a held write lock: the younger contender always
/// dies and the older contender always waits, for reads and writes
/// alike. So in every conflict on a write-locked word the older
/// transaction wins, and no two transactions can wait on each other.
pub proof fn lemma_wait_die_on_writer(v: TVersion, tid: u32)
    requires
        v.wf(),
        v.spec_tpl_writer() != 0,
        tid != 0,
        tid != v.spec_tpl_writer(),
    ensures
        v.spec_tpl_writer() < tid ==> v.spec_read_lock_decision(tid) == TplOutcome::Die
            && v.spec_write_lock_decision(tid) == TplOutcome::Die,
        v.spec_tpl_writer() > tid ==> v.spec_read_lock_decision(tid) == TplOutcome::Wait
            && v.spec_write_lock_decision(tid) == TplOutcome::Wait,
{
}

/// Wait-die excludes deadlock between two writers: if each of two
/// transactions holds the write lock on one of two words and requests
/// the other, the older waits and the younger dies, so the cycle of
/// waiting is broken and the older wins.
pub proof fn lemma_wait_die_no_deadlock_pair(v1: TVersion, v2: TVersion, older: u32, younger: u32)
    requires
        v1.wf(),
        v2.wf(),
        0 < older < younger,
        v1.spec_tpl_writer() == younger,
        v2.spec_tpl_writer() == older,
    ensures
        v1.spec_write_lock_decision(older) == TplOutcome::Wait,
        v2.spec_write_lock_decision(younger) == TplOutcome::Die,
{
}

} // verus!

use vstd::prelude::*;

verus! {

/// A transactional cell: the live (volatile) copy of one object's
/// value. The commit pipeline swaps a whole new value in at install
/// time.
#[derive(Debug)]
pub struct TValue<T> {
    pub data_: T,
}

impl<T> TValue<T> {
    pub fn new(val: T) -> (v: TValue<T>)
        ensures
            v.data_ == val,
    {
        TValue { data_: val }
    }

    /// Installs a new value.
    pub fn store(&mut self, data: T)
        ensures
            final(self).data_ == data,
    {
        self.data_ = data;
    }

    pub fn load(&self) -> (r: &T)
        ensures
            *r == self.data_,
    {
        &self.data_
    }

    /// The live value by reference: the model's stand-in for the raw
    /// data pointer.
    pub fn get_ptr(&self) -> (r: &T)
        ensures
            *r == self.data_,
    {
        &self.data_
    }
}

/// Indices of the tracked fields a write touches; the persistence
/// step flushes only those extents.
pub type FieldArray = Vec<usize>;

/// One access of one object within a transaction, keyed by
/// (ObjectId, Operation). Holds the version observed at read time,
/// the buffered write if any, an optional field mask, whether the
/// commit pipeline holds the object's lock, and the object's slot in
/// the store.
#[derive(Debug)]
pub struct TTag {
    pub oid_: ObjectId,
    pub op_: Operation,
    pub obj_: usize,
    pub vers_: u32,
    pub has_read_: bool,
    pub has_write_: bool,
    pub is_lock_: bool,
    pub fields_: Option<FieldArray>,
    pub write_val_: Option<Vec<u8>>,
    pub bucket_: Option<(usize, usize)>,
}

impl TTag {
    pub fn new(oid: ObjectId, obj: usize, op: Operation) -> (t: TTag)
        ensures
            t.oid_ == oid,
            t.obj_ == obj,
            t.op_ == op,
            t.vers_ == 0,
            !t.has_read_,
            !t.has_write_,
            !t.is_lock_,
            t.fields_ is None,
            t.write_val_ is None,
            t.bucket_ is None,
    {
        TTag {
            oid_: oid,
            op_: op,
            obj_: obj,
            vers_: 0,
            has_read_: false,
            has_write_: false,
            is_lock_: false,
            fields_: None,
            write_val_: None,
            bucket_: None,
        }
    }

    /// Buffers a write: the bytes stay in the tag until the commit
    /// pipeline installs them.
    pub fn write(&mut self, val: Vec<u8>)
        ensures
            final(self).write_val_ matches Some(v) && v@ == val@,
            final(self).has_write_,
            final(self).has_read_ == old(self).has_read_,
            final(self).oid_ == old(self).oid_,
            final(self).op_ == old(self).op_,
            final(self).obj_ == old(self).obj_,
            final(self).vers_ == old(self).vers_,
            final(self).is_lock_ == old(self).is_lock_,
            final(self).fields_ == old(self).fields_,
            final(self).bucket_ == old(self).bucket_,
    {
        self.write_val_ = Some(val);
        self.has_write_ = true;
    }

    /// Marks the tag written without buffering bytes (used by
    /// transactional insert and delete, whose install is structural).
    pub fn set_write(&mut self)
        ensures
            final(self).has_write_,
            final(self).has_read_ == old(self).has_read_,
            final(self).oid_ == old(self).oid_,
            final(self).op_ == old(self).op_,
            final(self).obj_ == old(self).obj_,
            final(self).vers_ == old(self).vers_,
            final(self).is_lock_ == old(self).is_lock_,
            final(self).fields_ == old(self).fields_,
            final(self).write_val_ == old(self).write_val_,
            final(self).bucket_ == old(self).bucket_,
    {
        self.has_write_ = true;
    }

    pub fn set_fields(&mut self, fields: FieldArray)
        ensures
            final(self).fields_ matches Some(f) && f@ == fields@,
            final(self).has_read_ == old(self).has_read_,
            final(self).oid_ == old(self).oid_,
            final(self).op_ == old(self).op_,
            final(self).obj_ == old(self).obj_,
            final(self).vers_ == old(self).vers_,
            final(self).is_lock_ == old(self).is_lock_,
            final(self).has_write_ == old(self).has_write_,
            final(self).write_val_ == old(self).write_val_,
            final(self).bucket_ == old(self).bucket_,
    {
        self.fields_ = Some(fields);
    }

    /// Records the version observed when the transaction read the
    /// object, and marks the tag as read; validation later compares
    /// against the version.
    pub fn add_version(&mut self, vers: u32)
        ensures
            final(self).vers_ == vers,
            final(self).has_read_,
            final(self).oid_ == old(self).oid_,
            final(self).op_ == old(self).op_,
            final(self).obj_ == old(self).obj_,
            final(self).is_lock_ == old(self).is_lock_,
            final(self).has_write_ == old(self).has_write_,
            final(self).fields_ == old(self).fields_,
            final(self).write_val_ == old(self).write_val_,
            final(self).bucket_ == old(self).bucket_,
    {
        self.vers_ = vers;
        self.has_read_ = true;
    }

    pub fn has_write(&self) -> (b: bool)
        ensures
            b == self.has_write_,
    {
        self.has_write_
    }

    /// Whether the tag observed a read: exactly those are validated
    /// at commit, whether or not they also buffered a write.
    pub fn has_read(&self) -> (b: bool)
        ensures
            b == self.has_read_,
    {
        self.has_read_
    }

    /// Records which table bucket a Push or Delete tag installs
    /// into at commit.
    pub fn set_bucket(&mut self, table_idx: usize, bucket_idx: usize)
        ensures
            final(self).bucket_ matches Some(tb) && tb.0 == table_idx && tb.1 == bucket_idx,
            final(self).has_read_ == old(self).has_read_,
            final(self).oid_ == old(self).oid_,
            final(self).op_ == old(self).op_,
            final(self).obj_ == old(self).obj_,
            final(self).vers_ == old(self).vers_,
            final(self).is_lock_ == old(self).is_lock_,
            final(self).has_write_ == old(self).has_write_,
            final(self).fields_ == old(self).fields_,
            final(self).write_val_ == old(self).write_val_,
    {
        self.bucket_ = Some((table_idx, bucket_idx));
    }

    pub fn is_lock(&self) -> (b: bool)
        ensures
            b == self.is_lock_,
    {
        self.is_lock_
    }
}

} // verus!
