//! Transaction identifiers, their per-thread factory, and the shared
//! per-transaction status record.

use vstd::prelude::*;

verus! {

/// Transaction identifier: an 8-bit thread mask in the high bits and a
/// 24-bit per-thread counter in the low bits. The value 0 is reserved
/// to mean "no owner"; a factory never issues it. Tids are totally
/// ordered; the wait-die policy treats a smaller Tid as older.
#[derive(PartialEq, Eq, Structural, Clone, Copy, Hash, Debug)]
pub struct Tid(u32);

impl Tid {
    /// The identifier as a plain integer.
    pub closed spec fn spec_value(self) -> u32 {
        self.0
    }

    pub fn new(id: u32) -> (t: Tid)
        ensures
            t.spec_value() == id,
    {
        Tid(id)
    }

    pub fn value(self) -> (v: u32)
        ensures
            v == self.spec_value(),
    {
        self.0
    }

    /// Draws the next identifier from the calling thread's factory.
    pub fn get_thread_tid(fac: &mut TidFac) -> (t: Tid)
        requires
            old(fac).wf(),
            old(fac).spec_next() < 0x0100_0000,
        ensures
            final(fac).wf(),
            t.spec_value() == tid_value(old(fac).spec_mask(), old(fac).spec_next()),
            t.spec_value() != 0,
            final(fac).spec_next() == old(fac).spec_next() + 1,
            final(fac).spec_mask() == old(fac).spec_mask(),
    {
        fac.get_next()
    }
}

impl Default for Tid {
    /// The reserved "no owner" identifier.
    fn default() -> (t: Tid)
        ensures
            t.spec_value() == 0,
    {
        Tid(0)
    }
}

/// The identifier a factory with thread mask `mask` builds from the
/// counter value `next`.
pub closed spec fn tid_value(mask: u32, next: u32) -> u32 {
    next | (mask << 24)
}

/// Per-thread factory of transaction identifiers: a fixed thread mask
/// and a counter that starts at 1 and only grows.
pub struct TidFac {
    mask_: u32,
    next_id_: u32,
}

impl TidFac {
    pub closed spec fn spec_mask(self) -> u32 {
        self.mask_
    }

    pub closed spec fn spec_next(self) -> u32 {
        self.next_id_
    }

    /// The mask fits in 8 bits and the counter has left 0 behind, so
    /// every issued identifier is nonzero.
    pub closed spec fn wf(self) -> bool {
        1 <= self.next_id_ && self.mask_ < 0x100
    }

    pub fn new() -> (fac: TidFac)
        ensures
            fac.wf(),
            fac.spec_mask() == 0,
            fac.spec_next() == 1,
    {
        TidFac { mask_: 0, next_id_: 1 }
    }

    pub fn set_mask(&mut self, mask: u32)
        requires
            mask < 0x100,
        ensures
            final(self).spec_mask() == mask,
            final(self).spec_next() == old(self).spec_next(),
            old(self).wf() ==> final(self).wf(),
    {
        self.mask_ = mask;
    }

    /// The calling thread's factory takes its mask.
    pub fn set_thd_mask(&mut self, mask: u32)
        requires
            mask < 0x100,
        ensures
            final(self).spec_mask() == mask,
            final(self).spec_next() == old(self).spec_next(),
            old(self).wf() ==> final(self).wf(),
    {
        self.set_mask(mask);
    }

    pub fn get_next(&mut self) -> (t: Tid)
        requires
            old(self).wf(),
            old(self).spec_next() < 0x0100_0000,
        ensures
            final(self).wf(),
            t.spec_value() == tid_value(old(self).spec_mask(), old(self).spec_next()),
            t.spec_value() != 0,
            final(self).spec_next() == old(self).spec_next() + 1,
            final(self).spec_mask() == old(self).spec_mask(),
    {
        let ret: u32 = self.next_id_ | (self.mask_ << 24);
        proof {
            lemma_tid_value_nonzero(self.mask_, self.next_id_);
        }
        self.next_id_ = self.next_id_ + 1;
        Tid::new(ret)
    }

    /// Draws the next identifier from the calling thread's factory.
    pub fn get_thd_next(&mut self) -> (t: Tid)
        requires
            old(self).wf(),
            old(self).spec_next() < 0x0100_0000,
        ensures
            final(self).wf(),
            t.spec_value() == tid_value(old(self).spec_mask(), old(self).spec_next()),
            t.spec_value() != 0,
            final(self).spec_next() == old(self).spec_next() + 1,
            final(self).spec_mask() == old(self).spec_mask(),
    {
        self.get_next()
    }
}

/// A nonzero counter below 2^24 always yields a nonzero identifier,
/// whatever the mask.
proof fn lemma_tid_value_nonzero(mask: u32, next: u32)
    requires
        1 <= next,
    ensures
        tid_value(mask, next) != 0,
{
    assert((next | (mask << 24)) != 0) by (bit_vector)
        requires
            1 <= next,
    ;
}

/// Identifiers issued by one factory never repeat: the counter occupies
/// the low 24 bits only.
pub proof fn lemma_tid_distinct_same_thread(mask: u32, n1: u32, n2: u32)
    requires
        n1 < 0x0100_0000,
        n2 < 0x0100_0000,
        n1 != n2,
    ensures
        tid_value(mask, n1) != tid_value(mask, n2),
{
    assert((n1 | (mask << 24)) != (n2 | (mask << 24))) by (bit_vector)
        requires
            n1 < 0x0100_0000,
            n2 < 0x0100_0000,
            n1 != n2,
    ;
}

/// Identifiers issued by factories with distinct 8-bit masks never
/// collide: the masks occupy the high 8 bits only.
pub proof fn lemma_tid_distinct_threads(m1: u32, n1: u32, m2: u32, n2: u32)
    requires
        m1 < 0x100,
        m2 < 0x100,
        m1 != m2,
        n1 < 0x0100_0000,
        n2 < 0x0100_0000,
    ensures
        tid_value(m1, n1) != tid_value(m2, n2),
{
    assert((n1 | (m1 << 24)) != (n2 | (m2 << 24))) by (bit_vector)
        requires
            m1 < 0x100,
            m2 < 0x100,
            m1 != m2,
            n1 < 0x0100_0000,
            n2 < 0x0100_0000,
    ;
}

/// Lifecycle of a transaction.
#[derive(Debug, PartialEq, Eq, Structural, Clone, Copy)]
pub enum TxState {
    COMMITTED,
    EMBRYO,
    ACTIVE,
    ABORTED,
    PERSIST,
}

impl Default for TxState {
    fn default() -> (s: TxState)
        ensures
            s == TxState::EMBRYO,
    {
        TxState::EMBRYO
    }
}

/// Why a transaction gave up. `FailedLocking` covers a commit-time lock
/// that could not be taken and a wait-die decision to die; `IndexErr`
/// is an application-signalled abort.
#[derive(Debug, PartialEq, Eq, Structural, Clone, Copy)]
pub enum AbortReason {
    Error,
    User,
    FailedLocking,
    IndexErr,
}

impl AbortReason {
    /// A short name for counters and messages.
    pub fn as_str(&self) -> (s: &'static str)
    {
        match self {
            AbortReason::Error => "Error",
            AbortReason::User => "User",
            AbortReason::FailedLocking => "FailedLocking",
            AbortReason::IndexErr => "IndexErr",
        }
    }
}

/// Coarse status used by observers of a transaction.
#[derive(Debug, PartialEq, Eq, Structural, Clone, Copy)]
pub enum TxnStatus {
    Active,
    Committed,
    Aborted,
}

/// Shared status record of one transaction: its Tid, whether it has
/// committed, whether its commit marker is durable, the rank of the
/// piece it is executing (pipelined mode), and a lock flag. Records
/// touched by the transaction keep a handle to this record so that
/// later readers can detect an uncommitted dependency.
#[derive(Debug, Clone, Copy)]
pub struct TxnInfo {
    tid_: Tid,
    locked_: bool,
    committed_: bool,
    rank_: usize,
    persist_: bool,
}

impl TxnInfo {
    pub closed spec fn spec_tid(self) -> Tid {
        self.tid_
    }

    pub closed spec fn spec_locked(self) -> bool {
        self.locked_
    }

    pub closed spec fn spec_committed(self) -> bool {
        self.committed_
    }

    pub closed spec fn spec_rank(self) -> usize {
        self.rank_
    }

    pub closed spec fn spec_persist(self) -> bool {
        self.persist_
    }

    pub fn new(tid: Tid) -> (info: TxnInfo)
        ensures
            info.spec_tid() == tid,
            !info.spec_committed(),
            !info.spec_persist(),
            !info.spec_locked(),
            info.spec_rank() == 0,
    {
        TxnInfo { tid_: tid, committed_: false, rank_: 0, locked_: false, persist_: false }
    }

    pub fn has_persist(&self) -> (b: bool)
        ensures
            b == self.spec_persist(),
    {
        self.persist_
    }

    pub fn has_commit(&self) -> (b: bool)
        ensures
            b == self.spec_committed(),
    {
        self.committed_
    }

    /// Whether this transaction has moved past the piece of rank
    /// `rank`: a successor about to run that rank may then start.
    pub fn has_started(&self, rank: usize) -> (b: bool)
        ensures
            b == (self.spec_rank() > rank),
    {
        self.rank_ > rank
    }

    /// Whether the piece of rank `rank` has finished: the current rank
    /// has moved at least two past it.
    pub fn has_finished(&self, rank: usize) -> (b: bool)
        requires
            rank < usize::MAX,
        ensures
            b == (self.spec_rank() > rank + 1),
    {
        self.rank_ > rank + 1
    }

    pub fn has_lock(&self) -> (b: bool)
        ensures
            b == self.spec_locked(),
    {
        self.locked_
    }

    pub fn lock(&mut self)
        ensures
            final(self).spec_tid() == old(self).spec_tid(),
            final(self).spec_locked() == true,
            final(self).spec_committed() == old(self).spec_committed(),
            final(self).spec_rank() == old(self).spec_rank(),
            final(self).spec_persist() == old(self).spec_persist(),
    {
        self.locked_ = true;
    }

    pub fn unlock(&mut self)
        ensures
            final(self).spec_tid() == old(self).spec_tid(),
            final(self).spec_locked() == false,
            final(self).spec_committed() == old(self).spec_committed(),
            final(self).spec_rank() == old(self).spec_rank(),
            final(self).spec_persist() == old(self).spec_persist(),
    {
        self.locked_ = false;
    }

    pub fn commit(&mut self)
        ensures
            final(self).spec_tid() == old(self).spec_tid(),
            final(self).spec_locked() == old(self).spec_locked(),
            final(self).spec_committed() == true,
            final(self).spec_rank() == old(self).spec_rank(),
            final(self).spec_persist() == old(self).spec_persist(),
    {
        self.committed_ = true;
    }

    pub fn persist(&mut self)
        ensures
            final(self).spec_tid() == old(self).spec_tid(),
            final(self).spec_locked() == old(self).spec_locked(),
            final(self).spec_committed() == old(self).spec_committed(),
            final(self).spec_rank() == old(self).spec_rank(),
            final(self).spec_persist() == true,
    {
        self.persist_ = true;
    }

    /// Advances to the piece of rank `rank`.
    pub fn start(&mut self, rank: usize)
        ensures
            final(self).spec_tid() == old(self).spec_tid(),
            final(self).spec_locked() == old(self).spec_locked(),
            final(self).spec_committed() == old(self).spec_committed(),
            final(self).spec_rank() == rank,
            final(self).spec_persist() == old(self).spec_persist(),
    {
        self.rank_ = rank;
    }

    pub fn id(&self) -> (t: &Tid)
        ensures
            *t == self.spec_tid(),
    {
        &self.tid_
    }

    pub fn rank(&self) -> (r: usize)
        ensures
            r == self.spec_rank(),
    {
        self.rank_
    }
}

impl Default for TxnInfo {
    /// The status record attached to records no transaction has
    /// written yet: owned by the reserved Tid 0, already committed and
    /// durable, so nobody ever waits on it.
    fn default() -> (info: TxnInfo)
        ensures
            info.spec_tid().spec_value() == 0,
            info.spec_committed(),
            info.spec_persist(),
            !info.spec_locked(),
            info.spec_rank() == 0,
    {
        TxnInfo {
            tid_: Tid::new(0),
            locked_: false,
            committed_: true,
            rank_: 0,
            persist_: true,
        }
    }
}

} // verus!

verus! {

/// Default capacity of one mapped persistent chunk.
pub const PMEM_DEFAULT_CAP: usize = 0x4000_0000;

/// Per-thread allocator over the persistent region: append-only bump
/// allocation inside the current chunk; on exhaustion a fresh chunk
/// of the current capacity is mapped and the capacity doubles. A
/// grant is (chunk, offset) — the address arithmetic of the mapping
/// itself stays with the embedding program.
#[derive(Debug)]
pub struct PmemFac {
    pub pmem_cap_: usize,
    pub pmem_len_: usize,
    pub pmem_root_idx_: usize,
    pub mapped_chunks_: usize,
}

impl PmemFac {
    pub fn new() -> (fac: PmemFac)
        ensures
            fac.pmem_cap_ == PMEM_DEFAULT_CAP,
            fac.pmem_len_ == 0,
            fac.pmem_root_idx_ == 0,
            fac.mapped_chunks_ == 0,
    {
        PmemFac { pmem_cap_: PMEM_DEFAULT_CAP, pmem_len_: 0, pmem_root_idx_: 0, mapped_chunks_: 0 }
    }

    /// Maps the first chunk; allocation may then begin.
    pub fn init(&mut self)
        requires
            old(self).mapped_chunks_ == 0,
        ensures
            final(self).mapped_chunks_ == 1,
            final(self).pmem_cap_ == old(self).pmem_cap_,
            final(self).pmem_len_ == old(self).pmem_len_,
            final(self).pmem_root_idx_ == old(self).pmem_root_idx_,
    {
        self.init_inner();
    }

    fn init_inner(&mut self)
        requires
            old(self).mapped_chunks_ == 0,
        ensures
            final(self).mapped_chunks_ == 1,
            final(self).pmem_cap_ == old(self).pmem_cap_,
            final(self).pmem_len_ == old(self).pmem_len_,
            final(self).pmem_root_idx_ == old(self).pmem_root_idx_,
    {
        self.mapped_chunks_ = 1;
    }

    /// Bump-allocates `size` bytes: returns the chunk and the offset
    /// inside it. On exhaustion the next chunk is mapped and the
    /// capacity doubles; the grant then comes from the new chunk.
    pub fn allocate(&mut self, size: usize) -> (grant: (usize, usize))
        requires
            old(self).mapped_chunks_ >= 1,
            old(self).pmem_cap_ > 0,
            old(self).pmem_len_ <= old(self).pmem_cap_,
            size < old(self).pmem_cap_,
            old(self).pmem_cap_ * 2 <= usize::MAX,
            old(self).pmem_root_idx_ < usize::MAX,
            old(self).mapped_chunks_ < usize::MAX,
        ensures
            ({
                let grew = old(self).pmem_len_ + size >= old(self).pmem_cap_;
                if grew {
                    &&& final(self).pmem_cap_ == old(self).pmem_cap_ * 2
                    &&& final(self).pmem_root_idx_ == old(self).pmem_root_idx_ + 1
                    &&& final(self).mapped_chunks_ == old(self).mapped_chunks_ + 1
                    &&& grant.0 == final(self).pmem_root_idx_
                    &&& grant.1 == 0
                    &&& final(self).pmem_len_ == size
                } else {
                    &&& final(self).pmem_cap_ == old(self).pmem_cap_
                    &&& final(self).pmem_root_idx_ == old(self).pmem_root_idx_
                    &&& final(self).mapped_chunks_ == old(self).mapped_chunks_
                    &&& grant.0 == old(self).pmem_root_idx_
                    &&& grant.1 == old(self).pmem_len_
                    &&& final(self).pmem_len_ == old(self).pmem_len_ + size
                }
            }),
            final(self).pmem_len_ <= final(self).pmem_cap_,
    {
        if self.pmem_len_ + size >= self.pmem_cap_ {
            self.pmem_cap_ = self.pmem_cap_ * 2;
            self.pmem_root_idx_ = self.pmem_root_idx_ + 1;
            self.mapped_chunks_ = self.mapped_chunks_ + 1;
            self.pmem_len_ = 0;
        }
        let chunk: usize = self.pmem_root_idx_;
        let offset: usize = self.pmem_len_;
        self.pmem_len_ = self.pmem_len_ + size;
        (chunk, offset)
    }
}

} // verus!
