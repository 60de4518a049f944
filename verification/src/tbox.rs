//! The object store and the transactional box.
//!
//! Every record the engine manages lives in one append-only store:
//! a volatile byte image, its mirror in the persistent region, a
//! field-offset table and a version word. A `TBox` is the simplest
//! record: a single 32-bit value boxed for transactional access.

use vstd::prelude::*;

verus! {

use crate::plog::{u32_from_le, u32_le_bytes};
use crate::tcore::{ObjectId, OidFac, TValue, TVersion};

/// One object: its identity, primary key, volatile byte image, the
/// mirror of that image in the persistent region, the field-offset
/// table (offsets`[i]`..offsets`[i+1]` is field `i`), and the version
/// word guarding it.
#[derive(Debug)]
pub struct TObj {
    pub id_: ObjectId,
    pub key_: u64,
    pub data_: TValue<Vec<u8>>,
    pub pmem_: Vec<u8>,
    pub fields_offset_: Vec<usize>,
    pub vers_: TVersion,
}

impl TObj {
    /// The volatile byte image.
    pub open spec fn bytes(self) -> Seq<u8> {
        self.data_.data_@
    }

    /// The offset table is nondecreasing and stays within the image,
    /// and the version word is consistent.
    pub open spec fn wf(self) -> bool {
        &&& forall|a: int, b: int|
            0 <= a <= b < self.fields_offset_@.len() ==> #[trigger] self.fields_offset_@[a]
                <= #[trigger] self.fields_offset_@[b]
        &&& self.fields_offset_@.len() > 0 ==> self.fields_offset_@[self.fields_offset_@.len()
            - 1] <= self.bytes().len()
        &&& self.vers_.wf()
    }
}

/// The append-only pool of every object in the run. Slots are never
/// reused; a slot number is an object's address for the library.
#[derive(Debug)]
pub struct ObjStore {
    pub objs: Vec<TObj>,
}

impl ObjStore {
    pub open spec fn wf(self) -> bool {
        forall|i: int| 0 <= i < self.objs@.len() ==> (#[trigger] self.objs@[i]).wf()
    }

    /// The volatile image of the object in slot `i`.
    pub open spec fn obj_bytes(self, i: int) -> Seq<u8> {
        self.objs@[i].bytes()
    }

    /// The persistent mirror of the object in slot `i`.
    pub open spec fn obj_pmem(self, i: int) -> Seq<u8> {
        self.objs@[i].pmem_@
    }

    /// The version word of the object in slot `i`.
    pub open spec fn obj_vers(self, i: int) -> TVersion {
        self.objs@[i].vers_
    }

    pub fn new() -> (s: ObjStore)
        ensures
            s.wf(),
            s.objs@.len() == 0,
    {
        ObjStore { objs: Vec::new() }
    }

    pub fn len(&self) -> (n: usize)
        ensures
            n == self.objs@.len(),
    {
        self.objs.len()
    }

    /// Appends a fresh object: its mirror starts as a copy of its
    /// image, its version word all clear. Returns the new slot.
    pub fn alloc_obj(
        &mut self,
        id: ObjectId,
        key: u64,
        bytes: Vec<u8>,
        offsets: Vec<usize>,
    ) -> (slot: usize)
        requires
            old(self).wf(),
            forall|a: int, b: int|
                0 <= a <= b < offsets@.len() ==> #[trigger] offsets@[a] <= #[trigger] offsets@[b],
            offsets@.len() > 0 ==> offsets@[offsets@.len() - 1] <= bytes@.len(),
        ensures
            final(self).wf(),
            slot == old(self).objs@.len(),
            final(self).objs@.len() == old(self).objs@.len() + 1,
            forall|i: int|
                0 <= i < old(self).objs@.len() ==> final(self).objs@[i] == old(self).objs@[i],
            final(self).obj_bytes(slot as int) == bytes@,
            final(self).obj_pmem(slot as int) == bytes@,
            final(self).objs@[slot as int].id_ == id,
            final(self).objs@[slot as int].key_ == key,
            final(self).objs@[slot as int].fields_offset_@ == offsets@,
            final(self).obj_vers(slot as int) == TVersion::spec_clear(),
    {
        let slot: usize = self.objs.len();
        let mirror: Vec<u8> = crate::plog::copy_range(&bytes, 0, bytes.len());
        proof {
            assert(mirror@ =~= bytes@);
        }
        let obj = TObj {
            id_: id,
            key_: key,
            data_: TValue::new(bytes),
            pmem_: mirror,
            fields_offset_: offsets,
            vers_: TVersion::new(),
        };
        self.objs.push(obj);
        slot
    }

    /// A fresh copy of the volatile image of the object in `slot`.
    pub fn read_bytes(&self, slot: usize) -> (r: Vec<u8>)
        requires
            slot < self.objs@.len(),
        ensures
            r@ == self.obj_bytes(slot as int),
    {
        let data: &Vec<u8> = self.objs[slot].data_.load();
        crate::plog::copy_range(data, 0, data.len())
    }

    /// The current version (last writer) of the object in `slot`.
    pub fn get_version(&self, slot: usize) -> (v: u32)
        requires
            slot < self.objs@.len(),
        ensures
            v == self.obj_vers(slot as int).spec_last_writer(),
    {
        self.objs[slot].vers_.get_version()
    }

    /// The identity of the object in `slot`.
    pub fn get_id(&self, slot: usize) -> (id: ObjectId)
        requires
            slot < self.objs@.len(),
        ensures
            id == self.objs@[slot as int].id_,
    {
        self.objs[slot].id_
    }

    /// The primary key of the object in `slot`.
    pub fn get_key(&self, slot: usize) -> (k: u64)
        requires
            slot < self.objs@.len(),
        ensures
            k == self.objs@[slot as int].key_,
    {
        self.objs[slot].key_
    }
}

/// The four little-endian bytes of a 32-bit value, as a vector.
pub fn u32_to_vec(v: u32) -> (r: Vec<u8>)
    ensures
        r@ == u32_le_bytes(v),
{
    let mut out: Vec<u8> = Vec::new();
    out.push((v & 0xff) as u8);
    out.push(((v >> 8) & 0xff) as u8);
    out.push(((v >> 16) & 0xff) as u8);
    out.push(((v >> 24) & 0xff) as u8);
    proof {
        assert(out@ =~= u32_le_bytes(v));
    }
    out
}

/// The 32-bit value a four-byte little-endian image holds.
pub fn u32_from_vec(b: &Vec<u8>) -> (r: u32)
    requires
        b@.len() == 4,
    ensures
        r == u32_from_le(b@[0], b@[1], b@[2], b@[3]),
{
    (b[0] as u32) | ((b[1] as u32) << 8) | ((b[2] as u32) << 16) | ((b[3] as u32) << 24)
}

/// A transactional box: one 32-bit value held as a four-byte record
/// in the object store, read and written through transactions.
#[derive(Debug, Clone, Copy)]
pub struct TBox {
    pub slot_: usize,
    pub id_: ObjectId,
}

impl TBox {
    /// Boxes `val` as a fresh object.
    pub fn new(store: &mut ObjStore, fac: &mut OidFac, val: u32) -> (b: TBox)
        requires
            old(store).wf(),
            old(fac).wf(),
            old(fac).spec_next() < 0x0010_0000_0000_0000,
        ensures
            final(store).wf(),
            final(fac).wf(),
            b.slot_ == old(store).objs@.len(),
            final(store).objs@.len() == old(store).objs@.len() + 1,
            forall|i: int|
                0 <= i < old(store).objs@.len() ==> final(store).objs@[i] == old(store).objs@[i],
            final(store).obj_bytes(b.slot_ as int) == u32_le_bytes(val),
            final(store).objs@[b.slot_ as int].id_ == b.id_,
            final(store).obj_vers(b.slot_ as int) == TVersion::spec_clear(),
            final(fac).spec_next() == old(fac).spec_next() + 1,
    {
        let id: ObjectId = fac.get_next();
        let bytes: Vec<u8> = u32_to_vec(val);
        let offsets: Vec<usize> = Vec::new();
        let slot: usize = store.alloc_obj(id, 0, bytes, offsets);
        TBox { slot_: slot, id_: id }
    }

    pub fn get_id(&self) -> (id: ObjectId)
        ensures
            id == self.id_,
    {
        self.id_
    }

    /// Overwrites the boxed value outside any transaction; the
    /// version word is left alone.
    pub fn raw_write(&self, store: &mut ObjStore, val: u32)
        requires
            old(store).wf(),
            self.slot_ < old(store).objs@.len(),
            old(store).objs@[self.slot_ as int].fields_offset_@.len() == 0,
        ensures
            final(store).wf(),
            final(store).objs@.len() == old(store).objs@.len(),
            forall|i: int|
                0 <= i < old(store).objs@.len() && i != self.slot_ ==> final(store).objs@[i]
                    == old(store).objs@[i],
            final(store).obj_bytes(self.slot_ as int) == u32_le_bytes(val),
            final(store).obj_vers(self.slot_ as int) == old(store).obj_vers(self.slot_ as int),
            final(store).obj_pmem(self.slot_ as int) == old(store).obj_pmem(self.slot_ as int),
    {
        let bytes: Vec<u8> = u32_to_vec(val);
        let o: &mut TObj = &mut store.objs[self.slot_];
        o.data_.store(bytes);
    }

    /// Reads the boxed value outside any transaction.
    pub fn raw_read(&self, store: &ObjStore) -> (v: u32)
        requires
            self.slot_ < store.objs@.len(),
            store.obj_bytes(self.slot_ as int).len() == 4,
        ensures
            v == u32_from_le(
                store.obj_bytes(self.slot_ as int)[0],
                store.obj_bytes(self.slot_ as int)[1],
                store.obj_bytes(self.slot_ as int)[2],
                store.obj_bytes(self.slot_ as int)[3],
            ),
    {
        let bytes: Vec<u8> = store.read_bytes(self.slot_);
        u32_from_vec(&bytes)
    }
}

} // verus!

verus! {

use crate::txn::Tid;

impl ObjStore {
    /// OCC install into one slot: the buffered bytes become the live
    /// image and the committing transaction becomes last writer.
    pub fn obj_install(&mut self, slot: usize, bytes: Vec<u8>, tid: u32)
        requires
            old(self).wf(),
            slot < old(self).objs@.len(),
            old(self).objs@[slot as int].fields_offset_@.len() > 0 ==> old(self).objs@[
                slot as int].fields_offset_@[old(self).objs@[slot as int].fields_offset_@.len()
                - 1] <= bytes@.len(),
        ensures
            final(self).wf(),
            final(self).objs@.len() == old(self).objs@.len(),
            forall|i: int|
                0 <= i < old(self).objs@.len() && i != slot ==> final(self).objs@[i] == old(
                    self,
                ).objs@[i],
            final(self).obj_bytes(slot as int) == bytes@,
            (final(self).objs@[slot as int] == TObj {
                data_: TValue { data_: bytes },
                vers_: TVersion { last_writer_: tid, ..old(self).obj_vers(slot as int) },
                ..old(self).objs@[slot as int]
            }),
    {
        let o: &mut TObj = &mut self.objs[slot];
        o.data_.store(bytes);
        o.vers_.set_version(tid);
    }

    /// Whole-record flush: the persistent mirror becomes a copy of
    /// the live image.
    pub fn obj_flush_whole(&mut self, slot: usize)
        requires
            old(self).wf(),
            slot < old(self).objs@.len(),
        ensures
            final(self).wf(),
            final(self).objs@.len() == old(self).objs@.len(),
            forall|i: int|
                0 <= i < old(self).objs@.len() && i != slot ==> final(self).objs@[i] == old(
                    self,
                ).objs@[i],
            final(self).obj_pmem(slot as int) == old(self).obj_bytes(slot as int),
            (final(self).objs@[slot as int] == TObj {
                pmem_: final(self).objs@[slot as int].pmem_,
                ..old(self).objs@[slot as int]
            }),
    {
        let o: &mut TObj = &mut self.objs[slot];
        let data: &Vec<u8> = o.data_.load();
        let copy: Vec<u8> = crate::plog::copy_range(data, 0, data.len());
        proof {
            assert(copy@ =~= old(self).obj_bytes(slot as int));
        }
        o.pmem_ = copy;
    }

    /// Field-granular flush: only the bytes of field `f` (the extent
    /// from offset `f` to offset `f + 1`) are copied from the live
    /// image to the persistent mirror.
    #[verifier::loop_isolation(false)]
    pub fn obj_flush_field(&mut self, slot: usize, f: usize)
        requires
            old(self).wf(),
            slot < old(self).objs@.len(),
            f + 1 < old(self).objs@[slot as int].fields_offset_@.len(),
            old(self).obj_pmem(slot as int).len() == old(self).obj_bytes(slot as int).len(),
        ensures
            final(self).wf(),
            final(self).objs@.len() == old(self).objs@.len(),
            forall|i: int|
                0 <= i < old(self).objs@.len() && i != slot ==> final(self).objs@[i] == old(
                    self,
                ).objs@[i],
            final(self).obj_pmem(slot as int).len() == old(self).obj_pmem(slot as int).len(),
            forall|p: int|
                0 <= p < old(self).obj_pmem(slot as int).len() ==> final(self).obj_pmem(
                    slot as int,
                )[p] == (if old(self).objs@[slot as int].fields_offset_@[f as int] <= p < old(
                    self,
                ).objs@[slot as int].fields_offset_@[f + 1] {
                    old(self).obj_bytes(slot as int)[p]
                } else {
                    old(self).obj_pmem(slot as int)[p]
                }),
            (final(self).objs@[slot as int] == TObj {
                pmem_: final(self).objs@[slot as int].pmem_,
                ..old(self).objs@[slot as int]
            }),
    {
        let o: &mut TObj = &mut self.objs[slot];
        let _m: usize = o.fields_offset_.len();
        let lo: usize = o.fields_offset_[f];
        let hi: usize = o.fields_offset_[f + 1];
        proof {
            assert(o.fields_offset_@[f + 1] <= o.fields_offset_@[o.fields_offset_@.len() - 1]);
        }
        let mut p: usize = lo;
        while p < hi
            invariant
                lo <= p <= hi,
                o.pmem_@.len() == old(self).obj_pmem(slot as int).len(),
                o.data_ == old(self).objs@[slot as int].data_,
                o.id_ == old(self).objs@[slot as int].id_,
                o.key_ == old(self).objs@[slot as int].key_,
                o.fields_offset_ == old(self).objs@[slot as int].fields_offset_,
                o.vers_ == old(self).objs@[slot as int].vers_,
                forall|q: int|
                    0 <= q < o.pmem_@.len() ==> o.pmem_@[q] == (if lo <= q < p {
                        old(self).obj_bytes(slot as int)[q]
                    } else {
                        old(self).obj_pmem(slot as int)[q]
                    }),
            decreases hi - p,
        {
            let byte: u8 = o.data_.data_[p];
            o.pmem_.set(p, byte);
            p = p + 1;
        }
    }

    /// OCC lock on one slot's version word.
    pub fn obj_lock(&mut self, slot: usize, tid: Tid) -> (r: bool)
        requires
            old(self).wf(),
            slot < old(self).objs@.len(),
            tid.spec_value() != 0,
            old(self).obj_vers(slot as int).spec_count() < u32::MAX,
        ensures
            final(self).wf(),
            final(self).objs@.len() == old(self).objs@.len(),
            forall|i: int|
                0 <= i < old(self).objs@.len() && i != slot ==> final(self).objs@[i] == old(
                    self,
                ).objs@[i],
            r == (old(self).obj_vers(slot as int).spec_lock_owner() == 0 || old(self).obj_vers(
                slot as int,
            ).spec_lock_owner() == tid.spec_value()),
            r ==> (final(self).objs@[slot as int] == TObj {
                vers_: old(self).obj_vers(slot as int).spec_after_lock(tid.spec_value()),
                ..old(self).objs@[slot as int]
            }),
            !r ==> final(self).objs@[slot as int] == old(self).objs@[slot as int],
    {
        let o: &mut TObj = &mut self.objs[slot];
        o.vers_.lock(tid)
    }

    /// OCC unlock on one slot's version word.
    pub fn obj_unlock(&mut self, slot: usize)
        requires
            old(self).wf(),
            slot < old(self).objs@.len(),
            old(self).obj_vers(slot as int).spec_count() > 0,
        ensures
            final(self).wf(),
            final(self).objs@.len() == old(self).objs@.len(),
            forall|i: int|
                0 <= i < old(self).objs@.len() && i != slot ==> final(self).objs@[i] == old(
                    self,
                ).objs@[i],
            (final(self).objs@[slot as int] == TObj {
                vers_: old(self).obj_vers(slot as int).spec_after_unlock(),
                ..old(self).objs@[slot as int]
            }),
    {
        let o: &mut TObj = &mut self.objs[slot];
        o.vers_.unlock();
    }

    /// OCC validation on one slot's version word.
    pub fn obj_check(&self, slot: usize, cur: u32, tid: u32) -> (r: bool)
        requires
            slot < self.objs@.len(),
        ensures
            r == ((self.obj_vers(slot as int).spec_lock_owner() == 0 || self.obj_vers(
                slot as int,
            ).spec_lock_owner() == tid) && self.obj_vers(slot as int).spec_last_writer() == cur),
    {
        self.objs[slot].vers_.check_version(cur, tid)
    }
}

} // verus!

verus! {

use crate::tcore::FieldArray;

/// Whether `p` lies in the extent of one of the first `m` fields of
/// the mask.
pub open spec fn in_mask_extents_upto(offs: Seq<usize>, fs: Seq<usize>, m: int, p: int) -> bool {
    exists|k: int|
        0 <= k < m && k < fs.len() && offs[(#[trigger] fs[k]) as int] <= p < offs[fs[k] + 1]
}

/// Whether `p` lies in the extent of one of the masked fields.
pub open spec fn in_mask_extents(offs: Seq<usize>, fs: Seq<usize>, p: int) -> bool {
    exists|k: int|
        0 <= k < fs.len() && offs[(#[trigger] fs[k]) as int] <= p < offs[fs[k] + 1]
}

impl ObjStore {
    /// Flushes one record's mirror: the whole image, or only the
    /// masked field extents.
    #[verifier::loop_isolation(false)]
    pub fn obj_flush_masked(&mut self, slot: usize, fields: &Option<FieldArray>)
        requires
            old(self).wf(),
            slot < old(self).objs@.len(),
            fields matches Some(fs) ==> {
                &&& old(self).obj_pmem(slot as int).len() == old(self).obj_bytes(slot as int).len()
                &&& forall|f: int|
                    0 <= f < fs@.len() ==> (#[trigger] fs@[f]) + 1 < old(self).objs@[
                        slot as int].fields_offset_@.len()
            },
        ensures
            final(self).wf(),
            final(self).objs@.len() == old(self).objs@.len(),
            forall|i: int|
                0 <= i < old(self).objs@.len() && i != slot ==> final(self).objs@[i] == old(
                    self,
                ).objs@[i],
            (final(self).objs@[slot as int] == TObj {
                pmem_: final(self).objs@[slot as int].pmem_,
                ..old(self).objs@[slot as int]
            }),
            match fields {
                Option::Some(fs) => final(self).obj_pmem(slot as int).len() == old(self).obj_pmem(
                    slot as int,
                ).len() && (forall|p: int|
                    0 <= p < old(self).obj_pmem(slot as int).len() ==> final(self).obj_pmem(
                        slot as int,
                    )[p] == (if in_mask_extents(
                        old(self).objs@[slot as int].fields_offset_@,
                        fs@,
                        p,
                    ) {
                        old(self).obj_bytes(slot as int)[p]
                    } else {
                        old(self).obj_pmem(slot as int)[p]
                    })),
                Option::None => final(self).obj_pmem(slot as int) == old(self).obj_bytes(
                    slot as int,
                ),
            },
    {
        match fields {
            Option::None => {
                self.obj_flush_whole(slot);
            },
            Option::Some(fs) => {
                let ghost offs0 = old(self).objs@[slot as int].fields_offset_@;
                let ghost fs0 = fs@;
                let fl: usize = fs.len();
                let mut fi: usize = 0;
                while fi < fl
                    invariant
                        fi <= fl,
                        self.wf(),
                        self.objs@.len() == old(self).objs@.len(),
                        forall|i: int|
                            0 <= i < old(self).objs@.len() && i != slot ==> self.objs@[i] == old(
                                self,
                            ).objs@[i],
                        (self.objs@[slot as int] == TObj {
                            pmem_: self.objs@[slot as int].pmem_,
                            ..old(self).objs@[slot as int]
                        }),
                        self.obj_pmem(slot as int).len() == old(self).obj_pmem(slot as int).len(),
                        forall|p: int|
                            0 <= p < old(self).obj_pmem(slot as int).len() ==> self.obj_pmem(
                                slot as int,
                            )[p] == (if in_mask_extents_upto(offs0, fs0, fi as int, p) {
                                old(self).obj_bytes(slot as int)[p]
                            } else {
                                old(self).obj_pmem(slot as int)[p]
                            }),
                    decreases fl - fi,
                {
                    let f: usize = fs[fi];
                    proof {
                        assert(f == fs0[fi as int]);
                        assert(fs0[fi as int] + 1 < offs0.len());
                        assert(self.objs@[slot as int].fields_offset_@ == offs0);
                    }
                    store_flush_step(self, slot, f, Ghost(offs0), Ghost(fs0), Ghost(fi as int),
                        Ghost(*old(self)));
                    fi = fi + 1;
                }
                proof {
                    assert forall|p: int|
                        0 <= p < old(self).obj_pmem(slot as int).len() implies (
                    in_mask_extents_upto(offs0, fs0, fl as int, p) == in_mask_extents(
                        offs0,
                        fs0,
                        p,
                    )) by {
                        if in_mask_extents(offs0, fs0, p) {
                            let k = choose|k: int|
                                0 <= k < fs0.len() && offs0[(#[trigger] fs0[k]) as int] <= p
                                    < offs0[fs0[k] + 1];
                            assert(in_mask_extents_upto(offs0, fs0, fl as int, p));
                        }
                    }
                }
            },
        }
    }
}

/// One masked-flush step: field `f` (the mask entry at position `m`)
/// is copied to the mirror, extending the flushed prefix by one.
#[verifier::loop_isolation(false)]
fn store_flush_step(
    store: &mut ObjStore,
    slot: usize,
    f: usize,
    Ghost(offs0): Ghost<Seq<usize>>,
    Ghost(fs0): Ghost<Seq<usize>>,
    Ghost(m): Ghost<int>,
    Ghost(store_orig): Ghost<ObjStore>,
)
    requires
        old(store).wf(),
        store_orig.wf(),
        slot < old(store).objs@.len(),
        old(store).objs@.len() == store_orig.objs@.len(),
        0 <= m < fs0.len(),
        f == fs0[m],
        f + 1 < offs0.len(),
        offs0 == store_orig.objs@[slot as int].fields_offset_@,
        (old(store).objs@[slot as int] == TObj {
            pmem_: old(store).objs@[slot as int].pmem_,
            ..store_orig.objs@[slot as int]
        }),
        old(store).obj_pmem(slot as int).len() == store_orig.obj_pmem(slot as int).len(),
        store_orig.obj_pmem(slot as int).len() == store_orig.obj_bytes(slot as int).len(),
        forall|p: int|
            0 <= p < store_orig.obj_pmem(slot as int).len() ==> old(store).obj_pmem(slot as int)[p]
                == (if in_mask_extents_upto(offs0, fs0, m, p) {
                store_orig.obj_bytes(slot as int)[p]
            } else {
                store_orig.obj_pmem(slot as int)[p]
            }),
        forall|i: int|
            0 <= i < store_orig.objs@.len() && i != slot ==> old(store).objs@[i]
                == store_orig.objs@[i],
    ensures
        final(store).wf(),
        final(store).objs@.len() == store_orig.objs@.len(),
        forall|i: int|
            0 <= i < store_orig.objs@.len() && i != slot ==> final(store).objs@[i]
                == store_orig.objs@[i],
        (final(store).objs@[slot as int] == TObj {
            pmem_: final(store).objs@[slot as int].pmem_,
            ..store_orig.objs@[slot as int]
        }),
        final(store).obj_pmem(slot as int).len() == store_orig.obj_pmem(slot as int).len(),
        forall|p: int|
            0 <= p < store_orig.obj_pmem(slot as int).len() ==> final(store).obj_pmem(
                slot as int,
            )[p] == (if in_mask_extents_upto(offs0, fs0, m + 1, p) {
                store_orig.obj_bytes(slot as int)[p]
            } else {
                store_orig.obj_pmem(slot as int)[p]
            }),
{
    store.obj_flush_field(slot, f);
    proof {
        assert forall|p: int|
            0 <= p < store_orig.obj_pmem(slot as int).len() implies final(store).obj_pmem(
            slot as int,
        )[p] == (if in_mask_extents_upto(offs0, fs0, m + 1, p) {
            store_orig.obj_bytes(slot as int)[p]
        } else {
            store_orig.obj_pmem(slot as int)[p]
        }) by {
            if in_mask_extents_upto(offs0, fs0, m + 1, p) {
                if !(offs0[f as int] <= p < offs0[f + 1]) {
                    let k = choose|k: int|
                        0 <= k < m + 1 && k < fs0.len() && offs0[(#[trigger] fs0[k]) as int] <= p
                            < offs0[fs0[k] + 1];
                    assert(k < m);
                    assert(in_mask_extents_upto(offs0, fs0, m, p));
                }
            } else {
                assert(!in_mask_extents_upto(offs0, fs0, m, p));
                assert(!(offs0[f as int] <= p < offs0[f + 1])) by {
                    if offs0[f as int] <= p < offs0[f + 1] {
                        assert(in_mask_extents_upto(offs0, fs0, m + 1, p)) by {
                            assert(offs0[fs0[m] as int] <= p < offs0[fs0[m] + 1]);
                        }
                    }
                }
            }
        }
    }
}

} // verus!
