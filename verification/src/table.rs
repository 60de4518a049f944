//! Tables, buckets, and their indexes.
//!
//! A table is a fixed array of buckets. A bucket owns an append-only
//! vector of row slots (into the object store), a primary index from
//! key to row position, a version word guarding structural changes,
//! and a monotone counter of persistent slots. Rows, once appended,
//! keep their position forever; deletes are logical, removing only
//! the index entry.

use vstd::prelude::*;

verus! {

use crate::tcore::{ObjectId, OidFac, TVersion};
use crate::tbox::ObjStore;

/// The association a key and value sequence represents; later
/// entries win.
pub open spec fn kvu_map(keys: Seq<u64>, vals: Seq<usize>) -> Map<u64, usize>
    decreases keys.len(),
    when keys.len() == vals.len()
{
    if keys.len() == 0 {
        Map::empty()
    } else {
        kvu_map(keys.drop_last(), vals.drop_last()).insert(keys.last(), vals.last())
    }
}

/// A primary index: key to row position, keys distinct.
#[derive(Debug)]
pub struct IndexMap {
    pub keys: Vec<u64>,
    pub vals: Vec<usize>,
}

/// Scanning a distinct-keyed association equals looking it up.
proof fn lemma_kvu_get(keys: Seq<u64>, vals: Seq<usize>, k: u64)
    requires
        keys.len() == vals.len(),
        forall|a: int, b: int| 0 <= a < b < keys.len() ==> keys[a] != keys[b],
    ensures
        kvu_map(keys, vals).dom().contains(k) <==> keys.contains(k),
        forall|i: int| 0 <= i < keys.len() && keys[i] == k ==> kvu_map(keys, vals)[k] == vals[i],
    decreases keys.len(),
{
    if keys.len() > 0 {
        lemma_kvu_get(keys.drop_last(), vals.drop_last(), k);
        if keys.last() == k {
            assert(keys.contains(k)) by {
                assert(keys[keys.len() - 1] == k);
            }
            assert forall|i: int| 0 <= i < keys.len() && keys[i] == k implies kvu_map(keys, vals)[k]
                == vals[i] by {
                assert(i == keys.len() - 1);
            }
        } else {
            assert(keys.contains(k) <==> keys.drop_last().contains(k)) by {
                if keys.contains(k) {
                    let w = choose|w: int| 0 <= w < keys.len() && keys[w] == k;
                    assert(w < keys.len() - 1);
                    assert(keys.drop_last()[w] == k);
                }
                if keys.drop_last().contains(k) {
                    let w = choose|w: int| 0 <= w < keys.len() - 1 && keys.drop_last()[w] == k;
                    assert(keys[w] == k);
                }
            }
            assert forall|i: int| 0 <= i < keys.len() && keys[i] == k implies kvu_map(keys, vals)[k]
                == vals[i] by {
                assert(i < keys.len() - 1);
                assert(keys.drop_last()[i] == k);
                assert(keys.drop_last().contains(k));
            }
        }
    }
}

/// Updating the value at a key's position updates the association at
/// that key alone.
proof fn lemma_kvu_update(keys: Seq<u64>, vals: Seq<usize>, i: int, v: usize)
    requires
        keys.len() == vals.len(),
        forall|a: int, b: int| 0 <= a < b < keys.len() ==> keys[a] != keys[b],
        0 <= i < keys.len(),
    ensures
        kvu_map(keys, vals.update(i, v)) == kvu_map(keys, vals).insert(keys[i], v),
    decreases keys.len(),
{
    if i == keys.len() - 1 {
        assert(vals.update(i, v).drop_last() =~= vals.drop_last());
        assert(vals.update(i, v).last() == v);
        assert(kvu_map(keys, vals.update(i, v)) =~= kvu_map(keys, vals).insert(keys[i], v));
    } else {
        assert(vals.update(i, v).drop_last() =~= vals.drop_last().update(i, v));
        assert(vals.update(i, v).last() == vals.last());
        lemma_kvu_update(keys.drop_last(), vals.drop_last(), i, v);
        assert(keys.drop_last()[i] == keys[i]);
        assert(kvu_map(keys, vals.update(i, v)) =~= kvu_map(keys, vals).insert(keys[i], v));
    }
}

impl IndexMap {
    pub open spec fn wf(self) -> bool {
        &&& self.keys@.len() == self.vals@.len()
        &&& forall|a: int, b: int|
            0 <= a < b < self.keys@.len() ==> self.keys@[a] != self.keys@[b]
    }

    pub open spec fn as_map(self) -> Map<u64, usize> {
        kvu_map(self.keys@, self.vals@)
    }

    pub fn new() -> (m: IndexMap)
        ensures
            m.wf(),
            m.as_map() == Map::<u64, usize>::empty(),
    {
        IndexMap { keys: Vec::new(), vals: Vec::new() }
    }

    /// The position a key maps to, if any.
    #[verifier::loop_isolation(false)]
    pub fn get(&self, k: u64) -> (r: Option<usize>)
        requires
            self.wf(),
        ensures
            match r {
                Option::Some(v) => self.as_map().dom().contains(k) && v == self.as_map()[k],
                Option::None => !self.as_map().dom().contains(k),
            },
    {
        proof {
            lemma_kvu_get(self.keys@, self.vals@, k);
        }
        let mut i: usize = 0;
        while i < self.keys.len()
            invariant
                i <= self.keys@.len(),
                forall|a: int| 0 <= a < i ==> self.keys@[a] != k,
            decreases self.keys@.len() - i,
        {
            if self.keys[i] == k {
                proof {
                    assert(self.keys@[i as int] == k);
                    assert(self.keys@.contains(k));
                }
                return Some(self.vals[i]);
            }
            i = i + 1;
        }
        proof {
            if self.keys@.contains(k) {
                let w = choose|w: int| 0 <= w < self.keys@.len() && self.keys@[w] == k;
                assert(false);
            }
        }
        None
    }

    /// Maps `k` to `v`, replacing any earlier entry.
    #[verifier::loop_isolation(false)]
    pub fn insert(&mut self, k: u64, v: usize)
        requires
            old(self).wf(),
        ensures
            final(self).wf(),
            final(self).as_map() == old(self).as_map().insert(k, v),
    {
        let mut i: usize = 0;
        while i < self.keys.len()
            invariant
                *self == *old(self),
                i <= self.keys@.len(),
                forall|a: int| 0 <= a < i ==> self.keys@[a] != k,
            decreases self.keys@.len() - i,
        {
            if self.keys[i] == k {
                proof {
                    assert(self.keys@[i as int] == k);
                }
                proof {
                    lemma_kvu_update(self.keys@, self.vals@, i as int, v);
                }
                self.vals.set(i, v);
                proof {
                    assert(self.vals@ =~= old(self).vals@.update(i as int, v));
                }
                return;
            }
            i = i + 1;
        }
        self.keys.push(k);
        self.vals.push(v);
        proof {
            assert(self.keys@.drop_last() =~= old(self).keys@);
            assert(self.vals@.drop_last() =~= old(self).vals@);
            assert forall|a: int, b: int|
                0 <= a < b < self.keys@.len() implies self.keys@[a] != self.keys@[b] by {
                if b == self.keys@.len() - 1 {
                    assert(self.keys@[a] != k);
                }
            }
        }
    }

    /// Drops the entry for `k`, if any.
    #[verifier::loop_isolation(false)]
    pub fn remove(&mut self, k: u64)
        requires
            old(self).wf(),
        ensures
            final(self).wf(),
            final(self).as_map() == old(self).as_map().remove(k),
    {
        proof {
            lemma_kvu_get(old(self).keys@, old(self).vals@, k);
        }
        let mut i: usize = 0;
        while i < self.keys.len()
            invariant
                *self == *old(self),
                i <= self.keys@.len(),
                forall|a: int| 0 <= a < i ==> self.keys@[a] != k,
            decreases self.keys@.len() - i,
        {
            if self.keys[i] == k {
                proof {
                    assert(self.keys@[i as int] == k);
                }
                self.keys.swap_remove(i);
                self.vals.swap_remove(i);
                proof {
                    let ks = self.keys@;
                    let vs = self.vals@;
                    let ok = old(self).keys@;
                    let ov = old(self).vals@;
                    assert forall|a: int, b: int| 0 <= a < b < ks.len() implies ks[a] != ks[b] by {
                        assert(ks[a] == (if a == i { ok[ok.len() - 1] } else { ok[a] }));
                        assert(ks[b] == (if b == i { ok[ok.len() - 1] } else { ok[b] }));
                    }
                    assert forall|q: u64| #[trigger] kvu_map(ks, vs).dom().contains(q) implies
                        old(self).as_map().remove(k).dom().contains(q) && kvu_map(ks, vs)[q]
                        == old(self).as_map().remove(k)[q] by {
                        lemma_kvu_get(ks, vs, q);
                        lemma_kvu_get(ok, ov, q);
                        let w = choose|w: int| 0 <= w < ks.len() && ks[w] == q;
                        if w == i {
                            assert(ok[ok.len() - 1] == q && ov[ov.len() - 1] == vs[w]);
                            assert(ok.contains(q)) by {
                                assert(ok[ok.len() - 1] == q);
                            }
                        } else {
                            assert(ok[w] == q && ov[w] == vs[w]);
                            assert(ok.contains(q)) by {
                                assert(ok[w] == q);
                            }
                        }
                        assert(q != k);
                    }
                    assert forall|q: u64| #[trigger] old(self).as_map().remove(k).dom().contains(
                        q,
                    ) implies kvu_map(ks, vs).dom().contains(q) by {
                        lemma_kvu_get(ks, vs, q);
                        lemma_kvu_get(ok, ov, q);
                        let w = choose|w: int| 0 <= w < ok.len() && ok[w] == q;
                        if w == i as int {
                            assert(false);
                        } else if w == ok.len() - 1 {
                            assert(ks[i as int] == q);
                            assert(ks.contains(q)) by {
                                assert(ks[i as int] == q);
                            }
                        } else {
                            assert(ks[w] == q);
                            assert(ks.contains(q)) by {
                                assert(ks[w] == q);
                            }
                        }
                    }
                    assert(kvu_map(ks, vs) =~= old(self).as_map().remove(k));
                }
                return;
            }
            i = i + 1;
        }
        proof {
            if self.keys@.contains(k) {
                let w = choose|w: int| 0 <= w < self.keys@.len() && self.keys@[w] == k;
                assert(false);
            }
            assert(self.as_map() =~= self.as_map().remove(k));
        }
    }
}

} // verus!

verus! {

/// What a bucket holds, for specifications: its row slots and its
/// primary index.
pub struct BucketView {
    pub rows: Seq<usize>,
    pub index: Map<u64, usize>,
}

/// One partition of a table: an append-only vector of row slots, the
/// primary index from key to row position, a version word guarding
/// structural changes, and the monotone counter of persistent slots.
#[derive(Debug)]
pub struct Bucket {
    pub rows: Vec<usize>,
    pub index: IndexMap,
    pub id_: ObjectId,
    pub vers_: TVersion,
    pub pmem_offset_: usize,
}

impl Bucket {
    pub open spec fn bview(self) -> BucketView {
        BucketView { rows: self.rows@, index: self.index.as_map() }
    }

    /// The index is sound: every indexed position names a row.
    pub open spec fn wf(self) -> bool {
        &&& self.index.wf()
        &&& self.vers_.wf()
        &&& forall|k: u64|
            #[trigger] self.index.as_map().dom().contains(k) ==> self.index.as_map()[k]
                < self.rows@.len()
    }

    pub fn new(id: ObjectId) -> (b: Bucket)
        ensures
            b.wf(),
            b.bview().rows == Seq::<usize>::empty(),
            b.bview().index == Map::<u64, usize>::empty(),
            b.id_ == id,
            b.vers_ == TVersion::spec_clear(),
            b.pmem_offset_ == 0,
    {
        Bucket {
            rows: Vec::new(),
            index: IndexMap::new(),
            id_: id,
            vers_: TVersion::new(),
            pmem_offset_: 0,
        }
    }

    /// Appends a row slot and indexes its key at the new position.
    pub fn push_row(&mut self, slot: usize, key: u64)
        requires
            old(self).wf(),
        ensures
            final(self).wf(),
            final(self).bview().rows == old(self).bview().rows.push(slot),
            final(self).bview().index == old(self).bview().index.insert(
                key,
                old(self).bview().rows.len() as usize,
            ),
            final(self).id_ == old(self).id_,
            final(self).vers_ == old(self).vers_,
            final(self).pmem_offset_ == old(self).pmem_offset_,
    {
        let pos: usize = self.rows.len();
        self.rows.push(slot);
        self.index.insert(key, pos);
    }

    /// Logically deletes the row under `key`: the index entry goes,
    /// the row keeps its position.
    pub fn delete_key(&mut self, key: u64)
        requires
            old(self).wf(),
        ensures
            final(self).wf(),
            final(self).bview().rows == old(self).bview().rows,
            final(self).bview().index == old(self).bview().index.remove(key),
            final(self).id_ == old(self).id_,
            final(self).vers_ == old(self).vers_,
            final(self).pmem_offset_ == old(self).pmem_offset_,
    {
        self.index.remove(key);
    }

    /// The store slot of the row under `key`, if the index holds it.
    pub fn retrieve(&self, key: u64) -> (r: Option<usize>)
        requires
            self.wf(),
        ensures
            match r {
                Option::Some(slot) => self.bview().index.dom().contains(key) && slot
                    == self.bview().rows[self.bview().index[key] as int],
                Option::None => !self.bview().index.dom().contains(key),
            },
    {
        match self.index.get(key) {
            Option::Some(pos) => Some(self.rows[pos]),
            Option::None => None,
        }
    }

    pub fn len(&self) -> (n: usize)
        ensures
            n == self.bview().rows.len(),
    {
        self.rows.len()
    }

    pub fn get_id(&self) -> (id: ObjectId)
        ensures
            id == self.id_,
    {
        self.id_
    }

    /// Reserves the next persistent slot of this bucket.
    pub fn next_pmem_offset(&mut self) -> (off: usize)
        requires
            old(self).pmem_offset_ < usize::MAX,
        ensures
            off == old(self).pmem_offset_,
            final(self).pmem_offset_ == old(self).pmem_offset_ + 1,
            final(self).rows == old(self).rows,
            final(self).index == old(self).index,
            final(self).id_ == old(self).id_,
            final(self).vers_ == old(self).vers_,
    {
        let off: usize = self.pmem_offset_;
        self.pmem_offset_ = self.pmem_offset_ + 1;
        off
    }
}

/// A table: a name and a fixed array of buckets. A row's bucket is
/// its bucket key modulo the bucket count.
#[derive(Debug)]
pub struct Table {
    pub name_: String,
    pub bucket_num: usize,
    pub buckets: Vec<Bucket>,
}

impl Table {
    pub open spec fn wf(self) -> bool {
        &&& self.buckets@.len() == self.bucket_num
        &&& self.bucket_num > 0
        &&& forall|i: int| 0 <= i < self.buckets@.len() ==> (#[trigger] self.buckets@[i]).wf()
    }

    /// The buckets as the specifications see them.
    pub open spec fn tview(self) -> Seq<BucketView> {
        self.buckets@.map(|i: int, b: Bucket| b.bview())
    }

    /// A table of `num` empty buckets, each with its own identity.
    #[verifier::loop_isolation(false)]
    pub fn new_with_buckets(num: usize, fac: &mut OidFac, name: String) -> (t: Table)
        requires
            num > 0,
            old(fac).wf(),
            old(fac).spec_next() + num < 0x0010_0000_0000_0000,
        ensures
            t.wf(),
            final(fac).wf(),
            t.bucket_num == num,
            t.name_@ == name@,
            forall|i: int|
                0 <= i < num ==> (#[trigger] t.tview()[i]).rows == Seq::<usize>::empty()
                    && t.tview()[i].index == Map::<u64, usize>::empty(),
            forall|i: int| 0 <= i < num ==> (#[trigger] t.buckets@[i]).vers_
                == TVersion::spec_clear(),
            final(fac).spec_next() == old(fac).spec_next() + num,
            final(fac).spec_mask() == old(fac).spec_mask(),
    {
        let mut buckets: Vec<Bucket> = Vec::new();
        let mut i: usize = 0;
        while i < num
            invariant
                i <= num,
                buckets@.len() == i,
                fac.wf(),
                fac.spec_mask() == old(fac).spec_mask(),
                fac.spec_next() == old(fac).spec_next() + i,
                forall|j: int| 0 <= j < i ==> (#[trigger] buckets@[j]).wf(),
                forall|j: int|
                    0 <= j < i ==> (#[trigger] buckets@[j]).bview().rows == Seq::<usize>::empty()
                        && buckets@[j].bview().index == Map::<u64, usize>::empty(),
                forall|j: int| 0 <= j < i ==> (#[trigger] buckets@[j]).vers_
                    == TVersion::spec_clear(),
            decreases num - i,
        {
            let id: ObjectId = fac.get_next();
            buckets.push(Bucket::new(id));
            i = i + 1;
        }
        Table { name_: name, bucket_num: num, buckets: buckets }
    }

    /// The store slot of the row under `key`, looked up in the bucket
    /// `bucket_idx` names (modulo the bucket count).
    pub fn retrieve(&self, key: u64, bucket_idx: usize) -> (r: Option<usize>)
        requires
            self.wf(),
        ensures
            ({
                let b = self.tview()[(bucket_idx % self.bucket_num) as int];
                match r {
                    Option::Some(slot) => b.index.dom().contains(key) && slot == b.rows[b.index[key] as int],
                    Option::None => !b.index.dom().contains(key),
                }
            }),
    {
        let b: usize = bucket_idx % self.bucket_num;
        self.buckets[b].retrieve(key)
    }

    pub fn get_bucket(&self, bkt_idx: usize) -> (b: &Bucket)
        requires
            self.wf(),
        ensures
            *b == self.buckets@[(bkt_idx % self.bucket_num) as int],
    {
        &self.buckets[bkt_idx % self.bucket_num]
    }

    /// Non-transactional bulk load, used before any transaction runs:
    /// allocates the row in the store and links it into its bucket.
    pub fn push_raw(
        &mut self,
        store: &mut ObjStore,
        fac: &mut OidFac,
        bytes: Vec<u8>,
        key: u64,
        offsets: Vec<usize>,
        bucket_key: usize,
    )
        requires
            old(self).wf(),
            old(store).wf(),
            old(fac).wf(),
            old(fac).spec_next() < 0x0010_0000_0000_0000,
            forall|a: int, b: int|
                0 <= a <= b < offsets@.len() ==> #[trigger] offsets@[a] <= #[trigger] offsets@[b],
            offsets@.len() > 0 ==> offsets@[offsets@.len() - 1] <= bytes@.len(),
        ensures
            final(self).wf(),
            final(store).wf(),
            final(fac).wf(),
            final(store).objs@.len() == old(store).objs@.len() + 1,
            forall|i: int|
                0 <= i < old(store).objs@.len() ==> final(store).objs@[i] == old(store).objs@[i],
            final(store).obj_bytes(old(store).objs@.len() as int) == bytes@,
            final(store).objs@[old(store).objs@.len() as int].key_ == key,
            ({
                let b = (bucket_key % old(self).bucket_num) as int;
                &&& final(self).tview()[b].rows == old(self).tview()[b].rows.push(
                    old(store).objs@.len() as usize,
                )
                &&& final(self).tview()[b].index == old(self).tview()[b].index.insert(
                    key,
                    old(self).tview()[b].rows.len() as usize,
                )
                &&& forall|j: int|
                    0 <= j < old(self).buckets@.len() && j != b ==> final(self).buckets@[j]
                        == old(self).buckets@[j]
            }),
            final(self).bucket_num == old(self).bucket_num,
            final(self).name_ == old(self).name_,
    {
        let id: ObjectId = fac.get_next();
        let slot: usize = store.alloc_obj(id, key, bytes, offsets);
        let b: usize = bucket_key % self.bucket_num;
        let bucket: &mut Bucket = &mut self.buckets[b];
        bucket.push_row(slot, key);
        proof {
            assert(*final(bucket) == self.buckets@[b as int]);
        }
    }
}

} // verus!

verus! {

/// The association a key sequence and a sequence of id lists
/// represent; later entries win.
pub open spec fn kvl_map(keys: Seq<u64>, vals: Seq<Seq<u64>>) -> Map<u64, Seq<u64>>
    decreases keys.len(),
    when keys.len() == vals.len()
{
    if keys.len() == 0 {
        Map::empty()
    } else {
        kvl_map(keys.drop_last(), vals.drop_last()).insert(keys.last(), vals.last())
    }
}

/// Scanning a distinct-keyed association equals looking it up.
proof fn lemma_kvl_get(keys: Seq<u64>, vals: Seq<Seq<u64>>, k: u64)
    requires
        keys.len() == vals.len(),
        forall|a: int, b: int| 0 <= a < b < keys.len() ==> keys[a] != keys[b],
    ensures
        kvl_map(keys, vals).dom().contains(k) <==> keys.contains(k),
        forall|i: int| 0 <= i < keys.len() && keys[i] == k ==> kvl_map(keys, vals)[k] == vals[i],
    decreases keys.len(),
{
    if keys.len() > 0 {
        lemma_kvl_get(keys.drop_last(), vals.drop_last(), k);
        if keys.last() == k {
            assert(keys.contains(k)) by {
                assert(keys[keys.len() - 1] == k);
            }
            assert forall|i: int| 0 <= i < keys.len() && keys[i] == k implies kvl_map(keys, vals)[k]
                == vals[i] by {
                assert(i == keys.len() - 1);
            }
        } else {
            assert(keys.contains(k) <==> keys.drop_last().contains(k)) by {
                if keys.contains(k) {
                    let w = choose|w: int| 0 <= w < keys.len() && keys[w] == k;
                    assert(w < keys.len() - 1);
                    assert(keys.drop_last()[w] == k);
                }
                if keys.drop_last().contains(k) {
                    let w = choose|w: int| 0 <= w < keys.len() - 1 && keys.drop_last()[w] == k;
                    assert(keys[w] == k);
                }
            }
            assert forall|i: int| 0 <= i < keys.len() && keys[i] == k implies kvl_map(keys, vals)[k]
                == vals[i] by {
                assert(i < keys.len() - 1);
                assert(keys.drop_last()[i] == k);
                assert(keys.drop_last().contains(k));
            }
        }
    }
}

/// Updating the list at a key's position updates the association at
/// that key alone.
proof fn lemma_kvl_update(keys: Seq<u64>, vals: Seq<Seq<u64>>, i: int, v: Seq<u64>)
    requires
        keys.len() == vals.len(),
        forall|a: int, b: int| 0 <= a < b < keys.len() ==> keys[a] != keys[b],
        0 <= i < keys.len(),
    ensures
        kvl_map(keys, vals.update(i, v)) == kvl_map(keys, vals).insert(keys[i], v),
    decreases keys.len(),
{
    if i == keys.len() - 1 {
        assert(vals.update(i, v).drop_last() =~= vals.drop_last());
        assert(vals.update(i, v).last() == v);
        assert(kvl_map(keys, vals.update(i, v)) =~= kvl_map(keys, vals).insert(keys[i], v));
    } else {
        assert(vals.update(i, v).drop_last() =~= vals.drop_last().update(i, v));
        assert(vals.update(i, v).last() == vals.last());
        lemma_kvl_update(keys.drop_last(), vals.drop_last(), i, v);
        assert(keys.drop_last()[i] == keys[i]);
        assert(kvl_map(keys, vals.update(i, v)) =~= kvl_map(keys, vals).insert(keys[i], v));
    }
}

/// One partition of a secondary index: key to the list of matching
/// row identifiers, guarded by a lock flag that insertions leave held
/// until the matching row is published.
#[derive(Debug)]
pub struct SecIndexBucket {
    pub keys: Vec<u64>,
    pub vals: Vec<Vec<u64>>,
    pub lock_: bool,
}

impl SecIndexBucket {
    pub open spec fn wf(self) -> bool {
        &&& self.keys@.len() == self.vals@.len()
        &&& forall|a: int, b: int|
            0 <= a < b < self.keys@.len() ==> self.keys@[a] != self.keys@[b]
    }

    pub open spec fn as_map(self) -> Map<u64, Seq<u64>> {
        kvl_map(self.keys@, self.vals@.map(|i: int, v: Vec<u64>| v@))
    }

    pub fn new() -> (b: SecIndexBucket)
        ensures
            b.wf(),
            !b.lock_,
            b.as_map() == Map::<u64, Seq<u64>>::empty(),
    {
        SecIndexBucket { keys: Vec::new(), vals: Vec::new(), lock_: false }
    }

    /// Takes the bucket's lock. A held lock would make the caller
    /// spin, so it is excluded.
    pub fn lock(&mut self)
        requires
            !old(self).lock_,
        ensures
            final(self).lock_,
            final(self).keys == old(self).keys,
            final(self).vals == old(self).vals,
    {
        self.lock_ = true;
    }

    pub fn unlock(&mut self)
        ensures
            !final(self).lock_,
            final(self).keys == old(self).keys,
            final(self).vals == old(self).vals,
    {
        self.lock_ = false;
    }

    /// Appends `val` to the list under `key` (a fresh list if the key
    /// is new). The lock stays held until the caller unlocks, after
    /// the matching row is published.
    #[verifier::loop_isolation(false)]
    pub fn insert_index(&mut self, key: u64, val: u64)
        requires
            old(self).wf(),
            !old(self).lock_,
        ensures
            final(self).wf(),
            final(self).lock_,
            final(self).as_map() == old(self).as_map().insert(
                key,
                (if old(self).as_map().dom().contains(key) {
                    old(self).as_map()[key]
                } else {
                    Seq::<u64>::empty()
                }).push(val),
            ),
    {
        self.lock();
        proof {
            lemma_kvl_get(self.keys@, self.vals@.map(|i: int, v: Vec<u64>| v@), key);
        }
        let ghost vspec = self.vals@.map(|i: int, v: Vec<u64>| v@);
        let mut i: usize = 0;
        while i < self.keys.len()
            invariant
                self.keys == old(self).keys,
                self.vals == old(self).vals,
                self.lock_,
                i <= self.keys@.len(),
                forall|a: int| 0 <= a < i ==> self.keys@[a] != key,
            decreases self.keys@.len() - i,
        {
            if self.keys[i] == key {
                proof {
                    assert(self.keys@[i as int] == key);
                    assert(self.keys@.contains(key));
                }
                self.vals[i].push(val);
                proof {
                    assert(self.vals@.map(|q: int, v: Vec<u64>| v@) =~= vspec.update(
                        i as int,
                        vspec[i as int].push(val),
                    ));
                    lemma_kvl_update(self.keys@, vspec, i as int, vspec[i as int].push(val));
                }
                return;
            }
            i = i + 1;
        }
        proof {
            if self.keys@.contains(key) {
                let w = choose|w: int| 0 <= w < self.keys@.len() && self.keys@[w] == key;
                assert(false);
            }
        }
        let mut fresh: Vec<u64> = Vec::new();
        fresh.push(val);
        self.keys.push(key);
        self.vals.push(fresh);
        proof {
            assert(self.keys@.drop_last() =~= old(self).keys@);
            assert(self.vals@.map(|q: int, v: Vec<u64>| v@).drop_last() =~= vspec);
            assert(self.vals@.map(|q: int, v: Vec<u64>| v@).last() =~= Seq::<u64>::empty().push(
                val,
            ));
            assert forall|a: int, b: int|
                0 <= a < b < self.keys@.len() implies self.keys@[a] != self.keys@[b] by {
                if b == self.keys@.len() - 1 {
                    assert(self.keys@[a] != key);
                }
            }
        }
    }

    /// The row identifiers under `key`; takes the lock, which the
    /// caller releases once done with the list.
    #[verifier::loop_isolation(false)]
    pub fn find_many(&mut self, key: u64) -> (r: Option<&Vec<u64>>)
        requires
            old(self).wf(),
            !old(self).lock_,
        ensures
            final(self).wf(),
            final(self).lock_,
            final(self).keys == old(self).keys,
            final(self).vals == old(self).vals,
            match r {
                Option::Some(v) => old(self).as_map().dom().contains(key) && v@ == old(
                    self,
                ).as_map()[key],
                Option::None => !old(self).as_map().dom().contains(key),
            },
    {
        self.lock_ = true;
        proof {
            lemma_kvl_get(self.keys@, self.vals@.map(|i: int, v: Vec<u64>| v@), key);
        }
        let mut i: usize = 0;
        while i < self.keys.len()
            invariant
                self.keys == old(self).keys,
                self.vals == old(self).vals,
                self.lock_,
                i <= self.keys@.len(),
                forall|a: int| 0 <= a < i ==> self.keys@[a] != key,
            decreases self.keys@.len() - i,
        {
            if self.keys[i] == key {
                proof {
                    assert(self.keys@[i as int] == key);
                    assert(self.keys@.contains(key));
                    assert(self.vals@.map(|q: int, v: Vec<u64>| v@)[i as int] == self.vals@[
                        i as int]@);
                }
                return Some(&self.vals[i]);
            }
            i = i + 1;
        }
        proof {
            if self.keys@.contains(key) {
                let w = choose|w: int| 0 <= w < self.keys@.len() && self.keys@[w] == key;
                assert(false);
            }
        }
        None
    }
}

/// A secondary index for range-style lookups: operational only, not
/// durable. Keys are spread over partitions by key modulo the
/// partition count.
#[derive(Debug)]
pub struct SecIndex {
    pub buckets_: Vec<SecIndexBucket>,
}

impl SecIndex {
    pub open spec fn wf(self) -> bool {
        forall|i: int| 0 <= i < self.buckets_@.len() ==> (#[trigger] self.buckets_@[i]).wf()
    }

    /// The partition `key` falls in.
    pub open spec fn spec_bucket_of(self, key: u64) -> int {
        (key as int) % (self.buckets_@.len() as int)
    }

    pub fn new() -> (s: SecIndex)
        ensures
            s.wf(),
            s.buckets_@.len() == 0,
    {
        SecIndex { buckets_: Vec::new() }
    }

    #[verifier::loop_isolation(false)]
    pub fn new_with_buckets(bucket_num: usize) -> (s: SecIndex)
        ensures
            s.wf(),
            s.buckets_@.len() == bucket_num,
            forall|i: int|
                0 <= i < bucket_num ==> !(#[trigger] s.buckets_@[i]).lock_ && s.buckets_@[
                    i].as_map() == Map::<u64, Seq<u64>>::empty(),
    {
        let mut buckets: Vec<SecIndexBucket> = Vec::new();
        let mut i: usize = 0;
        while i < bucket_num
            invariant
                i <= bucket_num,
                buckets@.len() == i,
                forall|j: int|
                    0 <= j < i ==> (#[trigger] buckets@[j]).wf() && !buckets@[j].lock_ && buckets@[
                        j].as_map() == Map::<u64, Seq<u64>>::empty(),
            decreases bucket_num - i,
        {
            buckets.push(SecIndexBucket::new());
            i = i + 1;
        }
        SecIndex { buckets_: buckets }
    }

    /// Appends `val` under `key` in the key's partition, which stays
    /// locked until `unlock_bucket`.
    pub fn insert_index(&mut self, key: u64, val: u64)
        requires
            old(self).wf(),
            old(self).buckets_@.len() > 0,
            !old(self).buckets_@[old(self).spec_bucket_of(key)].lock_,
        ensures
            final(self).wf(),
            final(self).buckets_@.len() == old(self).buckets_@.len(),
            ({
                let b = old(self).spec_bucket_of(key);
                let m = old(self).buckets_@[b].as_map();
                &&& final(self).buckets_@[b].as_map() == m.insert(
                    key,
                    (if m.dom().contains(key) {
                        m[key]
                    } else {
                        Seq::<u64>::empty()
                    }).push(val),
                )
                &&& final(self).buckets_@[b].lock_
                &&& forall|j: int|
                    0 <= j < old(self).buckets_@.len() && j != b ==> final(self).buckets_@[j]
                        == old(self).buckets_@[j]
            }),
    {
        let b: usize = (key % (self.buckets_.len() as u64)) as usize;
        let bucket: &mut SecIndexBucket = &mut self.buckets_[b];
        bucket.insert_index(key, val);
    }

    /// Releases the lock on the key's partition.
    pub fn unlock_bucket(&mut self, key: u64)
        requires
            old(self).wf(),
            old(self).buckets_@.len() > 0,
        ensures
            final(self).wf(),
            final(self).buckets_@.len() == old(self).buckets_@.len(),
            ({
                let b = old(self).spec_bucket_of(key);
                &&& !final(self).buckets_@[b].lock_
                &&& final(self).buckets_@[b].keys == old(self).buckets_@[b].keys
                &&& final(self).buckets_@[b].vals == old(self).buckets_@[b].vals
                &&& forall|j: int|
                    0 <= j < old(self).buckets_@.len() && j != b ==> final(self).buckets_@[j]
                        == old(self).buckets_@[j]
            }),
    {
        let b: usize = (key % (self.buckets_.len() as u64)) as usize;
        let bucket: &mut SecIndexBucket = &mut self.buckets_[b];
        bucket.unlock();
    }

    /// The row identifiers under `key` in its partition, which stays
    /// locked until `unlock_bucket`.
    pub fn find_one_bucket(&mut self, key: u64) -> (r: Option<&Vec<u64>>)
        requires
            old(self).wf(),
            old(self).buckets_@.len() > 0,
            !old(self).buckets_@[old(self).spec_bucket_of(key)].lock_,
        ensures
            final(self).wf(),
            final(self).buckets_@.len() == old(self).buckets_@.len(),
            final(self).buckets_@[old(self).spec_bucket_of(key)].lock_,
            match r {
                Option::Some(v) => old(self).buckets_@[old(self).spec_bucket_of(
                    key,
                )].as_map().dom().contains(key) && v@ == old(self).buckets_@[old(
                    self,
                ).spec_bucket_of(key)].as_map()[key],
                Option::None => !old(self).buckets_@[old(self).spec_bucket_of(
                    key,
                )].as_map().dom().contains(key),
            },
    {
        let b: usize = (key % (self.buckets_.len() as u64)) as usize;
        let bucket: &mut SecIndexBucket = &mut self.buckets_[b];
        bucket.find_many(key)
    }
}

} // verus!

verus! {

/// Implemented by the embedding program's row types: the primary
/// key, the bucket the row falls in, and the row's field-offset
/// table for field-granular flushing.
pub trait Key<T> {
    fn primary_key(&self) -> T;

    fn bucket_key(&self) -> usize;

    fn field_offset(&self) -> Vec<usize>;
}

} // verus!
