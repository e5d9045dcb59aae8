//! The chunk store: a fixed-capacity ring buffer of authenticated chunks
//! with a chunk-id index and a TTL.
//!
//! The store's state is modelled by `StoreView`; `store_inv` is the index
//! consistency invariant (every indexed id points at a slot holding a chunk
//! with that id), every method preserves it, and `spec_insert` pins down
//! the ring-buffer overwrite discipline exactly.

use vstd::prelude::*;

use std::collections::HashMap;

use crate::errors::StoreError;
use crate::types::{ChunkData, ChunkId, ChunkView, StorageStats};

verus! {

broadcast use vstd::std_specs::hash::group_hash_axioms;

/// The mathematical image of the store.
pub struct StoreView {
    pub slots: Seq<Option<ChunkView>>,
    pub index: Map<u64, usize>,
    pub head: usize,
    pub ttl_ms: u64,
    pub evictions: u64,
    pub hits: u64,
    pub misses: u64,
}

/// Index consistency: every indexed id points at a slot inside the buffer
/// holding a chunk with exactly that id, and every occupied slot is
/// indexed under its chunk's id.
pub open spec fn store_inv(s: StoreView) -> bool {
    &&& s.slots.len() >= 1
    &&& s.head < s.slots.len()
    &&& forall|id: u64| #[trigger]
        s.index.contains_key(id) ==> 0 <= s.index[id] < s.slots.len() && (s.slots[s.index[id] as int] matches Some(
            c,
        ) && c.id == id)
    &&& forall|j: int|
        0 <= j < s.slots.len() ==> (#[trigger] s.slots[j] matches Some(c) ==> s.index.contains_key(
            c.id,
        ) && s.index[c.id] == j)
}

/// A fresh store: empty slots, empty index, head at zero.
pub open spec fn spec_new_store(capacity: nat, ttl_ms: u64) -> StoreView {
    StoreView {
        slots: Seq::new(capacity, |i: int| None),
        index: Map::empty(),
        head: 0,
        ttl_ms,
        evictions: 0,
        hits: 0,
        misses: 0,
    }
}

/// The overwrite discipline of `insert`: a stale mapping of the same id is
/// dropped first, then the head slot is taken, evicting and unindexing its
/// previous occupant, and the head moves on by one, around the ring.
pub open spec fn spec_insert(s: StoreView, c: ChunkView) -> StoreView {
    let s1 = if s.index.contains_key(c.id) {
        StoreView {
            slots: s.slots.update(s.index[c.id] as int, None),
            index: s.index.remove(c.id),
            ..s
        }
    } else {
        s
    };
    let j = s1.head as int;
    let index2 = match s1.slots[j] {
        Some(oldc) => s1.index.remove(oldc.id),
        None => s1.index,
    };
    StoreView {
        slots: s1.slots.update(j, Some(c)),
        index: index2.insert(c.id, s1.head),
        head: (((s1.head + 1) as int % s1.slots.len() as int) as usize),
        ttl_ms: s1.ttl_ms,
        evictions: if s1.slots[j] is Some {
            if s1.evictions == u64::MAX {
                u64::MAX
            } else {
                (s1.evictions + 1) as u64
            }
        } else {
            s1.evictions
        },
        hits: s1.hits,
        misses: s1.misses,
    }
}

/// Removal of an id: its slot is cleared and its mapping dropped; the
/// counters do not move.
pub open spec fn spec_remove(s: StoreView, id: u64) -> StoreView {
    if s.index.contains_key(id) {
        StoreView {
            slots: s.slots.update(s.index[id] as int, None),
            index: s.index.remove(id),
            ..s
        }
    } else {
        s
    }
}

/// Whether the chunk held for `id` has outlived the TTL at `now_ms`.
pub open spec fn spec_expired(s: StoreView, id: u64, now_ms: u64) -> bool {
    &&& s.index.contains_key(id)
    &&& (s.slots[s.index[id] as int] matches Some(c) && now_ms > c.timestamp_ms + s.ttl_ms)
}

/// The total payload bytes of the occupied slots, as an unbounded sum.
pub open spec fn spec_slots_size(slots: Seq<Option<ChunkView>>) -> int
    decreases slots.len(),
{
    if slots.len() == 0 {
        0
    } else {
        spec_slots_size(slots.drop_last()) + match slots.last() {
            Some(c) => c.data.len() as int,
            None => 0,
        }
    }
}

/// Take the value out of one slot of a vector.
fn slot_take(slots: &mut Vec<Option<ChunkData>>, i: usize) -> (r: Option<ChunkData>)
    requires
        i < old(slots)@.len(),
    ensures
        r == old(slots)@[i as int],
        final(slots)@ == old(slots)@.update(i as int, None::<ChunkData>),
{
    let elem = &mut slots[i];
    elem.take()
}

/// The chunk store.
pub struct ChunkStore {
    slots: Vec<Option<ChunkData>>,
    write_head: usize,
    index: HashMap<u64, usize>,
    capacity: usize,
    chunk_ttl_ms: u64,
    evictions_total: u64,
    hits_total: u64,
    misses_total: u64,
}

impl View for ChunkStore {
    type V = StoreView;

    closed spec fn view(&self) -> StoreView {
        StoreView {
            slots: Seq::new(self.slots@.len(), |i: int| match self.slots@[i] {
                Some(c) => Some(c@),
                None => None,
            }),
            index: self.index@,
            head: self.write_head,
            ttl_ms: self.chunk_ttl_ms,
            evictions: self.evictions_total,
            hits: self.hits_total,
            misses: self.misses_total,
        }
    }
}

impl ChunkStore {
    /// The store is well shaped and its index consistent.
    pub closed spec fn inv(self) -> bool {
        &&& store_inv(self@)
        &&& self.capacity == self.slots@.len()
        &&& vstd::std_specs::hash::obeys_key_model::<u64>()
        &&& vstd::std_specs::hash::builds_valid_hashers::<std::hash::RandomState>()
    }

    /// A store with `capacity` slots and the given TTL; an error exactly
    /// when the capacity is zero.
    pub fn new(capacity: usize, chunk_ttl_ms: u64) -> (r: Result<ChunkStore, StoreError>)
        ensures
            capacity == 0 ==> r == Err::<ChunkStore, StoreError>(StoreError::CapacityZero),
            capacity >= 1 ==> (r matches Ok(s) && s.inv() && s@ == spec_new_store(
                capacity as nat,
                chunk_ttl_ms,
            ) && s.spec_capacity() == capacity),
    {
        if capacity == 0 {
            return Err(StoreError::CapacityZero);
        }
        let mut slots: Vec<Option<ChunkData>> = Vec::new();
        let mut i: usize = 0;
        while i < capacity
            invariant
                i <= capacity,
                slots@.len() == i,
                forall|j: int| 0 <= j < i ==> slots@[j] is None,
            decreases capacity - i,
        {
            slots.push(None);
            i = i + 1;
        }
        let store = ChunkStore {
            slots,
            write_head: 0,
            index: HashMap::new(),
            capacity,
            chunk_ttl_ms,
            evictions_total: 0,
            hits_total: 0,
            misses_total: 0,
        };
        proof {
            assert(store@.slots =~= spec_new_store(capacity as nat, chunk_ttl_ms).slots);
            assert(store@.index =~= spec_new_store(capacity as nat, chunk_ttl_ms).index);
            assert(store@ == spec_new_store(capacity as nat, chunk_ttl_ms));
        }
        Ok(store)
    }

    /// The number of slots.
    pub closed spec fn spec_capacity(self) -> usize {
        self.capacity
    }

    /// Insert a chunk: exactly the `spec_insert` overwrite discipline.
    pub fn insert(&mut self, chunk: ChunkData) -> (r: Result<(), StoreError>)
        requires
            old(self).inv(),
        ensures
            final(self).inv(),
            r is Ok,
            final(self)@ == spec_insert(old(self)@, chunk@),
            final(self).spec_capacity() == old(self).spec_capacity(),
    {
        let ghost s0 = self@;
        let chunk_id: u64 = chunk.id.0;
        let stale = self.index.remove(&chunk_id);
        match stale {
            Some(old_slot) => {
                let _ = slot_take(&mut self.slots, old_slot);
            },
            None => {},
        }
        let ghost s1 = spec_insert_stale_dropped(s0, chunk@);
        proof {
            assert(self@.index =~= s1.index);
            assert(self@.slots =~= s1.slots);
        }
        let slot_idx: usize = self.write_head;
        let prev = slot_take(&mut self.slots, slot_idx);
        match prev {
            Some(old_chunk) => {
                self.index.remove(&old_chunk.id.0);
                if self.evictions_total < u64::MAX {
                    self.evictions_total = self.evictions_total + 1;
                }
            },
            None => {},
        }
        self.slots.set(slot_idx, Some(chunk));
        self.index.insert(chunk_id, slot_idx);
        self.write_head = if slot_idx + 1 == self.capacity {
            0
        } else {
            slot_idx + 1
        };
        proof {
            let sf = spec_insert(s0, chunk@);
            assert(self@.slots =~= sf.slots);
            assert(self@.index =~= sf.index);
            assert(s1.head == s0.head);
            assert(s1.slots.len() == s0.slots.len());
            if s1.head + 1 == s1.slots.len() {
                assert((s1.head + 1) as int % s1.slots.len() as int == 0) by (nonlinear_arith)
                    requires
                        s1.slots.len() >= 1,
                        s1.head + 1 == s1.slots.len(),
                ;
            } else {
                assert((s1.head + 1) as int % s1.slots.len() as int == s1.head + 1)
                    by (nonlinear_arith)
                    requires
                        0 <= s1.head + 1 < s1.slots.len(),
                ;
            }
            assert((s1.head + 1) as int % s1.slots.len() as int == self.write_head as int);
            assert(self@ == sf);
            assert_store_inv_after_insert(s0, chunk@);
        }
        Ok(())
    }

    /// Look an id up: a hit hands back the slot's chunk, which carries
    /// exactly the looked-up id, and counts a hit; a miss counts a miss.
    pub fn get(&mut self, id: &ChunkId) -> (r: Option<&ChunkData>)
        requires
            old(self).inv(),
        ensures
            final(self).inv(),
            final(self).spec_capacity() == old(self).spec_capacity(),
            r matches Some(c) ==> c@.id == id.0,
            old(self)@.index.contains_key(id.0) ==> (r matches Some(c) && Some(c@) == old(
                self,
            )@.slots[old(self)@.index[id.0] as int] && final(self)@ == (StoreView {
                hits: if old(self)@.hits == u64::MAX {
                    u64::MAX
                } else {
                    (old(self)@.hits + 1) as u64
                },
                ..old(self)@
            })),
            !old(self)@.index.contains_key(id.0) ==> (r is None && final(self)@ == (StoreView {
                misses: if old(self)@.misses == u64::MAX {
                    u64::MAX
                } else {
                    (old(self)@.misses + 1) as u64
                },
                ..old(self)@
            })),
    {
        let looked = self.index.get(&id.0);
        match looked {
            Some(slot_ref) => {
                let slot_idx: usize = *slot_ref;
                self.hits_total = if self.hits_total == u64::MAX {
                    u64::MAX
                } else {
                    self.hits_total + 1
                };
                let slot = &self.slots[slot_idx];
                match slot {
                    Some(c) => Some(c),
                    None => {
                        proof {
                            assert(false);
                        }
                        None
                    },
                }
            },
            None => {
                self.misses_total = if self.misses_total == u64::MAX {
                    u64::MAX
                } else {
                    self.misses_total + 1
                };
                None
            },
        }
    }

    /// Remove an id: its slot is cleared and its chunk handed back.
    pub fn remove(&mut self, id: &ChunkId) -> (r: Option<ChunkData>)
        requires
            old(self).inv(),
        ensures
            final(self).inv(),
            final(self).spec_capacity() == old(self).spec_capacity(),
            final(self)@ == spec_remove(old(self)@, id.0),
            r matches Some(c) ==> old(self)@.index.contains_key(id.0) && Some(c@) == old(
                self,
            )@.slots[old(self)@.index[id.0] as int],
            r is None <==> !old(self)@.index.contains_key(id.0),
    {
        let removed = self.index.remove(&id.0);
        match removed {
            Some(slot_idx) => {
                let prev = slot_take(&mut self.slots, slot_idx);
                proof {
                    assert(self@.slots =~= spec_remove(old(self)@, id.0).slots);
                    assert(self@.index =~= spec_remove(old(self)@, id.0).index);
                }
                prev
            },
            None => {
                proof {
                    assert(self@.index =~= spec_remove(old(self)@, id.0).index);
                    assert(self@.slots =~= spec_remove(old(self)@, id.0).slots);
                    assert(self@ == spec_remove(old(self)@, id.0));
                }
                None
            },
        }
    }

    /// The ids whose chunks have outlived the TTL at `now_ms`: exactly the
    /// indexed ids whose capture instant lies more than the TTL in the
    /// past, each listed once.
    pub fn list_expired(&self, now_ms: u64) -> (r: Vec<ChunkId>)
        requires
            self.inv(),
        ensures
            forall|k: int| 0 <= k < r@.len() ==> spec_expired(self@, #[trigger] r@[k].0, now_ms),
            forall|id: u64| spec_expired(self@, id, now_ms) ==> exists|k: int|
                0 <= k < r@.len() && #[trigger] r@[k].0 == id,
            forall|a: int, b: int|
                #![trigger r@[a], r@[b]]
                0 <= a < b < r@.len() ==> r@[a].0 != r@[b].0,
    {
        let mut out: Vec<ChunkId> = Vec::new();
        let mut i: usize = 0;
        while i < self.slots.len()
            invariant
                self.inv(),
                i <= self@.slots.len(),
                self.slots@.len() == self@.slots.len(),
                forall|k: int| 0 <= k < out@.len() ==> spec_expired(self@, #[trigger] out@[k].0, now_ms),
                forall|id: u64|
                    (spec_expired(self@, id, now_ms) && self@.index[id] < i) ==> exists|k: int|
                        0 <= k < out@.len() && #[trigger] out@[k].0 == id,
                forall|k: int|
                    0 <= k < out@.len() ==> self@.index.contains_key(#[trigger] out@[k].0)
                        && self@.index[out@[k].0] < i,
                forall|a: int, b: int|
                    #![trigger out@[a], out@[b]]
                    0 <= a < b < out@.len() ==> out@[a].0 != out@[b].0,
            decreases self.slots@.len() - i,
        {
            let ghost out0 = out@;
            let slot = &self.slots[i];
            match slot {
                Some(c) => {
                    if now_ms > c.timestamp_ms && now_ms - c.timestamp_ms > self.chunk_ttl_ms {
                        proof {
                            assert(self@.slots[i as int] matches Some(cv) && cv.id == c.id.0);
                            assert(self@.index.contains_key(c.id.0) && self@.index[c.id.0] == i);
                            assert(spec_expired(self@, c.id.0, now_ms));
                        }
                        out.push(ChunkId(c.id.0));
                    }
                },
                None => {},
            }
            i = i + 1;
            proof {
                assert(out0.len() <= out@.len());
                assert(forall|k: int| 0 <= k < out0.len() ==> out@[k] == out0[k]);
                assert forall|a: int, b: int| 0 <= a < b < out@.len() implies out@[a].0
                    != out@[b].0 by {
                    if b >= out0.len() {
                        assert(self@.index[out@[a].0] < i - 1);
                        assert(self@.index[out@[b].0] == i - 1);
                    }
                }
                assert forall|id: u64| spec_expired(self@, id, now_ms) && self@.index[id] < i
                    implies exists|k: int| 0 <= k < out@.len() && #[trigger] out@[k].0 == id by {
                    if self@.index[id] < i - 1 {
                        assert(exists|k: int| 0 <= k < out0.len() && #[trigger] out0[k].0 == id);
                        let k0 = choose|k: int| 0 <= k < out0.len() && #[trigger] out0[k].0 == id;
                        assert(out@[k0].0 == id);
                    } else {
                        assert(self@.index[id] == i - 1);
                        assert(self@.slots[i - 1] matches Some(c) && c.id == id);
                        assert(out@.len() == out0.len() + 1);
                        assert(out@[out@.len() - 1].0 == id);
                    }
                }
            }
        }
        out
    }

    /// Remove every chunk that has outlived the TTL at `now_ms`; returns
    /// how many were removed.
    pub fn evict_expired(&mut self, now_ms: u64) -> (r: usize)
        requires
            old(self).inv(),
        ensures
            final(self).inv(),
            final(self).spec_capacity() == old(self).spec_capacity(),
            forall|id: u64| #[trigger]
                final(self)@.index.contains_key(id) <==> (old(self)@.index.contains_key(id)
                    && !spec_expired(old(self)@, id, now_ms)),
            final(self)@.evictions == old(self)@.evictions,
            final(self)@.hits == old(self)@.hits,
            final(self)@.misses == old(self)@.misses,
            final(self)@.ttl_ms == old(self)@.ttl_ms,
    {
        let expired = self.list_expired(now_ms);
        let count = expired.len();
        let ghost s0 = self@;
        let mut i: usize = 0;
        while i < expired.len()
            invariant
                self.inv(),
                i <= expired@.len(),
                self.spec_capacity() == old(self).spec_capacity(),
                self@.evictions == s0.evictions,
                self@.hits == s0.hits,
                self@.misses == s0.misses,
                self@.ttl_ms == s0.ttl_ms,
                self@.slots.len() == s0.slots.len(),
                forall|k: int| 0 <= k < expired@.len() ==> spec_expired(s0, #[trigger] expired@[k].0, now_ms),
                forall|id: u64| spec_expired(s0, id, now_ms) ==> exists|k: int|
                    0 <= k < expired@.len() && #[trigger] expired@[k].0 == id,
                forall|id: u64| #[trigger]
                    self@.index.contains_key(id) <==> (s0.index.contains_key(id) && !(exists|k: int|
                        0 <= k < i && #[trigger] expired@[k].0 == id)),
                forall|id: u64| #[trigger]
                    self@.index.contains_key(id) ==> self@.slots[self@.index[id] as int]
                        == s0.slots[s0.index[id] as int] && self@.index[id] == s0.index[id],
            decreases expired@.len() - i,
        {
            let id = ChunkId(expired[i].0);
            self.remove(&id);
            i = i + 1;
        }
        proof {
            assert forall|id: u64| #[trigger] self@.index.contains_key(id) <==> (s0.index.contains_key(
                id,
            ) && !spec_expired(s0, id, now_ms)) by {
                if spec_expired(s0, id, now_ms) {
                    assert(exists|k: int| 0 <= k < expired@.len() && #[trigger] expired@[k].0 == id);
                }
                if self@.index.contains_key(id) {
                } else {
                    if s0.index.contains_key(id) && !spec_expired(s0, id, now_ms) {
                        assert(!(exists|k: int| 0 <= k < i && #[trigger] expired@[k].0 == id));
                    }
                }
            }
        }
        count
    }

    /// The counters and totals of the store.
    pub fn stats(&self) -> (r: StorageStats)
        requires
            self.inv(),
        ensures
            r.chunk_count == self@.index.dom().len(),
            r.evictions_total == self@.evictions,
            r.hits_total == self@.hits,
            r.misses_total == self@.misses,
            r.size_bytes == if spec_slots_size(self@.slots) <= u64::MAX {
                spec_slots_size(self@.slots)
            } else {
                u64::MAX as int
            },
    {
        let mut size: u64 = 0;
        let mut i: usize = 0;
        while i < self.slots.len()
            invariant
                self.inv(),
                i <= self@.slots.len(),
                self.slots@.len() == self@.slots.len(),
                size == if spec_slots_size(self@.slots.take(i as int)) <= u64::MAX {
                    spec_slots_size(self@.slots.take(i as int))
                } else {
                    u64::MAX as int
                },
            decreases self.slots@.len() - i,
        {
            let ghost pref = self@.slots.take(i as int);
            let slot = &self.slots[i];
            match slot {
                Some(c) => {
                    size = if c.data.len() as u64 > u64::MAX - size {
                        u64::MAX
                    } else {
                        size + c.data.len() as u64
                    };
                },
                None => {},
            }
            i = i + 1;
            proof {
                let pref2 = self@.slots.take(i as int);
                assert(pref2.drop_last() =~= pref);
                assert(pref2.last() == self@.slots[i - 1]);
                assert(spec_slots_size(pref2) == spec_slots_size(pref) + match self@.slots[i - 1] {
                    Some(c) => c.data.len() as int,
                    None => 0int,
                });
            }
        }
        proof {
            assert(self@.slots.take(self@.slots.len() as int) =~= self@.slots);
        }
        StorageStats {
            size_bytes: size,
            chunk_count: self.index.len() as u64,
            evictions_total: self.evictions_total,
            hits_total: self.hits_total,
            misses_total: self.misses_total,
        }
    }

    /// The number of slots.
    pub fn capacity(&self) -> (r: usize)
        ensures
            r == self.spec_capacity(),
    {
        self.capacity
    }

    /// The number of chunks currently indexed.
    pub fn len(&self) -> (r: usize)
        requires
            self.inv(),
        ensures
            r == self@.index.dom().len(),
    {
        self.index.len()
    }

    /// Whether no chunk is stored.
    pub fn is_empty(&self) -> (r: bool)
        requires
            self.inv(),
        ensures
            r == (self@.index.dom() =~= Set::<u64>::empty()),
    {
        self.index.is_empty()
    }
}

/// The state after the stale mapping of the inserted id is dropped.
pub open spec fn spec_insert_stale_dropped(s: StoreView, c: ChunkView) -> StoreView {
    if s.index.contains_key(c.id) {
        StoreView {
            slots: s.slots.update(s.index[c.id] as int, None),
            index: s.index.remove(c.id),
            ..s
        }
    } else {
        s
    }
}

/// Index consistency spelled out: in any state satisfying the store
/// invariant, every indexed id points at a slot holding a chunk with
/// exactly that id.
pub proof fn lemma_indexed_slot_holds_id(s: StoreView, id: u64)
    requires
        store_inv(s),
        s.index.contains_key(id),
    ensures
        0 <= s.index[id] < s.slots.len(),
        s.slots[s.index[id] as int] matches Some(c) && c.id == id,
{
}

/// The state after a whole sequence of insertions, first element first.
pub open spec fn spec_insert_all(s: StoreView, chunks: Seq<ChunkView>) -> StoreView
    decreases chunks.len(),
{
    if chunks.len() == 0 {
        s
    } else {
        spec_insert_all(spec_insert(s, chunks[0]), chunks.drop_first())
    }
}

/// Appending one more insertion.
proof fn lemma_insert_all_snoc(s: StoreView, chunks: Seq<ChunkView>, c: ChunkView)
    ensures
        spec_insert_all(s, chunks.push(c)) == spec_insert(spec_insert_all(s, chunks), c),
    decreases chunks.len(),
{
    if chunks.len() == 0 {
        assert(chunks.push(c)[0] == c);
        assert(chunks.push(c).drop_first() =~= Seq::<ChunkView>::empty());
        assert(spec_insert_all(s, chunks) == s);
        assert(spec_insert_all(s, chunks.push(c)) == spec_insert_all(
            spec_insert(s, c),
            chunks.push(c).drop_first(),
        ));
        assert(spec_insert_all(spec_insert(s, c), Seq::<ChunkView>::empty()) == spec_insert(s, c));
    } else {
        lemma_insert_all_snoc(spec_insert(s, chunks[0]), chunks.drop_first(), c);
        assert(chunks.push(c)[0] == chunks[0]);
        assert(chunks.push(c).drop_first() =~= chunks.drop_first().push(c));
        assert(spec_insert_all(s, chunks.push(c)) == spec_insert_all(
            spec_insert(s, chunks[0]),
            chunks.drop_first().push(c),
        ));
        assert(spec_insert_all(s, chunks) == spec_insert_all(
            spec_insert(s, chunks[0]),
            chunks.drop_first(),
        ));
    }
}

/// Filling a fresh store: the first `j` distinct chunks sit in the first
/// `j` slots, nothing has been evicted, and the head stands at `j` (or
/// wraps to zero when the store is exactly full).
proof fn lemma_store_fill(capacity: nat, ttl_ms: u64, chunks: Seq<ChunkView>, j: nat)
    requires
        capacity >= 1,
        capacity <= usize::MAX,
        chunks.len() <= capacity,
        j <= chunks.len(),
        forall|a: int, b: int|
            0 <= a < b < chunks.len() ==> #[trigger] chunks[a].id != #[trigger] chunks[b].id,
    ensures
        ({
            let s = spec_insert_all(spec_new_store(capacity, ttl_ms), chunks.take(j as int));
            &&& s.slots.len() == capacity
            &&& forall|i: int| 0 <= i < j ==> s.slots[i] == Some(chunks[i])
            &&& forall|i: int| j <= i < capacity ==> s.slots[i] is None
            &&& forall|id: u64| #[trigger] s.index.contains_key(id) <==> exists|i: int|
                0 <= i < j && #[trigger] chunks[i].id == id
            &&& forall|i: int| 0 <= i < j ==> s.index.contains_key(#[trigger] chunks[i].id)
                && s.index[chunks[i].id] == i
            &&& s.head == if j == capacity {
                0int
            } else {
                j as int
            }
            &&& s.evictions == 0
            &&& s.ttl_ms == ttl_ms
            &&& s.hits == 0
            &&& s.misses == 0
        }),
    decreases j,
{
    let s0 = spec_new_store(capacity, ttl_ms);
    if j == 0 {
        assert(chunks.take(0) =~= Seq::<ChunkView>::empty());
        assert(spec_insert_all(s0, chunks.take(0)) == s0);
    } else {
        lemma_store_fill(capacity, ttl_ms, chunks, (j - 1) as nat);
        let sp = spec_insert_all(s0, chunks.take(j - 1));
        let c = chunks[j - 1];
        assert(chunks.take(j as int) =~= chunks.take(j - 1).push(c));
        lemma_insert_all_snoc(s0, chunks.take(j - 1), c);
        let s = spec_insert(sp, c);
        assert(!sp.index.contains_key(c.id));
        assert(sp.slots[sp.head as int] is None);
        assert(s.slots =~= sp.slots.update(sp.head as int, Some(c)));
        assert(s.index =~= sp.index.insert(c.id, sp.head));
        if j == capacity {
            assert((sp.head + 1) as int % sp.slots.len() as int == 0) by (nonlinear_arith)
                requires
                    sp.slots.len() >= 1,
                    sp.head + 1 == sp.slots.len(),
            ;
        } else {
            assert((sp.head + 1) as int % sp.slots.len() as int == sp.head + 1)
                by (nonlinear_arith)
                requires
                    0 <= sp.head + 1 < sp.slots.len(),
            ;
        }
        assert forall|id: u64| #[trigger] s.index.contains_key(id) implies exists|i: int|
            0 <= i < j && #[trigger] chunks[i].id == id by {
            if id == c.id {
                assert(chunks[j - 1].id == id);
            } else {
                assert(sp.index.contains_key(id));
            }
        }
        assert forall|id: u64| (exists|i: int| 0 <= i < j && #[trigger] chunks[i].id == id)
            implies #[trigger] s.index.contains_key(id) by {
            let i = choose|i: int| 0 <= i < j && #[trigger] chunks[i].id == id;
            if i < j - 1 {
                assert(sp.index.contains_key(chunks[i].id));
            } else {
                assert(id == c.id);
            }
        }
        assert forall|i: int| 0 <= i < j implies s.index.contains_key(#[trigger] chunks[i].id)
            && s.index[chunks[i].id] == i by {
            if i < j - 1 {
                assert(sp.index.contains_key(chunks[i].id) && sp.index[chunks[i].id] == i);
                assert(chunks[i].id != c.id);
            }
        }
        assert forall|i: int| 0 <= i < j implies s.slots[i] == Some(#[trigger] chunks[i]) by {
            if i < j - 1 {
                assert(sp.slots[i] == Some(chunks[i]));
            }
        }
    }
}

/// Ring eviction: after inserting `capacity + 1` chunks with distinct ids
/// into a fresh store, exactly the first is absent and exactly one
/// eviction has been counted.
pub proof fn lemma_ring_eviction(capacity: nat, ttl_ms: u64, chunks: Seq<ChunkView>)
    requires
        capacity >= 1,
        capacity <= usize::MAX,
        chunks.len() == capacity + 1,
        forall|a: int, b: int|
            0 <= a < b < chunks.len() ==> #[trigger] chunks[a].id != #[trigger] chunks[b].id,
    ensures
        ({
            let s = spec_insert_all(spec_new_store(capacity, ttl_ms), chunks);
            &&& !s.index.contains_key(chunks[0].id)
            &&& forall|i: int| 1 <= i < chunks.len() ==> s.index.contains_key(
                #[trigger] chunks[i].id,
            )
            &&& s.evictions == 1
        }),
{
    let s0 = spec_new_store(capacity, ttl_ms);
    let full = chunks.take(capacity as int);
    assert(forall|a: int, b: int|
        0 <= a < b < full.len() ==> #[trigger] full[a].id != #[trigger] full[b].id);
    lemma_store_fill(capacity, ttl_ms, full, capacity);
    assert(full.take(capacity as int) =~= full);
    let sp = spec_insert_all(s0, full);
    let c = chunks[capacity as int];
    assert(chunks =~= chunks.take(capacity as int).push(c));
    lemma_insert_all_snoc(s0, chunks.take(capacity as int), c);
    assert(chunks.take(capacity as int) =~= full);
    let s = spec_insert(sp, c);
    assert(spec_insert_all(s0, chunks) == s);
    assert(!sp.index.contains_key(c.id)) by {
        if sp.index.contains_key(c.id) {
            let i = choose|i: int| 0 <= i < capacity && #[trigger] full[i].id == c.id;
            assert(chunks[i].id == chunks[capacity as int].id);
        }
    }
    assert(sp.head == 0);
    assert(sp.slots[0] == Some(chunks[0]));
    assert(s.evictions == 1);
    assert(s.index =~= sp.index.remove(chunks[0].id).insert(c.id, 0));
    assert(chunks[0].id != c.id);
    assert(!s.index.contains_key(chunks[0].id)) by {
        assert(full[0] == chunks[0]);
    }
    assert forall|i: int| 1 <= i < chunks.len() implies s.index.contains_key(
        #[trigger] chunks[i].id,
    ) by {
        if i < capacity {
            assert(full[i] == chunks[i]);
            assert(sp.index.contains_key(chunks[i].id));
            assert(chunks[i].id != chunks[0].id);
        } else {
            assert(chunks[i].id == c.id);
        }
    }
}

/// Inserting preserves the index invariant.
proof fn assert_store_inv_after_insert(s: StoreView, c: ChunkView)
    requires
        store_inv(s),
    ensures
        store_inv(spec_insert(s, c)),
{
    let s1 = spec_insert_stale_dropped(s, c);
    assert(store_inv(s1));
    let sf = spec_insert(s, c);
    assert forall|id: u64| #[trigger] sf.index.contains_key(id) implies 0 <= sf.index[id]
        < sf.slots.len() && (sf.slots[sf.index[id] as int] matches Some(cc) && cc.id == id) by {
        if id == c.id {
        } else {
            assert(s1.index.contains_key(id));
            assert(s1.index[id] == sf.index[id]);
            if s1.index[id] == s1.head {
                assert(s1.slots[s1.head as int] matches Some(oldc) && oldc.id == id);
                assert(!sf.index.contains_key(id));
            }
        }
    }
}

} // verus!
