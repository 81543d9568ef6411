//! A cache of GPU buffers for reuse: released vertex and index buffers wait,
//! by capacity, until a later draw needs a buffer at least as large.
//!
//! Usages are `wgpu::BufferUsages` bit sets, held as their `u32` bits; the
//! buffer itself is whatever the caller stores with its bookkeeping.

use std::collections::BTreeMap;
use vstd::prelude::*;

verus! {

broadcast use {vstd::std_specs::btree::group_btree_axioms, vstd::laws_cmp::group_laws_cmp};

/// `wgpu::BufferUsages::COPY_DST` (`1 << 3` in `wgpu-types`).
#[verifier::external_body]
fn copy_dst_usage() -> (bits: u32)
    ensures
        bits == 8,
{
    wgpu::BufferUsages::COPY_DST.bits()
}

/// `wgpu::BufferUsages::INDEX` (`1 << 4` in `wgpu-types`).
#[verifier::external_body]
fn index_usage() -> (bits: u32)
    ensures
        bits == 16,
{
    wgpu::BufferUsages::INDEX.bits()
}

/// `wgpu::BufferUsages::VERTEX` (`1 << 5` in `wgpu-types`).
#[verifier::external_body]
fn vertex_usage() -> (bits: u32)
    ensures
        bits == 32,
{
    wgpu::BufferUsages::VERTEX.bits()
}

/// The smallest key of `map` that is at least `capacity`: the keys come out
/// of the map in increasing order, and the first one large enough is taken.
fn first_key_at_least<V>(map: &BTreeMap<u64, V>, capacity: u64) -> (key: Option<u64>)
    ensures
        match key {
            Some(k) => map@.contains_key(k) && capacity <= k && forall|j: u64|
                #[trigger] map@.contains_key(j) && capacity <= j ==> k <= j,
            None => forall|j: u64| #[trigger] map@.contains_key(j) ==> j < capacity,
        },
{
    let keys = map.keys();
    let ghost all = vstd::std_specs::iter::IteratorSpec::remaining(&keys);
    for k in it: keys
        invariant
            all == it.seq(),
            all.unref().to_set() == map@.dom(),
            vstd::std_specs::btree::increasing_seq(all),
            forall|i: int| 0 <= i < it.index() ==> *#[trigger] all[i] < capacity,
    {
        if *k >= capacity {
            proof {
                let here = it.index();
                assert(all.unref()[here] == *k);
                assert(map@.contains_key(*k));
                assert(vstd::laws_cmp::obeys_cmp::<&u64>());
                assert forall|j: u64| #[trigger] map@.contains_key(j) && capacity <= j implies *k <= j by {
                    assert(all.unref().contains(j));
                    let m = choose|m: int| 0 <= m < all.unref().len() && all.unref()[m] == j;
                    assert(*all[m] == j);
                    if m < here {
                        assert(*all[m] < capacity);
                    } else if m > here {
                        assert(vstd::std_specs::cmp::OrdSpec::cmp_spec(&all[here], &all[m]) is Less);
                    }
                }
            }
            return Some(*k);
        }
    }
    proof {
        assert forall|j: u64| #[trigger] map@.contains_key(j) implies j < capacity by {
            assert(all.unref().contains(j));
            let m = choose|m: int| 0 <= m < all.unref().len() && all.unref()[m] == j;
            assert(*all[m] == j);
        }
    }
    None
}

/// Every usage set contains the bits of `flag`.
pub open spec fn has_usage(usage: u32, flag: u32) -> bool {
    usage & flag == flag
}

/// The pool a buffer of this usage goes to: vertex buffers first, then index
/// buffers; `None` for the others.
pub open spec fn pool_kind(usage: u32) -> Option<bool> {
    if has_usage(usage, 32) {
        Some(true)
    } else if has_usage(usage, 16) {
        Some(false)
    } else {
        None
    }
}

/// A buffer with its usage, the size it was made with, and the size of what it
/// holds now.
pub struct ReusableBuffer<B> {
    pub buffer: B,
    pub usage: u32,
    pub max_size: u64,
    pub current_size: u64,
}

impl<B> ReusableBuffer<B> {
    /// A buffer just made, holding `size` bytes.
    pub fn new(buffer: B, usage: u32, size: u64) -> (reusable: Self)
        ensures
            reusable.buffer == buffer,
            reusable.usage == usage,
            reusable.max_size == size,
            reusable.current_size == size,
    {
        ReusableBuffer { buffer, usage, max_size: size, current_size: size }
    }

    /// Notes that the buffer now holds `size` bytes.
    pub fn update(&mut self, size: u64)
        ensures
            final(self).current_size == size,
            final(self).max_size == old(self).max_size,
            final(self).usage == old(self).usage,
            final(self).buffer == old(self).buffer,
    {
        self.current_size = size;
    }
}

/// The usage a new buffer is made with: the usage asked for, writable so that
/// it can be reused.
pub fn reusable_usage(usage: u32) -> (bits: u32)
    ensures
        bits == usage | 8,
{
    usage | copy_dst_usage()
}

/// Released buffers by capacity: one pool for vertex buffers, one for index
/// buffers.
pub struct BufferCache<B> {
    pub vertex_map: BTreeMap<u64, Vec<ReusableBuffer<B>>>,
    pub index_map: BTreeMap<u64, Vec<ReusableBuffer<B>>>,
}

/// Each key of a pool holds at least one buffer, every one of that capacity,
/// writable, and of the pool's kind.
pub open spec fn pool_wf<B>(pool: Map<u64, Vec<ReusableBuffer<B>>>, vertex: bool) -> bool {
    forall|k: u64|
        #[trigger] pool.contains_key(k) ==> pool[k]@.len() > 0 && forall|i: int|
            0 <= i < pool[k]@.len() ==> {
                let b = #[trigger] pool[k]@[i];
                &&& b.max_size == k
                &&& b.usage & 8 != 0
                &&& pool_kind(b.usage) == Some(vertex)
            }
}

/// The smallest capacity of `pool` that is at least `capacity`, if any.
pub open spec fn best_fit<B>(pool: Map<u64, Vec<ReusableBuffer<B>>>, capacity: u64) -> Option<u64> {
    if exists|k: u64| #[trigger] pool.contains_key(k) && capacity <= k {
        Some(
            choose|k: u64|
                #[trigger] pool.contains_key(k) && capacity <= k && forall|j: u64|
                    #[trigger] pool.contains_key(j) && capacity <= j ==> k <= j,
        )
    } else {
        None
    }
}

impl<B> BufferCache<B> {
    pub open spec fn wf(&self) -> bool {
        pool_wf(self.vertex_map@, true) && pool_wf(self.index_map@, false)
    }

    /// The pool for one kind: vertex buffers when `vertex`, else index ones.
    pub open spec fn pool(&self, vertex: bool) -> Map<u64, Vec<ReusableBuffer<B>>> {
        if vertex {
            self.vertex_map@
        } else {
            self.index_map@
        }
    }

    pub fn new() -> (cache: Self)
        ensures
            cache.wf(),
            cache.vertex_map@ == Map::<u64, Vec<ReusableBuffer<B>>>::empty(),
            cache.index_map@ == Map::<u64, Vec<ReusableBuffer<B>>>::empty(),
    {
        BufferCache { vertex_map: BTreeMap::new(), index_map: BTreeMap::new() }
    }

    /// Takes out of the pool for `usage` a buffer of the smallest capacity
    /// that holds `capacity` bytes; `None` when there is no such buffer, or
    /// no pool for that usage.
    pub fn take_buffer(&mut self, capacity: u64, usage: u32) -> (taken: Option<ReusableBuffer<B>>)
        requires
            old(self).wf(),
        ensures
            final(self).wf(),
            taken matches Some(b) ==> capacity <= b.max_size && b.usage & 8 != 0 && pool_kind(b.usage)
                == pool_kind(usage),
            match pool_kind(usage) {
                None => taken is None && final(self).vertex_map@ == old(self).vertex_map@
                    && final(self).index_map@ == old(self).index_map@,
                Some(vertex) => {
                    &&& final(self).pool(!vertex) == old(self).pool(!vertex)
                    &&& match best_fit(old(self).pool(vertex), capacity) {
                        None => taken is None && final(self).pool(vertex) == old(self).pool(vertex),
                        Some(k) => {
                            let before = old(self).pool(vertex)[k]@;
                            &&& taken == Some(before.last())
                            &&& final(self).pool(vertex).dom() == if before.len() == 1 {
                                old(self).pool(vertex).dom().remove(k)
                            } else {
                                old(self).pool(vertex).dom()
                            }
                            &&& before.len() > 1 ==> final(self).pool(vertex)[k]@ == before.drop_last()
                            &&& forall|j: u64|
                                j != k && #[trigger] old(self).pool(vertex).contains_key(j)
                                    ==> final(self).pool(vertex)[j] == old(self).pool(vertex)[j]
                        },
                    }
                },
            },
    {
        let vertex = vertex_usage();
        let index = index_usage();
        if usage & vertex == vertex {
            Self::take_from(&mut self.vertex_map, capacity, Ghost(true))
        } else if usage & index == index {
            Self::take_from(&mut self.index_map, capacity, Ghost(false))
        } else {
            None
        }
    }

    fn take_from(map: &mut BTreeMap<u64, Vec<ReusableBuffer<B>>>, capacity: u64, Ghost(vertex): Ghost<bool>) -> (taken: Option<ReusableBuffer<B>>)
        requires
            pool_wf(old(map)@, vertex),
        ensures
            pool_wf(final(map)@, vertex),
            taken matches Some(b) ==> capacity <= b.max_size && b.usage & 8 != 0 && pool_kind(b.usage)
                == Some(vertex),
            match best_fit(old(map)@, capacity) {
                None => taken is None && final(map)@ == old(map)@,
                Some(k) => {
                    let before = old(map)@[k]@;
                    &&& taken == Some(before.last())
                    &&& final(map)@.dom() == if before.len() == 1 {
                        old(map)@.dom().remove(k)
                    } else {
                        old(map)@.dom()
                    }
                    &&& before.len() > 1 ==> final(map)@[k]@ == before.drop_last()
                    &&& forall|j: u64| j != k && #[trigger] old(map)@.contains_key(j) ==> final(map)@[j] == old(map)@[j]
                },
            },
    {
        let key = first_key_at_least(map, capacity);
        match key {
            Some(k) => {
                proof {
                    assert(best_fit(old(map)@, capacity) == Some(k));
                }
                let removed = map.remove(&k);
                match removed {
                    Some(mut buffers) => {
                        let ghost before = buffers@;
                        proof {
                            assert(old(map)@.contains_key(k));
                            assert(before.len() > 0);
                            let last = before[before.len() - 1];
                            assert(last == old(map)@[k]@[before.len() - 1]);
                        }
                        let buffer = buffers.pop();
                        if buffers.len() > 0 {
                            map.insert(k, buffers);
                        }
                        proof {
                            if before.len() == 1 {
                                assert(map@.dom() =~= old(map)@.dom().remove(k));
                            } else {
                                assert(map@.dom() =~= old(map)@.dom());
                            }
                        }
                        buffer
                    },
                    None => None,
                }
            },
            None => {
                proof {
                    assert(best_fit(old(map)@, capacity) is None);
                }
                None
            },
        }
    }

    /// Keeps a writable vertex or index buffer for reuse, by its capacity;
    /// any other buffer is dropped.
    pub fn release_buffer(&mut self, buffer: ReusableBuffer<B>)
        requires
            old(self).wf(),
        ensures
            final(self).wf(),
            ({
                let k = buffer.max_size;
                let kept = buffer.usage & 8 != 0 && pool_kind(buffer.usage) is Some;
                let vertex = pool_kind(buffer.usage) == Some(true);
                if kept {
                    &&& final(self).pool(!vertex) == old(self).pool(!vertex)
                    &&& final(self).pool(vertex).dom() == old(self).pool(vertex).dom().insert(k)
                    &&& final(self).pool(vertex)[k]@ == if old(self).pool(vertex).contains_key(k) {
                        old(self).pool(vertex)[k]@.push(buffer)
                    } else {
                        seq![buffer]
                    }
                    &&& forall|j: u64|
                        j != k && #[trigger] old(self).pool(vertex).contains_key(j)
                            ==> final(self).pool(vertex)[j] == old(self).pool(vertex)[j]
                } else {
                    final(self).vertex_map@ == old(self).vertex_map@ && final(self).index_map@ == old(self).index_map@
                }
            }),
    {
        let copy_dst = copy_dst_usage();
        if buffer.usage & copy_dst == 0 {
            return;
        }
        let vertex = vertex_usage();
        let index = index_usage();
        if buffer.usage & vertex == vertex {
            Self::keep_in(&mut self.vertex_map, buffer, Ghost(true));
        } else if buffer.usage & index == index {
            Self::keep_in(&mut self.index_map, buffer, Ghost(false));
        }
    }

    fn keep_in(map: &mut BTreeMap<u64, Vec<ReusableBuffer<B>>>, buffer: ReusableBuffer<B>, Ghost(vertex): Ghost<bool>)
        requires
            pool_wf(old(map)@, vertex),
            buffer.usage & 8 != 0,
            pool_kind(buffer.usage) == Some(vertex),
        ensures
            pool_wf(final(map)@, vertex),
            final(map)@.dom() == old(map)@.dom().insert(buffer.max_size),
            final(map)@[buffer.max_size]@ == if old(map)@.contains_key(buffer.max_size) {
                old(map)@[buffer.max_size]@.push(buffer)
            } else {
                seq![buffer]
            },
            forall|j: u64|
                j != buffer.max_size && #[trigger] old(map)@.contains_key(j) ==> final(map)@[j] == old(map)@[j],
    {
        let key = buffer.max_size;
        let removed = map.remove(&key);
        match removed {
            Some(mut buffers) => {
                buffers.push(buffer);
                map.insert(key, buffers);
            },
            None => {
                let mut buffers: Vec<ReusableBuffer<B>> = Vec::new();
                buffers.push(buffer);
                map.insert(key, buffers);
            },
        }
        proof {
            assert(map@.dom() =~= old(map)@.dom().insert(key));
        }
    }

    /// Forgets every buffer.
    pub fn clear(&mut self)
        ensures
            final(self).wf(),
            final(self).vertex_map@ == Map::<u64, Vec<ReusableBuffer<B>>>::empty(),
            final(self).index_map@ == Map::<u64, Vec<ReusableBuffer<B>>>::empty(),
    {
        self.vertex_map.clear();
        self.index_map.clear();
    }
}

/// A buffer released into an empty pool is the one handed back to the next
/// request that it is large enough for.
pub proof fn law_released_buffer_is_reused<B>(pool: Map<u64, Vec<ReusableBuffer<B>>>, buffer: ReusableBuffer<B>, capacity: u64)
    requires
        pool.dom() == set![buffer.max_size],
        pool[buffer.max_size]@ == seq![buffer],
        capacity <= buffer.max_size,
    ensures
        best_fit(pool, capacity) == Some(buffer.max_size),
        pool[buffer.max_size]@.last() == buffer,
{
    assert(pool.contains_key(buffer.max_size));
}

} // verus!
