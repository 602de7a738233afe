use vstd::prelude::*;

use crate::memory_chunk::{
    disjoint, lemma_empty_fits_at_start, lemma_free_last_restores, lemma_lowest_fit_fits,
    lemma_lowest_fit_same_ranges, lemma_with_allocation_wf, ChunkModel, VEMemoryChunk,
    VEMemoryChunkError, VESingleAllocation,
};

verus! {

/// Why a request to the pool manager was refused.
#[derive(Clone, Copy, Debug, PartialEq, Eq, Structural)]
pub enum VEMemoryManagerError {
    NoAllocationFoundToMap,
    NoAllocationFoundToUnmap,
    NoAllocationFoundToFree,
    MemoryAlreadyMapped,
    MappingFailed(VEMemoryChunkError),
}

/// What the pool is: its chunks in creation order, the last chunk identifier
/// issued, whether a mapping is active, and the capacity of a new chunk.
pub struct ManagerModel {
    pub chunks: Seq<ChunkModel>,
    pub identifier_counter: u64,
    pub mapped: bool,
    pub chunk_capacity: u64,
}

/// The first chunk at or after position `i` of memory type `t` in which `size`
/// bytes fit, with the first-fit offset inside it.
pub open spec fn first_fit_from(chunks: Seq<ChunkModel>, t: u32, size: u64, i: int) -> Option<(int, int)>
    decreases chunks.len() - i,
{
    if i < 0 || i >= chunks.len() {
        None
    } else if chunks[i].memory_type_index == t && chunks[i].lowest_fit(size as int) is Some {
        Some((i, chunks[i].lowest_fit(size as int).unwrap()))
    } else {
        first_fit_from(chunks, t, size, i + 1)
    }
}

/// The capacity given to a chunk created for a request of `size` bytes.
pub open spec fn spec_new_chunk_capacity(chunk_capacity: u64, size: u64) -> u64 {
    if size > chunk_capacity {
        size
    } else {
        chunk_capacity
    }
}

impl ManagerModel {
    /// Every chunk is well formed; identifiers increase along the list, are
    /// positive, and none exceeds the last one issued.
    pub open spec fn wf(self) -> bool {
        &&& forall|i: int| 0 <= i < self.chunks.len() ==> (#[trigger] self.chunks[i]).wf()
        &&& forall|i: int, j: int|
            0 <= i < j < self.chunks.len() ==> (#[trigger] self.chunks[i]).chunk_identifier
                < (#[trigger] self.chunks[j]).chunk_identifier
        &&& forall|i: int|
            0 <= i < self.chunks.len() ==> 1 <= (#[trigger] self.chunks[i]).chunk_identifier
                <= self.identifier_counter
    }

    /// Some chunk carries the identifier `cid`.
    pub open spec fn has_chunk(self, cid: u64) -> bool {
        exists|i: int| 0 <= i < self.chunks.len() && (#[trigger] self.chunks[i]).chunk_identifier == cid
    }

    /// The position of the chunk that carries `cid`.
    pub open spec fn chunk_index(self, cid: u64) -> int {
        choose|i: int| 0 <= i < self.chunks.len() && (#[trigger] self.chunks[i]).chunk_identifier == cid
    }

    /// The handle `a` names a live sub-allocation of the pool.
    pub open spec fn is_live(self, a: VESingleAllocation) -> bool {
        self.has_chunk(a.chunk_identifier) && self.chunks[self.chunk_index(
            a.chunk_identifier,
        )].holds(a.alloc_identifier)
    }

    /// The pool and the result after binding `size` bytes of memory type `t`;
    /// `new_chunk_allocated` tells whether the device provided the memory of a
    /// new chunk, in case no existing chunk can hold the request.
    pub open spec fn after_bind(self, t: u32, size: u64, new_chunk_allocated: bool) -> (
        ManagerModel,
        Result<VESingleAllocation, VEMemoryChunkError>,
    ) {
        match first_fit_from(self.chunks, t, size, 0) {
            Some((i, off)) => {
                let c = self.chunks[i];
                if c.alloc_counter == u64::MAX {
                    (self, Err(VEMemoryChunkError::BindFailed))
                } else {
                    let a = VESingleAllocation {
                        chunk_identifier: c.chunk_identifier,
                        alloc_identifier: c.alloc_counter,
                        offset: off as u64,
                        size,
                    };
                    (ManagerModel { chunks: self.chunks.update(i, c.with_allocation(a)), ..self }, Ok(a))
                }
            },
            None => {
                if !new_chunk_allocated || self.identifier_counter == u64::MAX {
                    (self, Err(VEMemoryChunkError::ChunkCreationFailed))
                } else {
                    let id = (self.identifier_counter + 1) as u64;
                    let c = ChunkModel {
                        chunk_identifier: id,
                        memory_type_index: t,
                        capacity: spec_new_chunk_capacity(self.chunk_capacity, size),
                        alloc_counter: 0,
                        allocations: Seq::empty(),
                    };
                    let a = VESingleAllocation { chunk_identifier: id, alloc_identifier: 0, offset: 0, size };
                    (
                        ManagerModel {
                            chunks: self.chunks.push(c.with_allocation(a)),
                            identifier_counter: id,
                            ..self
                        },
                        Ok(a),
                    )
                }
            },
        }
    }

    /// The pool and the result after mapping the allocation `a`.
    pub open spec fn after_map(self, a: VESingleAllocation) -> (ManagerModel, Result<(), VEMemoryManagerError>) {
        if self.mapped {
            (self, Err(VEMemoryManagerError::MemoryAlreadyMapped))
        } else if self.has_chunk(a.chunk_identifier) {
            (ManagerModel { mapped: true, ..self }, Ok(()))
        } else {
            (self, Err(VEMemoryManagerError::NoAllocationFoundToMap))
        }
    }

    /// The pool and the result after unmapping the allocation `a`.
    pub open spec fn after_unmap(self, a: VESingleAllocation) -> (ManagerModel, Result<(), VEMemoryManagerError>) {
        if self.has_chunk(a.chunk_identifier) {
            (ManagerModel { mapped: false, ..self }, Ok(()))
        } else {
            (self, Err(VEMemoryManagerError::NoAllocationFoundToUnmap))
        }
    }

    /// The pool and the result after freeing the allocation `a`.
    pub open spec fn after_free(self, a: VESingleAllocation) -> (ManagerModel, Result<(), VEMemoryManagerError>) {
        if self.is_live(a) {
            let i = self.chunk_index(a.chunk_identifier);
            (
                ManagerModel {
                    chunks: self.chunks.update(i, self.chunks[i].without_allocation(a.alloc_identifier)),
                    ..self
                },
                Ok(()),
            )
        } else {
            (self, Err(VEMemoryManagerError::NoAllocationFoundToFree))
        }
    }
}

/// Identifiers increase along a well-formed pool, so the chunk found at `i`
/// is the one that `chunk_index` names.
pub proof fn lemma_chunk_index(m: ManagerModel, i: int)
    requires
        m.wf(),
        0 <= i < m.chunks.len(),
    ensures
        m.has_chunk(m.chunks[i].chunk_identifier),
        m.chunk_index(m.chunks[i].chunk_identifier) == i,
{
    let cid = m.chunks[i].chunk_identifier;
    assert(0 <= i < m.chunks.len() && m.chunks[i].chunk_identifier == cid);
    let k = m.chunk_index(cid);
    if k < i {
        assert(m.chunks[k].chunk_identifier < m.chunks[i].chunk_identifier);
    } else if i < k {
        assert(m.chunks[i].chunk_identifier < m.chunks[k].chunk_identifier);
    }
}

/// A first fit found from position `i` is a well-placed chunk of type `t`.
pub proof fn lemma_first_fit_from(chunks: Seq<ChunkModel>, t: u32, size: u64, i: int)
    requires
        0 <= i,
    ensures
        match first_fit_from(chunks, t, size, i) {
            Some((k, off)) => i <= k < chunks.len() && chunks[k].memory_type_index == t
                && chunks[k].lowest_fit(size as int) == Some(off) && forall|p: int|
                i <= p < k && (#[trigger] chunks[p]).memory_type_index == t ==> chunks[p].lowest_fit(
                size as int,
            ) is None,
            None => forall|k: int|
                i <= k < chunks.len() && (#[trigger] chunks[k]).memory_type_index == t
                    ==> chunks[k].lowest_fit(size as int) is None,
        },
    decreases chunks.len() - i,
{
    if i < chunks.len() {
        lemma_first_fit_from(chunks, t, size, i + 1);
    }
}

/// The chunk at `k` is the first of type `t` from position `i` in which
/// `size` bytes fit, so the first fit from `i` is found there.
pub proof fn lemma_first_fit_found(chunks: Seq<ChunkModel>, t: u32, size: u64, i: int, k: int)
    requires
        0 <= i <= k < chunks.len(),
        chunks[k].memory_type_index == t,
        chunks[k].lowest_fit(size as int) is Some,
        forall|p: int|
            i <= p < k && (#[trigger] chunks[p]).memory_type_index == t ==> chunks[p].lowest_fit(
                size as int,
            ) is None,
    ensures
        first_fit_from(chunks, t, size, i) == Some((k, chunks[k].lowest_fit(size as int).unwrap())),
    decreases k - i,
{
    if i < k {
        lemma_first_fit_found(chunks, t, size, i + 1, k);
    }
}

/// A bind, whatever its outcome, leaves a well-formed pool well formed.
pub proof fn lemma_after_bind_wf(m: ManagerModel, t: u32, size: u64, new_chunk_allocated: bool)
    requires
        m.wf(),
    ensures
        m.after_bind(t, size, new_chunk_allocated).0.wf(),
{
    let m2 = m.after_bind(t, size, new_chunk_allocated).0;
    lemma_first_fit_from(m.chunks, t, size, 0);
    match first_fit_from(m.chunks, t, size, 0) {
        Some((i, off)) => {
            let c = m.chunks[i];
            if c.alloc_counter != u64::MAX {
                lemma_lowest_fit_fits(c, size as int);
                assert(c.wf());
                let a = VESingleAllocation {
                    chunk_identifier: c.chunk_identifier,
                    alloc_identifier: c.alloc_counter,
                    offset: off as u64,
                    size,
                };
                lemma_with_allocation_wf(c, a);
                assert forall|p: int, q: int| 0 <= p < q < m2.chunks.len() implies (#[trigger] m2.chunks[p]).chunk_identifier
                    < (#[trigger] m2.chunks[q]).chunk_identifier by {
                    assert(m.chunks[p].chunk_identifier < m.chunks[q].chunk_identifier);
                }
                assert forall|p: int| 0 <= p < m2.chunks.len() implies (#[trigger] m2.chunks[p]).wf() && 1
                    <= m2.chunks[p].chunk_identifier <= m2.identifier_counter by {
                    assert(m.chunks[p].wf());
                }
            }
        },
        None => {
            if new_chunk_allocated && m.identifier_counter != u64::MAX {
                let id = (m.identifier_counter + 1) as u64;
                let c = ChunkModel {
                    chunk_identifier: id,
                    memory_type_index: t,
                    capacity: spec_new_chunk_capacity(m.chunk_capacity, size),
                    alloc_counter: 0,
                    allocations: Seq::empty(),
                };
                let a = VESingleAllocation { chunk_identifier: id, alloc_identifier: 0, offset: 0, size };
                assert(c.fits(0, size as int));
                lemma_with_allocation_wf(c, a);
                let n = m.chunks.len() as int;
                assert forall|p: int, q: int| 0 <= p < q < m2.chunks.len() implies (#[trigger] m2.chunks[p]).chunk_identifier
                    < (#[trigger] m2.chunks[q]).chunk_identifier by {
                    if q < n {
                        assert(m.chunks[p].chunk_identifier < m.chunks[q].chunk_identifier);
                    } else {
                        assert(m.chunks[p].chunk_identifier <= m.identifier_counter);
                    }
                }
                assert forall|p: int| 0 <= p < m2.chunks.len() implies (#[trigger] m2.chunks[p]).wf() && 1
                    <= m2.chunks[p].chunk_identifier <= m2.identifier_counter by {
                    if p < n {
                        assert(m.chunks[p].wf());
                    }
                }
            }
        },
    }
}

/// The pool after binding each request of `reqs` in turn; a request is a
/// memory type, a size, and whether the device allocated a new chunk.
pub open spec fn after_binds(m: ManagerModel, reqs: Seq<(u32, u64, bool)>) -> ManagerModel
    decreases reqs.len(),
{
    if reqs.len() == 0 {
        m
    } else {
        after_binds(m.after_bind(reqs[0].0, reqs[0].1, reqs[0].2).0, reqs.drop_first())
    }
}

/// Whatever sequence of binds is made, no two live allocations of one chunk
/// share a byte.
pub proof fn lemma_binds_never_overlap(m: ManagerModel, reqs: Seq<(u32, u64, bool)>)
    requires
        m.wf(),
    ensures
        after_binds(m, reqs).wf(),
        forall|i: int, j: int, k: int|
            0 <= i < after_binds(m, reqs).chunks.len() && 0 <= j < after_binds(m, reqs).chunks[i].allocations.len()
                && 0 <= k < after_binds(m, reqs).chunks[i].allocations.len() && j != k ==> disjoint(
                #[trigger] after_binds(m, reqs).chunks[i].allocations[j],
                #[trigger] after_binds(m, reqs).chunks[i].allocations[k],
            ),
    decreases reqs.len(),
{
    if reqs.len() > 0 {
        lemma_after_bind_wf(m, reqs[0].0, reqs[0].1, reqs[0].2);
        lemma_binds_never_overlap(m.after_bind(reqs[0].0, reqs[0].1, reqs[0].2).0, reqs.drop_first());
    }
    let r = after_binds(m, reqs);
    assert forall|i: int, j: int, k: int|
        0 <= i < r.chunks.len() && 0 <= j < r.chunks[i].allocations.len() && 0 <= k
            < r.chunks[i].allocations.len() && j != k implies disjoint(
        #[trigger] r.chunks[i].allocations[j],
        #[trigger] r.chunks[i].allocations[k],
    ) by {
        assert(r.chunks[i].wf());
    }
}

/// Binding `size` bytes, freeing them, and binding `size` bytes of the same
/// memory type again lands in the same chunk at the same offset, as long as
/// that chunk can still mint an allocation identifier.
pub proof fn lemma_rebind_after_free_reuses_offset(
    m: ManagerModel,
    t: u32,
    size: u64,
    first_chunk_allocated: bool,
    second_chunk_allocated: bool,
)
    requires
        m.wf(),
        m.after_bind(t, size, first_chunk_allocated).1 is Ok,
        m.after_bind(t, size, first_chunk_allocated).1.unwrap().alloc_identifier + 1 < u64::MAX,
    ensures
        ({
            let (m1, r1) = m.after_bind(t, size, first_chunk_allocated);
            let a = r1.unwrap();
            let (m2, r2) = m1.after_free(a);
            let (m3, r3) = m2.after_bind(t, size, second_chunk_allocated);
            &&& r2 is Ok
            &&& r3 is Ok
            &&& r3.unwrap().chunk_identifier == a.chunk_identifier
            &&& r3.unwrap().offset == a.offset
            &&& r3.unwrap().size == size
        }),
{
    let (m1, r1) = m.after_bind(t, size, first_chunk_allocated);
    let a = r1.unwrap();
    lemma_after_bind_wf(m, t, size, first_chunk_allocated);
    lemma_first_fit_from(m.chunks, t, size, 0);
    let n = m.chunks.len() as int;
    let (i, c) = match first_fit_from(m.chunks, t, size, 0) {
        Some((i, off)) => (i, m.chunks[i]),
        None => (
            n,
            ChunkModel {
                chunk_identifier: a.chunk_identifier,
                memory_type_index: t,
                capacity: spec_new_chunk_capacity(m.chunk_capacity, size),
                alloc_counter: 0,
                allocations: Seq::empty(),
            },
        ),
    };
    assert(m1.chunks[i] == c.with_allocation(a));
    assert(c.wf());
    lemma_chunk_index(m1, i);
    lemma_free_last_restores(c, a);
    let (m2, r2) = m1.after_free(a);
    assert(m1.is_live(a));
    let c2 = m2.chunks[i];
    assert(c2 == c.with_allocation(a).without_allocation(a.alloc_identifier));
    assert(c2.allocations == c.allocations);
    lemma_lowest_fit_same_ranges(c, c2, size as int);
    if i < n {
        lemma_first_fit_found(m2.chunks, t, size, 0, i);
    } else {
        lemma_empty_fits_at_start(c, size as int);
        assert forall|p: int| 0 <= p < i && (#[trigger] m2.chunks[p]).memory_type_index == t implies m2.chunks[p].lowest_fit(
            size as int,
        ) is None by {
            assert(m2.chunks[p] == m.chunks[p]);
        }
        lemma_first_fit_found(m2.chunks, t, size, 0, i);
    }
}

/// Once a map has succeeded, the pool is mapped, and a second map of any
/// allocation is refused as already mapped; a map succeeds only on an
/// unmapped pool.
pub proof fn lemma_second_map_refused(m: ManagerModel, a: VESingleAllocation, b: VESingleAllocation)
    ensures
        m.after_map(a).1 is Ok ==> !m.mapped && m.after_map(a).0.mapped,
        m.after_map(a).1 is Ok ==> m.after_map(a).0.after_map(b).1 == Err::<(), VEMemoryManagerError>(
            VEMemoryManagerError::MemoryAlreadyMapped,
        ),
{
}

/// An unmap after a successful map clears the mapped state, after which a
/// map of any allocation whose chunk exists succeeds.
pub proof fn lemma_unmap_clears_mapping(m: ManagerModel, a: VESingleAllocation, b: VESingleAllocation)
    requires
        m.after_map(a).1 is Ok,
        m.has_chunk(b.chunk_identifier),
    ensures
        ({
            let (m1, _) = m.after_map(a);
            let (m2, r2) = m1.after_unmap(a);
            &&& r2 is Ok
            &&& !m2.mapped
            &&& m2.after_map(b).1 is Ok
        }),
{
}

/// A handle whose chunk identifier was never issued (zero, or above the last
/// identifier issued) is not found by free or unmap, nor by map while no
/// mapping is active.
pub proof fn lemma_unissued_chunk_not_found(m: ManagerModel, a: VESingleAllocation)
    requires
        m.wf(),
        a.chunk_identifier == 0 || a.chunk_identifier > m.identifier_counter,
    ensures
        m.after_free(a) == (m, Err::<(), VEMemoryManagerError>(VEMemoryManagerError::NoAllocationFoundToFree)),
        m.after_unmap(a) == (m, Err::<(), VEMemoryManagerError>(VEMemoryManagerError::NoAllocationFoundToUnmap)),
        !m.mapped ==> m.after_map(a) == (m, Err::<(), VEMemoryManagerError>(VEMemoryManagerError::NoAllocationFoundToMap)),
{
    if m.has_chunk(a.chunk_identifier) {
        let i = m.chunk_index(a.chunk_identifier);
        assert(m.chunks[i].chunk_identifier == a.chunk_identifier);
    }
}

/// A request larger than every chunk of its memory type either creates a new
/// chunk that holds it, bound at offset 0, or fails as a chunk creation failure.
pub proof fn lemma_oversized_bind_creates_chunk(m: ManagerModel, t: u32, size: u64, new_chunk_allocated: bool)
    requires
        m.wf(),
        forall|i: int|
            0 <= i < m.chunks.len() && (#[trigger] m.chunks[i]).memory_type_index == t ==> m.chunks[i].capacity
                < size,
    ensures
        ({
            let (m1, r) = m.after_bind(t, size, new_chunk_allocated);
            match r {
                Ok(a) => {
                    &&& m1.chunks.len() == m.chunks.len() + 1
                    &&& m1.chunks.last().chunk_identifier == a.chunk_identifier
                    &&& m1.chunks.last().memory_type_index == t
                    &&& m1.chunks.last().capacity >= size
                    &&& a.offset == 0
                },
                Err(e) => e == VEMemoryChunkError::ChunkCreationFailed && m1 == m,
            }
        }),
{
    lemma_first_fit_from(m.chunks, t, size, 0);
    if let Some((i, off)) = first_fit_from(m.chunks, t, size, 0) {
        lemma_lowest_fit_fits(m.chunks[i], size as int);
    }
}

/// The pool of chunks, grouped by memory type, and the one global mapping slot.
pub struct VEMemoryManager {
    chunks: Vec<VEMemoryChunk>,
    identifier_counter: u64,
    mapped: bool,
    chunk_capacity: u64,
}

impl View for VEMemoryManager {
    type V = ManagerModel;

    closed spec fn view(&self) -> ManagerModel {
        ManagerModel {
            chunks: self.chunks@.map_values(|c: VEMemoryChunk| c@),
            identifier_counter: self.identifier_counter,
            mapped: self.mapped,
            chunk_capacity: self.chunk_capacity,
        }
    }
}

impl VEMemoryManager {
    /// An empty pool whose new chunks hold `chunk_capacity` bytes, or the size
    /// of the request that creates them when that is larger.
    pub fn new(chunk_capacity: u64) -> (r: VEMemoryManager)
        ensures
            r@ == (ManagerModel { chunks: Seq::empty(), identifier_counter: 0, mapped: false, chunk_capacity }),
            r@.wf(),
    {
        let r = VEMemoryManager { chunks: Vec::new(), identifier_counter: 0, mapped: false, chunk_capacity };
        assert(r@.chunks =~= Seq::<ChunkModel>::empty());
        r
    }

    /// Whether a mapping is active.
    pub fn is_mapped(&self) -> (r: bool)
        ensures
            r == self@.mapped,
    {
        self.mapped
    }

    /// The number of chunks in the pool, over all memory types.
    pub fn chunk_count(&self) -> (r: usize)
        ensures
            r == self@.chunks.len(),
    {
        self.chunks.len()
    }

    /// The capacity that a chunk created for `size` bytes gets.
    pub fn new_chunk_capacity(&self, size: u64) -> (r: u64)
        ensures
            r == spec_new_chunk_capacity(self@.chunk_capacity, size),
    {
        if size > self.chunk_capacity {
            size
        } else {
            self.chunk_capacity
        }
    }

    /// First fit across the chunks of type `t`: the position of the chunk
    /// and the offset in it, or `None` when a new chunk is needed.
    fn find_free_position(&self, t: u32, size: u64) -> (r: Option<(usize, u64)>)
        requires
            self@.wf(),
        ensures
            match r {
                Some((i, off)) => first_fit_from(self@.chunks, t, size, 0) == Some((i as int, off as int)),
                None => first_fit_from(self@.chunks, t, size, 0) is None,
            },
    {
        let ghost m = self@;
        let mut i: usize = 0;
        while i < self.chunks.len()
            invariant
                0 <= i <= self.chunks@.len(),
                m == self@,
                m.wf(),
                first_fit_from(m.chunks, t, size, 0) == first_fit_from(m.chunks, t, size, i as int),
            decreases self.chunks@.len() - i,
        {
            assert(m.chunks[i as int] == self.chunks@[i as int]@);
            assert(m.chunks[i as int].wf());
            if self.chunks[i].memory_type_index == t {
                match self.chunks[i].find_free_memory_offset(size) {
                    Some(off) => {
                        return Some((i, off));
                    },
                    None => {},
                }
            }
            i = i + 1;
        }
        None
    }

    /// First fit across the chunks of memory type `t`: the identifier of the
    /// chunk and the offset in it at which `size` bytes would be bound, or
    /// `None` when no chunk of that type can hold them and a new chunk is needed.
    pub fn find_free(&self, t: u32, size: u64) -> (r: Option<(u64, u64)>)
        requires
            self@.wf(),
        ensures
            match first_fit_from(self@.chunks, t, size, 0) {
                Some((i, off)) => r == Some((self@.chunks[i].chunk_identifier, off as u64)),
                None => r is None,
            },
    {
        match self.find_free_position(t, size) {
            Some((i, off)) => {
                proof {
                    lemma_first_fit_from(self@.chunks, t, size, 0);
                }
                assert(self@.chunks[i as int] == self.chunks@[i as int]@);
                Some((self.chunks[i].chunk_identifier, off))
            },
            None => None,
        }
    }

    fn bind(&mut self, t: u32, size: u64, new_chunk_allocated: bool) -> (r: Result<VESingleAllocation, VEMemoryChunkError>)
        requires
            old(self)@.wf(),
        ensures
            (final(self)@, r) == old(self)@.after_bind(t, size, new_chunk_allocated),
            final(self)@.wf(),
    {
        let ghost m = self@;
        match self.find_free_position(t, size) {
            Some((i, off)) => {
                proof {
                    lemma_first_fit_from(m.chunks, t, size, 0);
                    assert(m.chunks[i as int] == self.chunks@[i as int]@);
                }
                if self.chunks[i].alloc_counter == u64::MAX {
                    return Err(VEMemoryChunkError::BindFailed);
                }
                let mut chunk = self.chunks.remove(i);
                proof {
                    assert(chunk@.lowest_fit(size as int) == Some(off as int));
                    let c = choose|o: int| chunk@.is_lowest_fit(o, size as int);
                    assert(chunk@.is_lowest_fit(c, size as int));
                }
                let a = chunk.bind(size, off);
                self.chunks.insert(i, chunk);
                proof {
                    let (m2, ra) = m.after_bind(t, size, new_chunk_allocated);
                    assert(self@.chunks =~= m2.chunks);
                    assert forall|p: int, q: int|
                        0 <= p < q < self@.chunks.len() implies (#[trigger] self@.chunks[p]).chunk_identifier
                            < (#[trigger] self@.chunks[q]).chunk_identifier by {
                        assert(m.chunks[p].chunk_identifier < m.chunks[q].chunk_identifier);
                    }
                    assert forall|p: int| 0 <= p < self@.chunks.len() implies (#[trigger] self@.chunks[p]).wf()
                        && 1 <= self@.chunks[p].chunk_identifier <= self@.identifier_counter by {
                        assert(m.chunks[p].wf());
                    }
                }
                Ok(a)
            },
            None => {
                if !new_chunk_allocated || self.identifier_counter == u64::MAX {
                    return Err(VEMemoryChunkError::ChunkCreationFailed);
                }
                self.identifier_counter = self.identifier_counter + 1;
                let capacity = self.new_chunk_capacity(size);
                let mut chunk = VEMemoryChunk::new(self.identifier_counter, t, capacity);
                proof {
                    lemma_empty_fits_at_start(chunk@, size as int);
                    assert(chunk@.fits(0, size as int));
                }
                let a = chunk.bind(size, 0);
                self.chunks.push(chunk);
                proof {
                    let (m2, ra) = m.after_bind(t, size, new_chunk_allocated);
                    assert(self@.chunks =~= m2.chunks);
                    assert forall|p: int, q: int|
                        0 <= p < q < self@.chunks.len() implies (#[trigger] self@.chunks[p]).chunk_identifier
                            < (#[trigger] self@.chunks[q]).chunk_identifier by {
                        if q < m.chunks.len() {
                            assert(m.chunks[p].chunk_identifier < m.chunks[q].chunk_identifier);
                        } else {
                            assert(m.chunks[p].chunk_identifier <= m.identifier_counter);
                        }
                    }
                    assert forall|p: int| 0 <= p < self@.chunks.len() implies (#[trigger] self@.chunks[p]).wf()
                        && 1 <= self@.chunks[p].chunk_identifier <= self@.identifier_counter by {
                        if p < m.chunks.len() {
                            assert(m.chunks[p].wf());
                        }
                    }
                }
                Ok(a)
            },
        }
    }

    /// Binds `size` bytes of memory type `t` for a buffer: at the first fit in
    /// the first chunk of that type that can hold them, or else at offset 0 of
    /// a new chunk, provided the device allocated it (`new_chunk_allocated`).
    /// Fails with `ChunkCreationFailed` when a new chunk is needed and cannot
    /// be had, and with `BindFailed` when the chosen chunk has no allocation
    /// identifier left to mint; a failure leaves the pool as it was.
    pub fn bind_buffer_memory(&mut self, t: u32, size: u64, new_chunk_allocated: bool) -> (r: Result<VESingleAllocation, VEMemoryChunkError>)
        requires
            old(self)@.wf(),
        ensures
            (final(self)@, r) == old(self)@.after_bind(t, size, new_chunk_allocated),
            final(self)@.wf(),
    {
        self.bind(t, size, new_chunk_allocated)
    }

    /// Binds `size` bytes of memory type `t` for an image, by the same rule
    /// as `bind_buffer_memory`.
    pub fn bind_image_memory(&mut self, t: u32, size: u64, new_chunk_allocated: bool) -> (r: Result<VESingleAllocation, VEMemoryChunkError>)
        requires
            old(self)@.wf(),
        ensures
            (final(self)@, r) == old(self)@.after_bind(t, size, new_chunk_allocated),
            final(self)@.wf(),
    {
        self.bind(t, size, new_chunk_allocated)
    }

    /// The position of the chunk that carries `cid`, if any.
    fn chunk_position(&self, cid: u64) -> (r: Option<usize>)
        requires
            self@.wf(),
        ensures
            match r {
                Some(i) => self@.has_chunk(cid) && self@.chunk_index(cid) == i as int,
                None => !self@.has_chunk(cid),
            },
    {
        let mut i: usize = 0;
        while i < self.chunks.len()
            invariant
                0 <= i <= self.chunks@.len(),
                self@.wf(),
                forall|k: int| 0 <= k < i ==> (#[trigger] self@.chunks[k]).chunk_identifier != cid,
            decreases self.chunks@.len() - i,
        {
            assert(self@.chunks[i as int] == self.chunks@[i as int]@);
            if self.chunks[i].chunk_identifier == cid {
                proof {
                    lemma_chunk_index(self@, i as int);
                }
                return Some(i);
            }
            i = i + 1;
        }
        None
    }

    /// Marks the allocation `a` as mapped for host access. Refused while any
    /// mapping is active, and when no chunk carries `a`'s chunk identifier.
    pub fn map(&mut self, a: &VESingleAllocation) -> (r: Result<(), VEMemoryManagerError>)
        requires
            old(self)@.wf(),
        ensures
            (final(self)@, r) == old(self)@.after_map(*a),
            final(self)@.wf(),
    {
        if self.mapped {
            return Err(VEMemoryManagerError::MemoryAlreadyMapped);
        }
        match self.chunk_position(a.chunk_identifier) {
            Some(_) => {
                self.mapped = true;
                Ok(())
            },
            None => Err(VEMemoryManagerError::NoAllocationFoundToMap),
        }
    }

    /// Releases the active mapping; refused when no chunk carries `a`'s chunk
    /// identifier.
    pub fn unmap(&mut self, a: &VESingleAllocation) -> (r: Result<(), VEMemoryManagerError>)
        requires
            old(self)@.wf(),
        ensures
            (final(self)@, r) == old(self)@.after_unmap(*a),
            final(self)@.wf(),
    {
        match self.chunk_position(a.chunk_identifier) {
            Some(_) => {
                self.mapped = false;
                Ok(())
            },
            None => Err(VEMemoryManagerError::NoAllocationFoundToUnmap),
        }
    }

    /// Returns the byte range of `a` to its chunk; refused when `a` is not a
    /// live allocation of the pool.
    pub fn free_allocation(&mut self, a: &VESingleAllocation) -> (r: Result<(), VEMemoryManagerError>)
        requires
            old(self)@.wf(),
        ensures
            (final(self)@, r) == old(self)@.after_free(*a),
            final(self)@.wf(),
    {
        let ghost m = self@;
        match self.chunk_position(a.chunk_identifier) {
            Some(i) => {
                proof {
                    assert(m.chunks[i as int] == self.chunks@[i as int]@);
                    assert(m.chunks[i as int].wf());
                }
                let mut chunk = self.chunks.remove(i);
                let found = chunk.free_allocation(a.alloc_identifier);
                self.chunks.insert(i, chunk);
                proof {
                    let (m2, _) = m.after_free(*a);
                    if found {
                        assert(self@.chunks =~= m2.chunks);
                    } else {
                        assert(self@.chunks =~= m.chunks);
                    }
                    assert forall|p: int, q: int|
                        0 <= p < q < self@.chunks.len() implies (#[trigger] self@.chunks[p]).chunk_identifier
                            < (#[trigger] self@.chunks[q]).chunk_identifier by {
                        assert(m.chunks[p].chunk_identifier < m.chunks[q].chunk_identifier);
                    }
                    assert forall|p: int| 0 <= p < self@.chunks.len() implies (#[trigger] self@.chunks[p]).wf()
                        && 1 <= self@.chunks[p].chunk_identifier <= self@.identifier_counter by {
                        assert(m.chunks[p].wf());
                    }
                }
                if found {
                    Ok(())
                } else {
                    Err(VEMemoryManagerError::NoAllocationFoundToFree)
                }
            },
            None => Err(VEMemoryManagerError::NoAllocationFoundToFree),
        }
    }
}

} // verus!
