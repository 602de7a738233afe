use vstd::prelude::*;

verus! {

/// A sub-allocation carved out of one chunk: which chunk, which allocation
/// within it, and the byte range `[offset, offset + size)` that it occupies.
#[derive(Clone, Copy, Debug, PartialEq, Eq, Structural)]
pub struct VESingleAllocation {
    pub chunk_identifier: u64,
    pub alloc_identifier: u64,
    pub offset: u64,
    pub size: u64,
}

/// Failures of the device-level primitives behind a chunk.
#[derive(Clone, Copy, Debug, PartialEq, Eq, Structural)]
pub enum VEMemoryChunkError {
    ChunkCreationFailed,
    BindFailed,
    MapFailed,
}

/// `[offset, offset + size)` meets the range held by `a`.
pub open spec fn overlaps(a: VESingleAllocation, offset: int, size: int) -> bool {
    offset < a.offset + a.size && a.offset < offset + size
}

/// The ranges held by `a` and `b` share no byte.
pub open spec fn disjoint(a: VESingleAllocation, b: VESingleAllocation) -> bool {
    !overlaps(a, b.offset as int, b.size as int)
}

/// What a chunk is: its identity, its memory type, its capacity, the next
/// allocation identifier it will mint, and its live sub-allocations.
pub struct ChunkModel {
    pub chunk_identifier: u64,
    pub memory_type_index: u32,
    pub capacity: u64,
    pub alloc_counter: u64,
    pub allocations: Seq<VESingleAllocation>,
}

impl ChunkModel {
    /// `[offset, offset + size)` lies inside the chunk and meets no live allocation.
    pub open spec fn fits(self, offset: int, size: int) -> bool {
        &&& 0 <= offset
        &&& offset + size <= self.capacity
        &&& forall|j: int|
            0 <= j < self.allocations.len() ==> !overlaps(#[trigger] self.allocations[j], offset, size)
    }

    /// `offset` is the lowest offset at which `size` bytes fit.
    pub open spec fn is_lowest_fit(self, offset: int, size: int) -> bool {
        &&& self.fits(offset, size)
        &&& forall|o: int| 0 <= o < offset ==> !#[trigger] self.fits(o, size)
    }

    /// The first-fit offset for `size` bytes, if any offset fits.
    pub open spec fn lowest_fit(self, size: int) -> Option<int> {
        if exists|o: int| self.is_lowest_fit(o, size) {
            Some(choose|o: int| self.is_lowest_fit(o, size))
        } else {
            None
        }
    }

    /// Live allocations belong to this chunk, lie inside it, carry identifiers
    /// in increasing order below the counter, and never overlap.
    pub open spec fn wf(self) -> bool {
        &&& forall|j: int|
            0 <= j < self.allocations.len() ==> {
                &&& (#[trigger] self.allocations[j]).chunk_identifier == self.chunk_identifier
                &&& self.allocations[j].offset + self.allocations[j].size <= self.capacity
                &&& self.allocations[j].alloc_identifier < self.alloc_counter
            }
        &&& forall|j: int, k: int|
            0 <= j < k < self.allocations.len() ==> (#[trigger] self.allocations[j]).alloc_identifier
                < (#[trigger] self.allocations[k]).alloc_identifier
        &&& forall|j: int, k: int|
            0 <= j < self.allocations.len() && 0 <= k < self.allocations.len() && j != k
                ==> disjoint(#[trigger] self.allocations[j], #[trigger] self.allocations[k])
    }

    /// The allocation identifier `aid` is live in this chunk.
    pub open spec fn holds(self, aid: u64) -> bool {
        exists|j: int| 0 <= j < self.allocations.len() && (#[trigger] self.allocations[j]).alloc_identifier == aid
    }

    /// The position of the live allocation `aid`.
    pub open spec fn alloc_index(self, aid: u64) -> int {
        choose|j: int| 0 <= j < self.allocations.len() && (#[trigger] self.allocations[j]).alloc_identifier == aid
    }

    /// The chunk after `a` has been committed under a fresh identifier.
    pub open spec fn with_allocation(self, a: VESingleAllocation) -> ChunkModel {
        ChunkModel {
            alloc_counter: (self.alloc_counter + 1) as u64,
            allocations: self.allocations.push(a),
            ..self
        }
    }

    /// The chunk after the live allocation `aid` has been released.
    pub open spec fn without_allocation(self, aid: u64) -> ChunkModel {
        ChunkModel { allocations: self.allocations.remove(self.alloc_index(aid)), ..self }
    }

    /// An offset where a lowest fit may start: the chunk's start or the end of
    /// a live allocation.
    pub open spec fn is_candidate(self, offset: int) -> bool {
        offset == 0 || exists|j: int|
            0 <= j < self.allocations.len() && (#[trigger] self.allocations[j]).offset
                + self.allocations[j].size == offset
    }
}

/// Whenever `size` bytes fit at `o`, they also fit at a candidate offset no
/// greater than `o`.
pub proof fn lemma_fit_has_candidate(ch: ChunkModel, o: int, size: int)
    requires
        ch.fits(o, size),
    ensures
        exists|c: int| 0 <= c <= o && ch.is_candidate(c) && ch.fits(c, size),
    decreases o,
{
    if ch.is_candidate(o) {
        assert(0 <= o <= o && ch.is_candidate(o) && ch.fits(o, size));
    } else {
        assert(ch.fits(o - 1, size)) by {
            assert forall|j: int| 0 <= j < ch.allocations.len() implies !overlaps(
                #[trigger] ch.allocations[j],
                o - 1,
                size,
            ) by {
                let a = ch.allocations[j];
                assert(!overlaps(a, o, size));
                assert(a.offset + a.size != o);
            }
        }
        lemma_fit_has_candidate(ch, o - 1, size);
    }
}

/// The lowest fit, when one exists, is the only offset that is a lowest fit.
pub proof fn lemma_lowest_fit_unique(ch: ChunkModel, o: int, size: int)
    requires
        ch.is_lowest_fit(o, size),
    ensures
        ch.lowest_fit(size) == Some(o),
{
    let c = choose|c: int| ch.is_lowest_fit(c, size);
    assert(ch.is_lowest_fit(c, size));
    if c < o {
        assert(!ch.fits(c, size));
    } else if o < c {
        assert(!ch.fits(o, size));
    }
}

/// A chunk with no live allocation and room for `size` bytes fits them at 0.
pub proof fn lemma_empty_fits_at_start(ch: ChunkModel, size: int)
    requires
        ch.allocations.len() == 0,
        0 <= size <= ch.capacity,
    ensures
        ch.lowest_fit(size) == Some(0int),
{
    assert(ch.is_lowest_fit(0, size));
    lemma_lowest_fit_unique(ch, 0, size);
}

/// Committing a fresh allocation where it fits keeps a chunk well formed.
pub proof fn lemma_with_allocation_wf(ch: ChunkModel, a: VESingleAllocation)
    requires
        ch.wf(),
        ch.fits(a.offset as int, a.size as int),
        a.chunk_identifier == ch.chunk_identifier,
        a.alloc_identifier == ch.alloc_counter,
        ch.alloc_counter < u64::MAX,
    ensures
        ch.with_allocation(a).wf(),
{
    let n = ch.allocations.len() as int;
    let s = ch.with_allocation(a).allocations;
    assert forall|j: int, k: int| 0 <= j < s.len() && 0 <= k < s.len() && j != k implies disjoint(
        #[trigger] s[j],
        #[trigger] s[k],
    ) by {
        if j == n {
            assert(!overlaps(ch.allocations[k], a.offset as int, a.size as int));
        } else if k == n {
            assert(!overlaps(ch.allocations[j], a.offset as int, a.size as int));
        } else {
            assert(s[j] == ch.allocations[j] && s[k] == ch.allocations[k]);
        }
    }
    assert forall|j: int, k: int| 0 <= j < k < s.len() implies (#[trigger] s[j]).alloc_identifier
        < (#[trigger] s[k]).alloc_identifier by {
        if k < n {
            assert(s[j] == ch.allocations[j] && s[k] == ch.allocations[k]);
        } else {
            assert(s[j] == ch.allocations[j]);
        }
    }
    assert forall|j: int| 0 <= j < s.len() implies (#[trigger] s[j]).chunk_identifier == ch.chunk_identifier
        && s[j].offset + s[j].size <= ch.capacity && s[j].alloc_identifier < ch.alloc_counter + 1 by {
        if j < n {
            assert(s[j] == ch.allocations[j]);
        }
    }
}

/// Releasing the allocation that was committed last gives back the chunk as
/// it stood before, but for its identifier counter.
pub proof fn lemma_free_last_restores(ch: ChunkModel, a: VESingleAllocation)
    requires
        ch.wf(),
        a.alloc_identifier == ch.alloc_counter,
    ensures
        ch.with_allocation(a).holds(a.alloc_identifier),
        ch.with_allocation(a).without_allocation(a.alloc_identifier).allocations =~= ch.allocations,
{
    let c2 = ch.with_allocation(a);
    let n = ch.allocations.len() as int;
    assert(c2.allocations[n] == a);
    assert(0 <= n < c2.allocations.len() && c2.allocations[n].alloc_identifier == a.alloc_identifier);
    let j = c2.alloc_index(a.alloc_identifier);
    if j < n {
        assert(c2.allocations[j] == ch.allocations[j]);
        assert(ch.allocations[j].alloc_identifier < ch.alloc_counter);
    }
    assert(j == n);
}

/// The first fit depends on a chunk's capacity and live allocations alone.
pub proof fn lemma_lowest_fit_same_ranges(c1: ChunkModel, c2: ChunkModel, size: int)
    requires
        c1.capacity == c2.capacity,
        c1.allocations == c2.allocations,
    ensures
        c1.lowest_fit(size) == c2.lowest_fit(size),
{
    assert forall|o: int| c1.fits(o, size) == c2.fits(o, size) by {}
    if c1.lowest_fit(size) is Some {
        let o = choose|o: int| c1.is_lowest_fit(o, size);
        assert(c1.is_lowest_fit(o, size));
        assert(c2.is_lowest_fit(o, size));
        lemma_lowest_fit_unique(c1, o, size);
        lemma_lowest_fit_unique(c2, o, size);
    } else if c2.lowest_fit(size) is Some {
        let o = choose|o: int| c2.is_lowest_fit(o, size);
        assert(c2.is_lowest_fit(o, size));
        assert(c1.is_lowest_fit(o, size));
    }
}

/// A lowest fit is a fit.
pub proof fn lemma_lowest_fit_fits(ch: ChunkModel, size: int)
    requires
        ch.lowest_fit(size) is Some,
    ensures
        ch.is_lowest_fit(ch.lowest_fit(size).unwrap(), size),
{
    let o = choose|o: int| ch.is_lowest_fit(o, size);
    assert(ch.is_lowest_fit(o, size));
}

/// One coarse device-memory block and the bookkeeping of its sub-allocations.
pub struct VEMemoryChunk {
    pub chunk_identifier: u64,
    pub memory_type_index: u32,
    pub capacity: u64,
    pub alloc_counter: u64,
    pub allocations: Vec<VESingleAllocation>,
}

impl View for VEMemoryChunk {
    type V = ChunkModel;

    open spec fn view(&self) -> ChunkModel {
        ChunkModel {
            chunk_identifier: self.chunk_identifier,
            memory_type_index: self.memory_type_index,
            capacity: self.capacity,
            alloc_counter: self.alloc_counter,
            allocations: self.allocations@,
        }
    }
}

impl VEMemoryChunk {
    /// A fresh chunk with nothing allocated in it.
    pub fn new(chunk_identifier: u64, memory_type_index: u32, capacity: u64) -> (r: VEMemoryChunk)
        ensures
            r@ == (ChunkModel {
                chunk_identifier,
                memory_type_index,
                capacity,
                alloc_counter: 0,
                allocations: Seq::empty(),
            }),
            r@.wf(),
    {
        VEMemoryChunk { chunk_identifier, memory_type_index, capacity, alloc_counter: 0, allocations: Vec::new() }
    }

    /// Whether `size` bytes fit at `offset`.
    fn fits_at(&self, offset: u64, size: u64) -> (r: bool)
        ensures
            r == self@.fits(offset as int, size as int),
    {
        if size > self.capacity || offset > self.capacity - size {
            return false;
        }
        let mut j: usize = 0;
        while j < self.allocations.len()
            invariant
                0 <= j <= self.allocations@.len(),
                offset + size <= self.capacity,
                forall|k: int| 0 <= k < j ==> !overlaps(#[trigger] self.allocations@[k], offset as int, size as int),
            decreases self.allocations@.len() - j,
        {
            let a = self.allocations[j];
            assert(self@.allocations[j as int] == a);
            if (offset as u128) < (a.offset as u128) + (a.size as u128) && (a.offset as u128) < (offset as u128) + (size as u128) {
                assert(overlaps(self.allocations@[j as int], offset as int, size as int));
                return false;
            }
            j = j + 1;
        }
        true
    }

    /// The first-fit offset for `size` contiguous bytes, or `None` when no
    /// offset of the chunk can hold them.
    pub fn find_free_memory_offset(&self, size: u64) -> (r: Option<u64>)
        requires
            self@.wf(),
        ensures
            match r {
                Some(o) => self@.lowest_fit(size as int) == Some(o as int),
                None => self@.lowest_fit(size as int) is None && forall|o: int| !#[trigger] self@.fits(o, size as int),
            },
    {
        let ghost ch = self@;
        let mut best: Option<u64> = if self.fits_at(0, size) {
            Some(0)
        } else {
            None
        };
        let mut i: usize = 0;
        while i < self.allocations.len()
            invariant
                0 <= i <= self.allocations@.len(),
                ch == self@,
                self@.wf(),
                match best {
                    Some(b) => ch.fits(b as int, size as int) && ch.is_candidate(b as int),
                    None => true,
                },
                ch.fits(0, size as int) ==> best is Some && best.unwrap() == 0,
                forall|j: int|
                    0 <= j < i && ch.fits(#[trigger] ch.allocations[j].offset + ch.allocations[j].size, size as int)
                        ==> best is Some && best.unwrap() <= ch.allocations[j].offset + ch.allocations[j].size,
            decreases self.allocations@.len() - i,
        {
            let a = self.allocations[i];
            assert(ch.allocations[i as int] == a);
            let cand: u64 = a.offset + a.size;
            let ok = self.fits_at(cand, size);
            proof {
                assert(ch.is_candidate(cand as int));
            }
            let better = match best {
                Some(b) => cand < b,
                None => true,
            };
            if ok && better {
                best = Some(cand);
            }
            i = i + 1;
        }
        proof {
            match best {
                Some(b) => {
                    assert forall|o: int| 0 <= o < b implies !#[trigger] ch.fits(o, size as int) by {
                        if ch.fits(o, size as int) {
                            lemma_fit_has_candidate(ch, o, size as int);
                            let c = choose|c: int| 0 <= c <= o && ch.is_candidate(c) && ch.fits(c, size as int);
                            if c != 0 {
                                let j = choose|j: int|
                                    0 <= j < ch.allocations.len() && (#[trigger] ch.allocations[j]).offset
                                        + ch.allocations[j].size == c;
                                assert(ch.fits(ch.allocations[j].offset + ch.allocations[j].size, size as int));
                            }
                        }
                    }
                    lemma_lowest_fit_unique(ch, b as int, size as int);
                },
                None => {
                    assert forall|o: int| !#[trigger] ch.fits(o, size as int) by {
                        if ch.fits(o, size as int) {
                            lemma_fit_has_candidate(ch, o, size as int);
                            let c = choose|c: int| 0 <= c <= o && ch.is_candidate(c) && ch.fits(c, size as int);
                            if c != 0 {
                                let j = choose|j: int|
                                    0 <= j < ch.allocations.len() && (#[trigger] ch.allocations[j]).offset
                                        + ch.allocations[j].size == c;
                                assert(ch.fits(ch.allocations[j].offset + ch.allocations[j].size, size as int));
                            }
                        }
                    }
                },
            }
        }
        best
    }

    /// Commits `[offset, offset + size)` under a fresh allocation identifier.
    pub fn bind(&mut self, size: u64, offset: u64) -> (a: VESingleAllocation)
        requires
            old(self)@.wf(),
            old(self)@.fits(offset as int, size as int),
            old(self).alloc_counter < u64::MAX,
        ensures
            a == (VESingleAllocation {
                chunk_identifier: old(self).chunk_identifier,
                alloc_identifier: old(self).alloc_counter,
                offset,
                size,
            }),
            final(self)@ == old(self)@.with_allocation(a),
            final(self)@.wf(),
    {
        let a = VESingleAllocation {
            chunk_identifier: self.chunk_identifier,
            alloc_identifier: self.alloc_counter,
            offset,
            size,
        };
        self.allocations.push(a);
        self.alloc_counter = self.alloc_counter + 1;
        proof {
            let n = old(self).allocations@.len() as int;
            assert forall|j: int, k: int|
                0 <= j < self.allocations@.len() && 0 <= k < self.allocations@.len() && j != k
                    implies disjoint(#[trigger] self.allocations@[j], #[trigger] self.allocations@[k]) by {
                if j == n {
                    assert(self.allocations@[k] == old(self)@.allocations[k]);
                    assert(!overlaps(old(self)@.allocations[k], offset as int, size as int));
                } else if k == n {
                    assert(self.allocations@[j] == old(self)@.allocations[j]);
                    assert(!overlaps(old(self)@.allocations[j], offset as int, size as int));
                } else {
                    assert(self.allocations@[j] == old(self)@.allocations[j]);
                    assert(self.allocations@[k] == old(self)@.allocations[k]);
                }
            }
        }
        assert(self@.allocations =~= old(self)@.allocations.push(a));
        a
    }

    /// Releases the live allocation `aid`; reports whether it was live.
    pub fn free_allocation(&mut self, aid: u64) -> (r: bool)
        requires
            old(self)@.wf(),
        ensures
            r == old(self)@.holds(aid),
            r ==> final(self)@ == old(self)@.without_allocation(aid),
            !r ==> final(self)@ == old(self)@,
            final(self)@.wf(),
    {
        let mut j: usize = 0;
        while j < self.allocations.len()
            invariant
                0 <= j <= self.allocations@.len(),
                self@ == old(self)@,
                old(self)@.wf(),
                forall|k: int| 0 <= k < j ==> (#[trigger] self.allocations@[k]).alloc_identifier != aid,
            decreases self.allocations@.len() - j,
        {
            if self.allocations[j].alloc_identifier == aid {
                proof {
                    let ch = old(self)@;
                    let i = ch.alloc_index(aid);
                    assert(ch.allocations[j as int].alloc_identifier == aid);
                    assert(0 <= i < ch.allocations.len() && ch.allocations[i].alloc_identifier == aid);
                    if i < j {
                    } else if (j as int) < i {
                        assert(ch.allocations[j as int].alloc_identifier < ch.allocations[i].alloc_identifier);
                    }
                }
                self.allocations.remove(j);
                proof {
                    let ch = old(self)@;
                    let s = self.allocations@;
                    assert(s =~= ch.allocations.remove(j as int));
                    assert forall|p: int, q: int| 0 <= p < q < s.len() implies (#[trigger] s[p]).alloc_identifier
                        < (#[trigger] s[q]).alloc_identifier by {
                        let pp = if p < j { p } else { p + 1 };
                        let qq = if q < j { q } else { q + 1 };
                        assert(s[p] == ch.allocations[pp] && s[q] == ch.allocations[qq]);
                    }
                    assert forall|p: int, q: int|
                        0 <= p < s.len() && 0 <= q < s.len() && p != q implies disjoint(#[trigger] s[p], #[trigger] s[q]) by {
                        let pp = if p < j { p } else { p + 1 };
                        let qq = if q < j { q } else { q + 1 };
                        assert(s[p] == ch.allocations[pp] && s[q] == ch.allocations[qq]);
                    }
                    assert forall|p: int| 0 <= p < s.len() implies (#[trigger] s[p]).chunk_identifier == ch.chunk_identifier by {
                        let pp = if p < j { p } else { p + 1 };
                        assert(s[p] == ch.allocations[pp]);
                    }
                }
                return true;
            }
            j = j + 1;
        }
        false
    }
}

} // verus!
