use ve_memory::memory_chunk::{VEMemoryChunk, VEMemoryChunkError, VESingleAllocation};
use ve_memory::memory_manager::{VEMemoryManager, VEMemoryManagerError};

fn never_issued(chunk_identifier: u64) -> VESingleAllocation {
    VESingleAllocation { chunk_identifier, alloc_identifier: 0, offset: 0, size: 16 }
}

#[test]
fn two_binds_share_one_chunk() {
    let mut m = VEMemoryManager::new(1024);
    let a = m.bind_buffer_memory(0, 256, true).unwrap();
    let b = m.bind_buffer_memory(0, 256, true).unwrap();
    assert_eq!(a.chunk_identifier, b.chunk_identifier);
    assert_eq!(a.offset, 0);
    assert_eq!(b.offset, 256);
    assert_eq!(a.size, 256);
    assert_eq!(b.size, 256);
    assert_ne!(a.alloc_identifier, b.alloc_identifier);
    assert_eq!(m.chunk_count(), 1);
}

#[test]
fn second_map_is_refused() {
    let mut m = VEMemoryManager::new(1024);
    let a = m.bind_buffer_memory(0, 256, true).unwrap();
    let b = m.bind_image_memory(0, 256, true).unwrap();
    assert_eq!(m.map(&a), Ok(()));
    assert!(m.is_mapped());
    assert_eq!(m.map(&b), Err(VEMemoryManagerError::MemoryAlreadyMapped));
    assert_eq!(m.map(&a), Err(VEMemoryManagerError::MemoryAlreadyMapped));
}

#[test]
fn double_free_is_not_found() {
    let mut m = VEMemoryManager::new(1024);
    let a = m.bind_buffer_memory(0, 256, true).unwrap();
    assert_eq!(m.free_allocation(&a), Ok(()));
    assert_eq!(m.free_allocation(&a), Err(VEMemoryManagerError::NoAllocationFoundToFree));
}

#[test]
fn rebind_after_free_reuses_offset() {
    let mut m = VEMemoryManager::new(1024);
    let first = m.bind_buffer_memory(0, 256, true).unwrap();
    let a = m.bind_buffer_memory(0, 256, true).unwrap();
    let _after = m.bind_buffer_memory(0, 256, true).unwrap();
    assert_eq!(a.offset, 256);
    assert_eq!(m.free_allocation(&a), Ok(()));
    let again = m.bind_buffer_memory(0, 256, false).unwrap();
    assert_eq!(again.chunk_identifier, a.chunk_identifier);
    assert_eq!(again.offset, 256);
    assert_ne!(again.alloc_identifier, a.alloc_identifier);
    assert_eq!(first.offset, 0);
    assert_eq!(m.chunk_count(), 1);
}

#[test]
fn rebind_in_fresh_chunk_reuses_offset_zero() {
    let mut m = VEMemoryManager::new(512);
    let a = m.bind_buffer_memory(3, 512, true).unwrap();
    assert_eq!(m.free_allocation(&a), Ok(()));
    let b = m.bind_buffer_memory(3, 512, false).unwrap();
    assert_eq!(b.chunk_identifier, a.chunk_identifier);
    assert_eq!(b.offset, 0);
}

#[test]
fn unmap_allows_next_map() {
    let mut m = VEMemoryManager::new(1024);
    let a = m.bind_buffer_memory(0, 64, true).unwrap();
    let b = m.bind_buffer_memory(1, 64, true).unwrap();
    assert_eq!(m.map(&a), Ok(()));
    assert_eq!(m.unmap(&a), Ok(()));
    assert!(!m.is_mapped());
    assert_eq!(m.map(&b), Ok(()));
    assert_eq!(m.unmap(&b), Ok(()));
    assert_eq!(m.unmap(&b), Ok(()));
    assert!(!m.is_mapped());
}

#[test]
fn never_issued_chunk_is_not_found() {
    let mut m = VEMemoryManager::new(1024);
    let a = m.bind_buffer_memory(0, 64, true).unwrap();
    assert_eq!(a.chunk_identifier, 1);
    for cid in [0u64, 2, 99] {
        let h = never_issued(cid);
        assert_eq!(m.free_allocation(&h), Err(VEMemoryManagerError::NoAllocationFoundToFree));
        assert_eq!(m.unmap(&h), Err(VEMemoryManagerError::NoAllocationFoundToUnmap));
        assert_eq!(m.map(&h), Err(VEMemoryManagerError::NoAllocationFoundToMap));
    }
    assert!(!m.is_mapped());
}

#[test]
fn operations_on_empty_pool_are_not_found() {
    let mut m = VEMemoryManager::new(1024);
    let h = never_issued(1);
    assert_eq!(m.map(&h), Err(VEMemoryManagerError::NoAllocationFoundToMap));
    assert_eq!(m.unmap(&h), Err(VEMemoryManagerError::NoAllocationFoundToUnmap));
    assert_eq!(m.free_allocation(&h), Err(VEMemoryManagerError::NoAllocationFoundToFree));
}

#[test]
fn oversized_bind_creates_large_chunk() {
    let mut m = VEMemoryManager::new(1024);
    let small = m.bind_buffer_memory(0, 100, true).unwrap();
    assert_eq!(m.new_chunk_capacity(4096), 4096);
    assert_eq!(m.new_chunk_capacity(10), 1024);
    let big = m.bind_buffer_memory(0, 4096, true).unwrap();
    assert_ne!(big.chunk_identifier, small.chunk_identifier);
    assert_eq!(big.offset, 0);
    assert_eq!(big.size, 4096);
    assert_eq!(m.chunk_count(), 2);
    // the big chunk is full; the small one still has room
    let next = m.bind_buffer_memory(0, 100, false).unwrap();
    assert_eq!(next.chunk_identifier, small.chunk_identifier);
    assert_eq!(next.offset, 100);
}

#[test]
fn chunk_creation_failure_leaves_pool_unchanged() {
    let mut m = VEMemoryManager::new(1024);
    assert_eq!(m.find_free(0, 10), None);
    assert_eq!(m.bind_buffer_memory(0, 10, false), Err(VEMemoryChunkError::ChunkCreationFailed));
    assert_eq!(m.chunk_count(), 0);
    let a = m.bind_buffer_memory(0, 1000, true).unwrap();
    assert_eq!(m.bind_image_memory(0, 100, false), Err(VEMemoryChunkError::ChunkCreationFailed));
    assert_eq!(m.chunk_count(), 1);
    assert_eq!(m.find_free(0, 24), Some((a.chunk_identifier, 1000)));
}

#[test]
fn memory_types_never_share_a_chunk() {
    let mut m = VEMemoryManager::new(1024);
    let a = m.bind_buffer_memory(0, 64, true).unwrap();
    assert_eq!(m.find_free(1, 64), None);
    let b = m.bind_image_memory(1, 64, true).unwrap();
    assert_ne!(a.chunk_identifier, b.chunk_identifier);
    assert_eq!(b.offset, 0);
    assert_eq!(m.find_free(0, 64), Some((a.chunk_identifier, 64)));
    assert_eq!(m.find_free(1, 64), Some((b.chunk_identifier, 64)));
}

#[test]
fn first_fit_takes_lowest_gap() {
    let mut m = VEMemoryManager::new(1024);
    let a = m.bind_buffer_memory(0, 100, true).unwrap();
    let b = m.bind_buffer_memory(0, 100, true).unwrap();
    let c = m.bind_buffer_memory(0, 100, true).unwrap();
    let d = m.bind_buffer_memory(0, 100, true).unwrap();
    assert_eq!((a.offset, b.offset, c.offset, d.offset), (0, 100, 200, 300));
    assert_eq!(m.free_allocation(&b), Ok(()));
    assert_eq!(m.free_allocation(&d), Ok(()));
    // too large for the gap at 100, fits after c
    let e = m.bind_buffer_memory(0, 150, false).unwrap();
    assert_eq!(e.offset, 300);
    // fits the gap at 100
    let f = m.bind_buffer_memory(0, 60, false).unwrap();
    assert_eq!(f.offset, 100);
    let g = m.bind_buffer_memory(0, 40, false).unwrap();
    assert_eq!(g.offset, 160);
}

#[test]
fn first_fit_prefers_earlier_chunk() {
    let mut m = VEMemoryManager::new(256);
    let a = m.bind_buffer_memory(0, 256, true).unwrap();
    let b = m.bind_buffer_memory(0, 256, true).unwrap();
    assert_ne!(a.chunk_identifier, b.chunk_identifier);
    assert_eq!(m.free_allocation(&b), Ok(()));
    assert_eq!(m.free_allocation(&a), Ok(()));
    let c = m.bind_buffer_memory(0, 128, false).unwrap();
    assert_eq!(c.chunk_identifier, a.chunk_identifier);
    assert_eq!(c.offset, 0);
}

#[test]
fn chunk_finds_first_free_offset() {
    let mut ch = VEMemoryChunk::new(7, 2, 1000);
    assert_eq!(ch.find_free_memory_offset(1000), Some(0));
    assert_eq!(ch.find_free_memory_offset(1001), None);
    let a = ch.bind(300, 0);
    let b = ch.bind(300, 300);
    let c = ch.bind(300, 600);
    assert_eq!(a.chunk_identifier, 7);
    assert_eq!((a.alloc_identifier, b.alloc_identifier, c.alloc_identifier), (0, 1, 2));
    assert_eq!(ch.find_free_memory_offset(100), Some(900));
    assert_eq!(ch.find_free_memory_offset(101), None);
    assert!(ch.free_allocation(b.alloc_identifier));
    assert!(!ch.free_allocation(b.alloc_identifier));
    assert_eq!(ch.find_free_memory_offset(300), Some(300));
    assert_eq!(ch.find_free_memory_offset(301), None);
    assert_eq!(ch.find_free_memory_offset(0), Some(0));
}

#[test]
fn zero_capacity_pool_sizes_chunks_to_requests() {
    let mut m = VEMemoryManager::new(0);
    let a = m.bind_buffer_memory(5, 48, true).unwrap();
    assert_eq!(a.offset, 0);
    let b = m.bind_buffer_memory(5, 48, true).unwrap();
    assert_ne!(a.chunk_identifier, b.chunk_identifier);
    assert_eq!(m.chunk_count(), 2);
}

#[test]
fn largest_request_fits_a_chunk_of_its_own() {
    let mut m = VEMemoryManager::new(1024);
    let a = m.bind_buffer_memory(0, u64::MAX, true).unwrap();
    assert_eq!(a.offset, 0);
    assert_eq!(a.size, u64::MAX);
    assert_eq!(m.find_free(0, 1), None);
}

#[test]
fn mapping_failure_wraps_chunk_error() {
    let e = VEMemoryManagerError::MappingFailed(VEMemoryChunkError::MapFailed);
    assert_ne!(e, VEMemoryManagerError::MemoryAlreadyMapped);
    assert_eq!(e, VEMemoryManagerError::MappingFailed(VEMemoryChunkError::MapFailed));
}
