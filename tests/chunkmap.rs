use blobcache::{ChunkState, DigestedChunkMap, IndexedChunkMap, StorageError};

#[test]
fn bitmap_size_is_two_bits_per_chunk() {
    assert_eq!(IndexedChunkMap::file_size(0), 0);
    assert_eq!(IndexedChunkMap::file_size(1), 1);
    assert_eq!(IndexedChunkMap::file_size(4), 1);
    assert_eq!(IndexedChunkMap::file_size(5), 2);
    assert_eq!(IndexedChunkMap::file_size(9), 3);
}

#[test]
fn chunk_state_transitions() {
    let mut m = IndexedChunkMap::new(6);
    assert_eq!(m.bits.len(), 2);
    assert_eq!(m.state(5), ChunkState::Absent);
    assert!(m.try_fetch(5));
    assert_eq!(m.state(5), ChunkState::InFlight);
    assert!(!m.try_fetch(5));
    m.notify_ready(5);
    assert_eq!(m.state(5), ChunkState::Absent);
    assert!(m.try_fetch(5));
    m.set_ready(5);
    assert!(m.is_ready_nowait(5));
    m.set_ready(5);
    assert!(m.is_ready_nowait(5));
    m.notify_ready(5);
    assert!(m.is_ready_nowait(5));
    assert_eq!(m.state(4), ChunkState::Absent);
    assert_eq!(m.bits, vec![0, 0b1000]);
}

#[test]
fn all_ready_only_when_every_chunk_is() {
    let mut m = IndexedChunkMap::new(3);
    assert!(!m.is_bitmap_all_ready());
    m.set_ready(0);
    m.set_ready(2);
    assert!(!m.is_bitmap_all_ready());
    m.set_ready(1);
    assert!(m.is_bitmap_all_ready());
    assert!(IndexedChunkMap::new(0).is_bitmap_all_ready());
}

#[test]
fn restart_demotes_in_flight_chunks() {
    // chunk 0 ready, chunk 1 in flight, chunk 2 absent, chunk 3 ready
    let m = IndexedChunkMap::from_bytes(vec![0b10_00_01_10], 4).unwrap();
    assert_eq!(m.state(0), ChunkState::Ready);
    assert_eq!(m.state(1), ChunkState::Absent);
    assert_eq!(m.state(2), ChunkState::Absent);
    assert_eq!(m.state(3), ChunkState::Ready);
    assert_eq!(
        IndexedChunkMap::from_bytes(vec![0, 0], 4).unwrap_err(),
        StorageError::InvalidArgument
    );
}

#[test]
fn persistence_outcome_sets_or_gives_up() {
    let mut m = IndexedChunkMap::new(2);
    assert!(m.try_fetch(0));
    assert!(m.try_fetch(1));
    assert_eq!(m.persist_done(0, 0x400, 0x400), Ok(()));
    assert_eq!(m.state(0), ChunkState::Ready);
    assert_eq!(m.persist_done(1, 0x100, 0x400), Err(StorageError::Io));
    assert_eq!(m.state(1), ChunkState::Absent);
}

#[test]
fn digest_keyed_map_tracks_each_digest() {
    let a = vec![0xaau8; 32];
    let b = vec![0xbbu8; 32];
    let mut m = DigestedChunkMap::new();
    assert_eq!(m.state(&a), ChunkState::Absent);
    assert!(m.try_fetch(&a));
    assert!(!m.try_fetch(&a));
    assert_eq!(m.state(&a), ChunkState::InFlight);
    assert_eq!(m.state(&b), ChunkState::Absent);
    m.notify_ready(&a);
    assert_eq!(m.state(&a), ChunkState::Absent);
    m.set_ready(&b);
    assert!(m.is_ready_nowait(&b));
    assert!(!m.is_ready_nowait(&a));
    m.notify_ready(&b);
    assert!(m.is_ready_nowait(&b));
}

#[test]
fn digest_keyed_persistence_outcome() {
    let d = vec![7u8; 32];
    let mut m = DigestedChunkMap::new();
    assert!(m.try_fetch(&d));
    assert_eq!(m.persist_done(&d, 3, 4), Err(StorageError::Io));
    assert_eq!(m.state(&d), ChunkState::Absent);
    assert!(m.try_fetch(&d));
    assert_eq!(m.persist_done(&d, 4, 4), Ok(()));
    assert_eq!(m.state(&d), ChunkState::Ready);
}
