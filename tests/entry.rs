use blobcache::{
    backend_chunk_ranges, cache_fast_range, cache_slow_part, check_chunk_data, classify, copyv,
    copy_backend_user_data, CacheRead,
    backend_fetch, cache_read_complete, merge_requests, plan_request, slow_next,
    validate_fscache_config, validate_fscache_entry, BlobIoDesc, ChunkInfo, DataBuffer, EntryFlags,
    IndexedChunkMap, RegionType, SlowAction, StorageError, RAFS_MAX_BLOCK_SIZE,
};

fn chunk(index: u32, offset: u64, size: u32) -> ChunkInfo {
    ChunkInfo {
        index,
        compress_offset: offset,
        compress_size: size,
        uncompress_offset: offset,
        uncompress_size: size,
        is_compressed: false,
        digest: [index as u8; 32],
    }
}

fn bio(c: ChunkInfo, user_io: bool, offset: u32, size: u32) -> BlobIoDesc {
    BlobIoDesc { chunk: c, user_io, offset, size }
}

fn plain_flags() -> EntryFlags {
    EntryFlags::new(false, false, false, false, false)
}

#[test]
fn classification_follows_readiness_and_flags() {
    let plain = plain_flags();
    assert_eq!(classify(&plain, true), RegionType::CacheFast);
    assert_eq!(classify(&plain, false), RegionType::Backend);
    let validating = EntryFlags::new(false, true, false, false, false);
    assert_eq!(classify(&validating, true), RegionType::CacheSlow);
    assert_eq!(classify(&validating, false), RegionType::Backend);
    let digest_keyed = EntryFlags::new(false, false, false, true, false);
    assert!(!digest_keyed.is_direct_chunkmap);
    assert_eq!(classify(&digest_keyed, false), RegionType::CacheSlow);
    let stargz = EntryFlags::new(false, false, true, false, false);
    assert_eq!(classify(&stargz, false), RegionType::CacheSlow);
    assert!(!stargz.is_get_blob_object_supported());
    assert!(plain.is_get_blob_object_supported());
    assert!(!EntryFlags::new(true, false, false, false, false).is_get_blob_object_supported());
}

#[test]
fn cache_fast_hit_reads_user_range() {
    let c0 = ChunkInfo {
        index: 0,
        compress_offset: 0,
        compress_size: 0x1000,
        uncompress_offset: 0x1000,
        uncompress_size: 0x1000,
        is_compressed: false,
        digest: [0u8; 32],
    };
    let reqs = merge_requests(&vec![bio(c0, true, 0x200, 0x800)], 0x1000);
    let (state, notify) = plan_request(&plain_flags(), &reqs[0], &vec![true]);
    assert!(notify.is_empty());
    assert_eq!(state.regions.len(), 1);
    let r = &state.regions[0];
    assert_eq!(r.region_type, RegionType::CacheFast);
    assert_eq!(cache_fast_range(r), Some((0x1200, 0x800)));
}

#[test]
fn prefetch_dropped_on_fast_path() {
    let c0 = chunk(0, 0, 0x400);
    let c1 = chunk(1, 0x400, 0x400);
    let reqs = merge_requests(
        &vec![bio(c0, true, 0, 0x400), bio(c1, false, 0, 0x400)],
        0x1000,
    );
    let (state, notify) = plan_request(&plain_flags(), &reqs[0], &vec![true, true]);
    assert!(notify.is_empty());
    assert_eq!(state.regions.len(), 1);
    assert_eq!(state.regions[0].region_type, RegionType::CacheFast);
    assert_eq!(state.regions[0].blob_len, 0x400);
}

#[test]
fn prefetch_on_slow_path_is_given_up() {
    let flags = EntryFlags::new(false, true, false, false, false);
    let c0 = chunk(0, 0, 0x400);
    let c1 = chunk(1, 0x400, 0x400);
    let reqs = merge_requests(
        &vec![bio(c0, true, 0, 0x400), bio(c1, false, 0, 0x400)],
        0x1000,
    );
    let (state, notify) = plan_request(&flags, &reqs[0], &vec![true, true]);
    assert_eq!(notify, vec![c1]);
    assert_eq!(state.regions.len(), 1);
    assert_eq!(state.regions[0].region_type, RegionType::CacheSlow);
    assert_eq!(state.regions[0].chunks, vec![c0]);
}

#[test]
fn backend_fetch_of_two_contiguous_chunks() {
    let c0 = chunk(0, 0, 0x400);
    let c1 = chunk(1, 0x400, 0x400);
    let reqs = merge_requests(
        &vec![bio(c0, true, 0, 0x400), bio(c1, true, 0, 0x400)],
        0x1000,
    );
    assert_eq!(reqs.len(), 1);
    let (state, _) = plan_request(&plain_flags(), &reqs[0], &vec![false, false]);
    assert_eq!(state.regions.len(), 1);
    let r = &state.regions[0];
    assert_eq!(r.region_type, RegionType::Backend);
    assert_eq!((r.blob_address, r.blob_len), (0, 0x800));
    assert_eq!(r.tags, vec![true, true]);

    let mut backend = vec![0x01u8; 0x400];
    backend.extend(vec![0x02u8; 0x400]);
    let ranges = backend_chunk_ranges(0, 0x800, &r.chunks, backend.len()).unwrap();
    assert_eq!(ranges, vec![(0, 0x400), (0x400, 0x800)]);
    let chunk_bufs: Vec<Vec<u8>> = ranges.iter().map(|(s, e)| backend[*s..*e].to_vec()).collect();
    let mut dst = vec![vec![0u8; 0x800]];
    let (n, _) = copyv(&chunk_bufs, &mut dst, r.seg.offset as usize, r.seg.len as usize, 0, 0).unwrap();
    assert_eq!(n, 0x800);
    assert_eq!(dst[0], backend);
}

#[test]
fn gap_forces_two_backend_requests() {
    let c0 = chunk(0, 0, 0x400);
    let c1 = chunk(1, 0x500, 0x400);
    let reqs = merge_requests(
        &vec![bio(c0, true, 0, 0x400), bio(c1, true, 0, 0x400)],
        0x1000,
    );
    assert_eq!(reqs.len(), 2);
    let (s0, _) = plan_request(&plain_flags(), &reqs[0], &vec![false]);
    let (s1, _) = plan_request(&plain_flags(), &reqs[1], &vec![false]);
    assert_eq!((s0.regions[0].blob_address, s0.regions[0].blob_len), (0, 0x400));
    assert_eq!((s1.regions[0].blob_address, s1.regions[0].blob_len), (0x500, 0x400));
}

#[test]
fn short_or_discontinuous_backend_read_is_io_error() {
    let c0 = chunk(0, 0, 0x400);
    let c1 = chunk(1, 0x500, 0x400);
    assert_eq!(
        backend_chunk_ranges(0, 0x800, &vec![c0], 0x7ff),
        Err(StorageError::Io)
    );
    assert_eq!(
        backend_chunk_ranges(0, 0x900, &vec![c0, c1], 0x900),
        Err(StorageError::Io)
    );
    assert_eq!(
        backend_chunk_ranges(0, 0x300, &vec![c0], 0x300),
        Err(StorageError::Io)
    );
}

#[test]
fn chunk_data_checks() {
    let c0 = chunk(0, 0, 0x400);
    assert_eq!(check_chunk_data(&c0, 0x400, true, true), Ok(0x400));
    assert_eq!(check_chunk_data(&c0, 0x400, false, false), Ok(0x400));
    assert_eq!(
        check_chunk_data(&c0, 0x400, true, false),
        Err(StorageError::DigestMismatch)
    );
    assert_eq!(check_chunk_data(&c0, 0x3ff, true, true), Err(StorageError::Io));
}

#[test]
fn slow_path_parts() {
    let flags = EntryFlags::new(false, true, false, false, false);
    let c0 = chunk(0, 0, 0x400);
    let c1 = chunk(1, 0x400, 0x400);
    let reqs = merge_requests(
        &vec![bio(c0, true, 0x100, 0x300), bio(c1, true, 0, 0x200)],
        0x1000,
    );
    let (state, _) = plan_request(&flags, &reqs[0], &vec![true, true]);
    let r = &state.regions[0];
    assert_eq!((r.seg.offset, r.seg.len), (0x100, 0x500));
    assert_eq!(cache_slow_part(r, 0, 0), Ok((0x100, 0x300)));
    assert_eq!(cache_slow_part(r, 1, 0x300), Ok((0, 0x200)));
    assert_eq!(cache_slow_part(r, 1, 0x600), Err(StorageError::InvalidArgument));
}

#[test]
fn fscache_entry_configuration() {
    assert_eq!(validate_fscache_config(false), Ok(()));
    assert_eq!(validate_fscache_config(true), Err(StorageError::Unsupported));
    assert_eq!(validate_fscache_entry(false, true, true), Ok(()));
    assert_eq!(
        validate_fscache_entry(true, true, true),
        Err(StorageError::InvalidArgument)
    );
    assert_eq!(
        validate_fscache_entry(false, false, true),
        Err(StorageError::InvalidArgument)
    );
    assert_eq!(
        validate_fscache_entry(false, true, false),
        Err(StorageError::InvalidArgument)
    );
    let f = EntryFlags::for_fscache(true, false);
    assert!(!f.is_compressed && f.is_direct_chunkmap && f.need_validate);
    assert!(f.is_get_blob_object_supported());
    let legacy = EntryFlags::for_fscache(true, true);
    assert!(!legacy.need_validate);
    assert!(legacy.is_get_blob_object_supported());
}

#[test]
fn entry_blob_size_and_persist_plan() {
    let plain = plain_flags();
    assert_eq!(plain.blob_size(0x5000), 0x5000);
    assert_eq!(EntryFlags::new(false, false, true, false, false).blob_size(0x5000), 0);
    let c = ChunkInfo {
        index: 1,
        compress_offset: 0x100,
        compress_size: 0x80,
        uncompress_offset: 0x1000,
        uncompress_size: 0x1000,
        is_compressed: true,
        digest: [1u8; 32],
    };
    assert_eq!(plain.persist_plan(&c), (0x1000, false));
    assert_eq!(EntryFlags::new(true, false, false, false, false).persist_plan(&c), (0x100, true));
}

#[test]
fn slow_path_steps() {
    let validating = EntryFlags::new(false, true, false, false, false);
    let c = ChunkInfo {
        index: 0,
        compress_offset: 0x200,
        compress_size: 0x100,
        uncompress_offset: 0x1000,
        uncompress_size: 0x400,
        is_compressed: true,
        digest: [0u8; 32],
    };
    assert_eq!(
        slow_next(&validating, &c, true, None),
        SlowAction::TryCache(CacheRead::Direct(0x1000, 0x400))
    );
    assert_eq!(slow_next(&validating, &c, true, Some(Ok(0x400))), SlowAction::UseCache);
    // A corrupted cache file fails validation: the chunk is fetched again.
    assert_eq!(
        slow_next(&validating, &c, true, Some(Err(StorageError::DigestMismatch))),
        SlowAction::Fetch(0x200, 0x100)
    );
    assert_eq!(slow_next(&validating, &c, false, None), SlowAction::Fetch(0x200, 0x100));
    assert!(cache_read_complete(0x400, 0x400));
    assert!(!cache_read_complete(0, 0));
    assert!(!cache_read_complete(0x3ff, 0x400));
}

#[test]
fn backend_region_without_user_data_is_not_fetched() {
    let c0 = chunk(0, 0, 0x400);
    let reqs = merge_requests(&vec![bio(c0, false, 0, 0x400)], 0x1000);
    let (state, _) = plan_request(&plain_flags(), &reqs[0], &vec![false]);
    assert_eq!(backend_fetch(&state.regions[0]), None);
    let reqs = merge_requests(&vec![bio(c0, true, 0, 0x400)], 0x1000);
    let (state, _) = plan_request(&plain_flags(), &reqs[0], &vec![false]);
    assert_eq!(backend_fetch(&state.regions[0]), Some((0, 0x400)));
}

#[test]
fn oversized_chunk_is_rejected() {
    let mut big = chunk(0, 0, 0x400);
    big.uncompress_size = (RAFS_MAX_BLOCK_SIZE + 1) as u32;
    assert_eq!(
        backend_chunk_ranges(0, 0x400, &vec![big], 0x400),
        Err(StorageError::Io)
    );
    big.uncompress_size = RAFS_MAX_BLOCK_SIZE as u32;
    assert_eq!(backend_chunk_ranges(0, 0x400, &vec![big], 0x400), Ok(vec![(0, 0x400)]));
}

#[test]
fn test_data_buffer() {
    let mut buf1 = vec![0x1u8; 8];
    let buf2 = DataBuffer::Borrowed(buf1.as_mut_slice());

    assert_eq!(buf2.slice()[1], 0x1);
    let mut buf2 = buf2.to_owned();
    buf2.mut_slice()[1] = 0x2;
    assert_eq!(buf2.slice()[1], 0x2);
    assert_eq!(buf1[1], 0x1);
}

#[test]
fn backend_user_data_skips_prefetched_chunks() {
    let c0 = chunk(0, 0, 0x400);
    let c1 = chunk(1, 0x400, 0x400);
    let c2 = chunk(2, 0x800, 0x400);
    let reqs = merge_requests(
        &vec![
            bio(c0, true, 0x100, 0x300),
            bio(c1, false, 0, 0x400),
            bio(c2, true, 0, 0x200),
        ],
        0x1000,
    );
    let (state, _) = plan_request(&plain_flags(), &reqs[0], &vec![false, false, false]);
    assert_eq!(state.regions.len(), 1);
    let r = &state.regions[0];
    assert_eq!(r.tags, vec![true, false, true]);
    assert_eq!((r.seg.offset, r.seg.len), (0x100, 0x500));
    let data = vec![vec![0x11u8; 0x400], vec![0x22u8; 0x400], vec![0x33u8; 0x400]];
    let mut dst = vec![vec![0u8; 0x200], vec![0u8; 0x300]];
    let (n, pos) = copy_backend_user_data(r, &data, &mut dst, 0, 0).unwrap();
    assert_eq!(n, 0x500);
    assert_eq!(pos, (2, 0));
    assert_eq!(dst[0], vec![0x11u8; 0x200]);
    assert_eq!(dst[1][..0x100].to_vec(), vec![0x11u8; 0x100]);
    assert_eq!(dst[1][0x100..].to_vec(), vec![0x33u8; 0x200]);
}

#[test]
fn cache_file_placement() {
    let c = ChunkInfo {
        index: 3,
        compress_offset: 0x100,
        compress_size: 0x80,
        uncompress_offset: 0x3000,
        uncompress_size: 0x1000,
        is_compressed: true,
        digest: [3u8; 32],
    };
    let plain = plain_flags();
    assert_eq!(plain.cache_offset(&c), 0x3000);
    assert_eq!(plain.cache_read(&c), CacheRead::Direct(0x3000, 0x1000));
    let compressed = EntryFlags::new(true, false, false, false, false);
    assert_eq!(compressed.cache_offset(&c), 0x100);
    assert_eq!(compressed.cache_read(&c), CacheRead::Scratch(0x100, 0x80));
    let stargz = EntryFlags::new(true, true, true, false, false);
    assert_eq!(stargz.cache_read(&c), CacheRead::Stream(0x100));
    assert!(stargz.try_cache(false));
    assert!(!plain.try_cache(false));
    assert!(plain.try_cache(true));
}

#[test]
fn chunk_ready_after_reload_is_served_from_cache() {
    let mut m = IndexedChunkMap::new(2);
    assert!(m.try_fetch(1));
    assert_eq!(m.persist_done(1, 0x400, 0x400), Ok(()));
    let reloaded = IndexedChunkMap::from_bytes(m.bits.clone(), 2).unwrap();
    assert!(reloaded.is_ready_nowait(1));
    assert!(!reloaded.is_ready_nowait(0));
    for flags in [
        EntryFlags::new(false, false, false, false, false),
        EntryFlags::new(true, false, false, false, false),
        EntryFlags::new(false, true, false, false, false),
        EntryFlags::new(false, false, true, false, false),
    ] {
        assert_ne!(classify(&flags, reloaded.is_ready_nowait(1)), RegionType::Backend);
    }
}

#[test]
fn cache_paths() {
    let p = blobcache::cache_file_path("/var/cache", "sha256-abc");
    assert_eq!(p, "/var/cache/sha256-abc");
    assert_eq!(blobcache::chunk_map_path(&p), "/var/cache/sha256-abc.chunk_map");
}
