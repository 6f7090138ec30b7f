use blobcache::{
    BlobIoTag, ChunkInfo, ChunkSegment, FileIoMergeState, Region, RegionStatus, RegionType,
    StorageError,
};

#[test]
fn test_region_type() {
    assert!(RegionType::CacheFast.joinable(RegionType::CacheFast));
    assert!(RegionType::CacheSlow.joinable(RegionType::CacheSlow));
    assert!(RegionType::Backend.joinable(RegionType::Backend));

    assert!(!RegionType::CacheFast.joinable(RegionType::CacheSlow));
    assert!(!RegionType::CacheFast.joinable(RegionType::Backend));
    assert!(!RegionType::CacheSlow.joinable(RegionType::CacheFast));
    assert!(!RegionType::CacheSlow.joinable(RegionType::Backend));
    assert!(!RegionType::Backend.joinable(RegionType::CacheFast));
    assert!(!RegionType::Backend.joinable(RegionType::CacheSlow));
}

#[test]
fn test_region_new() {
    let region = Region::new(RegionType::CacheFast);

    assert_eq!(region.status, RegionStatus::Init);
    assert!(!region.has_user_io());
    assert!(region.seg.is_empty());
    assert_eq!(region.chunks.len(), 0);
    assert_eq!(region.tags.len(), 0);
    assert_eq!(region.blob_address, 0);
    assert_eq!(region.blob_len, 0);
}

#[test]
fn test_region_append() {
    let mut region = Region::new(RegionType::CacheFast);

    let tag = BlobIoTag::User(ChunkSegment {
        offset: 0x1800,
        len: 0x1800,
    });
    region.append(0x1000, 0x2000, tag, None).unwrap();
    assert_eq!(region.status, RegionStatus::Open);
    assert_eq!(region.blob_address, 0x1000);
    assert_eq!(region.blob_len, 0x2000);
    assert_eq!(region.chunks.len(), 0);
    assert_eq!(region.tags.len(), 0);
    assert!(!region.seg.is_empty());
    assert!(region.has_user_io());

    let tag = BlobIoTag::User(ChunkSegment {
        offset: 0x4000,
        len: 0x2000,
    });
    region.append(0x4000, 0x2000, tag, None).unwrap_err();
    assert_eq!(region.status, RegionStatus::Open);
    assert_eq!(region.blob_address, 0x1000);
    assert_eq!(region.blob_len, 0x2000);
    assert_eq!(region.seg.offset, 0x1800);
    assert_eq!(region.seg.len, 0x1800);
    assert_eq!(region.chunks.len(), 0);
    assert_eq!(region.tags.len(), 0);
    assert!(region.has_user_io());

    let tag = BlobIoTag::User(ChunkSegment {
        offset: 0x3000,
        len: 0x2000,
    });
    region.append(0x3000, 0x2000, tag, None).unwrap();
    assert_eq!(region.status, RegionStatus::Open);
    assert_eq!(region.blob_address, 0x1000);
    assert_eq!(region.blob_len, 0x4000);
    assert_eq!(region.seg.offset, 0x1800);
    assert_eq!(region.seg.len, 0x3800);
    assert_eq!(region.chunks.len(), 0);
    assert_eq!(region.tags.len(), 0);
    assert!(!region.seg.is_empty());
    assert!(region.has_user_io());
}

#[test]
fn test_file_io_merge_state() {
    let mut state = FileIoMergeState::new();
    assert_eq!(state.regions.len(), 0);

    let tag = BlobIoTag::User(ChunkSegment {
        offset: 0x1800,
        len: 0x1800,
    });
    state
        .push(RegionType::CacheFast, 0x1000, 0x2000, tag, None)
        .unwrap();
    assert_eq!(state.regions.len(), 1);

    let tag = BlobIoTag::User(ChunkSegment {
        offset: 0x3000,
        len: 0x2000,
    });
    state
        .push(RegionType::CacheFast, 0x3000, 0x2000, tag, None)
        .unwrap();
    assert_eq!(state.regions.len(), 1);

    let tag = BlobIoTag::User(ChunkSegment {
        offset: 0x5000,
        len: 0x2000,
    });
    state
        .push(RegionType::CacheSlow, 0x5000, 0x2000, tag, None)
        .unwrap();
    assert_eq!(state.regions.len(), 2);
}

fn chunk(index: u32, offset: u64, size: u32) -> ChunkInfo {
    ChunkInfo {
        index,
        compress_offset: offset,
        compress_size: size,
        uncompress_offset: offset,
        uncompress_size: size,
        is_compressed: false,
        digest: [index as u8; 32],
    }
}

#[test]
fn region_append_exact_end_extends_and_gap_is_refused() {
    let mut region = Region::new(RegionType::Backend);
    region
        .append(0, 0x400, BlobIoTag::Internal(0), Some(chunk(0, 0, 0x400)))
        .unwrap();
    region
        .append(0x400, 0x400, BlobIoTag::Internal(0x400), Some(chunk(1, 0x400, 0x400)))
        .unwrap();
    assert_eq!(region.blob_len, 0x800);
    assert_eq!(region.chunks.len(), 2);
    assert_eq!(region.tags, vec![false, false]);
    assert!(!region.has_user_io());
    let err = region
        .append(0x801, 0x400, BlobIoTag::Internal(0x801), Some(chunk(2, 0x801, 0x400)))
        .unwrap_err();
    assert_eq!(err, StorageError::NotContinuous);
    assert_eq!(region.blob_len, 0x800);
    assert_eq!(region.chunks.len(), 2);
}

#[test]
fn merge_state_gap_starts_new_region() {
    let mut state = FileIoMergeState::new();
    let tag = BlobIoTag::User(ChunkSegment { offset: 0, len: 0x400 });
    state
        .push(RegionType::Backend, 0, 0x400, tag, Some(chunk(0, 0, 0x400)))
        .unwrap();
    let tag = BlobIoTag::User(ChunkSegment { offset: 0, len: 0x400 });
    state
        .push(RegionType::Backend, 0x500, 0x400, tag, Some(chunk(1, 0x500, 0x400)))
        .unwrap();
    assert_eq!(state.regions.len(), 2);
    assert_eq!(state.regions[0].blob_address, 0);
    assert_eq!(state.regions[0].blob_len, 0x400);
    assert_eq!(state.regions[1].blob_address, 0x500);
    assert_eq!(state.regions[1].blob_len, 0x400);
    state.reset();
    assert_eq!(state.regions.len(), 0);
}

#[test]
fn internal_range_keeps_user_segment() {
    let mut region = Region::new(RegionType::Backend);
    let tag = BlobIoTag::User(ChunkSegment { offset: 0x10, len: 0x3f0 });
    region.append(0, 0x400, tag, Some(chunk(0, 0, 0x400))).unwrap();
    region
        .append(0x400, 0x400, BlobIoTag::Internal(0x400), Some(chunk(1, 0x400, 0x400)))
        .unwrap();
    assert_eq!(region.seg, ChunkSegment::new(0x10, 0x3f0));
    assert_eq!(region.tags, vec![true, false]);
}

#[test]
fn commit_hands_out_frozen_regions() {
    let mut state = FileIoMergeState::new();
    let tag = BlobIoTag::User(ChunkSegment { offset: 0, len: 0x400 });
    state
        .push(RegionType::CacheFast, 0, 0x400, tag, None)
        .unwrap();
    state
        .push(RegionType::Backend, 0x400, 0x400, tag, Some(chunk(1, 0x400, 0x400)))
        .unwrap();
    let regions = state.commit();
    assert_eq!(regions.len(), 2);
    assert!(regions.iter().all(|r| r.status == RegionStatus::Committed));
    assert_eq!(regions[0].region_type, RegionType::CacheFast);
    assert_eq!((regions[1].blob_address, regions[1].blob_len), (0x400, 0x400));
}
