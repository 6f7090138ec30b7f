use blobcache::{
    merge_requests, merge_requests_for_user, BlobIoDesc, BlobIoTag, BlobPrefetchConfig,
    ChunkInfo, ChunkIoMerged, ChunkSegment,
};

fn chunk(index: u32, offset: u64, size: u32) -> ChunkInfo {
    ChunkInfo {
        index,
        compress_offset: offset,
        compress_size: size,
        uncompress_offset: offset,
        uncompress_size: size,
        is_compressed: false,
        digest: [index as u8; 32],
    }
}

fn user(c: ChunkInfo) -> BlobIoDesc {
    BlobIoDesc {
        chunk: c,
        user_io: true,
        offset: 0,
        size: c.uncompress_size,
    }
}

fn internal(c: ChunkInfo) -> BlobIoDesc {
    BlobIoDesc {
        chunk: c,
        user_io: false,
        offset: 0,
        size: c.uncompress_size,
    }
}

#[test]
fn chunk_segment_new_keeps_fields() {
    let s = ChunkSegment::new(0x200, 0x800);
    assert_eq!(s.offset, 0x200);
    assert_eq!(s.len, 0x800);
    assert!(!s.is_empty());
    assert!(ChunkSegment::new(0, 0).is_empty());
}

#[test]
fn chunk_io_merged_new_and_merge() {
    let c0 = chunk(0, 0x1000, 0x400);
    let c1 = chunk(1, 0x1400, 0x200);
    let mut m = ChunkIoMerged::new(c0, &user(c0));
    assert_eq!(m.blob_offset, 0x1000);
    assert_eq!(m.blob_size, 0x400);
    assert_eq!(
        m.chunk_tags,
        vec![BlobIoTag::User(ChunkSegment::new(0, 0x400))]
    );
    m.merge(c1, &internal(c1));
    assert_eq!(m.blob_offset, 0x1000);
    assert_eq!(m.blob_size, 0x600);
    assert_eq!(m.chunks, vec![c0, c1]);
    assert_eq!(m.chunk_tags[1], BlobIoTag::Internal(0x1400));
}

#[test]
fn merger_exact_meeting_extends_request() {
    let c0 = chunk(0, 0, 0x400);
    let c1 = chunk(1, 0x400, 0x400);
    let reqs = merge_requests(&vec![user(c0), user(c1)], 0x1000);
    assert_eq!(reqs.len(), 1);
    assert_eq!(reqs[0].blob_offset, 0);
    assert_eq!(reqs[0].blob_size, 0x800);
    assert_eq!(reqs[0].chunks, vec![c0, c1]);
}

#[test]
fn merger_one_byte_gap_starts_new_request() {
    let c0 = chunk(0, 0, 0x400);
    let c1 = chunk(1, 0x401, 0x400);
    let reqs = merge_requests(&vec![user(c0), user(c1)], 0x1000);
    assert_eq!(reqs.len(), 2);
    assert_eq!((reqs[0].blob_offset, reqs[0].blob_size), (0, 0x400));
    assert_eq!((reqs[1].blob_offset, reqs[1].blob_size), (0x401, 0x400));
}

#[test]
fn merger_respects_size_limit() {
    let c0 = chunk(0, 0, 0x400);
    let c1 = chunk(1, 0x400, 0x400);
    let c2 = chunk(2, 0x800, 0x400);
    let reqs = merge_requests(&vec![user(c0), user(c1), internal(c2)], 0x800);
    assert_eq!(reqs.len(), 2);
    assert_eq!(reqs[0].chunks, vec![c0, c1]);
    assert_eq!(reqs[1].chunks, vec![c2]);
    assert_eq!(reqs[1].chunk_tags, vec![BlobIoTag::Internal(0x800)]);
    // A single chunk larger than the limit still forms a request.
    let big = chunk(3, 0, 0x2000);
    let reqs = merge_requests(&vec![user(big)], 0x800);
    assert_eq!(reqs.len(), 1);
    assert_eq!(reqs[0].blob_size, 0x2000);
}

#[test]
fn merger_for_user_rejects_empty_list() {
    assert!(merge_requests_for_user(&Vec::new(), 0x1000).is_none());
    let c0 = chunk(0, 0, 0x400);
    let reqs = merge_requests_for_user(&vec![user(c0)], 0x1000).unwrap();
    assert_eq!(reqs.len(), 1);
}

#[test]
fn prefetch_config_defaults_to_disabled() {
    let cfg = BlobPrefetchConfig::new();
    assert!(!cfg.enable);
    assert_eq!(cfg.threads_count, 0);
    assert_eq!(cfg.merging_size, 0);
    assert_eq!(cfg.bandwidth_rate, 0);
}
