//! A content-addressed blob cache core: chunk IO merging, region classification,
//! scatter/gather copies, chunk readiness tracking and cache manager bookkeeping,
//! each stated and proved with Verus.

pub mod buffer;
pub mod chunk;
pub mod chunkmap;
pub mod entry;
pub mod error;
pub mod iovec;
pub mod manager;
pub mod merge;
pub mod region;
pub mod service;

pub use buffer::DataBuffer;
pub use chunk::{BlobIoDesc, BlobIoTag, ChunkInfo, ChunkSegment};
pub use chunkmap::{ChunkState, DigestedChunkMap, IndexedChunkMap};
pub use entry::{
    backend_chunk_ranges, backend_fetch, cache_fast_range, cache_file_path, cache_read_complete,
    cache_slow_part, check_chunk_data, chunk_map_path, classify, copy_backend_user_data,
    plan_request, slow_next, validate_fscache_config, validate_fscache_entry, CacheRead,
    EntryFlags, SlowAction, RAFS_MAX_BLOCK_SIZE,
};
pub use error::{StorageError, StorageResult};
pub use iovec::{copyv, readv_next, IoRange, MemSliceCursor, ReadNext, ReadOutcome};
pub use manager::CacheMgrState;
pub use merge::{merge_requests, merge_requests_for_user, BlobPrefetchConfig, ChunkIoMerged};
pub use region::{FileIoMergeState, RangeItem, Region, RegionStatus, RegionType};
pub use service::{validate_threads_configuration, Error, FsBackendType};
