//! Decisions of a blob cache entry: its flags, the classification of each chunk
//! of a merged request into regions, the ranges that each region reads, and the
//! checks on data coming back from the cache file or the backend.

use vstd::prelude::*;
use vstd::string::StringExecFns;

use crate::chunk::{BlobIoTag, ChunkInfo};
use crate::error::StorageError;
use crate::iovec::{buf_lens, buf_views, copied_into, copyv, copyv_result, span};
use crate::merge::ChunkIoMerged;
use crate::region::{opt_push, regions_of, FileIoMergeState, RangeItem, Region, RegionType};

verus! {

/// The flags of a cache entry that decide how its chunks are served.
#[derive(Clone, Copy, Debug, PartialEq, Eq, Structural)]
pub struct EntryFlags {
    /// The cache file holds compressed chunks.
    pub is_compressed: bool,
    /// Chunk data from the cache file is validated before use.
    pub need_validate: bool,
    /// The blob is a stargz blob.
    pub is_stargz: bool,
    /// Readiness is tracked by chunk index (else by digest).
    pub is_direct_chunkmap: bool,
    /// The entry can be handed out as a blob object.
    pub blob_object: bool,
}

impl EntryFlags {
    /// Derives the flags of an entry from the configuration and the blob:
    /// readiness is tracked by digest when the indexed map is disabled, for stargz
    /// blobs, and for blobs without a chunk table.
    pub fn new(
        cache_compressed: bool,
        cache_validate: bool,
        is_stargz: bool,
        disable_indexed_map: bool,
        no_ext_blob_table: bool,
    ) -> (r: Self)
        ensures
            r.is_compressed == cache_compressed,
            r.need_validate == cache_validate,
            r.is_stargz == is_stargz,
            r.is_direct_chunkmap == !(disable_indexed_map || is_stargz || no_ext_blob_table),
            r.blob_object_supported() == (!r.is_compressed && r.is_direct_chunkmap && !r.is_stargz),
    {
        let is_direct_chunkmap = !(disable_indexed_map || is_stargz || no_ext_blob_table);
        EntryFlags {
            is_compressed: cache_compressed,
            need_validate: cache_validate,
            is_stargz,
            is_direct_chunkmap,
            blob_object: !cache_compressed && is_direct_chunkmap && !is_stargz,
        }
    }

    /// The flags of an entry backed by an fscache file: it caches uncompressed
    /// data, tracks readiness by chunk index, can be handed out as a blob object,
    /// and validates data when configured to, except for legacy stargz blobs.
    pub fn for_fscache(need_validation: bool, is_legacy_stargz: bool) -> (r: Self)
        ensures
            !r.is_compressed,
            r.is_direct_chunkmap,
            r.is_stargz == is_legacy_stargz,
            r.need_validate == (need_validation && !is_legacy_stargz),
            r.blob_object_supported(),
    {
        EntryFlags {
            is_compressed: false,
            need_validate: need_validation && !is_legacy_stargz,
            is_stargz: is_legacy_stargz,
            is_direct_chunkmap: true,
            blob_object: true,
        }
    }

    /// Whether the entry can be handed out as a blob object.
    pub open spec fn blob_object_supported(&self) -> bool {
        self.blob_object
    }

    /// Size of the blob: stargz blobs do not provide one, so it is 0; otherwise
    /// it is what the backend reports.
    pub fn blob_size(&self, reader_size: u64) -> (r: u64)
        ensures
            r == if self.is_stargz {
                0
            } else {
                reader_size
            },
    {
        if self.is_stargz {
            0
        } else {
            reader_size
        }
    }

    /// Where and what a fetched chunk is persisted: at `cache_offset`, as the
    /// bytes fetched from the backend (`true`) when the cache holds compressed
    /// data, else as the decoded bytes (`false`).
    pub fn persist_plan(&self, c: &ChunkInfo) -> (r: (u64, bool))
        ensures
            r.0 == if self.is_compressed {
                c.compress_offset
            } else {
                c.uncompress_offset
            },
            r.1 == self.is_compressed,
    {
        (self.cache_offset(c), self.is_compressed)
    }

    /// Where chunk `c` lies in the cache file: at its compressed offset when the
    /// cache holds compressed data, else at its uncompressed offset.
    pub fn cache_offset(&self, c: &ChunkInfo) -> (r: u64)
        ensures
            r == if self.is_compressed {
                c.compress_offset
            } else {
                c.uncompress_offset
            },
    {
        if self.is_compressed {
            c.compress_offset
        } else {
            c.uncompress_offset
        }
    }

    /// Whether the slow path tries the cache file before the backend: when the
    /// chunk is marked ready, or when readiness cannot be trusted (digest-keyed
    /// map, stargz).
    pub fn try_cache(&self, ready: bool) -> (r: bool)
        ensures
            r == (self.is_stargz || !self.is_direct_chunkmap || ready),
    {
        self.is_stargz || !self.is_direct_chunkmap || ready
    }

    /// How chunk `c` is read back from the cache file.
    pub fn cache_read(&self, c: &ChunkInfo) -> (r: CacheRead)
        ensures
            r == if self.is_stargz {
                CacheRead::Stream(
                    if self.is_compressed {
                        c.compress_offset
                    } else {
                        c.uncompress_offset
                    },
                )
            } else if self.is_compressed {
                CacheRead::Scratch(c.compress_offset, c.compress_size)
            } else {
                CacheRead::Direct(c.uncompress_offset, c.uncompress_size)
            },
    {
        let offset = self.cache_offset(c);
        if self.is_stargz {
            CacheRead::Stream(offset)
        } else if self.is_compressed {
            CacheRead::Scratch(offset, c.compress_size)
        } else {
            CacheRead::Direct(offset, c.uncompress_size)
        }
    }

    /// Whether the entry can be handed out as a blob object: its cache file holds
    /// uncompressed data at uncompressed offsets, tracked by chunk index.
    pub fn is_get_blob_object_supported(&self) -> (r: bool)
        ensures
            r == self.blob_object_supported(),
    {
        self.blob_object
    }
}

/// How a chunk is read back from the cache file.
#[derive(Clone, Copy, Debug, PartialEq, Eq, Structural)]
pub enum CacheRead {
    /// Decode a stream that starts at this offset (stargz: the size of the
    /// compressed frame is not known in advance).
    Stream(u64),
    /// Read this many compressed bytes at this offset into a scratch buffer, then
    /// decompress.
    Scratch(u64, u32),
    /// Read this many bytes at this offset straight into the chunk buffer.
    Direct(u64, u32),
}

/// The next step of reading one chunk on the slow path.
#[derive(Clone, Copy, Debug, PartialEq, Eq, Structural)]
pub enum SlowAction {
    /// Read the chunk back from the cache file this way, then decide again with
    /// the outcome.
    TryCache(CacheRead),
    /// The cache file held the chunk: mark it ready and copy it out.
    UseCache,
    /// Fetch the chunk from the backend: this many bytes at this offset of the
    /// blob; then decode it, persist it in the background and copy it out.
    Fetch(u64, u32),
}

/// One decision of the slow path for chunk `c`. `cache` is the outcome of the
/// cache-file read once tried (`None` before). The cache file is tried first
/// when `try_cache` allows it; a hit is used; otherwise, or on a failed or
/// invalid cache read, the whole chunk is fetched from the backend, compressed
/// when the chunk is stored compressed.
pub fn slow_next(flags: &EntryFlags, c: &ChunkInfo, ready: bool, cache: Option<Result<usize, StorageError>>) -> (r:
    SlowAction)
    ensures
        cache is None && (flags.is_stargz || !flags.is_direct_chunkmap || ready) ==> r
            == SlowAction::TryCache(
            if flags.is_stargz {
                CacheRead::Stream(
                    if flags.is_compressed {
                        c.compress_offset
                    } else {
                        c.uncompress_offset
                    },
                )
            } else if flags.is_compressed {
                CacheRead::Scratch(c.compress_offset, c.compress_size)
            } else {
                CacheRead::Direct(c.uncompress_offset, c.uncompress_size)
            },
        ),
        cache matches Some(Ok(_)) ==> r == SlowAction::UseCache,
        (cache is None && !(flags.is_stargz || !flags.is_direct_chunkmap || ready)) || (
        cache matches Some(Err(_))) ==> r == SlowAction::Fetch(
            c.compress_offset,
            if c.is_compressed {
                c.compress_size
            } else {
                c.uncompress_size
            },
        ),
{
    let raw_len = if c.is_compressed {
        c.compress_size
    } else {
        c.uncompress_size
    };
    match cache {
        None => {
            if flags.try_cache(ready) {
                SlowAction::TryCache(flags.cache_read(c))
            } else {
                SlowAction::Fetch(c.compress_offset, raw_len)
            }
        },
        Some(Ok(_)) => SlowAction::UseCache,
        Some(Err(_)) => SlowAction::Fetch(c.compress_offset, raw_len),
    }
}

/// Whether a read of the cache file returned the whole chunk: a read of
/// nothing, or of fewer or more bytes than asked, is no hit.
pub fn cache_read_complete(nr_read: usize, expected: usize) -> (r: bool)
    ensures
        r == (nr_read != 0 && nr_read == expected),
{
    nr_read != 0 && nr_read == expected
}

/// The backend range that a backend region reads, or `None` when the region
/// holds no user data or no chunk: its chunks are then given up unread.
pub fn backend_fetch(region: &Region) -> (r: Option<(u64, usize)>)
    ensures
        r is None <==> (region.seg.is_empty_spec() || region.chunks@.len() == 0),
        r matches Some((a, l)) ==> a == region.blob_address && l == region.blob_len,
{
    if !region.has_user_io() || region.chunks.len() == 0 {
        None
    } else {
        Some((region.blob_address, region.blob_len as usize))
    }
}

/// How a chunk is served, given whether it is ready in the cache.
pub open spec fn dispatch_of(flags: EntryFlags, ready: bool) -> RegionType {
    if ready && !flags.is_compressed && !flags.need_validate {
        RegionType::CacheFast
    } else if flags.is_stargz || !flags.is_direct_chunkmap || ready {
        RegionType::CacheSlow
    } else {
        RegionType::Backend
    }
}

/// A chunk observed ready is served from the cache file, never fetched from the
/// backend again.
pub proof fn lemma_ready_served_from_cache(flags: EntryFlags)
    ensures
        dispatch_of(flags, true) != RegionType::Backend,
{
}

/// Decides how a chunk is served: straight from the cache file when it is ready,
/// stored uncompressed and needs no validation; from the cache file with
/// decoding when it is ready otherwise, or when readiness cannot be trusted
/// (digest-keyed map, stargz); from the backend otherwise.
pub fn classify(flags: &EntryFlags, ready: bool) -> (r: RegionType)
    ensures
        r == dispatch_of(*flags, ready),
{
    if ready && !flags.is_compressed && !flags.need_validate {
        RegionType::CacheFast
    } else if flags.is_stargz || !flags.is_direct_chunkmap || ready {
        RegionType::CacheSlow
    } else {
        RegionType::Backend
    }
}

/// The range that chunk `c` with `tag` adds to the regions, if any: internal
/// requests served from the cache are dropped; backend ranges lie in the
/// compressed address space, cache ranges in the uncompressed one.
pub open spec fn item_of(flags: EntryFlags, c: ChunkInfo, tag: BlobIoTag, ready: bool) -> Option<
    RangeItem,
> {
    match dispatch_of(flags, ready) {
        RegionType::CacheFast => if tag is User {
            Some(
                RangeItem {
                    kind: RegionType::CacheFast,
                    start: c.uncompress_offset,
                    len: c.uncompress_size,
                    tag,
                    chunk: None,
                },
            )
        } else {
            None
        },
        RegionType::CacheSlow => if tag is User {
            Some(
                RangeItem {
                    kind: RegionType::CacheSlow,
                    start: c.uncompress_offset,
                    len: c.uncompress_size,
                    tag,
                    chunk: Some(c),
                },
            )
        } else {
            None
        },
        RegionType::Backend => Some(
            RangeItem {
                kind: RegionType::Backend,
                start: c.compress_offset,
                len: c.compress_size,
                tag,
                chunk: Some(c),
            },
        ),
    }
}

/// The ranges that the first `k` chunks of a request add, in order.
pub open spec fn plan_items(
    flags: EntryFlags,
    chunks: Seq<ChunkInfo>,
    tags: Seq<BlobIoTag>,
    ready: Seq<bool>,
    k: int,
) -> Seq<RangeItem>
    decreases k,
{
    if k <= 0 {
        Seq::empty()
    } else {
        opt_push(
            plan_items(flags, chunks, tags, ready, k - 1),
            item_of(flags, chunks[k - 1], tags[k - 1], ready[k - 1]),
        )
    }
}

/// The internal requests among the first `k` chunks that the slow path drops;
/// their in-flight marks are given up.
pub open spec fn plan_notify(
    flags: EntryFlags,
    chunks: Seq<ChunkInfo>,
    tags: Seq<BlobIoTag>,
    ready: Seq<bool>,
    k: int,
) -> Seq<ChunkInfo>
    decreases k,
{
    if k <= 0 {
        Seq::empty()
    } else if dispatch_of(flags, ready[k - 1]) == RegionType::CacheSlow && !(tags[k - 1] is User) {
        plan_notify(flags, chunks, tags, ready, k - 1).push(chunks[k - 1])
    } else {
        plan_notify(flags, chunks, tags, ready, k - 1)
    }
}

/// Splits a merged request into regions. `ready[i]` tells whether chunk `i` was
/// observed ready. Returns the regions and the chunks whose in-flight marks are
/// to be given up.
pub fn plan_request(flags: &EntryFlags, req: &ChunkIoMerged, ready: &Vec<bool>) -> (r: (
    FileIoMergeState,
    Vec<ChunkInfo>,
))
    requires
        req.chunks@.len() == req.chunk_tags@.len(),
        ready@.len() == req.chunks@.len(),
    ensures
        r.0.wf(),
        r.0.models() == regions_of(
            plan_items(*flags, req.chunks@, req.chunk_tags@, ready@, req.chunks@.len() as int),
        ),
        r.1@ == plan_notify(*flags, req.chunks@, req.chunk_tags@, ready@, req.chunks@.len() as int),
{
    let mut state = FileIoMergeState::new();
    let mut notify: Vec<ChunkInfo> = Vec::new();
    let n = req.chunks.len();
    let mut i: usize = 0;
    while i < n
        invariant
            n == req.chunks@.len(),
            n == req.chunk_tags@.len(),
            n == ready@.len(),
            i <= n,
            state.wf(),
            state.models() == regions_of(
                plan_items(*flags, req.chunks@, req.chunk_tags@, ready@, i as int),
            ),
            notify@ == plan_notify(*flags, req.chunks@, req.chunk_tags@, ready@, i as int),
        decreases n - i,
    {
        let c = req.chunks[i];
        let tag = req.chunk_tags[i];
        let kind = classify(flags, ready[i]);
        let ghost before = plan_items(*flags, req.chunks@, req.chunk_tags@, ready@, i as int);
        match kind {
            RegionType::CacheFast => {
                // Silently drop internal requests.
                if tag.is_user_io() {
                    let _ = state.push(
                        RegionType::CacheFast,
                        c.uncompress_offset,
                        c.uncompress_size,
                        tag,
                        None,
                    );
                }
            },
            RegionType::CacheSlow => {
                if tag.is_user_io() {
                    let _ = state.push(
                        RegionType::CacheSlow,
                        c.uncompress_offset,
                        c.uncompress_size,
                        tag,
                        Some(c),
                    );
                } else {
                    // The slow path does not serve internal requests.
                    notify.push(c);
                }
            },
            RegionType::Backend => {
                let _ = state.push(RegionType::Backend, c.compress_offset, c.compress_size, tag, Some(c));
            },
        }
        proof {
            let after = plan_items(*flags, req.chunks@, req.chunk_tags@, ready@, i + 1);
            match item_of(*flags, c, tag, ready@[i as int]) {
                Some(it) => {
                    assert(after == before.push(it));
                    assert(after.drop_last() =~= before);
                },
                None => {
                    assert(after == before);
                },
            }
        }
        i += 1;
    }
    (state, notify)
}

/// The file range that a fast-path region reads: from the start of the user
/// data, for its length. `None` when the offset overflows.
pub fn cache_fast_range(region: &Region) -> (r: Option<(u64, usize)>)
    ensures
        match r {
            Some((off, len)) => off == region.blob_address + region.seg.offset && len
                == region.seg.len,
            None => region.blob_address + region.seg.offset > u64::MAX,
        },
{
    if region.blob_address > u64::MAX - region.seg.offset as u64 {
        None
    } else {
        Some((region.blob_address + region.seg.offset as u64, region.seg.len as usize))
    }
}

/// The part of chunk `i` of a slow-path region that the user wants, after
/// `total_read` bytes of user data came from the chunks before it: it starts at
/// the user offset in the first chunk and at 0 in the others, and runs to the
/// end of the chunk or of the user data. `InvalidArgument` when the user data
/// starts beyond the chunk or `total_read` passes the user data.
pub fn cache_slow_part(region: &Region, i: usize, total_read: u32) -> (r: Result<
    (u32, u32),
    StorageError,
>)
    requires
        i < region.chunks@.len(),
    ensures
        ({
            let user_offset: int = if i == 0 {
                region.seg.offset as int
            } else {
                0
            };
            let c = region.chunks@[i as int];
            match r {
                Ok((o, size)) => {
                    &&& user_offset <= c.uncompress_size && total_read <= region.seg.len
                    &&& o == user_offset
                    &&& size == if c.uncompress_size - user_offset < region.seg.len - total_read {
                        c.uncompress_size - user_offset
                    } else {
                        region.seg.len - total_read
                    }
                },
                Err(e) => e == StorageError::InvalidArgument && (user_offset > c.uncompress_size
                    || total_read > region.seg.len),
            }
        }),
{
    let user_offset = if i == 0 {
        region.seg.offset
    } else {
        0
    };
    let c = &region.chunks[i];
    if user_offset > c.uncompress_size || total_read > region.seg.len {
        return Err(StorageError::InvalidArgument);
    }
    let in_chunk = c.uncompress_size - user_offset;
    let wanted = region.seg.len - total_read;
    let size = if in_chunk < wanted {
        in_chunk
    } else {
        wanted
    };
    Ok((user_offset, size))
}

/// The largest uncompressed size of a chunk.
pub const RAFS_MAX_BLOCK_SIZE: u64 = 0x10_0000;

/// Whether `chunks` can be cut out of a backend read of `blob_size` bytes at
/// `blob_offset`: the range fits in `u64`, the chunks follow each other from
/// `blob_offset` on, each ends inside the range, and none decompresses to more
/// than `RAFS_MAX_BLOCK_SIZE` bytes.
pub open spec fn backend_chunks_fit(blob_offset: u64, blob_size: usize, chunks: Seq<ChunkInfo>) -> bool {
    &&& blob_offset + blob_size <= u64::MAX
    &&& forall|i: int|
        0 <= i < chunks.len() ==> (#[trigger] chunks[i]).compress_offset == if i == 0 {
            blob_offset as int
        } else {
            chunks[i - 1].compress_end()
        }
    &&& forall|i: int|
        0 <= i < chunks.len() ==> (#[trigger] chunks[i]).compress_end() <= blob_offset + blob_size
    &&& forall|i: int|
        0 <= i < chunks.len() ==> (#[trigger] chunks[i]).uncompress_size <= RAFS_MAX_BLOCK_SIZE
}

/// Where each chunk of a backend read lies in the buffer that the read filled:
/// `[start, end)` for chunk `i`. Succeeds exactly when the read returned
/// `blob_size` bytes and the chunks fit the read (`backend_chunks_fit`); fails
/// with `Io` otherwise.
pub fn backend_chunk_ranges(blob_offset: u64, blob_size: usize, chunks: &Vec<ChunkInfo>, nr_read: usize) -> (r:
    Result<Vec<(usize, usize)>, StorageError>)
    ensures
        r is Ok <==> (nr_read == blob_size && backend_chunks_fit(blob_offset, blob_size, chunks@)),
        match r {
            Ok(ranges) => {
                &&& ranges@.len() == chunks@.len()
                &&& forall|i: int|
                    0 <= i < chunks@.len() ==> {
                        &&& (#[trigger] ranges@[i]).0 == chunks@[i].compress_offset - blob_offset
                        &&& ranges@[i].1 == ranges@[i].0 + chunks@[i].compress_size
                        &&& ranges@[i].1 <= blob_size
                    }
            },
            Err(e) => e == StorageError::Io,
        },
{
    if nr_read != blob_size || blob_offset > u64::MAX - blob_size as u64 {
        return Err(StorageError::Io);
    }
    let end = blob_offset + blob_size as u64;
    let mut ranges: Vec<(usize, usize)> = Vec::new();
    let mut last = blob_offset;
    let mut i: usize = 0;
    while i < chunks.len()
        invariant
            nr_read == blob_size,
            end == blob_offset + blob_size,
            i <= chunks@.len(),
            ranges@.len() == i,
            blob_offset <= last,
            last - blob_offset <= blob_size,
            i == 0 ==> last == blob_offset,
            i > 0 ==> last == chunks@[i - 1].compress_end(),
            forall|k: int|
                0 <= k < i ==> {
                    &&& (#[trigger] ranges@[k]).0 == chunks@[k].compress_offset - blob_offset
                    &&& ranges@[k].1 == ranges@[k].0 + chunks@[k].compress_size
                    &&& ranges@[k].1 <= blob_size
                    &&& chunks@[k].compress_offset == if k == 0 {
                        blob_offset as int
                    } else {
                        chunks@[k - 1].compress_end()
                    }
                    &&& chunks@[k].compress_end() <= end
                    &&& chunks@[k].uncompress_size <= RAFS_MAX_BLOCK_SIZE
                },
        decreases chunks@.len() - i,
    {
        let c = &chunks[i];
        // The chunks must be continuous, lie inside the buffer and decompress to
        // at most the largest chunk size.
        if c.compress_offset != last || c.compress_size as u64 > end - last || c.uncompress_size as u64
            > RAFS_MAX_BLOCK_SIZE {
            return Err(StorageError::Io);
        }
        let start = (c.compress_offset - blob_offset) as usize;
        let stop = start + c.compress_size as usize;
        ranges.push((start, stop));
        last = c.compress_offset + c.compress_size as u64;
        i += 1;
    }
    assert forall|k: int| 0 <= k < chunks@.len() implies {
        &&& (#[trigger] chunks@[k]).compress_offset == if k == 0 {
            blob_offset as int
        } else {
            chunks@[k - 1].compress_end()
        }
        &&& chunks@[k].compress_end() <= end
        &&& chunks@[k].uncompress_size <= RAFS_MAX_BLOCK_SIZE
    } by {
        assert(ranges@[k].1 <= blob_size);
    }
    Ok(ranges)
}

/// The buffers whose tag is set, in order.
pub open spec fn tagged(bufs: Seq<Seq<u8>>, tags: Seq<bool>) -> Seq<Seq<u8>>
    decreases bufs.len(),
{
    if bufs.len() == 0 {
        Seq::empty()
    } else if tags[bufs.len() - 1] {
        tagged(bufs.drop_last(), tags.drop_last()).push(bufs.last())
    } else {
        tagged(bufs.drop_last(), tags.drop_last())
    }
}

/// A copy of a byte buffer.
fn dup_bytes(b: &Vec<u8>) -> (r: Vec<u8>)
    ensures
        r@ == b@,
{
    let mut v: Vec<u8> = Vec::new();
    let mut i: usize = 0;
    while i < b.len()
        invariant
            i <= b@.len(),
            v@ == b@.subrange(0, i as int),
        decreases b@.len() - i,
    {
        v.push(b[i]);
        i += 1;
    }
    assert(v@ =~= b@);
    v
}

/// Copies the user data of a backend region out of its decoded chunks: the
/// chunks that hold user data, in order, from the segment's offset on, for the
/// segment's length, to the destination position.
pub fn copy_backend_user_data(
    region: &Region,
    chunk_data: &Vec<Vec<u8>>,
    dst: &mut Vec<Vec<u8>>,
    dst_index: usize,
    dst_offset: usize,
) -> (r: Result<(usize, (usize, usize)), StorageError>)
    requires
        chunk_data@.len() == region.tags@.len(),
    ensures
        buf_lens(final(dst)@) == buf_lens(old(dst)@),
        ({
            let user = tagged(buf_views(chunk_data@), region.tags@);
            match copyv_result(
                user,
                buf_lens(old(dst)@),
                region.seg.offset as int,
                region.seg.len as int,
                dst_index as int,
                dst_offset as int,
            ) {
                Ok((n, i, o)) => r == Ok::<(usize, (usize, usize)), StorageError>(
                    (n as usize, (i as usize, o as usize)),
                ) && copied_into(
                    old(dst)@,
                    final(dst)@,
                    dst_index as int,
                    dst_offset as int,
                    user.flatten(),
                    region.seg.offset as int,
                    n,
                ),
                Err(e) => r == Err::<(usize, (usize, usize)), StorageError>(e),
            }
        }),
{
    let mut user: Vec<Vec<u8>> = Vec::new();
    let n = chunk_data.len();
    let mut i: usize = 0;
    while i < n
        invariant
            n == chunk_data@.len(),
            n == region.tags@.len(),
            i <= n,
            buf_views(user@) == tagged(
                buf_views(chunk_data@.subrange(0, i as int)),
                region.tags@.subrange(0, i as int),
            ),
        decreases n - i,
    {
        let ghost before = user@;
        if region.tags[i] {
            let b = dup_bytes(&chunk_data[i]);
            user.push(b);
        }
        proof {
            let next = buf_views(chunk_data@.subrange(0, i + 1));
            assert(next.drop_last() =~= buf_views(chunk_data@.subrange(0, i as int)));
            assert(region.tags@.subrange(0, i + 1).drop_last() =~= region.tags@.subrange(0, i as int));
            assert(next.last() == chunk_data@[i as int]@);
            assert(buf_views(user@) =~= tagged(next, region.tags@.subrange(0, i + 1)));
        }
        i += 1;
    }
    proof {
        assert(chunk_data@.subrange(0, n as int) =~= chunk_data@);
        assert(region.tags@.subrange(0, n as int) =~= region.tags@);
    }
    copyv(user.as_slice(), dst, region.seg.offset as usize, region.seg.len as usize, dst_index, dst_offset)
}

/// The sub-range `[offs[i], offs[i] + lens[i])` of each buffer `i`, concatenated
/// in order.
pub open spec fn concat_ranges(bufs: Seq<Seq<u8>>, offs: Seq<int>, lens: Seq<int>) -> Seq<u8>
    decreases bufs.len(),
{
    if bufs.len() == 0 {
        Seq::empty()
    } else {
        concat_ranges(bufs.drop_last(), offs.drop_last(), lens.drop_last()) + bufs.last().subrange(
            offs.last(),
            offs.last() + lens.last(),
        )
    }
}

/// Sub-ranges that cover a continuous stretch of the buffers: each lies in its
/// buffer, every one but the first starts at 0, and every one but the last runs
/// to the end of its buffer.
pub open spec fn continuous_ranges(bufs: Seq<Seq<u8>>, offs: Seq<int>, lens: Seq<int>) -> bool {
    &&& bufs.len() == offs.len()
    &&& bufs.len() == lens.len()
    &&& forall|i: int|
        0 <= i < bufs.len() ==> 0 <= #[trigger] offs[i] && 0 <= lens[i] && offs[i] + lens[i]
            <= bufs[i].len()
    &&& forall|i: int| 0 < i < bufs.len() ==> #[trigger] offs[i] == 0
    &&& forall|i: int| 0 <= i < bufs.len() - 1 ==> #[trigger] offs[i] + lens[i] == bufs[i].len()
}

proof fn lemma_continuous_ranges_prefix(bufs: Seq<Seq<u8>>, offs: Seq<int>, lens: Seq<int>)
    requires
        continuous_ranges(bufs, offs, lens),
        bufs.len() > 0,
    ensures
        continuous_ranges(bufs.drop_last(), offs.drop_last(), lens.drop_last()),
{
    let (b, o, l) = (bufs.drop_last(), offs.drop_last(), lens.drop_last());
    assert forall|i: int| 0 <= i < b.len() implies 0 <= #[trigger] o[i] && 0 <= l[i] && o[i] + l[i]
        <= b[i].len() by {
        assert(offs[i] == o[i]);
    }
    assert forall|i: int| 0 < i < b.len() implies #[trigger] o[i] == 0 by {
        assert(offs[i] == o[i]);
    }
    assert forall|i: int| 0 <= i < b.len() - 1 implies #[trigger] o[i] + l[i] == b[i].len() by {
        assert(offs[i] == o[i]);
    }
}

proof fn lemma_continuous_ranges_reach_end(bufs: Seq<Seq<u8>>, offs: Seq<int>, lens: Seq<int>)
    requires
        continuous_ranges(bufs, offs, lens),
        bufs.len() > 0,
        offs.last() + lens.last() == bufs.last().len(),
    ensures
        offs[0] + span(lens, 0, lens.len() as int) == bufs.flatten().len(),
    decreases bufs.len(),
{
    let n = bufs.len();
    bufs.drop_last().lemma_flatten_push(bufs.last());
    assert(bufs.drop_last().push(bufs.last()) =~= bufs);
    if n == 1 {
        assert(bufs.drop_last() =~= Seq::<Seq<u8>>::empty());
        assert(span(lens, 0, 0) == 0);
    } else {
        lemma_continuous_ranges_prefix(bufs, offs, lens);
        let (b, o, l) = (bufs.drop_last(), offs.drop_last(), lens.drop_last());
        assert(o.last() == offs[n - 2]);
        assert(offs[n - 2] + lens[n - 2] == bufs[n - 2].len());
        lemma_continuous_ranges_reach_end(b, o, l);
        assert(offs.last() == offs[n - 1]);
        assert(span(lens, 0, n - 1) == span(l, 0, n - 1)) by {
            lemma_span_prefix(lens, l, n - 1);
        }
    }
}

proof fn lemma_span_prefix(a: Seq<int>, b: Seq<int>, k: int)
    requires
        0 <= k <= b.len(),
        b.len() <= a.len(),
        forall|i: int| 0 <= i < b.len() ==> a[i] == b[i],
    ensures
        span(a, 0, k) == span(b, 0, k),
    decreases k,
{
    if k > 0 {
        lemma_span_prefix(a, b, k - 1);
    }
}

/// When the requested sub-ranges of the user chunks cover a continuous stretch
/// (from some offset of the first chunk, whole chunks in between, some length of
/// the last), the chunks concatenated, read from the first offset for the total
/// length, are exactly the requested sub-ranges in order. With the contract of
/// `copy_backend_user_data`, this is what a backend region hands to the user.
pub proof fn lemma_user_data_in_order(bufs: Seq<Seq<u8>>, offs: Seq<int>, lens: Seq<int>)
    requires
        continuous_ranges(bufs, offs, lens),
        bufs.len() > 0,
    ensures
        offs[0] + span(lens, 0, lens.len() as int) <= bufs.flatten().len(),
        bufs.flatten().subrange(offs[0], offs[0] + span(lens, 0, lens.len() as int))
            == concat_ranges(bufs, offs, lens),
    decreases bufs.len(),
{
    let n = bufs.len();
    let (b, o, l) = (bufs.drop_last(), offs.drop_last(), lens.drop_last());
    b.lemma_flatten_push(bufs.last());
    assert(b.push(bufs.last()) =~= bufs);
    assert(offs.last() == offs[n - 1]);
    assert(lens.last() == lens[n - 1]);
    if n == 1 {
        assert(b =~= Seq::<Seq<u8>>::empty());
        assert(b.flatten() =~= Seq::<u8>::empty());
        assert(span(lens, 0, 0) == 0);
        assert(concat_ranges(b, o, l) =~= Seq::<u8>::empty());
        assert(bufs.flatten().subrange(offs[0], offs[0] + lens[0]) =~= bufs.last().subrange(
            offs.last(),
            offs.last() + lens.last(),
        ));
    } else {
        lemma_continuous_ranges_prefix(bufs, offs, lens);
        assert(o.last() == offs[n - 2]);
        assert(offs[n - 2] + lens[n - 2] == bufs[n - 2].len());
        lemma_continuous_ranges_reach_end(b, o, l);
        lemma_user_data_in_order(b, o, l);
        lemma_span_prefix(lens, l, n - 1);
        assert(o[0] == offs[0]);
        let front_end = offs[0] + span(l, 0, n - 1);
        assert(front_end == b.flatten().len());
        assert(offs[n - 1] == 0);
        assert(bufs.flatten().subrange(offs[0], offs[0] + span(lens, 0, n as int)) =~= b.flatten().subrange(
            offs[0],
            front_end,
        ) + bufs.last().subrange(0, lens[n - 1]));
    }
}

/// The final checks on a chunk's decoded data: it must have the chunk's
/// uncompressed size (else `Io`) and, when validation is on, match its digest
/// (`digest_ok`; else `DigestMismatch`). Returns the size.
pub fn check_chunk_data(chunk: &ChunkInfo, data_len: usize, need_validate: bool, digest_ok: bool) -> (r:
    Result<usize, StorageError>)
    ensures
        match r {
            Ok(n) => n == data_len && data_len == chunk.uncompress_size && (need_validate
                ==> digest_ok),
            Err(e) => if data_len != chunk.uncompress_size {
                e == StorageError::Io
            } else {
                need_validate && !digest_ok && e == StorageError::DigestMismatch
            },
        },
{
    if data_len != chunk.uncompress_size as usize {
        Err(StorageError::Io)
    } else if need_validate && !digest_ok {
        Err(StorageError::DigestMismatch)
    } else {
        Ok(data_len)
    }
}

/// Path of the cache file of blob `blob_id` under `work_dir`.
pub fn cache_file_path(work_dir: &str, blob_id: &str) -> (r: String)
    ensures
        r@ == work_dir@ + "/"@ + blob_id@,
{
    let mut path = String::from_str(work_dir);
    path.append("/");
    path.append(blob_id);
    path
}

/// Path of the readiness file that sits next to the cache file `cache_file`.
pub fn chunk_map_path(cache_file: &str) -> (r: String)
    ensures
        r@ == cache_file@ + ".chunk_map"@,
{
    let mut path = String::from_str(cache_file);
    path.append(".chunk_map");
    path
}

/// Checks the configuration of an fscache cache manager: compressed caching is
/// not supported (`Unsupported`).
pub fn validate_fscache_config(cache_compressed: bool) -> (r: Result<(), StorageError>)
    ensures
        r is Ok <==> !cache_compressed,
        r is Err ==> r == Err::<(), StorageError>(StorageError::Unsupported),
{
    if cache_compressed {
        Err(StorageError::Unsupported)
    } else {
        Ok(())
    }
}

/// Checks a blob before an fscache entry is built for it: blobs without a chunk
/// table (old format), blobs without an fscache file and blobs without meta
/// information are not supported; each is `InvalidArgument`.
pub fn validate_fscache_entry(no_ext_blob_table: bool, has_fscache_file: bool, meta_valid: bool) -> (r:
    Result<(), StorageError>)
    ensures
        r is Ok <==> (!no_ext_blob_table && has_fscache_file && meta_valid),
        r is Err ==> r == Err::<(), StorageError>(StorageError::InvalidArgument),
{
    if no_ext_blob_table || !has_fscache_file || !meta_valid {
        Err(StorageError::InvalidArgument)
    } else {
        Ok(())
    }
}

} // verus!
