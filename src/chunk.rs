//! Chunk descriptors, IO descriptors and the user-visible segment of a request.

use vstd::prelude::*;

verus! {

/// Descriptor of one chunk of a blob: where it lies in the compressed (backend)
/// address space and in the uncompressed (cache) address space.
#[derive(Clone, Copy, Debug, PartialEq, Eq)]
pub struct ChunkInfo {
    /// Index of the chunk within its blob.
    pub index: u32,
    /// Start of the chunk in the compressed address space.
    pub compress_offset: u64,
    /// Size of the chunk in the compressed address space.
    pub compress_size: u32,
    /// Start of the chunk in the uncompressed address space.
    pub uncompress_offset: u64,
    /// Size of the chunk in the uncompressed address space.
    pub uncompress_size: u32,
    /// Whether the chunk is stored compressed on the backend.
    pub is_compressed: bool,
    /// Content digest of the chunk.
    pub digest: [u8; 32],
}

impl ChunkInfo {
    /// A descriptor is well formed when both of its ranges fit in `u64`.
    pub open spec fn wf(&self) -> bool {
        self.compress_offset + self.compress_size <= u64::MAX && self.uncompress_offset
            + self.uncompress_size <= u64::MAX
    }

    /// End of the chunk in the compressed address space.
    pub open spec fn compress_end(&self) -> int {
        self.compress_offset + self.compress_size
    }
}

/// One chunk request: the chunk, whether a user asked for it, and the range
/// `[offset, offset + size)` within the chunk that the caller wants.
#[derive(Clone, Copy, Debug)]
pub struct BlobIoDesc {
    /// The chunk to access.
    pub chunk: ChunkInfo,
    /// True for a user request, false for prefetch or read amplification.
    pub user_io: bool,
    /// Start of the wanted range within the chunk.
    pub offset: u32,
    /// Size of the wanted range.
    pub size: u32,
}

/// A segment representing a continuous range in a chunk.
#[derive(Clone, Copy, Debug, PartialEq, Eq, Structural)]
pub struct ChunkSegment {
    /// Start position of the range within the chunk.
    pub offset: u32,
    /// Size of the range within the chunk.
    pub len: u32,
}

impl ChunkSegment {
    /// Create a new instance of `ChunkSegment`.
    pub fn new(offset: u32, len: u32) -> (r: Self)
        ensures
            r.offset == offset,
            r.len == len,
    {
        ChunkSegment { offset, len }
    }

    /// The empty segment, which holds no user data.
    pub fn empty() -> (r: Self)
        ensures
            r.is_empty_spec(),
    {
        ChunkSegment { offset: 0, len: 0 }
    }

    /// Whether the segment is the empty one.
    pub open spec fn is_empty_spec(&self) -> bool {
        self.offset == 0 && self.len == 0
    }

    /// Whether the segment is the empty one.
    pub fn is_empty(&self) -> (r: bool)
        ensures
            r == self.is_empty_spec(),
    {
        self.offset == 0 && self.len == 0
    }

    /// Extends the segment by `len` bytes of a following chunk; the start stays.
    pub fn append(&mut self, offset: u32, len: u32)
        requires
            old(self).len + len <= u32::MAX,
        ensures
            final(self).offset == old(self).offset,
            final(self).len == old(self).len + len,
    {
        self.len = self.len + len;
    }
}

/// What a chunk request is for.
#[derive(Clone, Copy, Debug, PartialEq, Eq, Structural)]
pub enum BlobIoTag {
    /// A user request, with the segment of the chunk that the user wants.
    User(ChunkSegment),
    /// An internal request (prefetch, read amplification), with the chunk's
    /// compressed offset.
    Internal(u64),
}

impl BlobIoTag {
    /// Whether the tag marks a user request.
    pub fn is_user_io(&self) -> (r: bool)
        ensures
            r == (*self is User),
    {
        match self {
            BlobIoTag::User(_) => true,
            BlobIoTag::Internal(_) => false,
        }
    }
}

/// The tag that a request carries for chunk `c`.
pub open spec fn tag_of(bio: BlobIoDesc, c: ChunkInfo) -> BlobIoTag {
    if bio.user_io {
        BlobIoTag::User(ChunkSegment { offset: bio.offset, len: bio.size })
    } else {
        BlobIoTag::Internal(c.compress_offset)
    }
}

/// Builds the tag of a request for chunk `c`.
pub fn make_tag(bio: &BlobIoDesc, c: &ChunkInfo) -> (r: BlobIoTag)
    ensures
        r == tag_of(*bio, *c),
{
    if bio.user_io {
        BlobIoTag::User(ChunkSegment::new(bio.offset, bio.size))
    } else {
        BlobIoTag::Internal(c.compress_offset)
    }
}

} // verus!
