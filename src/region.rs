//! Regions: runs of chunks within one merged request that are served the same
//! way (straight from the cache file, from the cache file with decoding, or from
//! the backend), and the per-chunk classification that builds them.

use vstd::prelude::*;

use crate::chunk::{BlobIoTag, ChunkInfo, ChunkSegment};
use crate::error::StorageError;

verus! {

/// Lifecycle of a region: created empty, opened by its first range, and
/// committed once it is handed out for dispatch.
#[derive(Clone, Copy, Debug, PartialEq, Eq, Structural)]
pub enum RegionStatus {
    Init,
    Open,
    Committed,
}

/// How the chunks of a region are served.
#[derive(Clone, Copy, Debug, PartialEq, Eq, Structural)]
pub enum RegionType {
    /// Read the cache file directly: no decompression and no validation needed.
    CacheFast,
    /// Read the cache file, then decompress or validate.
    CacheSlow,
    /// Read the storage backend.
    Backend,
}

impl RegionType {
    /// Whether a chunk of kind `other` may join a region of this kind.
    pub fn joinable(&self, other: Self) -> (r: bool)
        ensures
            r == (*self == other),
    {
        *self == other
    }
}

/// The segment of user data after a range with `tag` joins a region whose
/// user segment is `seg`.
pub open spec fn seg_after(seg: ChunkSegment, tag: BlobIoTag) -> ChunkSegment {
    match tag {
        BlobIoTag::User(s) => if seg.is_empty_spec() {
            s
        } else {
            ChunkSegment { offset: seg.offset, len: (seg.len + s.len) as u32 }
        },
        BlobIoTag::Internal(_) => seg,
    }
}

/// Whether the user segment can take the range with `tag` without overflow.
pub open spec fn seg_fits(seg: ChunkSegment, tag: BlobIoTag) -> bool {
    match tag {
        BlobIoTag::User(s) => seg.is_empty_spec() || seg.len + s.len <= u32::MAX,
        BlobIoTag::Internal(_) => true,
    }
}

/// A continuous region in the cache file or in the backend blob; it may hold
/// several chunks.
#[derive(Debug)]
pub struct Region {
    /// How the region is served.
    pub region_type: RegionType,
    /// Where the region is in its lifecycle.
    pub status: RegionStatus,
    /// The chunks to handle one by one (none for the fast path).
    pub chunks: Vec<ChunkInfo>,
    /// Parallel to `chunks`: whether the chunk holds user data.
    pub tags: Vec<bool>,
    /// Start of the range to read, in the address space of the region's kind.
    pub blob_address: u64,
    /// Size of the range to read.
    pub blob_len: u32,
    /// The range of user data within the region.
    pub seg: ChunkSegment,
}

impl Region {
    /// A region is well formed when its chunk and tag lists are parallel and an
    /// unopened region holds nothing.
    pub open spec fn wf(&self) -> bool {
        &&& self.chunks@.len() == self.tags@.len()
        &&& self.status == RegionStatus::Init ==> self.chunks@.len() == 0 && self.blob_len == 0
            && self.seg.is_empty_spec()
    }

    /// Whether the open region can grow by `[start, start + len)` carrying `tag`:
    /// the range starts exactly where the region ends, and no length overflows.
    pub open spec fn can_extend(&self, start: u64, len: u32, tag: BlobIoTag) -> bool {
        &&& self.blob_address + self.blob_len == start
        &&& start + len <= u64::MAX
        &&& self.blob_len + len <= u32::MAX
        &&& seg_fits(self.seg, tag)
    }

    /// Creates an empty region of the given kind.
    pub fn new(region_type: RegionType) -> (r: Self)
        ensures
            r.wf(),
            r.region_type == region_type,
            r.status == RegionStatus::Init,
            r.chunks@.len() == 0,
            r.blob_address == 0,
            r.blob_len == 0,
            r.seg.is_empty_spec(),
    {
        Region {
            region_type,
            status: RegionStatus::Init,
            chunks: Vec::new(),
            tags: Vec::new(),
            blob_address: 0,
            blob_len: 0,
            seg: ChunkSegment::empty(),
        }
    }

    /// Appends the range `[start, start + len)` to the region. The first range
    /// opens the region; a later one must start where the region ends, else
    /// `NotContinuous` and the region is unchanged.
    pub fn append(&mut self, start: u64, len: u32, tag: BlobIoTag, chunk: Option<ChunkInfo>) -> (r:
        Result<(), StorageError>)
        requires
            old(self).wf(),
            old(self).status != RegionStatus::Committed,
        ensures
            final(self).wf(),
            final(self).region_type == old(self).region_type,
            old(self).status == RegionStatus::Init ==> r is Ok,
            old(self).status == RegionStatus::Open ==> (r is Ok <==> old(self).can_extend(
                start,
                len,
                tag,
            )),
            r is Err ==> *final(self) == *old(self) && r == Err::<(), _>(
                StorageError::NotContinuous,
            ),
            r is Ok ==> {
                &&& final(self).status == RegionStatus::Open
                &&& final(self).blob_address == if old(self).status == RegionStatus::Init {
                    start
                } else {
                    old(self).blob_address
                }
                &&& final(self).blob_len == old(self).blob_len + len
                &&& final(self).seg == seg_after(old(self).seg, tag)
                &&& final(self).chunks@ == match chunk {
                    Some(c) => old(self).chunks@.push(c),
                    None => old(self).chunks@,
                }
                &&& final(self).tags@ == match chunk {
                    Some(c) => old(self).tags@.push(tag is User),
                    None => old(self).tags@,
                }
            },
    {
        if self.status == RegionStatus::Init {
            self.status = RegionStatus::Open;
            self.blob_address = start;
            self.blob_len = len;
        } else {
            if start > u64::MAX - len as u64 || self.blob_address > u64::MAX - self.blob_len as u64
                || self.blob_address + self.blob_len as u64 != start || self.blob_len > u32::MAX
                - len {
                return Err(StorageError::NotContinuous);
            }
            match tag {
                BlobIoTag::User(s) => {
                    if !self.seg.is_empty() && self.seg.len > u32::MAX - s.len {
                        return Err(StorageError::NotContinuous);
                    }
                },
                BlobIoTag::Internal(_) => {},
            }
            self.blob_len = self.blob_len + len;
        }
        // Maintain information for user triggered IO requests.
        match tag {
            BlobIoTag::User(s) => {
                if self.seg.is_empty() {
                    self.seg = ChunkSegment::new(s.offset, s.len);
                } else {
                    self.seg.append(s.offset, s.len);
                }
            },
            BlobIoTag::Internal(_) => {},
        }
        match chunk {
            Some(c) => {
                self.chunks.push(c);
                self.tags.push(tag.is_user_io());
            },
            None => {},
        }
        Ok(())
    }

    /// The model of the region.
    pub open spec fn model(&self) -> RegionModel {
        RegionModel {
            kind: self.region_type,
            address: self.blob_address as int,
            len: self.blob_len as int,
            seg: self.seg,
            chunks: self.chunks@,
            tags: self.tags@,
        }
    }

    /// Whether the region holds user data.
    pub fn has_user_io(&self) -> (r: bool)
        ensures
            r == !self.seg.is_empty_spec(),
    {
        !self.seg.is_empty()
    }
}

/// The mathematical model of a region.
pub struct RegionModel {
    /// How the region is served.
    pub kind: RegionType,
    /// Start of the range.
    pub address: int,
    /// Size of the range.
    pub len: int,
    /// The range of user data.
    pub seg: ChunkSegment,
    /// The chunks to handle one by one.
    pub chunks: Seq<ChunkInfo>,
    /// Whether each chunk holds user data.
    pub tags: Seq<bool>,
}

/// One range handed to a `FileIoMergeState`.
#[derive(Clone, Copy, Debug)]
pub struct RangeItem {
    /// How the range is served.
    pub kind: RegionType,
    /// Start of the range.
    pub start: u64,
    /// Size of the range.
    pub len: u32,
    /// What the range is for.
    pub tag: BlobIoTag,
    /// The chunk to handle one by one, if any.
    pub chunk: Option<ChunkInfo>,
}

/// `s` with the value of `o` appended, if there is one.
pub open spec fn opt_push<T>(s: Seq<T>, o: Option<T>) -> Seq<T> {
    match o {
        Some(x) => s.push(x),
        None => s,
    }
}

/// Whether the region with model `m` takes the range `it`: same kind, the range
/// starts where the region ends, and no length overflows.
pub open spec fn model_extends(m: RegionModel, it: RangeItem) -> bool {
    &&& m.kind == it.kind
    &&& m.address + m.len == it.start
    &&& it.start + it.len <= u64::MAX
    &&& m.len + it.len <= u32::MAX
    &&& seg_fits(m.seg, it.tag)
}

/// The region with model `m` after it takes the range `it`.
pub open spec fn extended(m: RegionModel, it: RangeItem) -> RegionModel {
    RegionModel {
        kind: m.kind,
        address: m.address,
        len: m.len + it.len,
        seg: seg_after(m.seg, it.tag),
        chunks: opt_push(m.chunks, it.chunk),
        tags: if it.chunk is Some {
            m.tags.push(it.tag is User)
        } else {
            m.tags
        },
    }
}

/// A new region holding just the range `it`.
pub open spec fn fresh(it: RangeItem) -> RegionModel {
    extended(
        RegionModel {
            kind: it.kind,
            address: it.start as int,
            len: 0,
            seg: ChunkSegment { offset: 0, len: 0 },
            chunks: Seq::empty(),
            tags: Seq::empty(),
        },
        it,
    )
}

/// The regions after the range `it` is pushed: the trailing region grows when it
/// takes the range, else a new region starts.
pub open spec fn push_model(rs: Seq<RegionModel>, it: RangeItem) -> Seq<RegionModel> {
    if rs.len() > 0 && model_extends(rs.last(), it) {
        rs.drop_last().push(extended(rs.last(), it))
    } else {
        rs.push(fresh(it))
    }
}

/// The regions that pushing the ranges `items` in order builds from nothing.
pub open spec fn regions_of(items: Seq<RangeItem>) -> Seq<RegionModel>
    decreases items.len(),
{
    if items.len() == 0 {
        Seq::empty()
    } else {
        push_model(regions_of(items.drop_last()), items.last())
    }
}

/// The regions built so far for one merged request.
#[derive(Debug)]
pub struct FileIoMergeState {
    /// The regions, in address order.
    pub regions: Vec<Region>,
}

impl FileIoMergeState {
    /// Every region is well formed and opened.
    pub open spec fn wf(&self) -> bool {
        forall|k: int|
            0 <= k < self.regions@.len() ==> (#[trigger] self.regions@[k]).wf()
                && self.regions@[k].status == RegionStatus::Open
    }

    /// The model of each region, in order.
    pub open spec fn models(&self) -> Seq<RegionModel> {
        self.regions@.map_values(|r: Region| r.model())
    }

    /// Creates a state with no region.
    pub fn new() -> (r: Self)
        ensures
            r.wf(),
            r.regions@.len() == 0,
            r.models() == Seq::<RegionModel>::empty(),
    {
        let r = FileIoMergeState { regions: Vec::new() };
        assert(r.models() =~= Seq::<RegionModel>::empty());
        r
    }

    /// Adds a range to the trailing region when it has the same kind and the
    /// range continues it; otherwise starts a new region with the range.
    pub fn push(
        &mut self,
        region_type: RegionType,
        start: u64,
        len: u32,
        tag: BlobIoTag,
        chunk: Option<ChunkInfo>,
    ) -> (r: Result<(), StorageError>)
        requires
            old(self).wf(),
        ensures
            r is Ok,
            final(self).wf(),
            final(self).models() == push_model(
                old(self).models(),
                RangeItem { kind: region_type, start, len, tag, chunk },
            ),
    {
        let n = self.regions.len();
        if n > 0 && self.joinable(region_type) {
            let mut last = self.regions.pop().unwrap();
            let res = last.append(start, len, tag, chunk);
            if res.is_ok() {
                self.regions.push(last);
                proof {
                    assert(self.models() =~= old(self).models().drop_last().push(last.model()));
                    assert forall|k: int| 0 <= k < self.regions@.len() implies (
                    #[trigger] self.regions@[k]).wf() && self.regions@[k].status
                        == RegionStatus::Open by {
                        if k < n - 1 {
                            assert(self.regions@[k] == old(self).regions@[k]);
                        }
                    }
                }
                return Ok(());
            }
            self.regions.push(last);
            assert(self.regions@ =~= old(self).regions@);
            assert(old(self).models().last() == old(self).regions@.last().model());
        }
        let mut region = Region::new(region_type);
        assert(region.chunks@ =~= Seq::<ChunkInfo>::empty());
        assert(region.tags@ =~= Seq::<bool>::empty());
        assert(region.seg == ChunkSegment { offset: 0, len: 0 });
        let res = region.append(start, len, tag, chunk);
        self.regions.push(region);
        proof {
            let it = RangeItem { kind: region_type, start, len, tag, chunk };
            assert(self.models() =~= old(self).models().push(self.regions@.last().model()));
            assert(self.regions@.last().model() == fresh(it));
            if n > 0 {
                assert(old(self).models().last() == old(self).regions@.last().model());
                assert(!model_extends(old(self).models().last(), it));
            }
            assert forall|k: int| 0 <= k < self.regions@.len() implies (
            #[trigger] self.regions@[k]).wf() && self.regions@[k].status == RegionStatus::Open by {
                if k < n {
                    assert(self.regions@[k] == old(self).regions@[k]);
                }
            }
        }
        res
    }

    /// Hands the regions out for dispatch: each is committed and can no longer
    /// grow; their models are kept.
    pub fn commit(self) -> (r: Vec<Region>)
        requires
            self.wf(),
        ensures
            r@.len() == self.regions@.len(),
            forall|k: int|
                0 <= k < r@.len() ==> (#[trigger] r@[k]).status == RegionStatus::Committed
                    && r@[k].wf() && r@[k].model() == self.regions@[k].model(),
    {
        let ghost orig = self.regions@;
        let mut regions = self.regions;
        let n = regions.len();
        let mut out: Vec<Region> = Vec::new();
        while regions.len() > 0
            invariant
                regions@.len() + out@.len() == n,
                n == orig.len(),
                regions@ == orig.subrange(out@.len() as int, n as int),
                forall|k: int|
                    0 <= k < out@.len() ==> (#[trigger] out@[k]).status == RegionStatus::Committed
                        && out@[k].wf() && out@[k].model() == orig[k].model(),
                forall|k: int| 0 <= k < orig.len() ==> (#[trigger] orig[k]).wf(),
            decreases regions@.len(),
        {
            let mut r = regions.remove(0);
            r.status = RegionStatus::Committed;
            out.push(r);
        }
        out
    }

    /// Drops every region.
    pub fn reset(&mut self)
        ensures
            final(self).wf(),
            final(self).regions@.len() == 0,
    {
        self.regions.truncate(0);
    }

    /// Whether a range of kind `region_type` may join the trailing region.
    pub fn joinable(&self, region_type: RegionType) -> (r: bool)
        requires
            self.regions@.len() > 0,
        ensures
            r == (self.regions@.last().region_type == region_type),
    {
        let idx = self.regions.len() - 1;
        self.regions[idx].region_type.joinable(region_type)
    }
}

} // verus!
