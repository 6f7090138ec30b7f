//! Contiguity merge: runs of chunk requests whose compressed ranges meet end to
//! start are grouped into one backend request, up to a size limit.

use vstd::prelude::*;

use crate::chunk::{make_tag, tag_of, BlobIoDesc, BlobIoTag, ChunkInfo};

verus! {

/// Several continuous chunk requests merged into one storage backend request
/// covering `[blob_offset, blob_offset + blob_size)` of the compressed blob.
#[derive(Debug)]
pub struct ChunkIoMerged {
    /// Start of the merged range.
    pub blob_offset: u64,
    /// Size of the merged range.
    pub blob_size: u64,
    /// The merged chunks, in address order.
    pub chunks: Vec<ChunkInfo>,
    /// The tag of each chunk, parallel to `chunks`.
    pub chunk_tags: Vec<BlobIoTag>,
}

impl ChunkIoMerged {
    /// End of the merged range.
    pub open spec fn end(&self) -> int {
        self.blob_offset + self.blob_size
    }

    /// The chunks lie end to start from `blob_offset`, the range ends where the
    /// last chunk ends, and each chunk has its tag.
    pub open spec fn wf(&self) -> bool {
        &&& self.chunks@.len() > 0
        &&& self.chunks@.len() == self.chunk_tags@.len()
        &&& self.blob_offset == self.chunks@[0].compress_offset
        &&& self.end() == self.chunks@.last().compress_end()
        &&& self.end() <= u64::MAX
        &&& forall|j: int|
            1 <= j < self.chunks@.len() ==> #[trigger] self.chunks@[j].compress_offset
                == self.chunks@[j - 1].compress_end()
    }

    /// Whether chunk `c` may join this request under the size limit `max`.
    pub open spec fn joins(&self, c: ChunkInfo, max: int) -> bool {
        c.compress_offset == self.end() && self.blob_size + c.compress_size <= max
    }

    /// Starts a merged request with one chunk.
    pub fn new(cki: ChunkInfo, bio: &BlobIoDesc) -> (r: Self)
        requires
            cki.wf(),
        ensures
            r.wf(),
            r.blob_offset == cki.compress_offset,
            r.blob_size == cki.compress_size,
            r.chunks@ == seq![cki],
            r.chunk_tags@ == seq![tag_of(*bio, cki)],
    {
        let tag = make_tag(bio, &cki);
        let mut chunks = Vec::new();
        chunks.push(cki);
        let mut chunk_tags = Vec::new();
        chunk_tags.push(tag);
        ChunkIoMerged {
            blob_offset: cki.compress_offset,
            blob_size: cki.compress_size as u64,
            chunks,
            chunk_tags,
        }
    }

    /// Appends a chunk that starts exactly where the request ends.
    pub fn merge(&mut self, cki: ChunkInfo, bio: &BlobIoDesc)
        requires
            old(self).wf(),
            cki.wf(),
            cki.compress_offset == old(self).end(),
        ensures
            final(self).wf(),
            final(self).blob_offset == old(self).blob_offset,
            final(self).blob_size == old(self).blob_size + cki.compress_size,
            final(self).chunks@ == old(self).chunks@.push(cki),
            final(self).chunk_tags@ == old(self).chunk_tags@.push(tag_of(*bio, cki)),
    {
        self.blob_size = self.blob_size + cki.compress_size as u64;
        let tag = make_tag(bio, &cki);
        self.chunks.push(cki);
        self.chunk_tags.push(tag);
        assert forall|j: int| 1 <= j < self.chunks@.len() implies #[trigger] self.chunks@[j].compress_offset
            == self.chunks@[j - 1].compress_end() by {
            if j < old(self).chunks@.len() {
                assert(self.chunks@[j] == old(self).chunks@[j]);
                assert(self.chunks@[j - 1] == old(self).chunks@[j - 1]);
            }
        }
    }
}

/// The chunks of a run of merged requests, in order.
pub open spec fn chunks_of(reqs: Seq<ChunkIoMerged>) -> Seq<Seq<ChunkInfo>> {
    reqs.map_values(|r: ChunkIoMerged| r.chunks@)
}

/// The tags of a run of merged requests, in order.
pub open spec fn tags_of(reqs: Seq<ChunkIoMerged>) -> Seq<Seq<BlobIoTag>> {
    reqs.map_values(|r: ChunkIoMerged| r.chunk_tags@)
}

/// The chunk of each request.
pub open spec fn bio_chunks(bios: Seq<BlobIoDesc>) -> Seq<ChunkInfo> {
    bios.map_values(|b: BlobIoDesc| b.chunk)
}

/// The tag of each request.
pub open spec fn bio_tags(bios: Seq<BlobIoDesc>) -> Seq<BlobIoTag> {
    bios.map_values(|b: BlobIoDesc| tag_of(b, b.chunk))
}

/// Every request names a well-formed chunk.
pub open spec fn bios_wf(bios: Seq<BlobIoDesc>) -> bool {
    forall|i: int| 0 <= i < bios.len() ==> (#[trigger] bios[i]).chunk.wf()
}

/// The greedy grouping of `bios` under the size limit `max`: the requests hold
/// the chunks and tags of `bios` in order; each is continuous and within the
/// limit unless it holds a single chunk; and no request could have taken the
/// first chunk of the next one.
pub open spec fn is_merge_of(reqs: Seq<ChunkIoMerged>, bios: Seq<BlobIoDesc>, max: int) -> bool {
    &&& chunks_of(reqs).flatten() == bio_chunks(bios)
    &&& tags_of(reqs).flatten() == bio_tags(bios)
    &&& forall|k: int|
        0 <= k < reqs.len() ==> (#[trigger] reqs[k]).wf() && (reqs[k].chunks@.len() == 1
            || reqs[k].blob_size <= max)
    &&& forall|k: int|
        0 <= k < reqs.len() - 1 ==> !(#[trigger] reqs[k]).joins(reqs[k + 1].chunks@[0], max)
}

/// Groups requests with continuous compressed addresses into backend requests of
/// at most `merging_size` bytes (a single larger chunk forms a request alone).
pub fn merge_requests(bios: &Vec<BlobIoDesc>, merging_size: u64) -> (r: Vec<ChunkIoMerged>)
    requires
        bios_wf(bios@),
    ensures
        is_merge_of(r@, bios@, merging_size as int),
        r@.len() == 0 <==> bios@.len() == 0,
{
    let mut reqs: Vec<ChunkIoMerged> = Vec::new();
    if bios.len() == 0 {
        proof {
            assert(bio_chunks(bios@) =~= Seq::empty());
            assert(bio_tags(bios@) =~= Seq::empty());
            assert(chunks_of(reqs@) =~= Seq::empty());
            assert(tags_of(reqs@) =~= Seq::empty());
        }
        return reqs;
    }
    let mut cur = ChunkIoMerged::new(bios[0].chunk, &bios[0]);
    let mut i: usize = 1;
    proof {
        assert(chunks_of(reqs@.push(cur)) =~= seq![cur.chunks@]);
        assert(tags_of(reqs@.push(cur)) =~= seq![cur.chunk_tags@]);
        assert(bio_chunks(bios@.subrange(0, 1)) =~= cur.chunks@);
        assert(bio_tags(bios@.subrange(0, 1)) =~= cur.chunk_tags@);
        assert(seq![cur.chunks@].flatten() == cur.chunks@) by {
            seq![cur.chunks@].lemma_flatten_one_element();
        }
        assert(seq![cur.chunk_tags@].flatten() == cur.chunk_tags@) by {
            seq![cur.chunk_tags@].lemma_flatten_one_element();
        }
    }
    while i < bios.len()
        invariant
            bios_wf(bios@),
            1 <= i <= bios@.len(),
            is_merge_of(reqs@.push(cur), bios@.subrange(0, i as int), merging_size as int),
        decreases bios@.len() - i,
    {
        let ghost all = reqs@.push(cur);
        let bio = &bios[i];
        let c = bio.chunk;
        assert(all[all.len() - 1] == cur);
        if c.compress_offset != cur.blob_offset + cur.blob_size || cur.blob_size
            + c.compress_size as u64 > merging_size {
            let next = ChunkIoMerged::new(c, bio);
            reqs.push(cur);
            cur = next;
            proof {
                let now = reqs@.push(cur);
                assert(now =~= all.push(next));
                Seq::lemma_flatten_push(chunks_of(all), next.chunks@);
                Seq::lemma_flatten_push(tags_of(all), next.chunk_tags@);
                assert(chunks_of(now) =~= chunks_of(all).push(next.chunks@));
                assert(tags_of(now) =~= tags_of(all).push(next.chunk_tags@));
                assert(bio_chunks(bios@.subrange(0, i + 1)) =~= bio_chunks(
                    bios@.subrange(0, i as int),
                ).push(c));
                assert(bio_tags(bios@.subrange(0, i + 1)) =~= bio_tags(
                    bios@.subrange(0, i as int),
                ).push(tag_of(*bio, c)));
                assert(seq![c] =~= Seq::<ChunkInfo>::empty().push(c));
                assert(bio_chunks(bios@.subrange(0, i as int)) + seq![c] =~= bio_chunks(
                    bios@.subrange(0, i as int),
                ).push(c));
                assert(bio_tags(bios@.subrange(0, i as int)) + seq![tag_of(*bio, c)] =~= bio_tags(
                    bios@.subrange(0, i as int),
                ).push(tag_of(*bio, c)));
                assert forall|k: int| 0 <= k < now.len() - 1 implies !(#[trigger] now[k]).joins(
                    now[k + 1].chunks@[0],
                    merging_size as int,
                ) by {
                    if k < now.len() - 2 {
                        assert(now[k] == all[k]);
                        assert(now[k + 1] == all[k + 1]);
                    }
                }
                assert forall|k: int| 0 <= k < now.len() implies (#[trigger] now[k]).wf() && (
                now[k].chunks@.len() == 1 || now[k].blob_size <= merging_size) by {
                    if k < now.len() - 1 {
                        assert(now[k] == all[k]);
                    }
                }
            }
        } else {
            let ghost old_cur = cur;
            cur.merge(c, bio);
            proof {
                let now = reqs@.push(cur);
                assert(now =~= reqs@.push(old_cur).update(all.len() - 1, cur));
                assert(chunks_of(now) =~= chunks_of(reqs@).push(cur.chunks@));
                assert(chunks_of(all) =~= chunks_of(reqs@).push(old_cur.chunks@));
                assert(tags_of(now) =~= tags_of(reqs@).push(cur.chunk_tags@));
                assert(tags_of(all) =~= tags_of(reqs@).push(old_cur.chunk_tags@));
                Seq::lemma_flatten_push(chunks_of(reqs@), cur.chunks@);
                Seq::lemma_flatten_push(chunks_of(reqs@), old_cur.chunks@);
                Seq::lemma_flatten_push(tags_of(reqs@), cur.chunk_tags@);
                Seq::lemma_flatten_push(tags_of(reqs@), old_cur.chunk_tags@);
                assert(bio_chunks(bios@.subrange(0, i + 1)) =~= bio_chunks(
                    bios@.subrange(0, i as int),
                ).push(c));
                assert(bio_tags(bios@.subrange(0, i + 1)) =~= bio_tags(
                    bios@.subrange(0, i as int),
                ).push(tag_of(*bio, c)));
                assert(chunks_of(now).flatten() =~= chunks_of(all).flatten().push(c));
                assert(tags_of(now).flatten() =~= tags_of(all).flatten().push(tag_of(*bio, c)));
                assert forall|k: int| 0 <= k < now.len() - 1 implies !(#[trigger] now[k]).joins(
                    now[k + 1].chunks@[0],
                    merging_size as int,
                ) by {
                    assert(now[k] == all[k]);
                    if k + 1 == now.len() - 1 {
                        assert(now[k + 1].chunks@[0] == old_cur.chunks@[0]);
                    } else {
                        assert(now[k + 1] == all[k + 1]);
                    }
                }
                assert forall|k: int| 0 <= k < now.len() implies (#[trigger] now[k]).wf() && (
                now[k].chunks@.len() == 1 || now[k].blob_size <= merging_size) by {
                    if k < now.len() - 1 {
                        assert(now[k] == all[k]);
                    }
                }
            }
        }
        i += 1;
    }
    reqs.push(cur);
    assert(bios@.subrange(0, bios@.len() as int) =~= bios@);
    reqs
}

/// Groups requests for a user read; `None` when there is nothing to read.
pub fn merge_requests_for_user(bios: &Vec<BlobIoDesc>, merging_size: u64) -> (r: Option<
    Vec<ChunkIoMerged>,
>)
    requires
        bios_wf(bios@),
    ensures
        match r {
            Some(reqs) => bios@.len() > 0 && is_merge_of(reqs@, bios@, merging_size as int),
            None => bios@.len() == 0,
        },
{
    let reqs = merge_requests(bios, merging_size);
    if reqs.len() == 0 {
        None
    } else {
        Some(reqs)
    }
}

/// Two chunk requests land in one merged request exactly when the second starts
/// where the first ends and together they stay within the size limit; a gap of
/// even one byte puts them in separate requests.
pub proof fn lemma_merge_pair(reqs: Seq<ChunkIoMerged>, a: BlobIoDesc, b: BlobIoDesc, max: int)
    requires
        is_merge_of(reqs, seq![a, b], max),
    ensures
        reqs.len() == 1 <==> (b.chunk.compress_offset == a.chunk.compress_end()
            && a.chunk.compress_size + b.chunk.compress_size <= max),
        b.chunk.compress_offset != a.chunk.compress_end() ==> reqs.len() == 2,
{
    let bios = seq![a, b];
    let cs = chunks_of(reqs);
    assert(bio_chunks(bios) =~= seq![a.chunk, b.chunk]);
    assert(cs.flatten() == seq![a.chunk, b.chunk]);
    if reqs.len() == 0 {
        assert(cs.flatten() =~= Seq::<ChunkInfo>::empty());
    }
    assert(reqs.len() > 0);
    assert(reqs[0].wf());
    assert(cs[0] == reqs[0].chunks@);
    assert(cs.flatten() == cs[0] + cs.drop_first().flatten());
    let rest = cs.drop_first();
    if reqs.len() == 1 {
        assert(rest.flatten() =~= Seq::<ChunkInfo>::empty());
        assert(reqs[0].chunks@ =~= seq![a.chunk, b.chunk]);
        assert(reqs[0].chunks@[1].compress_offset == reqs[0].chunks@[0].compress_end());
    } else {
        assert(reqs[1].wf());
        assert(rest[0] == reqs[1].chunks@);
        assert(rest.flatten() == rest[0] + rest.drop_first().flatten());
        assert(reqs[0].chunks@.len() + reqs[1].chunks@.len() <= 2);
        assert(reqs[0].chunks@ =~= seq![a.chunk]);
        assert(reqs[1].chunks@[0] == b.chunk);
        assert(!reqs[0].joins(reqs[1].chunks@[0], max));
        if reqs.len() > 2 {
            assert(reqs[2].wf());
            assert(rest.drop_first()[0] == reqs[2].chunks@);
            assert(rest.drop_first().flatten() == rest.drop_first()[0]
                + rest.drop_first().drop_first().flatten());
        }
    }
}

/// Configuration information for blob data prefetching.
#[derive(Clone, Copy, Debug)]
pub struct BlobPrefetchConfig {
    /// Whether to enable blob data prefetching.
    pub enable: bool,
    /// Number of data prefetching working threads.
    pub threads_count: usize,
    /// The maximum size of a merged IO request.
    pub merging_size: usize,
    /// Network bandwidth rate limit in unit of bytes; zero means no limit.
    pub bandwidth_rate: u32,
}

impl BlobPrefetchConfig {
    /// The configuration with prefetching disabled and every field zero.
    pub fn new() -> (r: Self)
        ensures
            !r.enable,
            r.threads_count == 0,
            r.merging_size == 0,
            r.bandwidth_rate == 0,
    {
        BlobPrefetchConfig { enable: false, threads_count: 0, merging_size: 0, bandwidth_rate: 0 }
    }
}

} // verus!
