//! Chunk readiness: a bitmap with two bits per chunk (absent, in flight, ready),
//! laid out as the indexed readiness file next to a cache file, and the
//! decision taken when a chunk's persistence finishes.

use vstd::prelude::*;

use crate::error::StorageError;

verus! {

/// The readiness of one chunk.
#[derive(Clone, Copy, Debug, PartialEq, Eq, Structural)]
pub enum ChunkState {
    /// The cache file does not hold the chunk.
    Absent,
    /// A task is fetching the chunk.
    InFlight,
    /// The cache file holds the chunk's canonical bytes.
    Ready,
}

/// The state that a two-bit code stands for; the unused code reads as absent.
pub open spec fn code_state(c: u8) -> ChunkState {
    if c == 1 {
        ChunkState::InFlight
    } else if c == 2 {
        ChunkState::Ready
    } else {
        ChunkState::Absent
    }
}

/// The two bits of slot `s` (0 to 3) of byte `b`.
pub open spec fn slot_of(b: u8, s: u8) -> u8 {
    ((b >> (2 * s) as u8) & 3u8) as u8
}

/// Byte `b` with slot `s` set to `v`.
pub open spec fn with_slot(b: u8, s: u8, v: u8) -> u8 {
    ((b & !((3u8 << (2 * s) as u8) as u8)) | ((v << (2 * s) as u8) as u8)) as u8
}

proof fn lemma_with_slot(b: u8, s: u8, v: u8, t: u8)
    by (bit_vector)
    requires
        s < 4,
        t < 4,
        v < 4,
    ensures
        ((((b & !((3u8 << (2 * s) as u8) as u8)) | ((v << (2 * s) as u8) as u8)) as u8) >> (2
            * t) as u8) & 3u8 == if s == t {
            v
        } else {
            (b >> (2 * t) as u8) & 3u8
        },
{
}

proof fn lemma_zero_slot(t: u8)
    by (bit_vector)
    requires
        t < 4,
    ensures
        (0u8 >> (2 * t) as u8) & 3u8 == 0,
{
}

/// Number of bytes of a bitmap for `chunk_count` chunks: two bits each.
pub open spec fn bitmap_size(chunk_count: nat) -> nat {
    (chunk_count * 2 + 7) / 8
}

/// The state of chunk `i` in the bitmap `bits`.
pub open spec fn state_in(bits: Seq<u8>, i: int) -> ChunkState {
    code_state(slot_of(bits[i / 4], (i % 4) as u8))
}

/// Claiming chunk `i` of the states `v` for a fetch: an absent chunk becomes in
/// flight and the claim succeeds; otherwise nothing changes and it fails.
pub open spec fn claim(v: Seq<ChunkState>, i: int) -> (bool, Seq<ChunkState>) {
    if v[i] == ChunkState::Absent {
        (true, v.update(i, ChunkState::InFlight))
    } else {
        (false, v)
    }
}

/// Of two claims of the same chunk with nothing in between, at most one
/// succeeds: readers that fetch only what they claim ask the backend for a
/// chunk once per transition from absent to ready.
pub proof fn lemma_single_fetch(v: Seq<ChunkState>, i: int)
    requires
        0 <= i < v.len(),
    ensures
        !(claim(v, i).0 && claim(claim(v, i).1, i).0),
{
}

/// A bitmap of chunk readiness, two bits per chunk.
#[derive(Debug)]
pub struct IndexedChunkMap {
    /// The bitmap bytes, as stored in the readiness file.
    pub bits: Vec<u8>,
    /// Number of chunks of the blob.
    pub chunk_count: u32,
}

impl IndexedChunkMap {
    /// The bitmap has the size that the chunk count asks for.
    pub open spec fn wf(&self) -> bool {
        self.bits@.len() == bitmap_size(self.chunk_count as nat)
    }

    /// The state of every chunk, by index.
    pub open spec fn view(&self) -> Seq<ChunkState> {
        Seq::new(self.chunk_count as nat, |i: int| state_in(self.bits@, i))
    }

    /// Number of bytes of the readiness file for `chunk_count` chunks.
    pub fn file_size(chunk_count: u32) -> (r: usize)
        ensures
            r == bitmap_size(chunk_count as nat),
    {
        ((chunk_count as u64 * 2 + 7) / 8) as usize
    }

    /// A map in which every chunk is absent.
    pub fn new(chunk_count: u32) -> (r: Self)
        ensures
            r.wf(),
            r.chunk_count == chunk_count,
            forall|i: int| 0 <= i < chunk_count ==> #[trigger] r.view()[i] == ChunkState::Absent,
    {
        let size = Self::file_size(chunk_count);
        let mut bits: Vec<u8> = Vec::new();
        let mut k: usize = 0;
        while k < size
            invariant
                k <= size,
                bits@.len() == k,
                forall|j: int| 0 <= j < k ==> bits@[j] == 0,
            decreases size - k,
        {
            bits.push(0);
            k += 1;
        }
        let r = IndexedChunkMap { bits, chunk_count };
        assert forall|i: int| 0 <= i < chunk_count implies #[trigger] r.view()[i]
            == ChunkState::Absent by {
            assert(r.bits@[i / 4] == 0);
            lemma_zero_slot((i % 4) as u8);
        }
        r
    }

    /// Loads a map from the bytes of a readiness file, after a restart: chunks
    /// that were in flight are absent again. Fails with `InvalidArgument` when the
    /// size does not match the chunk count.
    pub fn from_bytes(bytes: Vec<u8>, chunk_count: u32) -> (r: Result<Self, StorageError>)
        ensures
            match r {
                Ok(m) => {
                    &&& bytes@.len() == bitmap_size(chunk_count as nat)
                    &&& m.wf()
                    &&& m.chunk_count == chunk_count
                    &&& forall|i: int|
                        0 <= i < chunk_count ==> #[trigger] m.view()[i] == if state_in(bytes@, i)
                            == ChunkState::Ready {
                            ChunkState::Ready
                        } else {
                            ChunkState::Absent
                        }
                },
                Err(e) => bytes@.len() != bitmap_size(chunk_count as nat) && e
                    == StorageError::InvalidArgument,
            },
    {
        if bytes.len() != Self::file_size(chunk_count) {
            return Err(StorageError::InvalidArgument);
        }
        let mut m = IndexedChunkMap { bits: bytes, chunk_count };
        let mut i: u32 = 0;
        while i < chunk_count
            invariant
                m.wf(),
                m.chunk_count == chunk_count,
                bytes@.len() == bitmap_size(chunk_count as nat),
                i <= chunk_count,
                forall|j: int|
                    0 <= j < i ==> #[trigger] m.view()[j] == if state_in(bytes@, j)
                        == ChunkState::Ready {
                        ChunkState::Ready
                    } else {
                        ChunkState::Absent
                    },
                forall|j: int| i <= j < chunk_count ==> #[trigger] m.view()[j] == state_in(bytes@, j),
            decreases chunk_count - i,
        {
            if !m.is_ready_nowait(i) {
                m.set_state(i, 0);
            }
            i += 1;
        }
        Ok(m)
    }

    /// Writes the two-bit code `v` for chunk `index`; other chunks keep their state.
    fn set_state(&mut self, index: u32, v: u8)
        requires
            old(self).wf(),
            index < old(self).chunk_count,
            v < 3,
        ensures
            final(self).wf(),
            final(self).chunk_count == old(self).chunk_count,
            final(self).view() == old(self).view().update(index as int, code_state(v)),
    {
        let pos = (index / 4) as usize;
        let slot = (index % 4) as u8;
        proof {
            assert(index * 2 + 7 < (old(self).chunk_count as nat) * 2 + 7 + 1);
            assert((index / 4) < bitmap_size(old(self).chunk_count as nat));
        }
        let b = self.bits[pos];
        let nb = (b & !((3u8 << (2 * slot)) as u8)) | ((v << (2 * slot)) as u8);
        assert(nb == with_slot(b, slot, v));
        self.bits.set(pos, nb);
        proof {
            let ov = old(self).view();
            let nv = self.view();
            assert forall|i: int| 0 <= i < nv.len() implies nv[i] == ov.update(
                index as int,
                code_state(v),
            )[i] by {
                lemma_with_slot(b, slot, v, (i % 4) as u8);
                if i / 4 != pos as int {
                    assert(self.bits@[i / 4] == old(self).bits@[i / 4]);
                } else if i != index as int {
                    assert((i % 4) as u8 != slot);
                }
            }
            assert(nv =~= ov.update(index as int, code_state(v)));
        }
    }

    /// The state of chunk `index`.
    pub fn state(&self, index: u32) -> (r: ChunkState)
        requires
            self.wf(),
            index < self.chunk_count,
        ensures
            r == self.view()[index as int],
    {
        let pos = (index / 4) as usize;
        let slot = (index % 4) as u8;
        proof {
            assert((index / 4) < bitmap_size(self.chunk_count as nat));
        }
        let c = (self.bits[pos] >> (2 * slot)) & 3u8;
        assert(c == slot_of(self.bits@[pos as int], slot));
        if c == 1 {
            ChunkState::InFlight
        } else if c == 2 {
            ChunkState::Ready
        } else {
            ChunkState::Absent
        }
    }

    /// Whether chunk `index` is ready; does not wait.
    pub fn is_ready_nowait(&self, index: u32) -> (r: bool)
        requires
            self.wf(),
            index < self.chunk_count,
        ensures
            r == (self.view()[index as int] == ChunkState::Ready),
    {
        match self.state(index) {
            ChunkState::Ready => true,
            _ => false,
        }
    }

    /// Claims chunk `index` for fetching: an absent chunk becomes in flight and
    /// `true` is returned; otherwise nothing changes and `false` is returned.
    pub fn try_fetch(&mut self, index: u32) -> (r: bool)
        requires
            old(self).wf(),
            index < old(self).chunk_count,
        ensures
            final(self).wf(),
            final(self).chunk_count == old(self).chunk_count,
            (r, final(self).view()) == claim(old(self).view(), index as int),
            r == (old(self).view()[index as int] == ChunkState::Absent),
            final(self).view() == if r {
                old(self).view().update(index as int, ChunkState::InFlight)
            } else {
                old(self).view()
            },
    {
        match self.state(index) {
            ChunkState::Absent => {
                self.set_state(index, 1);
                true
            },
            _ => false,
        }
    }

    /// Marks chunk `index` ready. Idempotent.
    pub fn set_ready(&mut self, index: u32)
        requires
            old(self).wf(),
            index < old(self).chunk_count,
        ensures
            final(self).wf(),
            final(self).chunk_count == old(self).chunk_count,
            final(self).view() == old(self).view().update(index as int, ChunkState::Ready),
    {
        self.set_state(index, 2);
    }

    /// A fetch of chunk `index` gave up: an in-flight chunk becomes absent again,
    /// so that a later reader fetches it; a ready chunk stays ready.
    pub fn notify_ready(&mut self, index: u32)
        requires
            old(self).wf(),
            index < old(self).chunk_count,
        ensures
            final(self).wf(),
            final(self).chunk_count == old(self).chunk_count,
            final(self).view() == if old(self).view()[index as int] == ChunkState::InFlight {
                old(self).view().update(index as int, ChunkState::Absent)
            } else {
                old(self).view()
            },
    {
        match self.state(index) {
            ChunkState::InFlight => self.set_state(index, 0),
            _ => {
                assert(self.view() =~= old(self).view());
            },
        }
    }

    /// Whether every chunk is ready.
    pub fn is_bitmap_all_ready(&self) -> (r: bool)
        requires
            self.wf(),
        ensures
            r == forall|i: int| 0 <= i < self.chunk_count ==> #[trigger] self.view()[i]
                == ChunkState::Ready,
    {
        let mut i: u32 = 0;
        while i < self.chunk_count
            invariant
                self.wf(),
                i <= self.chunk_count,
                forall|j: int| 0 <= j < i ==> #[trigger] self.view()[j] == ChunkState::Ready,
            decreases self.chunk_count - i,
        {
            if !self.is_ready_nowait(i) {
                return false;
            }
            i += 1;
        }
        true
    }

    /// Records how the persistence of a fetched chunk ended: when `written` equals
    /// the chunk's stored size the chunk becomes ready; otherwise the write failed
    /// or was short, the chunk is given up (see `notify_ready`) and
    /// `Err(Io)` is returned.
    pub fn persist_done(&mut self, index: u32, written: usize, stored_size: usize) -> (r: Result<
        (),
        StorageError,
    >)
        requires
            old(self).wf(),
            index < old(self).chunk_count,
        ensures
            final(self).wf(),
            final(self).chunk_count == old(self).chunk_count,
            (r is Ok) == (written == stored_size),
            r is Err ==> r == Err::<(), StorageError>(StorageError::Io),
            r is Ok ==> final(self).view() == old(self).view().update(
                index as int,
                ChunkState::Ready,
            ),
            r is Err ==> final(self).view() == if old(self).view()[index as int]
                == ChunkState::InFlight {
                old(self).view().update(index as int, ChunkState::Absent)
            } else {
                old(self).view()
            },
            final(self).view()[index as int] != ChunkState::InFlight,
    {
        if written == stored_size {
            self.set_ready(index);
            Ok(())
        } else {
            self.notify_ready(index);
            Err(StorageError::Io)
        }
    }
}

/// The state recorded for digest `d`: the latest record wins, and a digest with
/// no record is absent.
pub open spec fn digest_state(digests: Seq<Vec<u8>>, states: Seq<ChunkState>, d: Seq<u8>) -> ChunkState
    decreases digests.len(),
{
    if digests.len() == 0 || states.len() == 0 {
        ChunkState::Absent
    } else if digests.last()@ == d {
        states.last()
    } else {
        digest_state(digests.drop_last(), states.drop_last(), d)
    }
}

proof fn lemma_digest_state_update(
    digests: Seq<Vec<u8>>,
    states: Seq<ChunkState>,
    i: int,
    s: ChunkState,
    d: Seq<u8>,
)
    requires
        digests.len() == states.len(),
        0 <= i < digests.len(),
        forall|j: int| i < j < digests.len() ==> (#[trigger] digests[j])@ != digests[i]@,
    ensures
        digest_state(digests, states.update(i, s), d) == if d == digests[i]@ {
            s
        } else {
            digest_state(digests, states, d)
        },
    decreases digests.len(),
{
    let n = digests.len();
    if i < n - 1 {
        assert(states.update(i, s).drop_last() =~= states.drop_last().update(i, s));
        assert(states.update(i, s).last() == states.last());
        assert(digests.last() == digests[n - 1]);
        assert(digests[n - 1]@ != digests[i]@);
        assert forall|j: int| i < j < digests.drop_last().len() implies (
        #[trigger] digests.drop_last()[j])@ != digests.drop_last()[i]@ by {
            assert(digests.drop_last()[j] == digests[j]);
        }
        lemma_digest_state_update(digests.drop_last(), states.drop_last(), i, s, d);
    } else {
        assert(states.update(i, s).drop_last() =~= states.drop_last());
        assert(digests.last() == digests[i]);
    }
}

/// Chunk readiness keyed by chunk digest, for blobs without a chunk index
/// table; it lives in memory only.
#[derive(Debug)]
pub struct DigestedChunkMap {
    /// Digests with a record, parallel to `states`.
    pub digests: Vec<Vec<u8>>,
    /// The recorded state of each digest.
    pub states: Vec<ChunkState>,
}

impl DigestedChunkMap {
    /// The lists are parallel.
    pub open spec fn wf(&self) -> bool {
        self.digests@.len() == self.states@.len()
    }

    /// The state of the chunk with digest `d`.
    pub open spec fn state_spec(&self, d: Seq<u8>) -> ChunkState {
        digest_state(self.digests@, self.states@, d)
    }

    /// A map in which every chunk is absent.
    pub fn new() -> (r: Self)
        ensures
            r.wf(),
            forall|d: Seq<u8>| #[trigger] r.state_spec(d) == ChunkState::Absent,
    {
        DigestedChunkMap { digests: Vec::new(), states: Vec::new() }
    }

    /// Position of the latest record for digest `d`, if any.
    fn find(&self, d: &Vec<u8>) -> (r: Option<usize>)
        requires
            self.wf(),
        ensures
            match r {
                Some(i) => i < self.digests@.len() && self.digests@[i as int]@ == d@ && forall|j: int|
                    i < j < self.digests@.len() ==> (#[trigger] self.digests@[j])@ != d@,
                None => forall|j: int|
                    0 <= j < self.digests@.len() ==> (#[trigger] self.digests@[j])@ != d@,
            },
    {
        let mut k: usize = self.digests.len();
        while k > 0
            invariant
                self.wf(),
                k <= self.digests@.len(),
                forall|j: int| k <= j < self.digests@.len() ==> (#[trigger] self.digests@[j])@ != d@,
            decreases k,
        {
            k -= 1;
            if same_bytes(&self.digests[k], d) {
                return Some(k);
            }
        }
        None
    }

    /// Records state `s` for digest `d`; other digests keep their state.
    fn record(&mut self, d: &Vec<u8>, s: ChunkState)
        requires
            old(self).wf(),
        ensures
            final(self).wf(),
            forall|e: Seq<u8>| #[trigger] final(self).state_spec(e) == if e == d@ {
                s
            } else {
                old(self).state_spec(e)
            },
    {
        match self.find(d) {
            Some(i) => {
                self.states.set(i, s);
                proof {
                    assert forall|e: Seq<u8>| #[trigger] self.state_spec(e) == if e == d@ {
                        s
                    } else {
                        old(self).state_spec(e)
                    } by {
                        lemma_digest_state_update(old(self).digests@, old(self).states@, i as int, s, e);
                    }
                }
            },
            None => {
                let key = copy_digest(d);
                self.digests.push(key);
                self.states.push(s);
                proof {
                    assert forall|e: Seq<u8>| #[trigger] self.state_spec(e) == if e == d@ {
                        s
                    } else {
                        old(self).state_spec(e)
                    } by {
                        assert(self.digests@.drop_last() =~= old(self).digests@);
                        assert(self.states@.drop_last() =~= old(self).states@);
                    }
                }
            },
        }
    }

    /// The state of the chunk with digest `d`.
    pub fn state(&self, d: &Vec<u8>) -> (r: ChunkState)
        requires
            self.wf(),
        ensures
            r == self.state_spec(d@),
    {
        match self.find(d) {
            Some(i) => {
                proof {
                    lemma_digest_state_latest(self.digests@, self.states@, i as int, d@);
                }
                self.states[i]
            },
            None => {
                proof {
                    lemma_digest_state_missing(self.digests@, self.states@, d@);
                }
                ChunkState::Absent
            },
        }
    }

    /// Whether the chunk with digest `d` is ready; does not wait.
    pub fn is_ready_nowait(&self, d: &Vec<u8>) -> (r: bool)
        requires
            self.wf(),
        ensures
            r == (self.state_spec(d@) == ChunkState::Ready),
    {
        match self.state(d) {
            ChunkState::Ready => true,
            _ => false,
        }
    }

    /// Claims the chunk with digest `d` for fetching: an absent chunk becomes in
    /// flight and `true` is returned; otherwise nothing changes.
    pub fn try_fetch(&mut self, d: &Vec<u8>) -> (r: bool)
        requires
            old(self).wf(),
        ensures
            final(self).wf(),
            r == (old(self).state_spec(d@) == ChunkState::Absent),
            forall|e: Seq<u8>| #[trigger] final(self).state_spec(e) == if e == d@ && r {
                ChunkState::InFlight
            } else {
                old(self).state_spec(e)
            },
    {
        match self.state(d) {
            ChunkState::Absent => {
                self.record(d, ChunkState::InFlight);
                true
            },
            _ => false,
        }
    }

    /// Marks the chunk with digest `d` ready. Idempotent.
    pub fn set_ready(&mut self, d: &Vec<u8>)
        requires
            old(self).wf(),
        ensures
            final(self).wf(),
            forall|e: Seq<u8>| #[trigger] final(self).state_spec(e) == if e == d@ {
                ChunkState::Ready
            } else {
                old(self).state_spec(e)
            },
    {
        self.record(d, ChunkState::Ready);
    }

    /// A fetch of the chunk with digest `d` gave up: an in-flight chunk becomes
    /// absent again; a ready chunk stays ready.
    pub fn notify_ready(&mut self, d: &Vec<u8>)
        requires
            old(self).wf(),
        ensures
            final(self).wf(),
            forall|e: Seq<u8>| #[trigger] final(self).state_spec(e) == if e == d@ && old(
                self,
            ).state_spec(d@) == ChunkState::InFlight {
                ChunkState::Absent
            } else {
                old(self).state_spec(e)
            },
    {
        match self.state(d) {
            ChunkState::InFlight => self.record(d, ChunkState::Absent),
            _ => {},
        }
    }

    /// Records how the persistence of the chunk with digest `d` ended: when
    /// `written` equals its stored size it becomes ready; otherwise it is given
    /// up (see `notify_ready`) and `Err(Io)` is returned.
    pub fn persist_done(&mut self, d: &Vec<u8>, written: usize, stored_size: usize) -> (r: Result<
        (),
        StorageError,
    >)
        requires
            old(self).wf(),
        ensures
            final(self).wf(),
            (r is Ok) == (written == stored_size),
            r is Err ==> r == Err::<(), StorageError>(StorageError::Io),
            forall|e: Seq<u8>| #[trigger] final(self).state_spec(e) == if e != d@ {
                old(self).state_spec(e)
            } else if r is Ok {
                ChunkState::Ready
            } else if old(self).state_spec(d@) == ChunkState::InFlight {
                ChunkState::Absent
            } else {
                old(self).state_spec(e)
            },
            final(self).state_spec(d@) != ChunkState::InFlight,
    {
        if written == stored_size {
            self.set_ready(d);
            Ok(())
        } else {
            self.notify_ready(d);
            Err(StorageError::Io)
        }
    }
}

proof fn lemma_digest_state_latest(digests: Seq<Vec<u8>>, states: Seq<ChunkState>, i: int, d: Seq<u8>)
    requires
        digests.len() == states.len(),
        0 <= i < digests.len(),
        digests[i]@ == d,
        forall|j: int| i < j < digests.len() ==> (#[trigger] digests[j])@ != d,
    ensures
        digest_state(digests, states, d) == states[i],
    decreases digests.len(),
{
    if i < digests.len() - 1 {
        assert(digests.last() == digests[digests.len() - 1]);
        lemma_digest_state_latest(digests.drop_last(), states.drop_last(), i, d);
    }
}

proof fn lemma_digest_state_missing(digests: Seq<Vec<u8>>, states: Seq<ChunkState>, d: Seq<u8>)
    requires
        digests.len() == states.len(),
        forall|j: int| 0 <= j < digests.len() ==> (#[trigger] digests[j])@ != d,
    ensures
        digest_state(digests, states, d) == ChunkState::Absent,
    decreases digests.len(),
{
    if digests.len() > 0 {
        assert(digests.last() == digests[digests.len() - 1]);
        lemma_digest_state_missing(digests.drop_last(), states.drop_last(), d);
    }
}

/// Byte-wise equality of two buffers.
fn same_bytes(a: &Vec<u8>, b: &Vec<u8>) -> (r: bool)
    ensures
        r == (a@ == b@),
{
    if a.len() != b.len() {
        return false;
    }
    let mut i: usize = 0;
    while i < a.len()
        invariant
            a@.len() == b@.len(),
            i <= a@.len(),
            forall|k: int| 0 <= k < i ==> a@[k] == b@[k],
        decreases a@.len() - i,
    {
        if a[i] != b[i] {
            return false;
        }
        i += 1;
    }
    assert(a@ =~= b@);
    true
}

/// A copy of a digest.
fn copy_digest(d: &Vec<u8>) -> (r: Vec<u8>)
    ensures
        r@ == d@,
{
    let mut v: Vec<u8> = Vec::new();
    let mut i: usize = 0;
    while i < d.len()
        invariant
            i <= d@.len(),
            v@ == d@.subrange(0, i as int),
        decreases d@.len() - i,
    {
        v.push(d[i]);
        i += 1;
    }
    assert(v@ =~= d@);
    v
}

} // verus!
