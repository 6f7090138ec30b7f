//! Cache manager bookkeeping: the directory of cache entries by blob id, the
//! "all data ready" watchdog and the one-way close of the manager.

use vstd::prelude::*;

use crate::error::StorageError;
use crate::service::same_text;

verus! {

/// Number of consecutive positive checks, after the first one, before the
/// watchdog declares that all blob data is ready.
pub const FSCACHE_BLOBS_CHECK_NUM: u8 = 1;

/// Cache manager state: entries keyed by blob id, and lifecycle flags.
#[derive(Debug)]
pub struct CacheMgrState<E> {
    /// Blob ids, parallel to `entries`; no id appears twice.
    pub ids: Vec<String>,
    /// The cache entry of each blob.
    pub entries: Vec<E>,
    /// Set once by `destroy`; a closed manager creates no entries.
    pub closed: bool,
    /// Consecutive positive observations of the watchdog.
    pub blobs_check_count: u8,
    /// Whether the watchdog has declared all blob data ready.
    pub data_all_ready: bool,
    /// Whether the prefetch workers have been stopped.
    pub workers_stopped: bool,
}

/// Whether blob id `id` appears in `ids`.
pub open spec fn has_id(ids: Seq<String>, id: Seq<char>) -> bool {
    exists|i: int| 0 <= i < ids.len() && (#[trigger] ids[i])@ == id
}

/// The state after `destroy`: closed, with the workers stopped.
pub open spec fn destroyed<E>(s: CacheMgrState<E>) -> CacheMgrState<E> {
    CacheMgrState { closed: true, workers_stopped: true, ..s }
}

/// The state after a call of `destroy`: an open manager is closed, a closed one
/// is left as it is.
pub open spec fn after_destroy<E>(s: CacheMgrState<E>) -> CacheMgrState<E> {
    if s.closed {
        s
    } else {
        destroyed(s)
    }
}

/// Calling `destroy` twice leaves the manager in the same state as calling it
/// once.
pub proof fn lemma_destroy_idempotent<E>(s: CacheMgrState<E>)
    ensures
        after_destroy(after_destroy(s)) == after_destroy(s),
{
}

impl<E> CacheMgrState<E> {
    /// Ids and entries are parallel, ids are unique, and the check counter never
    /// passes its limit.
    pub open spec fn wf(&self) -> bool {
        &&& self.ids@.len() == self.entries@.len()
        &&& forall|i: int, j: int|
            0 <= i < j < self.ids@.len() ==> (#[trigger] self.ids@[i])@ != (#[trigger] self.ids@[j])@
        &&& self.blobs_check_count <= FSCACHE_BLOBS_CHECK_NUM
    }

    /// An open manager with no entry.
    pub fn new() -> (r: Self)
        ensures
            r.wf(),
            r.ids@.len() == 0,
            !r.closed,
            r.blobs_check_count == 0,
            !r.data_all_ready,
            !r.workers_stopped,
    {
        CacheMgrState {
            ids: Vec::new(),
            entries: Vec::new(),
            closed: false,
            blobs_check_count: 0,
            data_all_ready: false,
            workers_stopped: false,
        }
    }

    /// Position of the entry for blob `id`, if any.
    pub fn find(&self, id: &str) -> (r: Option<usize>)
        requires
            self.wf(),
        ensures
            match r {
                Some(i) => i < self.ids@.len() && self.ids@[i as int]@ == id@,
                None => !has_id(self.ids@, id@),
            },
    {
        let mut i: usize = 0;
        while i < self.ids.len()
            invariant
                self.wf(),
                i <= self.ids@.len(),
                forall|k: int| 0 <= k < i ==> (#[trigger] self.ids@[k])@ != id@,
            decreases self.ids@.len() - i,
        {
            if same_text(self.ids[i].as_str(), id) {
                return Some(i);
            }
            i += 1;
        }
        None
    }

    /// The entry for blob `id`, if any.
    pub fn get(&self, id: &str) -> (r: Option<&E>)
        requires
            self.wf(),
        ensures
            match r {
                Some(e) => exists|i: int|
                    0 <= i < self.ids@.len() && (#[trigger] self.ids@[i])@ == id@ && *e
                        == self.entries@[i],
                None => !has_id(self.ids@, id@),
            },
    {
        match self.find(id) {
            Some(i) => Some(&self.entries[i]),
            None => None,
        }
    }

    /// Looks the blob up, else inserts `entry` under `id`; returns the position
    /// of the blob's entry. A closed manager creates nothing and returns
    /// `Err(Unsupported)` for an unknown blob.
    pub fn get_or_insert(&mut self, id: String, entry: E) -> (r: Result<usize, StorageError>)
        requires
            old(self).wf(),
        ensures
            final(self).wf(),
            final(self).closed == old(self).closed,
            final(self).blobs_check_count == old(self).blobs_check_count,
            final(self).data_all_ready == old(self).data_all_ready,
            final(self).workers_stopped == old(self).workers_stopped,
            has_id(old(self).ids@, id@) ==> final(self).ids@ == old(self).ids@
                && final(self).entries@ == old(self).entries@,
            !has_id(old(self).ids@, id@) && old(self).closed ==> r == Err::<usize, StorageError>(
                StorageError::Unsupported,
            ) && final(self).ids@ == old(self).ids@ && final(self).entries@ == old(
                self,
            ).entries@,
            !has_id(old(self).ids@, id@) && !old(self).closed ==> final(self).ids@ == old(
                self,
            ).ids@.push(id) && final(self).entries@ == old(self).entries@.push(entry),
            match r {
                Ok(i) => i < final(self).ids@.len() && final(self).ids@[i as int]@ == id@,
                Err(_) => !has_id(old(self).ids@, id@) && old(self).closed,
            },
    {
        match self.find(id.as_str()) {
            Some(i) => Ok(i),
            None => {
                if self.closed {
                    return Err(StorageError::Unsupported);
                }
                let i = self.ids.len();
                self.ids.push(id);
                self.entries.push(entry);
                proof {
                    assert forall|a: int, b: int|
                        0 <= a < b < self.ids@.len() implies (#[trigger] self.ids@[a])@ != (
                        #[trigger] self.ids@[b])@ by {
                        if b == i {
                            assert(self.ids@[a] == old(self).ids@[a]);
                        } else {
                            assert(self.ids@[a] == old(self).ids@[a]);
                            assert(self.ids@[b] == old(self).ids@[b]);
                        }
                    }
                }
                Ok(i)
            },
        }
    }

    /// Removes the entry at position `i`.
    fn remove_at(&mut self, i: usize)
        requires
            old(self).wf(),
            i < old(self).ids@.len(),
        ensures
            final(self).wf(),
            final(self).closed == old(self).closed,
            final(self).blobs_check_count == old(self).blobs_check_count,
            final(self).data_all_ready == old(self).data_all_ready,
            final(self).workers_stopped == old(self).workers_stopped,
            final(self).ids@ == old(self).ids@.remove(i as int),
            final(self).entries@ == old(self).entries@.remove(i as int),
    {
        self.ids.remove(i);
        self.entries.remove(i);
        proof {
            assert forall|a: int, b: int|
                0 <= a < b < self.ids@.len() implies (#[trigger] self.ids@[a])@ != (
                #[trigger] self.ids@[b])@ by {
                let oa = if a < i { a } else { a + 1 };
                let ob = if b < i { b } else { b + 1 };
                assert(self.ids@[a] == old(self).ids@[oa]);
                assert(self.ids@[b] == old(self).ids@[ob]);
            }
        }
    }

    /// Reclaims entries. With an id, drops that blob's entry. Without one, drops
    /// every entry that only the manager holds (`sole_owner[i]` for entry `i`).
    /// Returns whether the manager holds no entry afterwards.
    pub fn gc(&mut self, id: Option<&str>, sole_owner: &Vec<bool>) -> (r: bool)
        requires
            old(self).wf(),
            id is None ==> sole_owner@.len() == old(self).ids@.len(),
        ensures
            final(self).wf(),
            final(self).closed == old(self).closed,
            final(self).blobs_check_count == old(self).blobs_check_count,
            final(self).data_all_ready == old(self).data_all_ready,
            final(self).workers_stopped == old(self).workers_stopped,
            r == (final(self).ids@.len() == 0),
            match id {
                Some(k) => {
                    &&& !has_id(final(self).ids@, k@)
                    &&& !has_id(old(self).ids@, k@) ==> final(self).ids@ == old(self).ids@
                        && final(self).entries@ == old(self).entries@
                    &&& has_id(old(self).ids@, k@) ==> exists|i: int|
                        0 <= i < old(self).ids@.len() && (#[trigger] old(self).ids@[i])@ == k@
                            && final(self).ids@ == old(self).ids@.remove(i)
                            && final(self).entries@ == old(self).entries@.remove(i)
                },
                None => {
                    &&& final(self).ids@ == without_flagged(old(self).ids@, sole_owner@)
                    &&& final(self).entries@ == without_flagged(old(self).entries@, sole_owner@)
                },
            },
    {
        match id {
            Some(k) => {
                match self.find(k) {
                    Some(i) => {
                        let ghost pre = *self;
                        self.remove_at(i);
                        proof {
                            assert(pre.ids@[i as int]@ == k@);
                            if has_id(self.ids@, k@) {
                                let j = choose|j: int| 0 <= j < self.ids@.len() && (
                                #[trigger] self.ids@[j])@ == k@;
                                let oj = if j < i { j } else { j + 1 };
                                assert(self.ids@[j] == pre.ids@[oj]);
                                assert(oj != i);
                                if oj < i {
                                    assert((pre.ids@[oj])@ != (pre.ids@[i as int])@);
                                } else {
                                    assert((pre.ids@[i as int])@ != (pre.ids@[oj])@);
                                }
                            }
                        }
                    },
                    None => {}
                }
            },
            None => {
                self.retain_shared(sole_owner);
            },
        }
        self.ids.len() == 0
    }

    /// Drops every entry `i` with `sole_owner[i]`, keeping the others in order.
    fn retain_shared(&mut self, sole_owner: &Vec<bool>)
        requires
            old(self).wf(),
            sole_owner@.len() == old(self).ids@.len(),
        ensures
            final(self).wf(),
            final(self).closed == old(self).closed,
            final(self).blobs_check_count == old(self).blobs_check_count,
            final(self).data_all_ready == old(self).data_all_ready,
            final(self).workers_stopped == old(self).workers_stopped,
            final(self).ids@ == without_flagged(old(self).ids@, sole_owner@),
            final(self).entries@ == without_flagged(old(self).entries@, sole_owner@),
    {
        let n = self.ids.len();
        let ghost ids0 = old(self).ids@;
        let ghost ents0 = old(self).entries@;
        let ghost flags = sole_owner@;
        let mut k: usize = n;
        while k > 0
            invariant
                self.wf(),
                k <= n,
                n == ids0.len(),
                n == ents0.len(),
                ids0 == old(self).ids@,
                ents0 == old(self).entries@,
                flags == sole_owner@,
                flags.len() == n,
                self.closed == old(self).closed,
                self.blobs_check_count == old(self).blobs_check_count,
                self.data_all_ready == old(self).data_all_ready,
                self.workers_stopped == old(self).workers_stopped,
                self.ids@ == ids0.subrange(0, k as int) + without_flagged(
                    ids0.subrange(k as int, n as int),
                    flags.subrange(k as int, n as int),
                ),
                self.entries@ == ents0.subrange(0, k as int) + without_flagged(
                    ents0.subrange(k as int, n as int),
                    flags.subrange(k as int, n as int),
                ),
            decreases k,
        {
            k -= 1;
            if sole_owner[k] {
                self.remove_at(k);
            }
            proof {
                let ki = k as int;
                assert(ids0.subrange(ki, n as int).drop_first() =~= ids0.subrange(ki + 1, n as int));
                assert(ents0.subrange(ki, n as int).drop_first() =~= ents0.subrange(ki + 1, n as int));
                assert(flags.subrange(ki, n as int).drop_first() =~= flags.subrange(ki + 1, n as int));
                assert(self.ids@ =~= ids0.subrange(0, ki) + without_flagged(
                    ids0.subrange(ki, n as int),
                    flags.subrange(ki, n as int),
                ));
                assert(self.entries@ =~= ents0.subrange(0, ki) + without_flagged(
                    ents0.subrange(ki, n as int),
                    flags.subrange(ki, n as int),
                ));
            }
        }
        assert(ids0.subrange(0, n as int) =~= ids0);
        assert(ents0.subrange(0, n as int) =~= ents0);
        assert(flags.subrange(0, n as int) =~= flags);
        assert(ids0.subrange(0, 0) + without_flagged(ids0, flags) =~= without_flagged(ids0, flags));
        assert(ents0.subrange(0, 0) + without_flagged(ents0, flags) =~= without_flagged(ents0, flags));
    }

    /// One watchdog observation; `all_ready` tells whether every entry reported
    /// all of its data ready. A negative observation resets the counter; a
    /// positive one counts, and once `FSCACHE_BLOBS_CHECK_NUM` earlier positive
    /// ones were counted, the workers are stopped and all data is declared
    /// ready. Returns whether readiness was declared by this call.
    pub fn check_stat(&mut self, all_ready: bool) -> (r: bool)
        requires
            old(self).wf(),
        ensures
            final(self).wf(),
            final(self).ids == old(self).ids,
            final(self).entries == old(self).entries,
            final(self).closed == old(self).closed,
            r == (all_ready && old(self).blobs_check_count == FSCACHE_BLOBS_CHECK_NUM),
            !all_ready ==> final(self).blobs_check_count == 0 && final(self).data_all_ready
                == old(self).data_all_ready && final(self).workers_stopped == old(
                self,
            ).workers_stopped,
            all_ready && !r ==> final(self).blobs_check_count == old(self).blobs_check_count + 1
                && final(self).data_all_ready == old(self).data_all_ready
                && final(self).workers_stopped == old(self).workers_stopped,
            r ==> final(self).blobs_check_count == old(self).blobs_check_count
                && final(self).data_all_ready && final(self).workers_stopped,
    {
        if all_ready {
            if self.blobs_check_count == FSCACHE_BLOBS_CHECK_NUM {
                self.workers_stopped = true;
                self.data_all_ready = true;
                true
            } else {
                self.blobs_check_count = self.blobs_check_count + 1;
                false
            }
        } else {
            self.blobs_check_count = 0;
            false
        }
    }

    /// Closes the manager. Returns whether this call closed it, in which case the
    /// caller shuts the backend down and releases the metrics; a second call
    /// changes nothing and returns `false`.
    pub fn destroy(&mut self) -> (r: bool)
        requires
            old(self).wf(),
        ensures
            final(self).wf(),
            r == !old(self).closed,
            *final(self) == after_destroy(*old(self)),
    {
        if !self.closed {
            self.closed = true;
            self.workers_stopped = true;
            true
        } else {
            false
        }
    }
}

/// The elements of `s` whose flag in `flags` is false, in order.
pub open spec fn without_flagged<T>(s: Seq<T>, flags: Seq<bool>) -> Seq<T>
    decreases s.len(),
{
    if s.len() == 0 || flags.len() == 0 {
        Seq::empty()
    } else if flags[0] {
        without_flagged(s.drop_first(), flags.drop_first())
    } else {
        seq![s[0]] + without_flagged(s.drop_first(), flags.drop_first())
    }
}

} // verus!
