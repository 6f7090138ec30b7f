//! Scatter/gather helpers: copying from a list of source buffers into a list of
//! destination buffers, and a cursor over destination buffers.

use vstd::prelude::*;
use vstd::seq_lib::lemma_flatten_concat;

use crate::error::StorageError;

verus! {

/// The length of each buffer of a list.
pub open spec fn buf_lens(bufs: Seq<Vec<u8>>) -> Seq<int> {
    bufs.map_values(|v: Vec<u8>| v@.len() as int)
}

/// The contents of each buffer of a list.
pub open spec fn buf_views(bufs: Seq<Vec<u8>>) -> Seq<Seq<u8>> {
    bufs.map_values(|v: Vec<u8>| v@)
}

/// Total length of `lens[a..b]`.
pub open spec fn span(lens: Seq<int>, a: int, b: int) -> int
    decreases b - a,
{
    if b <= a {
        0
    } else {
        span(lens, a, b - 1) + lens[b - 1]
    }
}

/// Whether byte `j` of buffer `i` lies at or after the position `(idx, off)`.
pub open spec fn at_or_after(i: int, j: int, idx: int, off: int) -> bool {
    i > idx || (i == idx && j >= off)
}

/// Distance in bytes from the position `(idx, off)` to byte `j` of buffer `i`.
pub open spec fn distance(lens: Seq<int>, idx: int, off: int, i: int, j: int) -> int {
    span(lens, idx, i) - off + j
}

/// Where writing `b` bytes from position `(idx, off)` of buffers with lengths
/// `lens` leaves the position, one buffer after another; a buffer that is
/// completely filled moves the position to the start of the next one. Writing
/// past the last buffer fails with `MemOverflow`; writing a non-empty run at the
/// very end of a buffer fails with `VolatileSlice`.
pub open spec fn write_run(lens: Seq<int>, idx: int, off: int, b: int) -> Result<
    (int, int),
    StorageError,
>
    decreases lens.len() - idx,
{
    if idx < 0 || idx >= lens.len() {
        Err(StorageError::MemOverflow)
    } else if b == 0 {
        if lens[idx] - off == 0 {
            Ok((idx + 1, 0))
        } else {
            Ok((idx, off))
        }
    } else if lens[idx] - off <= 0 {
        Err(StorageError::VolatileSlice)
    } else if b < lens[idx] - off {
        Ok((idx, off + b))
    } else if b == lens[idx] - off {
        Ok((idx + 1, 0))
    } else {
        write_run(lens, idx + 1, 0, b - (lens[idx] - off))
    }
}

/// Copying source buffers `k..` (with lengths `srcs`, starting `so` bytes into
/// buffer `k`) to the position `(idx, off)`, having copied `copied` of at most
/// `length` bytes: every source buffer gives what is left of it or of `length`.
/// The result is the number of bytes copied and the final position.
pub open spec fn copy_run(
    lens: Seq<int>,
    srcs: Seq<int>,
    k: int,
    idx: int,
    off: int,
    so: int,
    length: int,
    copied: int,
) -> Result<(int, int, int), StorageError>
    decreases srcs.len() - k,
{
    if k < 0 || k >= srcs.len() {
        Ok((copied, idx, off))
    } else {
        let b = if srcs[k] - so < length - copied {
            srcs[k] - so
        } else {
            length - copied
        };
        match write_run(lens, idx, off, b) {
            Err(e) => Err(e),
            Ok((i2, o2)) => copy_run(lens, srcs, k + 1, i2, o2, 0, length, copied + b),
        }
    }
}

/// The length of each of a list of byte sequences.
pub open spec fn seq_lens(v: Seq<Seq<u8>>) -> Seq<int> {
    v.map_values(|s: Seq<u8>| s.len() as int)
}

/// The outcome of `copyv` from sources with contents `src`: the number of bytes
/// copied and the final destination position, or the error.
pub open spec fn copyv_result(
    src: Seq<Seq<u8>>,
    dst_lens: Seq<int>,
    offset: int,
    length: int,
    dst_index: int,
    dst_offset: int,
) -> Result<(int, int, int), StorageError> {
    if src.len() == 0 || length == 0 {
        Ok((0, dst_index, dst_offset))
    } else if offset > src[0].len() || dst_index >= dst_lens.len() || dst_offset
        > dst_lens[dst_index] {
        Err(StorageError::MemOverflow)
    } else {
        copy_run(dst_lens, seq_lens(src), 0, dst_index, dst_offset, offset, length, 0)
    }
}

/// `new` is `old` with the `n` bytes from the position `(idx, off)` on replaced by
/// `data[base..base + n]`; buffer lengths are kept.
pub open spec fn copied_into(
    old: Seq<Vec<u8>>,
    new: Seq<Vec<u8>>,
    idx: int,
    off: int,
    data: Seq<u8>,
    base: int,
    n: int,
) -> bool {
    &&& new.len() == old.len()
    &&& forall|i: int| 0 <= i < old.len() ==> (#[trigger] new[i])@.len() == old[i]@.len()
    &&& forall|i: int, j: int|
        0 <= i < old.len() && 0 <= j < old[i]@.len() ==> #[trigger] new[i]@[j] == if at_or_after(
            i,
            j,
            idx,
            off,
        ) && 0 <= distance(buf_lens(old), idx, off, i, j) < n {
            data[base + distance(buf_lens(old), idx, off, i, j)]
        } else {
            old[i]@[j]
        }
}

proof fn lemma_span_split(lens: Seq<int>, a: int, b: int, c: int)
    requires
        a <= b <= c,
        forall|i: int| 0 <= i < lens.len() ==> lens[i] >= 0,
        c <= lens.len(),
        0 <= a,
    ensures
        span(lens, a, c) == span(lens, a, b) + span(lens, b, c),
        span(lens, b, c) >= 0,
    decreases c - b,
{
    if c > b {
        lemma_span_split(lens, a, b, c - 1);
    }
}

proof fn lemma_flatten_at(srcs: Seq<Seq<u8>>, k: int, x: int)
    requires
        0 <= k < srcs.len(),
        0 <= x < srcs[k].len(),
    ensures
        srcs.subrange(0, k).flatten().len() + x < srcs.flatten().len(),
        srcs.flatten()[srcs.subrange(0, k).flatten().len() + x] == srcs[k][x],
{
    let a = srcs.subrange(0, k);
    let b = srcs.subrange(k, srcs.len() as int);
    assert(srcs =~= a + b);
    lemma_flatten_concat(a, b);
    assert(b.flatten() == b[0] + b.drop_first().flatten());
}

proof fn lemma_flatten_prefix_push(srcs: Seq<Seq<u8>>, k: int)
    requires
        0 <= k < srcs.len(),
    ensures
        srcs.subrange(0, k + 1).flatten().len() == srcs.subrange(0, k).flatten().len()
            + srcs[k].len(),
{
    assert(srcs.subrange(0, k + 1) =~= srcs.subrange(0, k).push(srcs[k]));
    srcs.subrange(0, k).lemma_flatten_push(srcs[k]);
}

proof fn lemma_copy_run_count(
    lens: Seq<int>,
    srcs: Seq<int>,
    k: int,
    idx: int,
    off: int,
    so: int,
    length: int,
    copied: int,
)
    requires
        0 <= k <= srcs.len(),
        forall|i: int| 0 <= i < srcs.len() ==> srcs[i] >= 0,
        k < srcs.len() ==> 0 <= so <= srcs[k],
        k == srcs.len() ==> so == 0,
        0 <= copied <= length,
        copy_run(lens, srcs, k, idx, off, so, length, copied) is Ok,
    ensures
        copy_run(lens, srcs, k, idx, off, so, length, copied)->Ok_0.0 == copied + if length
            - copied < span(srcs, k, srcs.len() as int) - so {
            length - copied
        } else {
            span(srcs, k, srcs.len() as int) - so
        },
    decreases srcs.len() - k,
{
    if k < srcs.len() {
        lemma_span_split(srcs, k, k + 1, srcs.len() as int);
        let b = if srcs[k] - so < length - copied {
            srcs[k] - so
        } else {
            length - copied
        };
        assert(span(srcs, k, k) == 0);
        assert(span(srcs, k, k + 1) == span(srcs, k, k) + srcs[k]);
        let (i2, o2) = write_run(lens, idx, off, b)->Ok_0;
        assert(copy_run(lens, srcs, k, idx, off, so, length, copied) == copy_run(
            lens,
            srcs,
            k + 1,
            i2,
            o2,
            0,
            length,
            copied + b,
        ));
        lemma_copy_run_count(lens, srcs, k + 1, i2, o2, 0, length, copied + b);
    }
}

/// On success, `copyv` copies as many bytes as the sources hold from `offset`
/// on, up to `length`; with its contract, those bytes are the sources'
/// concatenation from `offset`, in order.
pub proof fn lemma_copyv_count(
    src: Seq<Seq<u8>>,
    dst_lens: Seq<int>,
    offset: int,
    length: int,
    dst_index: int,
    dst_offset: int,
)
    requires
        0 <= offset,
        0 <= length,
        copyv_result(src, dst_lens, offset, length, dst_index, dst_offset) is Ok,
    ensures
        copyv_result(src, dst_lens, offset, length, dst_index, dst_offset)->Ok_0.0 == if src.len()
            == 0 || length == 0 {
            0
        } else if length < src.flatten().len() - offset {
            length
        } else {
            src.flatten().len() - offset
        },
{
    if src.len() > 0 && length > 0 {
        let lens = seq_lens(src);
        assert forall|i: int| 0 <= i < lens.len() implies lens[i] >= 0 by {
            assert(lens[i] == src[i].len());
        }
        assert(lens[0] == src[0].len());
        lemma_copy_run_count(dst_lens, lens, 0, dst_index, dst_offset, offset, length, 0);
        lemma_span_is_flatten_len(src, src.len() as int);
    }
}

proof fn lemma_span_is_flatten_len(src: Seq<Seq<u8>>, k: int)
    requires
        0 <= k <= src.len(),
    ensures
        span(seq_lens(src), 0, k) == src.subrange(0, k).flatten().len(),
        k == src.len() ==> src.subrange(0, k) == src,
    decreases k,
{
    if k > 0 {
        lemma_span_is_flatten_len(src, k - 1);
        assert(src.subrange(0, k) =~= src.subrange(0, k - 1).push(src[k - 1]));
        src.subrange(0, k - 1).lemma_flatten_push(src[k - 1]);
    } else {
        assert(src.subrange(0, 0) =~= Seq::<Seq<u8>>::empty());
    }
    if k == src.len() {
        assert(src.subrange(0, k) =~= src);
    }
}

/// Writes `s[so..so + count]` into buffer `idx` of `dst` from byte `off` on, as
/// far as the buffer reaches; the number of bytes written is returned.
fn write_at(dst: &mut Vec<Vec<u8>>, idx: usize, off: usize, s: &Vec<u8>, so: usize, count: usize) -> (r:
    Result<usize, StorageError>)
    requires
        idx < old(dst)@.len(),
        off <= old(dst)@[idx as int]@.len(),
        so + count <= s@.len(),
    ensures
        final(dst)@.len() == old(dst)@.len(),
        forall|i: int| 0 <= i < old(dst)@.len() && i != idx ==> final(dst)@[i] == old(dst)@[i],
        final(dst)@[idx as int]@.len() == old(dst)@[idx as int]@.len(),
        match r {
            Ok(w) => {
                &&& count == 0 ==> w == 0
                &&& count > 0 ==> off < old(dst)@[idx as int]@.len() && w == if count
                    < old(dst)@[idx as int]@.len() - off {
                    count as int
                } else {
                    old(dst)@[idx as int]@.len() - off
                }
                &&& forall|j: int|
                    0 <= j < old(dst)@[idx as int]@.len() ==> #[trigger] final(dst)@[idx as int]@[j]
                        == if off <= j < off + w {
                        s@[so + j - off]
                    } else {
                        old(dst)@[idx as int]@[j]
                    }
            },
            Err(e) => count > 0 && off == old(dst)@[idx as int]@.len() && e
                == StorageError::VolatileSlice,
        },
{
    if count == 0 {
        return Ok(0);
    }
    let len = dst[idx].len();
    if off >= len {
        return Err(StorageError::VolatileSlice);
    }
    let w = if count < len - off {
        count
    } else {
        len - off
    };
    let slen = s.len();
    let mut t: usize = 0;
    while t < w
        invariant
            slen == s@.len(),
            t <= w,
            off + w <= len,
            len == old(dst)@[idx as int]@.len(),
            so + w <= s@.len(),
            idx < old(dst)@.len(),
            dst@.len() == old(dst)@.len(),
            forall|i: int| 0 <= i < old(dst)@.len() && i != idx ==> dst@[i] == old(dst)@[i],
            dst@[idx as int]@.len() == len,
            forall|j: int|
                0 <= j < len ==> #[trigger] dst@[idx as int]@[j] == if off <= j < off + t {
                    s@[so + j - off]
                } else {
                    old(dst)@[idx as int]@[j]
                },
        decreases w - t,
    {
        let b = s[so + t];
        dst[idx].set(off + t, b);
        t += 1;
    }
    Ok(w)
}

/// Copy from a list of source buffers into a list of destination buffers.
///
/// `offset` is where to start in the first source buffer, and at most `length`
/// bytes are copied. `dst_index` and `dst_offset` give the destination position to
/// write from. Returns the number of bytes copied and the final destination
/// position.
pub fn copyv(
    src: &[Vec<u8>],
    dst: &mut Vec<Vec<u8>>,
    offset: usize,
    length: usize,
    dst_index: usize,
    dst_offset: usize,
) -> (r: Result<(usize, (usize, usize)), StorageError>)
    ensures
        final(dst)@.len() == old(dst)@.len(),
        buf_lens(final(dst)@) == buf_lens(old(dst)@),
        match copyv_result(
            buf_views(src@),
            buf_lens(old(dst)@),
            offset as int,
            length as int,
            dst_index as int,
            dst_offset as int,
        ) {
            Ok((n, i, o)) => r == Ok::<(usize, (usize, usize)), StorageError>(
                (n as usize, (i as usize, o as usize)),
            ) && copied_into(
                old(dst)@,
                final(dst)@,
                dst_index as int,
                dst_offset as int,
                buf_views(src@).flatten(),
                offset as int,
                n,
            ),
            Err(e) => r == Err::<(usize, (usize, usize)), StorageError>(e),
        },
        (src@.len() > 0 && length > 0 && (offset > src@[0]@.len() || dst_index >= old(dst)@.len()
            || dst_offset > old(dst)@[dst_index as int]@.len())) ==> r == Err::<
            (usize, (usize, usize)),
            StorageError,
        >(StorageError::MemOverflow) && final(dst)@ == old(dst)@,
{
    let ghost d0 = dst@;
    let ghost lens = buf_lens(d0);
    let ghost srcs = buf_views(src@);
    let ghost slens = buf_lens(src@);
    assert(slens =~= seq_lens(srcs));
    let ghost idx0 = dst_index as int;
    let ghost off0 = dst_offset as int;
    assert(buf_lens(dst@) =~= lens);
    // Validate input parameters first to protect following loop block.
    if src.len() == 0 || length == 0 {
        return Ok((0, (dst_index, dst_offset)));
    } else if offset > src[0].len() || dst_index >= dst.len() || dst_offset > dst[dst_index].len() {
        return Err(StorageError::MemOverflow);
    }
    let ghost target = copy_run(lens, slens, 0, idx0, off0, offset as int, length as int, 0);
    let mut cur_index = dst_index;
    let mut cur_offset = dst_offset;
    let mut copied: usize = 0;
    let mut src_offset = offset;
    let mut k: usize = 0;
    proof {
        assert(srcs.subrange(0, 0) =~= Seq::<Seq<u8>>::empty());
        assert(Seq::<Seq<u8>>::empty().flatten() =~= Seq::<u8>::empty());
    }
    while k < src.len()
        invariant
            dst@.len() == d0.len(),
            buf_lens(dst@) == lens,
            d0 == old(dst)@,
            lens == buf_lens(d0),
            idx0 == dst_index,
            off0 == dst_offset,
            target == copyv_result(srcs, lens, offset as int, length as int, idx0, off0),
            lens.len() == d0.len(),
            forall|i: int| 0 <= i < lens.len() ==> lens[i] >= 0,
            srcs == buf_views(src@),
            slens == buf_lens(src@),
            0 <= idx0 < lens.len(),
            0 <= off0 <= lens[idx0],
            k <= src@.len(),
            idx0 <= cur_index <= lens.len(),
            cur_index < lens.len() ==> cur_offset <= lens[cur_index as int],
            cur_index == lens.len() ==> cur_offset == 0,
            distance(lens, idx0, off0, cur_index as int, cur_offset as int) == copied,
            copied <= length,
            k < src@.len() ==> src_offset <= src@[k as int]@.len(),
            k > 0 ==> src_offset == 0,
            copied < length ==> offset + copied == srcs.subrange(0, k as int).flatten().len()
                + src_offset,
            copy_run(
                lens,
                slens,
                k as int,
                cur_index as int,
                cur_offset as int,
                src_offset as int,
                length as int,
                copied as int,
            ) == target,
            copied_into(d0, dst@, idx0, off0, srcs.flatten(), offset as int, copied as int),
            src@.len() > 0,
            length > 0,
            offset <= src@[0]@.len(),
        decreases src@.len() - k,
    {
        let s = &src[k];
        let mut buffer_len = if s.len() - src_offset < length - copied {
            s.len() - src_offset
        } else {
            length - copied
        };
        let slen = s.len();
        let ghost k_copied = copied as int;
        let ghost k_so = src_offset as int;
        let ghost b0 = buffer_len as int;
        let ghost run = write_run(lens, cur_index as int, cur_offset as int, b0);
        proof {
            assert(srcs[k as int] == s@);
            assert(slens[k as int] == s@.len());
        }
        loop
            invariant_except_break
                copied + buffer_len == k_copied + b0,
                src_offset == k_so + (copied - k_copied),
                write_run(lens, cur_index as int, cur_offset as int, buffer_len as int) == run,
            invariant
                dst@.len() == d0.len(),
                buf_lens(dst@) == lens,
                d0 == old(dst)@,
                lens == buf_lens(d0),
                idx0 == dst_index,
                off0 == dst_offset,
                slen == s@.len(),
                target == copyv_result(srcs, lens, offset as int, length as int, idx0, off0),
                lens.len() == d0.len(),
                forall|i: int| 0 <= i < lens.len() ==> lens[i] >= 0,
                srcs == buf_views(src@),
                slens == buf_lens(src@),
                srcs[k as int] == s@,
                slens[k as int] == s@.len(),
                0 <= idx0 < lens.len(),
                0 <= off0 <= lens[idx0],
                k < src@.len(),
                idx0 <= cur_index <= lens.len(),
                cur_index < lens.len() ==> cur_offset <= lens[cur_index as int],
                cur_index == lens.len() ==> cur_offset == 0,
                distance(lens, idx0, off0, cur_index as int, cur_offset as int) == copied,
                copied >= k_copied,
                b0 == if s@.len() - k_so < length - k_copied {
                    s@.len() - k_so
                } else {
                    length - k_copied
                },
                0 <= k_so <= s@.len(),
                k_copied <= length,
                k > 0 ==> k_so == 0,
                k_copied < length ==> offset + k_copied == srcs.subrange(0, k as int).flatten().len()
                    + k_so,
                run is Err ==> target == Err::<(int, int, int), StorageError>(run->Err_0),
                run is Ok ==> copy_run(
                    lens,
                    slens,
                    k + 1,
                    run->Ok_0.0,
                    run->Ok_0.1,
                    0,
                    length as int,
                    k_copied + b0,
                ) == target,
                copied_into(d0, dst@, idx0, off0, srcs.flatten(), offset as int, copied as int),
                src@.len() > 0,
                length > 0,
                offset <= src@[0]@.len(),
            ensures
                src_offset == 0,
                copied == k_copied + b0,
                run == Ok::<(int, int), StorageError>((cur_index as int, cur_offset as int)),
            decreases buffer_len,
        {
            if cur_index >= dst.len() {
                return Err(StorageError::MemOverflow);
            }
            let ghost pre = dst@;
            let ghost pre_copied = copied as int;
            let ghost pidx = cur_index as int;
            let ghost poff = cur_offset as int;
            assert(pre[pidx]@.len() == lens[pidx]);
            let written = match write_at(dst, cur_index, cur_offset, s, src_offset, buffer_len) {
                Ok(w) => w,
                Err(e) => {
                    return Err(e);
                },
            };
            proof {
                assert(buf_lens(dst@) =~= lens) by {
                    assert forall|i: int| 0 <= i < lens.len() implies buf_lens(dst@)[i]
                        == lens[i] by {
                        if i != pidx {
                            assert(dst@[i] == pre[i]);
                        }
                    }
                }
                // The written bytes are the next ones of the source stream.
                assert forall|i: int, j: int|
                    0 <= i < d0.len() && 0 <= j < d0[i]@.len() implies #[trigger] dst@[i]@[j]
                        == if at_or_after(i, j, idx0, off0) && 0 <= distance(lens, idx0, off0, i, j)
                        < copied + written {
                        srcs.flatten()[offset + distance(lens, idx0, off0, i, j)]
                    } else {
                        d0[i]@[j]
                    } by {
                    assert(lens[i] == d0[i]@.len());
                    assert(buf_lens(d0) == lens);
                    if i < pidx {
                        if i >= idx0 {
                            lemma_span_split(lens, idx0, i, i + 1);
                            lemma_span_split(lens, idx0, i + 1, pidx);
                        }
                        assert(dst@[i] == pre[i]);
                    } else if i > pidx {
                        lemma_span_split(lens, idx0, pidx, pidx + 1);
                        lemma_span_split(lens, idx0, pidx + 1, i);
                        assert(dst@[i] == pre[i]);
                    } else {
                        if poff <= j < poff + written {
                            let x = src_offset + j - poff;
                            assert(k_copied < length);
                            lemma_flatten_at(srcs, k as int, x);
                        }
                    }
                }
            }
            copied = copied + written;
            let ghost was_full = lens[pidx] - poff == written;
            if dst[cur_index].len() - cur_offset == written {
                cur_index = cur_index + 1;
                cur_offset = 0;
            } else {
                cur_offset = cur_offset + written;
            }
            proof {
                if was_full {
                    lemma_span_split(lens, idx0, pidx, pidx + 1);
                }
            }
            // Move to next source buffer if the current source buffer has been exhausted.
            if written == buffer_len {
                src_offset = 0;
                break ;
            } else {
                src_offset = src_offset + written;
                buffer_len = buffer_len - written;
            }
        }
        proof {
            if copied < length {
                lemma_flatten_prefix_push(srcs, k as int);
            }
            if k + 1 < src@.len() {
                assert(buf_lens(src@)[k + 1] == src@[k + 1]@.len());
            }
        }
        k += 1;
    }
    proof {
        assert(copy_run(
            lens,
            slens,
            k as int,
            cur_index as int,
            cur_offset as int,
            src_offset as int,
            length as int,
            copied as int,
        ) == Ok::<(int, int, int), StorageError>(
            (copied as int, cur_index as int, cur_offset as int),
        ));
    }
    Ok((copied, (cur_index, cur_offset)))
}

/// How one positional vectored read attempt ended.
#[derive(Clone, Copy, Debug, PartialEq, Eq, Structural)]
pub enum ReadOutcome {
    /// The read returned this many bytes; fewer than asked means end of file.
    Read(usize),
    /// The read was interrupted by a signal before it transferred anything.
    Interrupted,
    /// The read failed with this OS error code.
    Failed(i32),
}

/// What a vectored read does after an attempt.
#[derive(Clone, Copy, Debug, PartialEq, Eq, Structural)]
pub enum ReadNext {
    /// Issue the same read again.
    Retry,
    /// Return this byte count.
    Done(usize),
    /// Return this OS error.
    Fail(i32),
}

/// The retry rule of a vectored read: an interrupted attempt is retried, a
/// count (short only at end of file) or another error is returned as it is.
pub fn readv_next(outcome: ReadOutcome) -> (r: ReadNext)
    ensures
        r == match outcome {
            ReadOutcome::Read(n) => ReadNext::Done(n),
            ReadOutcome::Interrupted => ReadNext::Retry,
            ReadOutcome::Failed(e) => ReadNext::Fail(e),
        },
{
    match outcome {
        ReadOutcome::Read(n) => ReadNext::Done(n),
        ReadOutcome::Interrupted => ReadNext::Retry,
        ReadOutcome::Failed(e) => ReadNext::Fail(e),
    }
}

/// A piece of a destination buffer: `len` bytes of buffer `index` from byte
/// `offset` on.
#[derive(Clone, Copy, Debug, PartialEq, Eq, Structural)]
pub struct IoRange {
    /// Which buffer.
    pub index: usize,
    /// Start within the buffer.
    pub offset: usize,
    /// Number of bytes.
    pub len: usize,
}

/// Where moving `size` bytes forward from `(idx, off)` leaves a cursor over
/// buffers with lengths `lens`; a buffer that is used up moves the cursor to the
/// start of the next one, and the cursor stops after the last buffer.
pub open spec fn cursor_move(lens: Seq<int>, idx: int, off: int, size: int) -> (int, int)
    decreases lens.len() - idx,
{
    if size <= 0 || idx < 0 || idx >= lens.len() {
        (idx, off)
    } else if lens[idx] - off == size {
        (idx + 1, 0)
    } else if lens[idx] - off > size {
        (idx, off + size)
    } else {
        cursor_move(lens, idx + 1, 0, size - (lens[idx] - off))
    }
}

/// The pieces of buffers that moving `size` bytes forward from `(idx, off)`
/// passes over, in order.
pub open spec fn cursor_pieces(lens: Seq<int>, idx: int, off: int, size: int) -> Seq<IoRange>
    decreases lens.len() - idx,
{
    if size <= 0 || idx < 0 || idx >= lens.len() {
        Seq::empty()
    } else if lens[idx] - off >= size {
        seq![IoRange { index: idx as usize, offset: off as usize, len: size as usize }]
    } else {
        seq![
            IoRange {
                index: idx as usize,
                offset: off as usize,
                len: (lens[idx] - off) as usize,
            },
        ] + cursor_pieces(lens, idx + 1, 0, size - (lens[idx] - off))
    }
}

/// A cursor over a list of destination buffers, given by their lengths.
#[derive(Debug)]
pub struct MemSliceCursor {
    /// The length of each buffer.
    pub mem_lens: Vec<usize>,
    /// The buffer the cursor is in.
    pub index: usize,
    /// The position within that buffer.
    pub offset: usize,
}

impl MemSliceCursor {
    /// The buffer lengths as integers.
    pub open spec fn lens(&self) -> Seq<int> {
        self.mem_lens@.map_values(|l: usize| l as int)
    }

    /// The cursor points into a buffer, or just past the last one.
    pub open spec fn wf(&self) -> bool {
        &&& self.index <= self.mem_lens@.len()
        &&& self.index < self.mem_lens@.len() ==> self.offset <= self.mem_lens@[self.index as int]
    }

    /// Creates a cursor at the start of `slice`.
    pub fn new(slice: &[Vec<u8>]) -> (r: Self)
        ensures
            r.wf(),
            r.lens() == buf_lens(slice@),
            r.index == 0,
            r.offset == 0,
    {
        let mut mem_lens: Vec<usize> = Vec::new();
        let mut i: usize = 0;
        while i < slice.len()
            invariant
                i <= slice@.len(),
                mem_lens@.len() == i,
                forall|k: int| 0 <= k < i ==> mem_lens@[k] == slice@[k]@.len(),
            decreases slice@.len() - i,
        {
            mem_lens.push(slice[i].len());
            i += 1;
        }
        let r = MemSliceCursor { mem_lens, index: 0, offset: 0 };
        assert(r.lens() =~= buf_lens(slice@));
        r
    }

    /// Moves the cursor forward by `size` bytes.
    pub fn move_cursor(&mut self, size: usize)
        requires
            old(self).wf(),
        ensures
            final(self).wf(),
            final(self).mem_lens == old(self).mem_lens,
            (final(self).index as int, final(self).offset as int) == cursor_move(
                old(self).lens(),
                old(self).index as int,
                old(self).offset as int,
                size as int,
            ),
    {
        let ghost lens = self.lens();
        let ghost target = cursor_move(lens, self.index as int, self.offset as int, size as int);
        let mut rest = size;
        while rest > 0 && self.index < self.mem_lens.len()
            invariant
                self.wf(),
                self.mem_lens == old(self).mem_lens,
                lens == self.lens(),
                lens == old(self).lens(),
                target == cursor_move(lens, old(self).index as int, old(self).offset as int, size as int),
                cursor_move(lens, self.index as int, self.offset as int, rest as int) == target,
            decreases self.mem_lens@.len() - self.index,
        {
            let this_left = self.mem_lens[self.index] - self.offset;
            if this_left == rest {
                self.index += 1;
                self.offset = 0;
                return;
            } else if this_left > rest {
                self.offset += rest;
                return;
            } else {
                self.index += 1;
                self.offset = 0;
                rest -= this_left;
            }
        }
    }

    /// Consumes `size` bytes from the cursor and returns the pieces of buffers
    /// that they occupy.
    pub fn consume(&mut self, size: usize) -> (r: Vec<IoRange>)
        requires
            old(self).wf(),
        ensures
            final(self).wf(),
            final(self).mem_lens == old(self).mem_lens,
            (final(self).index as int, final(self).offset as int) == cursor_move(
                old(self).lens(),
                old(self).index as int,
                old(self).offset as int,
                size as int,
            ),
            r@ == cursor_pieces(
                old(self).lens(),
                old(self).index as int,
                old(self).offset as int,
                size as int,
            ),
    {
        let ghost lens = self.lens();
        let ghost target = cursor_move(lens, self.index as int, self.offset as int, size as int);
        let ghost pieces = cursor_pieces(lens, self.index as int, self.offset as int, size as int);
        let mut vectors: Vec<IoRange> = Vec::new();
        let mut rest = size;
        while rest > 0 && self.index < self.mem_lens.len()
            invariant
                self.wf(),
                self.mem_lens == old(self).mem_lens,
                lens == self.lens(),
                lens == old(self).lens(),
                target == cursor_move(lens, old(self).index as int, old(self).offset as int, size as int),
                cursor_move(lens, self.index as int, self.offset as int, rest as int) == target,
                vectors@ + cursor_pieces(lens, self.index as int, self.offset as int, rest as int)
                    == pieces,
                pieces == cursor_pieces(lens, old(self).index as int, old(self).offset as int, size as int),
            decreases self.mem_lens@.len() - self.index,
        {
            let this_left = self.mem_lens[self.index] - self.offset;
            if this_left > rest {
                vectors.push(IoRange { index: self.index, offset: self.offset, len: rest });
                self.offset += rest;
                assert(vectors@ =~= pieces);
                return vectors;
            } else if this_left == rest {
                vectors.push(IoRange { index: self.index, offset: self.offset, len: rest });
                self.index += 1;
                self.offset = 0;
                assert(vectors@ =~= pieces);
                return vectors;
            } else {
                let ghost before = vectors@;
                let ghost pidx = self.index as int;
                let ghost poff = self.offset as int;
                let ghost psize = rest as int;
                let piece = IoRange { index: self.index, offset: self.offset, len: this_left };
                vectors.push(piece);
                self.index += 1;
                self.offset = 0;
                rest -= this_left;
                assert(cursor_pieces(lens, pidx, poff, psize) == seq![piece] + cursor_pieces(
                    lens,
                    pidx + 1,
                    0,
                    rest as int,
                ));
                assert(vectors@ + cursor_pieces(lens, self.index as int, 0, rest as int) =~= before
                    + cursor_pieces(lens, pidx, poff, psize));
            }
        }
        assert(vectors@ =~= pieces);
        vectors
    }
}

} // verus!
