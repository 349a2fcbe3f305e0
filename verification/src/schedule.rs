//! Range scheduling for the multi-range engine: split the remaining work
//! into per-worker sub-chunks, and compute the unwritten suffix a worker
//! re-pulls after a transient error.

use crate::progress::ByteRange;
use crate::progress::covered;
use crate::progress::is_normalized;
use crate::progress::lemma_covered_push;
use crate::progress::lemma_norm_order;
use crate::progress::range_set;
use vstd::arithmetic::div_mod::lemma_fundamental_div_mod;
use vstd::prelude::*;

verus! {

/// Sub-chunk form: every chunk non-empty and ordered; unlike a normalized
/// progress set, chunks that tile one source range may touch.
pub open spec fn is_chunked(s: Seq<ByteRange>) -> bool {
    &&& (forall|i: int| 0 <= i < s.len() ==> s[i].start < s[i].end)
    &&& (forall|i: int| 0 <= i < s.len() - 1 ==> s[i].end <= s[i + 1].start)
}

/// `r` lies within one of the ranges of `s`.
pub open spec fn within_some(s: Seq<ByteRange>, r: ByteRange) -> bool {
    exists|j: int| 0 <= j < s.len() && s[j].start <= r.start && r.end <= s[j].end
}

/// `r` is one of the ranges of `s`, whole.
pub open spec fn equals_some(s: Seq<ByteRange>, r: ByteRange) -> bool {
    exists|j: int| 0 <= j < s.len() && s[j] == r
}

/// How many chunks one range is cut into: as many chunks of at least
/// `min_chunk_size` as fit, capped at `concurrent`, and at least one.
pub open spec fn split_count(r: ByteRange, concurrent: int, min_chunk_size: int) -> int {
    let fit = (r.end - r.start) as int / min_chunk_size;
    if fit == 0 {
        1
    } else if fit < concurrent {
        fit
    } else {
        concurrent
    }
}

/// The balanced tiling of one range: `split_count` chunks left to right,
/// each of the range's length divided by the count, with the remainder
/// spread one byte each over the leading chunks.
pub open spec fn chunks_of_range(r: ByteRange, concurrent: int, min_chunk_size: int) -> Seq<
    ByteRange,
> {
    let len = (r.end - r.start) as int;
    let k = split_count(r, concurrent, min_chunk_size);
    let q = len / k;
    let rem = len % k;
    Seq::new(
        k as nat,
        |i: int|
            ByteRange {
                start: (r.start + i * q + (if i <= rem {
                    i
                } else {
                    rem
                })) as u64,
                end: (r.start + (i + 1) * q + (if i + 1 <= rem {
                    i + 1
                } else {
                    rem
                })) as u64,
            },
    )
}

/// The whole split: each range's tiling, in range order.
pub open spec fn spec_split(
    ranges: Seq<ByteRange>,
    concurrent: int,
    min_chunk_size: int,
) -> Seq<ByteRange>
    decreases ranges.len(),
{
    if ranges.len() == 0 {
        Seq::empty()
    } else {
        chunks_of_range(ranges[0], concurrent, min_chunk_size) + spec_split(
            ranges.drop_first(),
            concurrent,
            min_chunk_size,
        )
    }
}

proof fn lemma_spec_split_push(s: Seq<ByteRange>, r: ByteRange, concurrent: int, min_chunk_size: int)
    ensures
        spec_split(s.push(r), concurrent, min_chunk_size) == spec_split(s, concurrent, min_chunk_size)
            + chunks_of_range(r, concurrent, min_chunk_size),
    decreases s.len(),
{
    if s.len() == 0 {
        assert(s.push(r)[0] == r);
        assert(s.push(r).drop_first() =~= s);
        assert(spec_split(s.push(r), concurrent, min_chunk_size) =~= spec_split(
            s,
            concurrent,
            min_chunk_size,
        ) + chunks_of_range(r, concurrent, min_chunk_size));
    } else {
        assert(s.push(r)[0] == s[0]);
        assert(s.push(r).drop_first() =~= s.drop_first().push(r));
        lemma_spec_split_push(s.drop_first(), r, concurrent, min_chunk_size);
        assert(spec_split(s.push(r), concurrent, min_chunk_size) =~= spec_split(
            s,
            concurrent,
            min_chunk_size,
        ) + chunks_of_range(r, concurrent, min_chunk_size));
    }
}

/// Shape of one range's tiling: exactly `split_count` chunks, their
/// lengths differing by at most one byte; each at least `min_chunk_size`
/// whenever the range was cut at all, and the whole range as its one chunk
/// otherwise.
pub proof fn lemma_chunks_of_range_shape(r: ByteRange, concurrent: int, min_chunk_size: int)
    requires
        r.start < r.end,
        concurrent >= 1,
        min_chunk_size >= 1,
    ensures
        ({
            let chunks = chunks_of_range(r, concurrent, min_chunk_size);
            let k = split_count(r, concurrent, min_chunk_size);
            let q = ((r.end - r.start) as int) / k;
            &&& 1 <= k <= concurrent
            &&& chunks.len() == k
            &&& (forall|i: int|
                0 <= i < k ==> q <= (#[trigger] chunks[i]).end - chunks[i].start <= q + 1)
            &&& (k >= 2 ==> q >= min_chunk_size)
            &&& (k == 1 ==> chunks == seq![r])
        }),
{
    let len = (r.end - r.start) as int;
    let k = split_count(r, concurrent, min_chunk_size);
    let q = len / k;
    let rem = len % k;
    let chunks = chunks_of_range(r, concurrent, min_chunk_size);
    lemma_fundamental_div_mod(len, k);
    if k >= 2 {
        assert(k <= len / min_chunk_size);
        assert(k * min_chunk_size <= len) by (nonlinear_arith)
            requires
                k <= len / min_chunk_size,
                min_chunk_size >= 1,
                len >= 0,
                k >= 0,
        ;
        assert(min_chunk_size <= len / k) by (nonlinear_arith)
            requires
                k * min_chunk_size <= len,
                k >= 2,
                min_chunk_size >= 1,
        ;
    }
    assert forall|i: int| 0 <= i < k implies q <= (#[trigger] chunks[i]).end - chunks[i].start <= q
        + 1 by {
        assert((i + 1) * q == i * q + q) by (nonlinear_arith);
        assert(i * q >= 0 && (i + 1) * q <= k * q) by (nonlinear_arith)
            requires
                0 <= i < k,
                q >= 0,
        ;
        assert(r.start + (i + 1) * q + (if i + 1 <= rem {
            i + 1
        } else {
            rem
        }) <= r.end);
    }
    if k == 1 {
        assert(chunks[0] == r);
        assert(chunks =~= seq![r]);
    }
}

/// Split the remaining work into sub-chunks, in increasing start order:
/// exactly the tiling `spec_split` names, so each source range is cut into
/// `split_count` balanced chunks — see `lemma_chunks_of_range_shape` — and
/// the sub-chunks cover exactly the offsets of the input. Dispatching one
/// worker per sub-chunk downloads the remaining work and nothing else.
pub fn split_chunks(ranges: &Vec<ByteRange>, concurrent: usize, min_chunk_size: u64) -> (out: Vec<
    ByteRange,
>)
    requires
        is_normalized(ranges@),
        concurrent >= 1,
        min_chunk_size >= 1,
    ensures
        out@ == spec_split(ranges@, concurrent as int, min_chunk_size as int),
        is_chunked(out@),
        covered(out@) == covered(ranges@),
        forall|i: int| 0 <= i < out@.len() ==> within_some(ranges@, out@[i]),
        forall|i: int|
            0 <= i < out@.len() ==> out@[i].end - out@[i].start >= min_chunk_size || equals_some(
                ranges@,
                out@[i],
            ),
{
    let mut out: Vec<ByteRange> = Vec::new();
    let n = ranges.len();
    let mut j: usize = 0;
    proof {
        assert(ranges@.subrange(0, 0) =~= Seq::<ByteRange>::empty());
        assert(out@ =~= spec_split(
            ranges@.subrange(0, 0),
            concurrent as int,
            min_chunk_size as int,
        ));
    }
    while j < n
        invariant
            n == ranges@.len(),
            j <= n,
            is_normalized(ranges@),
            concurrent >= 1,
            min_chunk_size >= 1,
            is_chunked(out@),
            out@ == spec_split(ranges@.subrange(0, j as int), concurrent as int, min_chunk_size as int),
            covered(out@) == covered(ranges@.subrange(0, j as int)),
            out@.len() > 0 && j < n ==> out@[out@.len() - 1].end <= ranges@[j as int].start,
            forall|i: int| 0 <= i < out@.len() ==> within_some(ranges@, out@[i]),
            forall|i: int|
                0 <= i < out@.len() ==> out@[i].end - out@[i].start >= min_chunk_size
                    || equals_some(ranges@, out@[i]),
        decreases n - j,
    {
        let r = ranges[j];
        let len_r = r.end - r.start;
        let mut k = len_r / min_chunk_size;
        if k > concurrent as u64 {
            k = concurrent as u64;
        }
        if k == 0 {
            k = 1;
        }
        let q = len_r / k;
        let rem = len_r % k;
        proof {
            lemma_fundamental_div_mod(len_r as int, k as int);
            if k >= 2 {
                assert(k <= len_r / min_chunk_size);
                assert(k * min_chunk_size <= len_r) by (nonlinear_arith)
                    requires
                        k <= len_r / min_chunk_size,
                        min_chunk_size >= 1,
                        len_r >= 0,
                        k >= 0,
                ;
                assert(min_chunk_size <= len_r / k) by (nonlinear_arith)
                    requires
                        k * min_chunk_size <= len_r,
                        k >= 2,
                        min_chunk_size >= 1,
                ;
            }
        }
        let ghost cs = chunks_of_range(r, concurrent as int, min_chunk_size as int);
        proof {
            assert(k as int == split_count(r, concurrent as int, min_chunk_size as int));
            assert(cs.len() == k);
            assert(out@ + cs.take(0) =~= out@);
        }
        let mut i: u64 = 0;
        let mut pos = r.start;
        while i < k
            invariant
                n == ranges@.len(),
                j < n,
                r == ranges@[j as int],
                is_normalized(ranges@),
                concurrent >= 1,
                min_chunk_size >= 1,
                1 <= k,
                k as int == split_count(r, concurrent as int, min_chunk_size as int),
                cs == chunks_of_range(r, concurrent as int, min_chunk_size as int),
                cs.len() == k,
                out@ == spec_split(
                    ranges@.subrange(0, j as int),
                    concurrent as int,
                    min_chunk_size as int,
                ) + cs.take(i as int),
                len_r == r.end - r.start,
                q == len_r as int / k as int,
                rem == len_r as int % k as int,
                0 <= rem < k,
                k >= 2 ==> q >= min_chunk_size,
                k == 1 ==> q == len_r && rem == 0,
                i <= k,
                pos == r.start + i * q + (if i <= rem {
                    i as int
                } else {
                    rem as int
                }),
                pos <= r.end,
                is_chunked(out@),
                covered(out@) == covered(ranges@.subrange(0, j as int)).union(
                    Set::new(|x: int| r.start <= x < pos),
                ),
                out@.len() > 0 ==> out@[out@.len() - 1].end <= pos,
                i > 0 ==> out@.len() > 0 && out@[out@.len() - 1].end == pos,
                i == 0 && out@.len() > 0 ==> out@[out@.len() - 1].end <= r.start,
                forall|a: int| 0 <= a < out@.len() ==> within_some(ranges@, out@[a]),
                forall|a: int|
                    0 <= a < out@.len() ==> out@[a].end - out@[a].start >= min_chunk_size
                        || equals_some(ranges@, out@[a]),
            decreases k - i,
        {
            proof {
                lemma_fundamental_div_mod(len_r as int, k as int);
                assert((i + 1) * q == i * q + q) by (nonlinear_arith);
                assert(i * q + (if i <= rem {
                    i as int
                } else {
                    rem as int
                }) + q + (if i < rem {
                    1int
                } else {
                    0int
                }) <= len_r) by (nonlinear_arith)
                    requires
                        len_r == k * q + rem,
                        0 <= i < k,
                        0 <= rem < k,
                        q >= 0,
                ;
            }
            let size = if i < rem {
                q + 1
            } else {
                q
            };
            let end = pos + size;
            let c = ByteRange { start: pos, end };
            proof {
                if k == 1 {
                    assert(c == r);
                    assert(equals_some(ranges@, c));
                }
                let ei = r.start + (i + 1) * q + (if i + 1 <= rem {
                    i as int + 1
                } else {
                    rem as int
                });
                assert(ei == pos + size);
                assert(cs[i as int].start == pos);
                assert(cs[i as int].end == end);
                assert(cs[i as int] == c);
                assert(out@.push(c) =~= spec_split(
                    ranges@.subrange(0, j as int),
                    concurrent as int,
                    min_chunk_size as int,
                ) + cs.take(i as int + 1));
                lemma_covered_push(out@, c);
                assert(covered(out@.push(c)) =~= covered(ranges@.subrange(0, j as int)).union(
                    Set::new(|x: int| r.start <= x < end),
                ));
                assert(is_chunked(out@.push(c)));
                assert(within_some(ranges@, c));
            }
            out.push(c);
            pos = end;
            i = i + 1;
        }
        proof {
            lemma_fundamental_div_mod(len_r as int, k as int);
            assert(pos == r.end);
            assert(cs.take(k as int) =~= cs);
            assert(ranges@.subrange(0, j + 1) =~= ranges@.subrange(0, j as int).push(r));
            lemma_spec_split_push(
                ranges@.subrange(0, j as int),
                r,
                concurrent as int,
                min_chunk_size as int,
            );
            lemma_covered_push(ranges@.subrange(0, j as int), r);
            assert(Set::new(|x: int| r.start <= x < pos) =~= range_set(r));
            assert(covered(out@) =~= covered(ranges@.subrange(0, j + 1)));
            if j + 1 < n {
                lemma_norm_order(ranges@, j as int, j + 1);
            }
        }
        j = j + 1;
    }
    proof {
        assert(ranges@.subrange(0, n as int) =~= ranges@);
    }
    out
}

/// After a transient error, a worker re-pulls exactly the unwritten suffix
/// of its sub-chunk: the chunk minus the `written` bytes already pushed at
/// its front.
pub fn remaining_suffix(chunk: ByteRange, written: u64) -> (r: ByteRange)
    requires
        chunk.start <= chunk.end,
        written <= chunk.end - chunk.start,
    ensures
        r.start == chunk.start + written,
        r.end == chunk.end,
        range_set(r) == range_set(chunk).difference(
            Set::new(|x: int| chunk.start <= x < chunk.start + written),
        ),
{
    let r = ByteRange { start: chunk.start + written, end: chunk.end };
    proof {
        assert(range_set(r) =~= range_set(chunk).difference(
            Set::new(|x: int| chunk.start <= x < chunk.start + written),
        ));
    }
    r
}

} // verus!
