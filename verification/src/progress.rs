//! The progress set: a normalized sequence of half-open byte ranges recording
//! which parts of a file have been downloaded, with `merge` (coalescing
//! insertion) and `invert` (complement within `[0, total)`, the remaining
//! work).

use vstd::prelude::*;

verus! {

/// One half-open range `[start, end)` of byte offsets.
#[derive(Clone, Copy, PartialEq, Eq, Structural, Debug)]
pub struct ByteRange {
    pub start: u64,
    pub end: u64,
}

impl ByteRange {
    pub fn new(start: u64, end: u64) -> (r: ByteRange)
        ensures
            r.start == start,
            r.end == end,
    {
        ByteRange { start, end }
    }
}

/// The set of byte offsets a single range covers.
pub open spec fn range_set(r: ByteRange) -> Set<int> {
    Set::new(|x: int| r.start <= x < r.end)
}

/// The set of byte offsets `[0, total)`.
pub open spec fn interval(total: u64) -> Set<int> {
    Set::new(|x: int| 0 <= x < total)
}

/// The set of byte offsets covered by a sequence of ranges.
pub open spec fn covered(s: Seq<ByteRange>) -> Set<int>
    decreases s.len(),
{
    if s.len() == 0 {
        Set::empty()
    } else {
        range_set(s[0]).union(covered(s.drop_first()))
    }
}

/// Normal form of a progress set: every range non-empty, ranges sorted by
/// start, and neighbours neither overlapping nor touching.
pub open spec fn is_normalized(s: Seq<ByteRange>) -> bool {
    &&& (forall|i: int| 0 <= i < s.len() ==> s[i].start < s[i].end)
    &&& (forall|i: int| 0 <= i < s.len() - 1 ==> s[i].end < s[i + 1].start)
}

/// Every range lies within `[0, total)`.
pub open spec fn bounded_by(s: Seq<ByteRange>, total: u64) -> bool {
    forall|i: int| 0 <= i < s.len() ==> s[i].end <= total
}

/// Offset `x` falls inside the `j`-th range of `s`.
pub open spec fn covers_at(s: Seq<ByteRange>, j: int, x: int) -> bool {
    0 <= j < s.len() && s[j].start <= x < s[j].end
}

/// An offset is covered exactly when some range of the sequence holds it.
pub proof fn lemma_covered_iff(s: Seq<ByteRange>, x: int)
    ensures
        covered(s).contains(x) <==> exists|j: int| covers_at(s, j, x),
    decreases s.len(),
{
    if s.len() == 0 {
    } else {
        let t = s.drop_first();
        lemma_covered_iff(t, x);
        if covered(s).contains(x) {
            if range_set(s[0]).contains(x) {
                assert(covers_at(s, 0, x));
            } else {
                let j = choose|j: int| covers_at(t, j, x);
                assert(t[j] == s[j + 1]);
                assert(covers_at(s, j + 1, x));
            }
        }
        if exists|j: int| covers_at(s, j, x) {
            let j = choose|j: int| covers_at(s, j, x);
            if j == 0 {
                assert(range_set(s[0]).contains(x));
            } else {
                assert(t[j - 1] == s[j]);
                assert(covers_at(t, j - 1, x));
            }
        }
    }
}

/// In a normalized sequence earlier ranges end before later ranges begin.
pub proof fn lemma_norm_order(s: Seq<ByteRange>, i: int, j: int)
    requires
        is_normalized(s),
        0 <= i < j < s.len(),
    ensures
        s[i].end < s[j].start,
    decreases j - i,
{
    if j > i + 1 {
        lemma_norm_order(s, i, j - 1);
    }
}

/// Dropping the first range keeps a sequence normalized.
pub proof fn lemma_norm_drop_first(s: Seq<ByteRange>)
    requires
        is_normalized(s),
        s.len() > 0,
    ensures
        is_normalized(s.drop_first()),
{
    let t = s.drop_first();
    assert forall|i: int| 0 <= i < t.len() implies t[i].start < t[i].end by {
        assert(t[i] == s[i + 1]);
    }
    assert forall|i: int| 0 <= i < t.len() - 1 implies t[i].end < t[i + 1].start by {
        assert(t[i] == s[i + 1]);
        assert(t[i + 1] == s[i + 2]);
    }
}

/// Coverage distributes over concatenation.
pub proof fn lemma_covered_append(a: Seq<ByteRange>, b: Seq<ByteRange>)
    ensures
        covered(a + b) == covered(a).union(covered(b)),
    decreases a.len(),
{
    if a.len() == 0 {
        assert(a + b =~= b);
        assert(covered(a).union(covered(b)) =~= covered(b));
    } else {
        lemma_covered_append(a.drop_first(), b);
        assert((a + b).drop_first() =~= a.drop_first() + b);
        assert((a + b)[0] == a[0]);
        assert(covered(a + b) =~= covered(a).union(covered(b)));
    }
}

/// Coverage of a sequence extended by one range.
pub proof fn lemma_covered_push(s: Seq<ByteRange>, r: ByteRange)
    ensures
        covered(s.push(r)) == covered(s).union(range_set(r)),
{
    assert(s.push(r) =~= s + seq![r]);
    lemma_covered_append(s, seq![r]);
    let one = seq![r];
    assert(one[0] == r);
    assert(one.drop_first() =~= Seq::<ByteRange>::empty());
    assert(covered(one.drop_first()) =~= Set::<int>::empty());
    assert(covered(one) =~= range_set(r));
}

/// A bounded sequence covers only offsets inside `[0, total)`.
pub proof fn lemma_covered_in_interval(s: Seq<ByteRange>, total: u64)
    requires
        bounded_by(s, total),
    ensures
        forall|x: int| covered(s).contains(x) ==> interval(total).contains(x),
{
    assert forall|x: int| covered(s).contains(x) implies interval(total).contains(x) by {
        lemma_covered_iff(s, x);
        let j = choose|j: int| covers_at(s, j, x);
        assert(s[j].end <= total);
    }
}

/// Complement of a normalized progress set within `[0, total_size)`: the
/// work that remains to be downloaded, again in normal form.
pub fn invert_progress(progress: &Vec<ByteRange>, total_size: u64) -> (out: Vec<ByteRange>)
    requires
        is_normalized(progress@),
        bounded_by(progress@, total_size),
    ensures
        is_normalized(out@),
        bounded_by(out@, total_size),
        covered(out@) == interval(total_size).difference(covered(progress@)),
{
    let mut out: Vec<ByteRange> = Vec::new();
    let mut prev_end: u64 = 0;
    let n = progress.len();
    let mut i: usize = 0;
    while i < n
        invariant
            n == progress@.len(),
            i <= n,
            is_normalized(progress@),
            bounded_by(progress@, total_size),
            if i == 0 {
                prev_end == 0
            } else {
                prev_end == progress@[i - 1].end
            },
            prev_end <= total_size,
            is_normalized(out@),
            bounded_by(out@, total_size),
            out@.len() > 0 ==> out@[out@.len() - 1].end < prev_end,
            covered(out@) == interval(prev_end).difference(covered(progress@)),
        decreases n - i,
    {
        let r = progress[i];
        if r.start > prev_end {
            let g = ByteRange { start: prev_end, end: r.start };
            proof {
                let o = out@;
                assert forall|k: int| 0 <= k < o.len() - 1 implies o[k].end < o[k
                    + 1].start by {}
                if o.len() > 0 {
                    assert(o[o.len() - 1].end < g.start);
                }
                lemma_covered_push(o, g);
                assert forall|x: int| covered(o.push(g)).contains(x)
                    <==> interval(r.end).difference(covered(progress@)).contains(x) by {
                    lemma_covered_iff(progress@, x);
                    if g.start <= x < g.end {
                        assert forall|j: int| !covers_at(progress@, j, x) by {
                            if 0 <= j < i - 1 {
                                lemma_norm_order(progress@, j, i - 1);
                            }
                            if i < j < progress@.len() {
                                lemma_norm_order(progress@, i as int, j);
                            }
                        }
                    }
                    if r.start <= x < r.end {
                        assert(covers_at(progress@, i as int, x));
                    }
                }
                assert(covered(o.push(g)) =~= interval(r.end).difference(covered(progress@)));
            }
            out.push(g);
        } else {
            proof {
                if i > 0 {
                    assert(progress@[i - 1].end < progress@[i as int].start);
                }
                assert(i == 0 && r.start == 0);
                assert forall|x: int| !interval(r.end).difference(covered(progress@)).contains(
                    x,
                ) by {
                    if 0 <= x < r.end {
                        assert(covers_at(progress@, 0, x));
                        lemma_covered_iff(progress@, x);
                    }
                }
                assert(covered(out@) =~= interval(r.end).difference(covered(progress@)));
            }
        }
        prev_end = r.end;
        i = i + 1;
    }
    if prev_end < total_size {
        let g = ByteRange { start: prev_end, end: total_size };
        proof {
            let o = out@;
            lemma_covered_push(o, g);
            assert forall|x: int| covered(o.push(g)).contains(x) <==> interval(
                total_size,
            ).difference(covered(progress@)).contains(x) by {
                lemma_covered_iff(progress@, x);
                if g.start <= x < g.end {
                    assert forall|j: int| !covers_at(progress@, j, x) by {
                        if 0 <= j < n - 1 {
                            lemma_norm_order(progress@, j, n - 1);
                        }
                    }
                }
            }
            assert(covered(o.push(g)) =~= interval(total_size).difference(covered(progress@)));
        }
        out.push(g);
    } else {
        proof {
            assert(covered(out@) =~= interval(total_size).difference(covered(progress@)));
        }
    }
    out
}

/// Insert one range into a normalized progress set, coalescing every
/// overlapping or touching neighbour, so that the set stays in normal form
/// and afterwards covers exactly the old offsets plus the new range.
/// An empty range leaves the set unchanged.
#[verifier::rlimit(60)]
pub fn merge_progress(v: &mut Vec<ByteRange>, r: ByteRange)
    requires
        is_normalized(old(v)@),
    ensures
        is_normalized(final(v)@),
        covered(final(v)@) == covered(old(v)@).union(range_set(r)),
{
    if r.start >= r.end {
        proof {
            assert(range_set(r) =~= Set::<int>::empty());
            assert(covered(v@) =~= covered(v@).union(range_set(r)));
        }
        return;
    }
    let n = v.len();
    let mut out: Vec<ByteRange> = Vec::new();
    let mut i: usize = 0;
    while i < n && v[i].end < r.start
        invariant
            n == v@.len(),
            i <= n,
            is_normalized(v@),
            out@ == v@.subrange(0, i as int),
            forall|j: int| 0 <= j < i ==> v@[j].end < r.start,
        decreases n - i,
    {
        let e = v[i];
        proof {
            assert(out@.push(e) =~= v@.subrange(0, i + 1));
        }
        out.push(e);
        i = i + 1;
    }
    let ghost i0 = i as int;
    let mut cur = r;
    while i < n && v[i].start <= cur.end
        invariant
            n == v@.len(),
            r.start < r.end,
            0 <= i0 <= i <= n,
            i0 < n ==> v@[i0].end >= r.start,
            is_normalized(v@),
            out@ == v@.subrange(0, i0),
            forall|j: int| 0 <= j < i0 ==> v@[j].end < r.start,
            cur.start <= r.start,
            r.end <= cur.end,
            i0 > 0 ==> v@[i0 - 1].end < cur.start,
            range_set(cur) == range_set(r).union(covered(v@.subrange(i0, i as int))),
        decreases n - i,
    {
        let e = v[i];
        proof {
            if i > i0 {
                lemma_norm_order(v@, i0, i as int);
            }
            assert(cur.start <= e.end);
            let merged = ByteRange {
                start: if e.start < cur.start { e.start } else { cur.start },
                end: if e.end > cur.end { e.end } else { cur.end },
            };
            assert(range_set(merged) =~= range_set(cur).union(range_set(e)));
            assert(v@.subrange(i0, i + 1) =~= v@.subrange(i0, i as int).push(e));
            lemma_covered_push(v@.subrange(i0, i as int), e);
            assert(range_set(merged) =~= range_set(r).union(covered(v@.subrange(i0, i + 1))));
            if i0 > 0 {
                lemma_norm_order(v@, i0 - 1, i as int);
            }
        }
        if v[i].start < cur.start {
            cur.start = v[i].start;
        }
        if v[i].end > cur.end {
            cur.end = v[i].end;
        }
        i = i + 1;
    }
    let ghost i2 = i as int;
    proof {
        let o = out@;
        assert forall|k: int| 0 <= k < o.len() - 1 implies o[k].end < o[k + 1].start by {}
        assert(is_normalized(o.push(cur)));
        assert(o.push(cur) =~= v@.subrange(0, i0).push(cur) + v@.subrange(i2, i2));
    }
    out.push(cur);
    while i < n
        invariant
            n == v@.len(),
            0 <= i0 <= i2 <= i <= n,
            is_normalized(v@),
            is_normalized(out@),
            out@ == v@.subrange(0, i0).push(cur) + v@.subrange(i2, i as int),
            out@.len() == i0 + 1 + (i - i2),
            i < n ==> out@[out@.len() - 1].end < v@[i as int].start,
        decreases n - i,
    {
        let e = v[i];
        proof {
            assert(out@.push(e) =~= v@.subrange(0, i0).push(cur) + v@.subrange(i2, i + 1));
            assert(is_normalized(out@.push(e)));
            if i + 1 < n {
                lemma_norm_order(v@, i as int, i + 1);
            }
        }
        out.push(e);
        i = i + 1;
    }
    proof {
        let whole = v@;
        let a = whole.subrange(0, i0);
        let b = whole.subrange(i0, i2);
        let c = whole.subrange(i2, n as int);
        assert(whole =~= a + b + c);
        lemma_covered_append(a + b, c);
        lemma_covered_append(a, b);
        lemma_covered_push(a, cur);
        lemma_covered_append(a.push(cur), c);
        assert(out@ == a.push(cur) + c);
        assert(covered(out@) =~= covered(whole).union(range_set(r)));
    }
    *v = out;
}

/// Normal form is canonical: two normalized sequences covering the same
/// offsets are the same sequence.
pub proof fn lemma_normalized_canonical(a: Seq<ByteRange>, b: Seq<ByteRange>)
    requires
        is_normalized(a),
        is_normalized(b),
        covered(a) == covered(b),
    ensures
        a == b,
    decreases a.len(),
{
    if a.len() == 0 {
        if b.len() > 0 {
            assert(covers_at(b, 0, b[0].start as int));
            lemma_covered_iff(b, b[0].start as int);
            lemma_covered_iff(a, b[0].start as int);
        }
        assert(a =~= b);
    } else if b.len() == 0 {
        assert(covers_at(a, 0, a[0].start as int));
        lemma_covered_iff(a, a[0].start as int);
        lemma_covered_iff(b, a[0].start as int);
    } else {
        assert(covers_at(a, 0, a[0].start as int));
        lemma_covered_iff(a, a[0].start as int);
        lemma_covered_iff(b, a[0].start as int);
        let j = choose|j: int| covers_at(b, j, a[0].start as int);
        if j > 0 {
            lemma_norm_order(b, 0, j);
        }
        assert(b[0].start <= a[0].start);
        assert(covers_at(b, 0, b[0].start as int));
        lemma_covered_iff(b, b[0].start as int);
        lemma_covered_iff(a, b[0].start as int);
        let j2 = choose|j: int| covers_at(a, j, b[0].start as int);
        if j2 > 0 {
            lemma_norm_order(a, 0, j2);
        }
        assert(a[0].start == b[0].start);
        if a[0].end < b[0].end {
            assert(covers_at(b, 0, a[0].end as int));
            lemma_covered_iff(b, a[0].end as int);
            lemma_covered_iff(a, a[0].end as int);
            let k = choose|k: int| covers_at(a, k, a[0].end as int);
            if k > 0 {
                lemma_norm_order(a, 0, k);
            }
            assert(false);
        }
        if b[0].end < a[0].end {
            assert(covers_at(a, 0, b[0].end as int));
            lemma_covered_iff(a, b[0].end as int);
            lemma_covered_iff(b, b[0].end as int);
            let k = choose|k: int| covers_at(b, k, b[0].end as int);
            if k > 0 {
                lemma_norm_order(b, 0, k);
            }
            assert(false);
        }
        assert(a[0] == b[0]);
        let ta = a.drop_first();
        let tb = b.drop_first();
        lemma_norm_drop_first(a);
        lemma_norm_drop_first(b);
        assert forall|x: int| covered(ta).contains(x) <==> covered(tb).contains(x) by {
            lemma_covered_iff(ta, x);
            lemma_covered_iff(tb, x);
            lemma_covered_iff(a, x);
            lemma_covered_iff(b, x);
            if covered(ta).contains(x) {
                let k = choose|k: int| covers_at(ta, k, x);
                assert(ta[k] == a[k + 1]);
                assert(covers_at(a, k + 1, x));
                lemma_norm_order(a, 0, k + 1);
                let m = choose|m: int| covers_at(b, m, x);
                assert(m > 0);
                assert(tb[m - 1] == b[m]);
                assert(covers_at(tb, m - 1, x));
            }
            if covered(tb).contains(x) {
                let k = choose|k: int| covers_at(tb, k, x);
                assert(tb[k] == b[k + 1]);
                assert(covers_at(b, k + 1, x));
                lemma_norm_order(b, 0, k + 1);
                let m = choose|m: int| covers_at(a, m, x);
                assert(m > 0);
                assert(ta[m - 1] == a[m]);
                assert(covers_at(ta, m - 1, x));
            }
        }
        assert(covered(ta) =~= covered(tb));
        lemma_normalized_canonical(ta, tb);
        assert forall|i: int| 0 <= i < a.len() implies a[i] == b[i] by {
            if i > 0 {
                assert(a[i] == ta[i - 1]);
                assert(b[i] == tb[i - 1]);
            }
        }
        assert(a =~= b);
    }
}

/// Invert correctness: a normalized progress set bounded by `total` and its
/// inversion partition `[0, total)` — together they cover all of it, and
/// they share no offset.
pub proof fn lemma_invert_partitions(p: Seq<ByteRange>, q: Seq<ByteRange>, total: u64)
    requires
        is_normalized(p),
        bounded_by(p, total),
        covered(q) == interval(total).difference(covered(p)),
    ensures
        covered(p).union(covered(q)) == interval(total),
        covered(p).intersect(covered(q)) == Set::<int>::empty(),
{
    lemma_covered_in_interval(p, total);
    assert(covered(p).union(covered(q)) =~= interval(total));
    assert(covered(p).intersect(covered(q)) =~= Set::<int>::empty());
}

/// Merge idempotence: merging the same range a second time changes nothing.
/// The hypotheses are exactly what `merge_progress` ensures of each step.
pub proof fn lemma_merge_idempotent(
    p: Seq<ByteRange>,
    r: ByteRange,
    once: Seq<ByteRange>,
    twice: Seq<ByteRange>,
)
    requires
        is_normalized(once),
        covered(once) == covered(p).union(range_set(r)),
        is_normalized(twice),
        covered(twice) == covered(once).union(range_set(r)),
    ensures
        twice == once,
{
    assert(covered(twice) =~= covered(once));
    lemma_normalized_canonical(twice, once);
}

/// Merge commutativity: merging two ranges in either order yields the same
/// normalized set. The hypotheses are exactly what `merge_progress` ensures
/// of each step.
pub proof fn lemma_merge_commutative(
    p: Seq<ByteRange>,
    r1: ByteRange,
    r2: ByteRange,
    first1: Seq<ByteRange>,
    then2: Seq<ByteRange>,
    first2: Seq<ByteRange>,
    then1: Seq<ByteRange>,
)
    requires
        covered(first1) == covered(p).union(range_set(r1)),
        is_normalized(then2),
        covered(then2) == covered(first1).union(range_set(r2)),
        covered(first2) == covered(p).union(range_set(r2)),
        is_normalized(then1),
        covered(then1) == covered(first2).union(range_set(r1)),
    ensures
        then2 == then1,
{
    assert(covered(then2) =~= covered(then1));
    lemma_normalized_canonical(then2, then1);
}

/// Progress monotonicity: a merge never loses covered offsets.
pub proof fn lemma_merge_monotone(p: Seq<ByteRange>, r: ByteRange, merged: Seq<ByteRange>)
    requires
        covered(merged) == covered(p).union(range_set(r)),
    ensures
        covered(p).subset_of(covered(merged)),
{
}

} // verus!
