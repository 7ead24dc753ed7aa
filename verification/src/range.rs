//! Half-open byte ranges, and what a set of them covers.

use vstd::prelude::*;
use vstd::set_lib::*;

verus! {

/// A half-open byte range `[start, end)`.
#[derive(Clone, Copy, PartialEq, Eq, Debug, Structural)]
pub struct ByteRange {
    /// First byte offset, inclusive.
    pub start: u64,
    /// End offset, exclusive.
    pub end: u64,
}

impl ByteRange {
    /// The number of bytes in the range: none when it is inverted.
    pub open spec fn size(self) -> nat {
        if self.start < self.end {
            (self.end - self.start) as nat
        } else {
            0
        }
    }

    /// Whether offset `p` lies in the range.
    pub open spec fn has_offset(self, p: int) -> bool {
        self.start <= p < self.end
    }

    /// The number of bytes in the range.
    pub fn len(&self) -> (n: u64)
        ensures
            n == self.size(),
    {
        self.end.saturating_sub(self.start)
    }

    /// Whether the range covers no bytes.
    pub fn is_empty(&self) -> (r: bool)
        ensures
            r == (self.size() == 0),
    {
        self.start >= self.end
    }
}

/// Whether some range covers offset `p`.
pub open spec fn covered(ranges: Seq<ByteRange>, p: int) -> bool {
    exists|i: int| 0 <= i < ranges.len() && #[trigger] ranges[i].has_offset(p)
}

/// Whether `a` and `b` cover the same offsets.
pub open spec fn same_cover(a: Seq<ByteRange>, b: Seq<ByteRange>) -> bool {
    forall|p: int| covered(a, p) == covered(b, p)
}

/// Whether every range holds at least one byte.
pub open spec fn all_nonempty(ranges: Seq<ByteRange>) -> bool {
    forall|i: int| 0 <= i < ranges.len() ==> (#[trigger] ranges[i]).start < ranges[i].end
}

/// Whether the ranges are non-empty and in order, with a gap of at least one byte between any two.
pub open spec fn separated(ranges: Seq<ByteRange>) -> bool {
    &&& all_nonempty(ranges)
    &&& forall|i: int, j: int|
        0 <= i < j < ranges.len() ==> (#[trigger] ranges[i]).end < (#[trigger] ranges[j]).start
}

/// Whether `m` is the shortest way to write what `ranges` cover: in order, nothing overlapping, nothing
/// touching.
pub open spec fn is_merge(m: Seq<ByteRange>, ranges: Seq<ByteRange>) -> bool {
    separated(m) && same_cover(m, ranges)
}

/// The shortest way to write what `ranges` cover.
pub open spec fn merged(ranges: Seq<ByteRange>) -> Seq<ByteRange> {
    choose|m: Seq<ByteRange>| is_merge(m, ranges)
}

/// The sizes of the ranges, summed.
pub open spec fn total_size(ranges: Seq<ByteRange>) -> nat
    decreases ranges.len(),
{
    if ranges.len() == 0 {
        0
    } else {
        total_size(ranges.drop_last()) + ranges.last().size()
    }
}

/// The offsets that `ranges` cover.
pub open spec fn cover_set(ranges: Seq<ByteRange>) -> Set<int> {
    Set::new(|p: int| covered(ranges, p))
}

/// Whether the ranges stand in the order of their starts.
pub open spec fn by_start(ranges: Seq<ByteRange>) -> bool {
    forall|i: int, j: int|
        0 <= i <= j < ranges.len() ==> (#[trigger] ranges[i]).start <= (#[trigger] ranges[j]).start
}

/// Whether the ranges tile `[start, end)`: contiguous, in order, each with at least one byte.
pub open spec fn tiles(ranges: Seq<ByteRange>, start: int, end: int) -> bool {
    &&& all_nonempty(ranges)
    &&& forall|i: int|
        0 <= i < ranges.len() ==> ranges[i].start == #[trigger] boundary(ranges, start, i)
    &&& boundary(ranges, start, ranges.len() as int) == end
}

/// Where range `i` has to start for the ranges to be contiguous from `start` on.
pub open spec fn boundary(ranges: Seq<ByteRange>, start: int, i: int) -> int {
    if i <= 0 {
        start
    } else {
        ranges[i - 1].end as int
    }
}

/// Two orderly ways to write the same cover agree on their first range.
proof fn lemma_separated_first(a: Seq<ByteRange>, b: Seq<ByteRange>)
    requires
        separated(a),
        separated(b),
        same_cover(a, b),
        a.len() > 0,
    ensures
        b.len() > 0,
        a[0] == b[0],
{
    let pa = a[0].start as int;
    assert(a[0].has_offset(pa));
    assert(covered(a, pa));
    assert(covered(b, pa));
    assert(b.len() > 0);
    let pb = b[0].start as int;
    assert(b[0].has_offset(pb));
    assert(covered(b, pb));
    assert(covered(a, pb));
    let i = choose|i: int| 0 <= i < b.len() && #[trigger] b[i].has_offset(pa);
    let j = choose|j: int| 0 <= j < a.len() && #[trigger] a[j].has_offset(pb);
    assert(b[0].start <= b[i].start) by {
        if i > 0 {
            assert(b[0].end < b[i].start);
        }
    }
    assert(a[0].start <= a[j].start) by {
        if j > 0 {
            assert(a[0].end < a[j].start);
        }
    }
    assert(a[0].start == b[0].start);
    lemma_first_end(a, b);
    assert(same_cover(b, a));
    lemma_first_end(b, a);
}

proof fn lemma_first_end(a: Seq<ByteRange>, b: Seq<ByteRange>)
    requires
        separated(a),
        separated(b),
        same_cover(a, b),
        a.len() > 0,
        b.len() > 0,
        a[0].start == b[0].start,
    ensures
        a[0].end <= b[0].end,
{
    if a[0].end > b[0].end {
        let p = b[0].end as int;
        assert(a[0].has_offset(p));
        assert(covered(a, p));
        assert(covered(b, p));
        let k = choose|k: int| 0 <= k < b.len() && #[trigger] b[k].has_offset(p);
        if k > 0 {
            assert(b[0].end < b[k].start);
        }
    }
}

/// A cover is written in order, without overlap or touch, in one way only.
pub proof fn lemma_merge_unique(a: Seq<ByteRange>, b: Seq<ByteRange>)
    requires
        separated(a),
        separated(b),
        same_cover(a, b),
    ensures
        a == b,
    decreases a.len(),
{
    if a.len() == 0 {
        if b.len() > 0 {
            assert(same_cover(b, a));
            lemma_separated_first(b, a);
        }
        assert(a =~= b);
    } else {
        lemma_separated_first(a, b);
        let ra = a.skip(1);
        let rb = b.skip(1);
        lemma_skip_separated(a);
        lemma_skip_separated(b);
        assert forall|p: int| covered(ra, p) == covered(rb, p) by {
            lemma_skip_cover(a, p);
            lemma_skip_cover(b, p);
        }
        lemma_merge_unique(ra, rb);
        assert(a =~= seq![a[0]] + ra);
        assert(b =~= seq![b[0]] + rb);
    }
}

proof fn lemma_skip_separated(a: Seq<ByteRange>)
    requires
        separated(a),
        a.len() > 0,
    ensures
        separated(a.skip(1)),
{
    let r = a.skip(1);
    assert forall|i: int| 0 <= i < r.len() implies (#[trigger] r[i]).start < r[i].end by {
        assert(r[i] == a[i + 1]);
    }
    assert forall|i: int, j: int| 0 <= i < j < r.len() implies (#[trigger] r[i]).end < (
    #[trigger] r[j]).start by {
        assert(r[i] == a[i + 1]);
        assert(r[j] == a[j + 1]);
    }
}

proof fn lemma_skip_cover(a: Seq<ByteRange>, p: int)
    requires
        separated(a),
        a.len() > 0,
    ensures
        covered(a.skip(1), p) == (covered(a, p) && !a[0].has_offset(p)),
{
    let r = a.skip(1);
    if covered(r, p) {
        let i = choose|i: int| 0 <= i < r.len() && #[trigger] r[i].has_offset(p);
        assert(r[i] == a[i + 1]);
        assert(a[i + 1].has_offset(p));
        assert(a[0].end < a[i + 1].start);
    }
    if covered(a, p) && !a[0].has_offset(p) {
        let i = choose|i: int| 0 <= i < a.len() && #[trigger] a[i].has_offset(p);
        assert(r[i - 1] == a[i]);
        assert(r[i - 1].has_offset(p));
    }
}

/// What any merge of `ranges` is.
pub proof fn lemma_merged_is(m: Seq<ByteRange>, ranges: Seq<ByteRange>)
    requires
        is_merge(m, ranges),
    ensures
        merged(ranges) == m,
{
    let c = merged(ranges);
    assert(is_merge(c, ranges));
    assert(same_cover(c, m));
    lemma_merge_unique(c, m);
}

/// A list of ranges that covers the same bytes merges to the same list.
pub proof fn law_merge_depends_on_cover(a: Seq<ByteRange>, b: Seq<ByteRange>)
    requires
        same_cover(a, b),
    ensures
        merged(a) == merged(b),
{
    assert forall|m: Seq<ByteRange>| is_merge(m, a) == is_merge(m, b) by {
        if same_cover(m, a) {
            assert(same_cover(m, b));
        }
        if same_cover(m, b) {
            assert(same_cover(m, a));
        }
    }
    let pa = |m: Seq<ByteRange>| is_merge(m, a);
    let pb = |m: Seq<ByteRange>| is_merge(m, b);
    assert(pa =~= pb);
    if exists|m: Seq<ByteRange>| is_merge(m, a) {
        let m = choose|m: Seq<ByteRange>| is_merge(m, a);
        lemma_merged_is(m, a);
        lemma_merged_is(m, b);
    } else {
        lemma_merge_exists(a);
    }
}

/// Every list of ranges has a merge.
pub proof fn lemma_merge_exists(ranges: Seq<ByteRange>)
    ensures
        exists|m: Seq<ByteRange>| is_merge(m, ranges),
    decreases ranges.len(),
{
    if ranges.len() == 0 {
        let m = Seq::<ByteRange>::empty();
        assert(is_merge(m, ranges));
    } else {
        lemma_merge_exists(ranges.drop_last());
        let m = choose|m: Seq<ByteRange>| is_merge(m, ranges.drop_last());
        lemma_merge_one(m, ranges.drop_last(), ranges.last());
        assert(ranges.drop_last().push(ranges.last()) =~= ranges);
    }
}

/// One more range can be merged into an orderly list.
proof fn lemma_merge_one(m: Seq<ByteRange>, ranges: Seq<ByteRange>, r: ByteRange)
    requires
        is_merge(m, ranges),
    ensures
        exists|n: Seq<ByteRange>| is_merge(n, ranges.push(r)),
    decreases m.len(),
{
    let all = ranges.push(r);
    lemma_push_cover(ranges, r);
    if r.start >= r.end {
        assert(same_cover(m, all)) by {
            assert forall|p: int| covered(m, p) == covered(all, p) by {
                assert(covered(m, p) == covered(ranges, p));
            }
        }
        assert(is_merge(m, all));
    } else if m.len() == 0 {
        let n = seq![r];
        assert(same_cover(n, all)) by {
            assert forall|p: int| covered(n, p) == covered(all, p) by {
                assert(covered(m, p) == covered(ranges, p));
                if r.has_offset(p) {
                    assert(n[0].has_offset(p));
                }
            }
        }
        assert(is_merge(n, all));
    } else {
        let last = m.last();
        let front = m.drop_last();
        assert(separated(front)) by {
            assert forall|i: int| 0 <= i < front.len() implies (#[trigger] front[i]).start
                < front[i].end by {
                assert(front[i] == m[i]);
            }
            assert forall|i: int, j: int| 0 <= i < j < front.len() implies (#[trigger] front[i]).end
                < (#[trigger] front[j]).start by {
                assert(front[i] == m[i] && front[j] == m[j]);
            }
        }
        assert(front.push(last) =~= m);
        lemma_push_cover(front, last);
        if last.end < r.start {
            let n = m.push(r);
            assert(separated(n)) by {
                assert forall|i: int, j: int| 0 <= i < j < n.len() implies (#[trigger] n[i]).end < (
                #[trigger] n[j]).start by {
                    if j == m.len() {
                        assert(n[i] == m[i]);
                        if i < m.len() - 1 {
                            assert(m[i].end < m[m.len() - 1].start);
                        }
                    } else {
                        assert(n[i] == m[i] && n[j] == m[j]);
                    }
                }
                assert forall|i: int| 0 <= i < n.len() implies (#[trigger] n[i]).start
                    < n[i].end by {
                    if i < m.len() {
                        assert(n[i] == m[i]);
                    }
                }
            }
            lemma_push_cover(m, r);
            assert(same_cover(n, all)) by {
                assert forall|p: int| covered(n, p) == covered(all, p) by {
                    assert(covered(m, p) == covered(ranges, p));
                }
            }
            assert(is_merge(n, all));
        } else if r.end < last.start {
            // The new range belongs before the last one: merge it into the rest, then put the last one
            // back, which it cannot reach.
            assert(is_merge(front, front));
            lemma_merge_one(front, front, r);
            let f = choose|n: Seq<ByteRange>| is_merge(n, front.push(r));
            lemma_push_cover(front, r);
            let n = f.push(last);
            lemma_push_cover(f, last);
            assert forall|i: int| 0 <= i < f.len() implies (#[trigger] f[i]).end < last.start by {
                let p = f[i].end - 1;
                assert(f[i].has_offset(p));
                assert(covered(f, p));
                assert(covered(front.push(r), p));
                if covered(front, p) {
                    let k = choose|k: int| 0 <= k < front.len() && #[trigger] front[k].has_offset(p);
                    assert(front[k] == m[k]);
                    assert(m[k].end < m[m.len() - 1].start);
                }
            }
            assert(separated(n)) by {
                assert forall|i: int, j: int| 0 <= i < j < n.len() implies (#[trigger] n[i]).end < (
                #[trigger] n[j]).start by {
                    assert(n[i] == f[i]);
                    if j < f.len() {
                        assert(n[j] == f[j]);
                    }
                }
                assert forall|i: int| 0 <= i < n.len() implies (#[trigger] n[i]).start
                    < n[i].end by {
                    if i < f.len() {
                        assert(n[i] == f[i]);
                    }
                }
            }
            assert(same_cover(n, all)) by {
                assert forall|p: int| covered(n, p) == covered(all, p) by {
                    assert(covered(m, p) == covered(ranges, p));
                    assert(covered(f, p) == covered(front.push(r), p));
                }
            }
            assert(is_merge(n, all));
        } else {
            // They meet: put their union in place of the last one.
            let both = ByteRange {
                start: if last.start <= r.start { last.start } else { r.start },
                end: if last.end <= r.end { r.end } else { last.end },
            };
            assert(is_merge(front, front));
            lemma_merge_one(front, front, both);
            let n = choose|n: Seq<ByteRange>| is_merge(n, front.push(both));
            lemma_push_cover(front, both);
            assert(same_cover(n, all)) by {
                assert forall|p: int| covered(n, p) == covered(all, p) by {
                    assert(covered(m, p) == covered(ranges, p));
                    assert(covered(n, p) == covered(front.push(both), p));
                    assert(both.has_offset(p) == (last.has_offset(p) || r.has_offset(p)));
                }
            }
            assert(is_merge(n, all));
        }
    }
}

pub proof fn lemma_push_cover(ranges: Seq<ByteRange>, r: ByteRange)
    ensures
        forall|p: int|
            #![trigger covered(ranges.push(r), p)]
            covered(ranges.push(r), p) == (covered(ranges, p) || r.has_offset(p)),
{
    let all = ranges.push(r);
    assert forall|p: int| #![trigger covered(all, p)] covered(all, p) == (covered(ranges, p)
        || r.has_offset(p)) by {
        if covered(all, p) {
            let i = choose|i: int| 0 <= i < all.len() && #[trigger] all[i].has_offset(p);
            if i < ranges.len() {
                assert(ranges[i].has_offset(p));
            }
        }
        if covered(ranges, p) {
            let i = choose|i: int| 0 <= i < ranges.len() && #[trigger] ranges[i].has_offset(p);
            assert(all[i].has_offset(p));
        }
        if r.has_offset(p) {
            assert(all[ranges.len() as int].has_offset(p));
        }
    }
}

/// Sort `ranges` by their starts.
fn sort_by_start(ranges: Vec<ByteRange>) -> (out: Vec<ByteRange>)
    ensures
        by_start(out@),
        same_cover(out@, ranges@),
        all_nonempty(ranges@) ==> all_nonempty(out@),
{
    let mut out: Vec<ByteRange> = Vec::new();
    let mut i: usize = 0;
    assert(same_cover(out@, ranges@.take(0)));
    while i < ranges.len()
        invariant
            i <= ranges.len(),
            by_start(out@),
            same_cover(out@, ranges@.take(i as int)),
            all_nonempty(ranges@) ==> all_nonempty(out@),
        decreases ranges.len() - i,
    {
        let range = ranges[i];
        let mut at: usize = out.len();
        while at > 0 && out[at - 1].start > range.start
            invariant
                at <= out.len(),
                forall|j: int| at <= j < out.len() ==> (#[trigger] out@[j]).start > range.start,
            decreases at,
        {
            at -= 1;
        }
        let ghost old_out = out@;
        out.insert(at, range);
        proof {
            assert(out@ =~= old_out.insert(at as int, range));
            assert forall|j: int, k: int| 0 <= j <= k < out.len() implies (#[trigger] out@[j]).start
                <= (#[trigger] out@[k]).start by {
                let oj = if j < at { j } else { j - 1 };
                let ok = if k < at { k } else { k - 1 };
                if j != at {
                    assert(out@[j] == old_out[oj]);
                }
                if k != at {
                    assert(out@[k] == old_out[ok]);
                }
                if at > 0 {
                    assert(old_out[at - 1].start <= range.start);
                }
                if j < at && k == at {
                    assert(old_out[j].start <= old_out[at - 1].start);
                }
            }
            if all_nonempty(ranges@) {
                assert forall|j: int| 0 <= j < out.len() implies (#[trigger] out@[j]).start
                    < out@[j].end by {
                    if j < at {
                        assert(out@[j] == old_out[j]);
                    } else if j > at {
                        assert(out@[j] == old_out[j - 1]);
                    } else {
                        assert(out@[j] == ranges@[i as int]);
                    }
                }
            }
            assert(ranges@.take(i + 1) =~= ranges@.take(i as int).push(range));
            lemma_push_cover(ranges@.take(i as int), range);
            assert forall|p: int| covered(out@, p) == covered(ranges@.take(i + 1), p) by {
                assert(covered(old_out, p) == covered(ranges@.take(i as int), p));
                if covered(out@, p) {
                    let j = choose|j: int| 0 <= j < out.len() && #[trigger] out@[j].has_offset(p);
                    if j < at {
                        assert(old_out[j].has_offset(p));
                    } else if j > at {
                        assert(old_out[j - 1].has_offset(p));
                    }
                }
                if covered(old_out, p) {
                    let j = choose|j: int| 0 <= j < old_out.len() && #[trigger] old_out[j].has_offset(p);
                    if j < at {
                        assert(out@[j].has_offset(p));
                    } else {
                        assert(out@[j + 1].has_offset(p));
                    }
                }
                if range.has_offset(p) {
                    assert(out@[at as int].has_offset(p));
                }
            }
        }
        i += 1;
    }
    assert(ranges@.take(i as int) =~= ranges@);
    out
}

/// Sort and coalesce non-empty ranges, so that the result is in order, without overlap, and with a gap
/// between any two.
pub fn merge_ranges(ranges: Vec<ByteRange>) -> (out: Vec<ByteRange>)
    requires
        all_nonempty(ranges@),
    ensures
        out@ == merged(ranges@),
        is_merge(out@, ranges@),
{
    let ghost input = ranges@;
    let sorted = sort_by_start(ranges);
    let mut out: Vec<ByteRange> = Vec::new();
    let mut i: usize = 0;
    while i < sorted.len()
        invariant
            i <= sorted.len(),
            by_start(sorted@),
            all_nonempty(sorted@),
            separated(out@),
            same_cover(out@, sorted@.take(i as int)),
            out@.len() > 0 && i < sorted.len() ==> out@.last().start <= sorted@[i as int].start,
            i > 0 ==> out@.len() > 0,
        decreases sorted.len() - i,
    {
        let range = sorted[i];
        let ghost old_out = out@;
        let ghost seen = sorted@.take(i as int);
        proof {
            assert(sorted@.take(i + 1) =~= seen.push(range));
            lemma_push_cover(seen, range);
        }
        let n = out.len();
        if n > 0 && range.start <= out[n - 1].end {
            let last = out[n - 1];
            let end = if range.end > last.end {
                range.end
            } else {
                last.end
            };
            let both = ByteRange { start: last.start, end };
            out.set(n - 1, both);
            proof {
                let front = old_out.drop_last();
                assert(old_out =~= front.push(last));
                assert(out@ =~= front.push(both));
                lemma_push_cover(front, last);
                lemma_push_cover(front, both);
                assert forall|p: int| covered(out@, p) == covered(sorted@.take(i + 1), p) by {
                    assert(covered(old_out, p) == covered(seen, p));
                    assert(both.has_offset(p) == (last.has_offset(p) || range.has_offset(p)));
                }
                assert forall|j: int, k: int| 0 <= j < k < out.len() implies (#[trigger] out@[j]).end
                    < (#[trigger] out@[k]).start by {
                    assert(old_out[j].end < old_out[k].start);
                }
                assert forall|j: int| 0 <= j < out.len() implies (#[trigger] out@[j]).start
                    < out@[j].end by {
                    assert(old_out[j].start < old_out[j].end);
                }
            }
        } else {
            out.push(range);
            proof {
                lemma_push_cover(old_out, range);
                assert forall|p: int| covered(out@, p) == covered(sorted@.take(i + 1), p) by {
                    assert(covered(old_out, p) == covered(seen, p));
                }
                assert forall|j: int, k: int| 0 <= j < k < out.len() implies (#[trigger] out@[j]).end
                    < (#[trigger] out@[k]).start by {
                    if k == old_out.len() {
                        if j < old_out.len() - 1 {
                            assert(old_out[j].end < old_out[old_out.len() - 1].start);
                        }
                    } else {
                        assert(old_out[j].end < old_out[k].start);
                    }
                }
                assert forall|j: int| 0 <= j < out.len() implies (#[trigger] out@[j]).start
                    < out@[j].end by {
                    if j < old_out.len() {
                        assert(old_out[j].start < old_out[j].end);
                    } else {
                        assert(out@[j] == sorted@[i as int]);
                    }
                }
            }
        }
        i += 1;
        proof {
            if i < sorted.len() {
                assert(sorted@[i - 1].start <= sorted@[i as int].start);
            }
        }
    }
    proof {
        assert(sorted@.take(i as int) =~= sorted@);
        assert(same_cover(out@, input));
        lemma_merged_is(out@, input);
    }
    out
}

/// The ranges of a list, each cut off at `total`.
pub open spec fn clamped(ranges: Seq<ByteRange>, total: u64) -> Seq<ByteRange> {
    Seq::new(ranges.len(), |i: int| clamp(ranges[i], total))
}

/// A range cut off at `total`.
pub open spec fn clamp(r: ByteRange, total: u64) -> ByteRange {
    ByteRange {
        start: if r.start <= total { r.start } else { total },
        end: if r.end <= total { r.end } else { total },
    }
}

/// The sum of the sizes of orderly ranges is the number of bytes they cover.
pub proof fn lemma_total_size_is_count(m: Seq<ByteRange>)
    requires
        separated(m),
    ensures
        cover_set(m).finite(),
        cover_set(m).len() == total_size(m),
    decreases m.len(),
{
    if m.len() == 0 {
        assert(cover_set(m) =~= Set::<int>::empty());
    } else {
        let front = m.drop_last();
        let last = m.last();
        lemma_drop_last_separated(m);
        lemma_total_size_is_count(front);
        assert(front.push(last) =~= m);
        lemma_push_cover(front, last);
        let r = set_int_range(last.start as int, last.end as int);
        lemma_int_range(last.start as int, last.end as int);
        assert(cover_set(m) =~= cover_set(front) + r);
        assert(cover_set(front).disjoint(r)) by {
            assert forall|p: int| cover_set(front).contains(p) implies !r.contains(p) by {
                let i = choose|i: int| 0 <= i < front.len() && #[trigger] front[i].has_offset(p);
                assert(front[i] == m[i]);
                assert(m[i].end < m[m.len() - 1].start);
            }
        }
        lemma_set_disjoint_lens(cover_set(front), r);
    }
}

pub proof fn lemma_drop_last_separated(m: Seq<ByteRange>)
    requires
        separated(m),
        m.len() > 0,
    ensures
        separated(m.drop_last()),
{
    let front = m.drop_last();
    assert forall|i: int| 0 <= i < front.len() implies (#[trigger] front[i]).start
        < front[i].end by {
        assert(front[i] == m[i]);
    }
    assert forall|i: int, j: int| 0 <= i < j < front.len() implies (#[trigger] front[i]).end < (
    #[trigger] front[j]).start by {
        assert(front[i] == m[i] && front[j] == m[j]);
    }
}

/// Orderly ranges hold no more bytes than the place they end at.
pub proof fn lemma_total_size_bound(m: Seq<ByteRange>)
    requires
        separated(m),
        m.len() > 0,
    ensures
        total_size(m) <= m.last().end - m[0].start,
    decreases m.len(),
{
    let front = m.drop_last();
    if front.len() > 0 {
        lemma_drop_last_separated(m);
        lemma_total_size_bound(front);
        assert(front.last() == m[m.len() - 2]);
        assert(m[m.len() - 2].end < m[m.len() - 1].start);
    } else {
        assert(total_size(front) == 0);
    }
}

/// The sizes of the ranges, summed.
pub(crate) fn sum_of_sizes(m: &Vec<ByteRange>) -> (n: u64)
    requires
        separated(m@),
    ensures
        n == total_size(m@),
{
    let mut n: u64 = 0;
    let mut i: usize = 0;
    while i < m.len()
        invariant
            i <= m.len(),
            separated(m@),
            n == total_size(m@.take(i as int)),
            separated(m@.take(i as int)),
        decreases m.len() - i,
    {
        let ghost next = m@.take(i + 1);
        proof {
            assert(next.drop_last() =~= m@.take(i as int));
            assert(next.last() == m@[i as int]);
            assert forall|j: int, k: int| 0 <= j < k < next.len() implies (#[trigger] next[j]).end < (
            #[trigger] next[k]).start by {
                assert(m@[j].end < m@[k].start);
            }
            assert forall|j: int| 0 <= j < next.len() implies (#[trigger] next[j]).start
                < next[j].end by {
                assert(m@[j].start < m@[j].end);
            }
            lemma_total_size_bound(next);
        }
        n = n + m[i].len();
        i += 1;
    }
    assert(m@.take(i as int) =~= m@);
    n
}

/// The number of distinct bytes covered by `ranges`: a byte that two ranges hold (a checkpoint, then a
/// completion) counts once.
pub fn union_len(ranges: &[ByteRange]) -> (n: u64)
    ensures
        cover_set(ranges@).finite(),
        n == cover_set(ranges@).len(),
        n == total_size(merged(ranges@)),
{
    let mut kept: Vec<ByteRange> = Vec::new();
    let mut i: usize = 0;
    assert(same_cover(kept@, ranges@.take(0)));
    while i < ranges.len()
        invariant
            i <= ranges.len(),
            all_nonempty(kept@),
            same_cover(kept@, ranges@.take(i as int)),
        decreases ranges.len() - i,
    {
        let range = ranges[i];
        let ghost old_kept = kept@;
        if !range.is_empty() {
            kept.push(range);
        }
        proof {
            assert(ranges@.take(i + 1) =~= ranges@.take(i as int).push(range));
            lemma_push_cover(ranges@.take(i as int), range);
            lemma_push_cover(old_kept, range);
            assert forall|p: int| covered(kept@, p) == covered(ranges@.take(i + 1), p) by {
                assert(covered(old_kept, p) == covered(ranges@.take(i as int), p));
            }
        }
        i += 1;
    }
    assert(ranges@.take(i as int) =~= ranges@);
    let ghost kept_view = kept@;
    let m = merge_ranges(kept);
    proof {
        assert(same_cover(m@, ranges@)) by {
            assert forall|p: int| covered(m@, p) == covered(ranges@, p) by {
                assert(covered(m@, p) == covered(kept_view, p));
            }
        }
        lemma_merged_is(m@, ranges@);
        lemma_total_size_is_count(m@);
        assert(cover_set(m@) =~= cover_set(ranges@));
    }
    sum_of_sizes(&m)
}

} // verus!
