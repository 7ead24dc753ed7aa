//! Planning a resource into contiguous byte-range chunks to fetch in parallel.

use crate::range;
use crate::range::merge_ranges;
use crate::range::sum_of_sizes;
use crate::range::ByteRange;
use vstd::arithmetic::div_mod::*;
use vstd::arithmetic::mul::*;
use vstd::prelude::*;

verus! {

/// How many chunks `length` bytes are cut into: at least one, and at most one per byte.
pub open spec fn chunk_count(length: nat, parts: nat) -> nat {
    if length == 0 {
        0
    } else {
        let wanted = if parts == 0 {
            1
        } else {
            parts
        };
        if wanted <= length {
            wanted
        } else {
            length
        }
    }
}

/// Where chunk `i` of `n` starts, counted from the first byte: every chunk has `length / n` bytes, and the
/// first `length % n` chunks one more.
pub open spec fn chunk_start(length: nat, n: nat, i: int) -> int {
    let extra = length % n;
    i * (length / n) + if i <= extra {
        i
    } else {
        extra as int
    }
}

/// The chunks that `[start, end)` is cut into.
pub open spec fn even_chunks(start: u64, end: u64, parts: nat) -> Seq<ByteRange> {
    let length = ByteRange { start, end }.size();
    let n = chunk_count(length, parts);
    Seq::new(
        n,
        |i: int|
            ByteRange {
                start: (start + chunk_start(length, n, i)) as u64,
                end: (start + chunk_start(length, n, i + 1)) as u64,
            },
    )
}

/// How many of `parts` chunks a gap of `length` bytes gets out of `missing`: its share, rounded to the
/// nearest, and at least one.
pub open spec fn share(parts: nat, length: nat, missing: nat) -> nat {
    let scaled = if missing == 0 {
        1
    } else {
        (parts * length + missing / 2) / missing
    };
    if scaled == 0 {
        1
    } else if scaled > u32::MAX {
        u32::MAX as nat
    } else {
        scaled
    }
}

/// The chunks of a gap `[start, end)` between bytes that are already there.
pub open spec fn gap_chunks(start: u64, end: u64, parts: nat, missing: nat) -> Seq<ByteRange> {
    if start < end {
        even_chunks(start, end, share(parts, (end - start) as nat, missing))
    } else {
        Seq::empty()
    }
}

/// Where the bytes of the first `k` done ranges end.
pub open spec fn done_end(done: Seq<ByteRange>, k: int) -> u64 {
    if k <= 0 {
        0
    } else {
        done[k - 1].end
    }
}

/// The chunks up to the end of the first `k` done ranges: each done range is a chunk of its own, and each
/// gap before one is cut up.
pub open spec fn done_chunks(done: Seq<ByteRange>, k: int, parts: nat, missing: nat) -> Seq<ByteRange>
    decreases k,
{
    if k <= 0 {
        Seq::empty()
    } else {
        (done_chunks(done, k - 1, parts, missing) + gap_chunks(
            done_end(done, k - 1),
            done[k - 1].start,
            parts,
            missing,
        )).push(done[k - 1])
    }
}

/// What is already there of a resource of `total` bytes, written in order.
pub open spec fn present(total: u64, done: Seq<ByteRange>) -> Seq<ByteRange> {
    range::merged(range::clamped(done, total))
}

/// The number of bytes that are not there yet.
pub open spec fn missing(total: u64, done: Seq<ByteRange>) -> nat {
    (total - range::total_size(present(total, done))) as nat
}

/// The chunks of a resumed download.
pub open spec fn resume_chunks(total: u64, parts: nat, done: Seq<ByteRange>) -> Seq<ByteRange> {
    let there = present(total, done);
    let n = there.len() as int;
    done_chunks(there, n, parts, missing(total, done)) + gap_chunks(
        done_end(there, n),
        total,
        parts,
        missing(total, done),
    )
}

/// The indices of the chunks that need no fetching.
pub open spec fn resume_completed(total: u64, parts: nat, done: Seq<ByteRange>) -> Seq<usize> {
    let there = present(total, done);
    Seq::new(
        there.len(),
        |k: int| (done_chunks(there, k + 1, parts, missing(total, done)).len() - 1) as usize,
    )
}

/// Chunk boundaries run from the first byte to the last, each chunk `length / n` bytes or one more.
proof fn lemma_chunk_start(length: nat, n: nat, i: int)
    requires
        0 < n <= length,
        0 <= i <= n,
    ensures
        chunk_start(length, n, 0) == 0,
        chunk_start(length, n, n as int) == length,
        0 <= chunk_start(length, n, i) <= length,
        i < n ==> chunk_start(length, n, i + 1) - chunk_start(length, n, i) == length / n + (if i
            < length % n {
            1int
        } else {
            0int
        }),
        length / n >= 1,
{
    let base = (length / n) as int;
    let extra = (length % n) as int;
    lemma_fundamental_div_mod(length as int, n as int);
    assert(length == n * base + extra);
    lemma_mod_bound(length as int, n as int);
    assert(base >= 1) by (nonlinear_arith)
        requires
            length == n * base + extra,
            n <= length,
            0 <= extra < n,
            n > 0,
    ;
    assert(n * base >= i * base && i * base >= 0) by (nonlinear_arith)
        requires
            0 <= i <= n,
            base >= 1,
    ;
    assert((i + 1) * base == i * base + base) by (nonlinear_arith);
    assert(0 * base == 0);
    if i > extra {
    } else {
        assert(i <= extra);
    }
}

/// Tile `[start, end)` into up to `parts` contiguous chunks. Sizes differ by at most one byte, the earliest
/// chunks taking the remainder. `parts` is clamped to at least one and at most the number of bytes, so
/// every chunk covers at least one byte. An empty or inverted range plans to no chunks.
#[must_use]
pub fn plan_range(start: u64, end: u64, parts: u32) -> (ranges: Vec<ByteRange>)
    ensures
        ranges@ == even_chunks(start, end, parts as nat),
{
    let length = end.saturating_sub(start);
    let mut ranges: Vec<ByteRange> = Vec::new();
    if length == 0 {
        assert(ranges@ =~= even_chunks(start, end, parts as nat));
        return ranges;
    }
    let wanted: u64 = if parts == 0 {
        1
    } else {
        parts as u64
    };
    let n: u64 = if wanted <= length {
        wanted
    } else {
        length
    };
    let base = length / n;
    let extra = length % n;
    let mut offset = start;
    let mut index: u64 = 0;
    proof {
        lemma_chunk_start(length as nat, n as nat, 0);
    }
    while index < n
        invariant
            index <= n,
            0 < n <= length,
            start < end,
            length == end - start,
            n == chunk_count(length as nat, parts as nat),
            base == length / n,
            extra == length % n,
            offset == start + chunk_start(length as nat, n as nat, index as int),
            ranges@.len() == index,
            forall|i: int|
                0 <= i < index ==> #[trigger] ranges@[i] == even_chunks(start, end, parts as nat)[i],
        decreases n - index,
    {
        proof {
            lemma_chunk_start(length as nat, n as nat, index as int);
            lemma_chunk_start(length as nat, n as nat, index + 1);
        }
        let size: u64 = base + if index < extra {
            1
        } else {
            0
        };
        ranges.push(ByteRange { start: offset, end: offset + size });
        offset = offset + size;
        index += 1;
    }
    assert(ranges@ =~= even_chunks(start, end, parts as nat));
    ranges
}

/// Divide a resource of `length` bytes into up to `parts` contiguous, non-overlapping chunks that tile
/// `[0, length)` exactly. A zero-length resource plans to no chunks.
#[must_use]
pub fn plan(length: u64, parts: u32) -> (ranges: Vec<ByteRange>)
    ensures
        ranges@ == even_chunks(0, length, parts as nat),
{
    plan_range(0, length, parts)
}

/// Append the chunks of a missing gap `[start, end)` to `ranges`.
fn push_gap(ranges: &mut Vec<ByteRange>, start: u64, end: u64, parts: u32, missing: u64)
    requires
        start < end,
    ensures
        final(ranges)@ == old(ranges)@ + gap_chunks(start, end, parts as nat, missing as nat),
{
    let length = end - start;
    let scaled: u128 = if missing == 0 {
        1
    } else {
        assert(parts * length <= 0xffff_ffff * 0xffff_ffff_ffff_ffff) by (nonlinear_arith)
            requires
                0 <= parts <= 0xffff_ffff,
                0 <= length <= 0xffff_ffff_ffff_ffff,
        ;
        ((parts as u128) * (length as u128) + (missing as u128) / 2) / (missing as u128)
    };
    let count: u32 = if scaled == 0 {
        1
    } else if scaled > 0xffff_ffff {
        0xffff_ffff
    } else {
        scaled as u32
    };
    assert(count == share(parts as nat, length as nat, missing as nat));
    let mut chunks = plan_range(start, end, count);
    ranges.append(&mut chunks);
}

/// What is already there lies within the resource.
proof fn lemma_present(total: u64, done: Seq<ByteRange>)
    ensures
        range::is_merge(present(total, done), range::clamped(done, total)),
        forall|k: int|
            0 <= k < present(total, done).len() ==> (#[trigger] present(total, done)[k]).end <= total,
        range::total_size(present(total, done)) <= total,
{
    let cut = range::clamped(done, total);
    let there = present(total, done);
    range::lemma_merge_exists(cut);
    assert forall|k: int| 0 <= k < there.len() implies (#[trigger] there[k]).end <= total by {
        let p = there[k].end - 1;
        assert(there[k].has_offset(p));
        assert(range::covered(there, p));
        assert(range::covered(cut, p));
    }
    if there.len() > 0 {
        range::lemma_total_size_bound(there);
        assert(there[there.len() - 1].end <= total);
    }
}

/// Plan a resume: tile `[0, total)` into contiguous chunks that align to the byte ranges already on disk,
/// so no chunk ever straddles a done/missing boundary. Each already-done range passes through as its own
/// chunk (its index is returned in the second field), and the gaps between them are split toward `parts`
/// chunks in proportion to their size, at least one chunk per gap. `done` ranges may be unsorted,
/// overlapping, adjacent, or reach past `total`: they are clamped and merged first.
#[must_use]
pub fn plan_resume(total: u64, parts: u32, done: &[ByteRange]) -> (planned: (
    Vec<ByteRange>,
    Vec<usize>,
))
    ensures
        planned.0@ == resume_chunks(total, parts as nat, done@),
        planned.1@ == resume_completed(total, parts as nat, done@),
        planned.1@.len() == present(total, done@).len(),
        forall|k: int|
            0 <= k < planned.1@.len() ==> (#[trigger] planned.1@[k]) < planned.0@.len()
                && planned.0@[planned.1@[k] as int] == present(total, done@)[k],
{
    let mut kept: Vec<ByteRange> = Vec::new();
    let mut i: usize = 0;
    let ghost cut = range::clamped(done@, total);
    assert(range::same_cover(kept@, cut.take(0)));
    while i < done.len()
        invariant
            i <= done.len(),
            cut == range::clamped(done@, total),
            range::all_nonempty(kept@),
            range::same_cover(kept@, cut.take(i as int)),
        decreases done.len() - i,
    {
        let start = if done[i].start <= total {
            done[i].start
        } else {
            total
        };
        let end = if done[i].end <= total {
            done[i].end
        } else {
            total
        };
        let range = ByteRange { start, end };
        let ghost old_kept = kept@;
        if range.start < range.end {
            kept.push(range);
        }
        proof {
            assert(cut.take(i + 1) =~= cut.take(i as int).push(range));
            range::lemma_push_cover(cut.take(i as int), range);
            range::lemma_push_cover(old_kept, range);
            assert forall|p: int| range::covered(kept@, p) == range::covered(cut.take(i + 1), p) by {
                assert(range::covered(old_kept, p) == range::covered(cut.take(i as int), p));
            }
        }
        i += 1;
    }
    assert(cut.take(i as int) =~= cut);
    let ghost kept_view = kept@;
    let there = merge_ranges(kept);
    proof {
        assert(range::same_cover(there@, cut)) by {
            assert forall|p: int| range::covered(there@, p) == range::covered(cut, p) by {
                assert(range::covered(there@, p) == range::covered(kept_view, p));
            }
        }
        range::lemma_merged_is(there@, cut);
        lemma_present(total, done@);
    }
    let absent = total - sum_of_sizes(&there);

    let mut ranges: Vec<ByteRange> = Vec::new();
    let mut completed: Vec<usize> = Vec::new();
    let mut cursor: u64 = 0;
    let mut k: usize = 0;
    while k < there.len()
        invariant
            k <= there.len(),
            there@ == present(total, done@),
            absent == missing(total, done@),
            cursor == done_end(there@, k as int),
            ranges@ == done_chunks(there@, k as int, parts as nat, absent as nat),
            completed@.len() == k,
            forall|j: int|
                0 <= j < k ==> (#[trigger] completed@[j]) < ranges@.len()
                    && completed@[j] == resume_completed(total, parts as nat, done@)[j]
                    && ranges@[completed@[j] as int] == there@[j],
        decreases there.len() - k,
    {
        let range = there[k];
        let ghost before = ranges@;
        if cursor < range.start {
            push_gap(&mut ranges, cursor, range.start, parts, absent);
        }
        ranges.push(range);
        completed.push(ranges.len() - 1);
        cursor = range.end;
        proof {
            assert(ranges@ =~= done_chunks(there@, k + 1, parts as nat, absent as nat));
            assert forall|j: int| 0 <= j < k + 1 implies (#[trigger] completed@[j]) < ranges@.len()
                && completed@[j] == resume_completed(total, parts as nat, done@)[j]
                && ranges@[completed@[j] as int] == there@[j] by {
                if j < k {
                    assert(ranges@[completed@[j] as int] == before[completed@[j] as int]);
                }
            }
        }
        k += 1;
    }
    let ghost body = ranges@;
    if cursor < total {
        push_gap(&mut ranges, cursor, total, parts, absent);
    }
    proof {
        assert(ranges@ =~= resume_chunks(total, parts as nat, done@));
        assert(completed@ =~= resume_completed(total, parts as nat, done@));
    }
    (ranges, completed)
}

/// The chunks of `[start, end)` tile it: contiguous, in order, none of them empty, from the first byte to
/// the last. They are as many as asked for, but for at least one and at most one per byte. Their sizes
/// differ by at most one byte, and no chunk is larger than an earlier one.
pub proof fn law_plan_tiles(start: u64, end: u64, parts: nat)
    requires
        start <= end,
    ensures
        range::tiles(even_chunks(start, end, parts), start as int, end as int),
        even_chunks(start, end, parts).len() == chunk_count((end - start) as nat, parts),
        forall|i: int, j: int|
            0 <= i <= j < even_chunks(start, end, parts).len() ==> (#[trigger] even_chunks(
                start,
                end,
                parts,
            )[j]).size() <= (#[trigger] even_chunks(start, end, parts)[i]).size() <= even_chunks(
                start,
                end,
                parts,
            )[j].size() + 1,
{
    let length = (end - start) as nat;
    let n = chunk_count(length, parts);
    let chunks = even_chunks(start, end, parts);
    if n > 0 {
        assert forall|i: int| 0 <= i < n implies (#[trigger] chunks[i]).start == start + chunk_start(
            length,
            n,
            i,
        ) && chunks[i].end == start + chunk_start(length, n, i + 1) && chunks[i].start < chunks[i].end
            && chunks[i].size() == length / n + (if i < length % n {
            1int
        } else {
            0int
        }) by {
            lemma_chunk_start(length, n, i);
            lemma_chunk_start(length, n, i + 1);
        }
        lemma_chunk_start(length, n, 0);
        assert forall|i: int| 0 <= i < n implies (#[trigger] chunks[i]).start == range::boundary(
            chunks,
            start as int,
            i,
        ) by {
            if i > 0 {
                assert(chunks[i - 1].end == start + chunk_start(length, n, i));
            }
        }
        assert(chunks[n - 1].end == start + chunk_start(length, n, n as int));
    }
}

/// Two tilings that meet tile the whole.
proof fn lemma_tiles_concat(a: Seq<ByteRange>, b: Seq<ByteRange>, start: int, mid: int, end: int)
    requires
        range::tiles(a, start, mid),
        range::tiles(b, mid, end),
    ensures
        range::tiles(a + b, start, end),
{
    let c = a + b;
    assert forall|i: int| 0 <= i < c.len() implies (#[trigger] c[i]).start < c[i].end && c[i].start
        == range::boundary(c, start, i) by {
        if i < a.len() {
            assert(c[i] == a[i]);
            assert(a[i].start == range::boundary(a, start, i));
            if i > 0 {
                assert(c[i - 1] == a[i - 1]);
            }
        } else {
            assert(c[i] == b[i - a.len()]);
            assert(b[i - a.len()].start == range::boundary(b, mid, i - a.len()));
            if i > a.len() {
                assert(c[i - 1] == b[i - a.len() - 1]);
            } else if i > 0 {
                assert(c[i - 1] == a[i - 1]);
            }
        }
    }
    if b.len() > 0 {
        assert(c[c.len() - 1] == b[b.len() - 1]);
    } else if a.len() > 0 {
        assert(c[c.len() - 1] == a[a.len() - 1]);
    }
}

proof fn lemma_gap_tiles(start: u64, end: u64, parts: nat, missing: nat)
    requires
        start <= end,
    ensures
        range::tiles(gap_chunks(start, end, parts, missing), start as int, end as int),
        start < end ==> gap_chunks(start, end, parts, missing).len() >= 1,
{
    if start < end {
        law_plan_tiles(start, end, share(parts, (end - start) as nat, missing));
    }
}

proof fn lemma_done_tiles(done: Seq<ByteRange>, k: int, parts: nat, missing: nat)
    requires
        range::separated(done),
        0 <= k <= done.len(),
    ensures
        range::tiles(done_chunks(done, k, parts, missing), 0, done_end(done, k) as int),
        k > 0 ==> done_chunks(done, k, parts, missing).last() == done[k - 1],
    decreases k,
{
    if k > 0 {
        lemma_done_tiles(done, k - 1, parts, missing);
        let from = done_end(done, k - 1);
        if k > 1 {
            assert(done[k - 2].end < done[k - 1].start);
        }
        lemma_gap_tiles(from, done[k - 1].start, parts, missing);
        let front = done_chunks(done, k - 1, parts, missing);
        let gap = gap_chunks(from, done[k - 1].start, parts, missing);
        lemma_tiles_concat(front, gap, 0, from as int, done[k - 1].start as int);
        let one = seq![done[k - 1]];
        assert(range::tiles(one, done[k - 1].start as int, done[k - 1].end as int)) by {
            assert(done[k - 1].start < done[k - 1].end);
        }
        lemma_tiles_concat(front + gap, one, 0, done[k - 1].start as int, done[k - 1].end as int);
        assert((front + gap).push(done[k - 1]) =~= (front + gap) + one);
    }
}

/// A resumed plan tiles `[0, total)` exactly and in order, whatever was recorded as done: unsorted,
/// overlapping, adjacent or past the end.
pub proof fn law_resume_tiles(total: u64, parts: nat, done: Seq<ByteRange>)
    ensures
        range::tiles(resume_chunks(total, parts, done), 0, total as int),
{
    lemma_present(total, done);
    let there = present(total, done);
    let n = there.len() as int;
    let absent = missing(total, done);
    lemma_done_tiles(there, n, parts, absent);
    if n > 0 {
        assert(there[n - 1].end <= total);
    }
    lemma_gap_tiles(done_end(there, n), total, parts, absent);
    lemma_tiles_concat(
        done_chunks(there, n, parts, absent),
        gap_chunks(done_end(there, n), total, parts, absent),
        0,
        done_end(there, n) as int,
        total as int,
    );
}

/// Where chunks tile, chunk `j` starts no earlier than an earlier chunk ends.
pub proof fn lemma_tiles_ordered(chunks: Seq<ByteRange>, start: int, end: int, i: int, j: int)
    requires
        range::tiles(chunks, start, end),
        0 <= i < j < chunks.len(),
    ensures
        chunks[i].end <= chunks[j].start,
    decreases j - i,
{
    assert(chunks[j].start == range::boundary(chunks, start, j));
    if i < j - 1 {
        lemma_tiles_ordered(chunks, start, end, i, j - 1);
        assert(chunks[j - 1].start < chunks[j - 1].end);
    }
}

/// Every offset within a tiling lies in one of its chunks.
pub proof fn lemma_tiles_cover(chunks: Seq<ByteRange>, start: int, end: int, p: int)
    requires
        range::tiles(chunks, start, end),
        start <= p < end,
    ensures
        range::covered(chunks, p),
    decreases chunks.len(),
{
    if chunks.len() > 0 {
        let n = chunks.len() - 1;
        let last = chunks[n];
        if p >= last.start {
            assert(chunks[n].has_offset(p));
        } else {
            let front = chunks.drop_last();
            assert(last.start == range::boundary(chunks, start, n));
            assert(range::tiles(front, start, last.start as int)) by {
                assert forall|i: int| 0 <= i < front.len() implies (#[trigger] front[i]).start
                    < front[i].end && front[i].start == range::boundary(front, start, i) by {
                    assert(front[i] == chunks[i]);
                    assert(chunks[i].start == range::boundary(chunks, start, i));
                }
            }
            lemma_tiles_cover(front, start, last.start as int, p);
            let i = choose|i: int| 0 <= i < front.len() && #[trigger] front[i].has_offset(p);
            assert(chunks[i].has_offset(p));
        }
    }
}

/// No chunk of a resumed plan straddles a boundary between done and missing bytes: a chunk is either one of
/// the merged done ranges, whole, or it holds no done byte at all. The chunks that count as completed are
/// exactly the done ones, in order.
pub proof fn law_resume_aligned(total: u64, parts: nat, done: Seq<ByteRange>)
    ensures
        ({
            let chunks = resume_chunks(total, parts, done);
            let completed = resume_completed(total, parts, done);
            let there = present(total, done);
            &&& completed.len() == there.len()
            &&& forall|k: int|
                0 <= k < completed.len() ==> (#[trigger] completed[k]) < chunks.len() || chunks.len()
                    > usize::MAX
            &&& chunks.len() <= usize::MAX ==> forall|k: int|
                0 <= k < completed.len() ==> chunks[#[trigger] completed[k] as int] == there[k]
            &&& forall|i: int, p: int|
                0 <= i < chunks.len() && #[trigger] chunks[i].has_offset(p) && range::covered(
                    range::clamped(done, total),
                    p,
                ) ==> there.contains(chunks[i])
        }),
{
    lemma_present(total, done);
    law_resume_tiles(total, parts, done);
    let chunks = resume_chunks(total, parts, done);
    let completed = resume_completed(total, parts, done);
    let there = present(total, done);
    let n = there.len() as int;
    let absent = missing(total, done);
    let tail = gap_chunks(done_end(there, n), total, parts, absent);
    assert forall|k: int| 0 <= k < n implies #[trigger] done_chunks(there, k + 1, parts, absent).len()
        <= chunks.len() && done_chunks(there, k + 1, parts, absent).len() >= 1 && chunks[done_chunks(
        there,
        k + 1,
        parts,
        absent,
    ).len() - 1] == there[k] by {
        lemma_done_tiles(there, k + 1, parts, absent);
        lemma_done_prefix(there, k + 1, n, parts, absent);
        let part = done_chunks(there, k + 1, parts, absent);
        assert(part.is_prefix_of(done_chunks(there, n, parts, absent)));
        assert(part[part.len() - 1] == done_chunks(there, n, parts, absent)[part.len() - 1]);
    }
    assert forall|i: int, p: int|
        0 <= i < chunks.len() && #[trigger] chunks[i].has_offset(p) && range::covered(
            range::clamped(done, total),
            p,
        ) implies there.contains(chunks[i]) by {
        assert(range::covered(there, p));
        let k = choose|k: int| 0 <= k < there.len() && #[trigger] there[k].has_offset(p);
        let j = done_chunks(there, k + 1, parts, absent).len() - 1;
        assert(chunks[j] == there[k]);
        if i < j {
            lemma_tiles_ordered(chunks, 0, total as int, i, j);
        } else if j < i {
            lemma_tiles_ordered(chunks, 0, total as int, j, i);
        }
        assert(chunks[i] == there[k]);
    }
}

proof fn lemma_done_prefix(done: Seq<ByteRange>, a: int, b: int, parts: nat, missing: nat)
    requires
        0 <= a <= b <= done.len(),
    ensures
        done_chunks(done, a, parts, missing).is_prefix_of(done_chunks(done, b, parts, missing)),
    decreases b,
{
    if a < b {
        lemma_done_prefix(done, a, b - 1, parts, missing);
        assert(done_chunks(done, a, parts, missing) =~= done_chunks(done, b, parts, missing).take(
            done_chunks(done, a, parts, missing).len() as int,
        ));
    }
}

/// Only the bytes of the resource that are there matter to a resumed plan, not how they were recorded: a range
/// written twice, a checkpoint followed by the completed range around it, or anything past the end changes
/// nothing.
pub proof fn law_resume_depends_on_bytes(
    total: u64,
    parts: nat,
    a: Seq<ByteRange>,
    b: Seq<ByteRange>,
)
    requires
        forall|p: int| 0 <= p < total ==> range::covered(a, p) == range::covered(b, p),
    ensures
        resume_chunks(total, parts, a) == resume_chunks(total, parts, b),
        resume_completed(total, parts, a) == resume_completed(total, parts, b),
{
    let ca = range::clamped(a, total);
    let cb = range::clamped(b, total);
    assert forall|p: int| range::covered(ca, p) == range::covered(cb, p) by {
        lemma_clamped_cover(a, total, p);
        lemma_clamped_cover(b, total, p);
    }
    range::law_merge_depends_on_cover(ca, cb);
}

proof fn lemma_clamped_cover(ranges: Seq<ByteRange>, total: u64, p: int)
    ensures
        range::covered(range::clamped(ranges, total), p) == (p < total && range::covered(ranges, p)),
{
    let cut = range::clamped(ranges, total);
    if range::covered(cut, p) {
        let i = choose|i: int| 0 <= i < cut.len() && #[trigger] cut[i].has_offset(p);
        assert(ranges[i].has_offset(p));
    }
    if p < total && range::covered(ranges, p) {
        let i = choose|i: int| 0 <= i < ranges.len() && #[trigger] ranges[i].has_offset(p);
        assert(cut[i].has_offset(p));
    }
}

/// A byte of the resource counts as there exactly when some recorded range holds it.
pub proof fn law_present_is_recorded(total: u64, done: Seq<ByteRange>, p: int)
    ensures
        range::covered(present(total, done), p) == (p < total && range::covered(done, p)),
{
    lemma_present(total, done);
    lemma_clamped_cover(done, total, p);
    assert(range::covered(present(total, done), p) == range::covered(range::clamped(done, total), p));
}

/// With nothing on disk, a resumed plan is the plan of a fresh download, and no chunk is complete.
pub proof fn law_resume_from_nothing(total: u64, parts: nat)
    requires
        parts <= u32::MAX,
    ensures
        resume_chunks(total, parts, Seq::empty()) == even_chunks(0, total, parts),
        resume_completed(total, parts, Seq::empty()) == Seq::<usize>::empty(),
{
    let none = Seq::<ByteRange>::empty();
    lemma_present(total, none);
    assert(range::is_merge(none, range::clamped(none, total)));
    range::lemma_merged_is(none, range::clamped(none, total));
    assert(present(total, none) == none);
    let n: int = 0;
    assert(missing(total, none) == total);
    if total > 0 {
        let t = total as nat;
        assert((parts * t + t / 2) / t == parts) by {
            assert(t * parts == parts * t) by (nonlinear_arith);
            lemma_fundamental_div_mod_converse((parts * t + t / 2) as int, t as int, parts as int, (t / 2) as int);
        }
        assert(resume_chunks(total, parts, none) =~= even_chunks(0, total, share(parts, t, t)));
        assert(even_chunks(0, total, share(parts, t, t)) =~= even_chunks(0, total, parts));
    } else {
        assert(resume_chunks(total, parts, none) =~= even_chunks(0, total, parts));
    }
}

/// A span is cut into as many chunks as were asked for: exactly that many where there is a byte for each, one
/// per byte where there are fewer bytes, one where none was asked for, and none of nothing.
pub proof fn law_plan_has_as_many_chunks_as_asked(start: u64, end: u64, parts: nat)
    ensures
        start >= end ==> even_chunks(start, end, parts).len() == 0,
        start < end && parts == 0 ==> even_chunks(start, end, parts).len() == 1,
        start < end && 1 <= parts <= end - start ==> even_chunks(start, end, parts).len() == parts,
        start < end && parts > end - start ==> even_chunks(start, end, parts).len() == end - start,
{
}

/// The chunks of a span are as even as can be: `n` chunks have `1 / n` of the bytes each, and those that are
/// left over go to the earliest, one byte each.
pub proof fn law_plan_is_even(start: u64, end: u64, parts: nat, i: int)
    requires
        start < end,
        0 <= i < even_chunks(start, end, parts).len(),
    ensures
        ({
            let n = even_chunks(start, end, parts).len();
            let size = even_chunks(start, end, parts)[i].size();
            let left = (end - start) % (n as int);
            if i < left {
                n * (size - 1) + left == end - start
            } else {
                n * size + left == end - start
            }
        }),
{
    let length = (end - start) as nat;
    let n = chunk_count(length, parts);
    let chunks = even_chunks(start, end, parts);
    lemma_chunk_start(length, n, i);
    lemma_chunk_start(length, n, i + 1);
    assert(chunks[i].size() == length / n + (if i < length % n {
        1int
    } else {
        0int
    }));
    lemma_fundamental_div_mod(length as int, n as int);
}

/// A resumed download with one hole cuts the hole, and nothing else, into as many chunks as were asked for:
/// what is there before it is one chunk, what is there behind it another.
pub proof fn law_hole_is_cut_as_asked(total: u64, parts: nat, done: Seq<ByteRange>, a: u64, b: u64)
    requires
        parts <= u32::MAX,
        a < b <= total,
        forall|p: int| 0 <= p < total ==> range::covered(done, p) == !(a <= p < b),
    ensures
        ({
            let front = if a > 0 {
                seq![ByteRange { start: 0, end: a }]
            } else {
                Seq::empty()
            };
            let back = if b < total {
                seq![ByteRange { start: b, end: total }]
            } else {
                Seq::empty()
            };
            resume_chunks(total, parts, done) == front + even_chunks(a, b, parts) + back
        }),
{
    let front = if a > 0 {
        seq![ByteRange { start: 0, end: a }]
    } else {
        Seq::empty()
    };
    let back = if b < total {
        seq![ByteRange { start: b, end: total }]
    } else {
        Seq::empty()
    };
    let there = front + back;
    let cut = range::clamped(done, total);
    assert forall|p: int| range::covered(there, p) == range::covered(cut, p) by {
        lemma_clamped_cover(done, total, p);
        if range::covered(done, p) {
            let i = choose|i: int| 0 <= i < done.len() && #[trigger] done[i].has_offset(p);
            assert(p >= 0);
        }
        if range::covered(there, p) {
            let i = choose|i: int| 0 <= i < there.len() && #[trigger] there[i].has_offset(p);
            assert(0 <= p < total && !(a <= p < b));
        }
        if 0 <= p < a {
            assert(there[0].has_offset(p));
        }
        if b <= p < total {
            assert(there[there.len() - 1].has_offset(p));
        }
    }
    assert(range::is_merge(there, cut));
    range::lemma_merged_is(there, cut);
    assert(present(total, done) == there);
    let absent = missing(total, done);
    assert(range::total_size(there) == a + (total - b)) by {
        reveal_with_fuel(range::total_size, 3);
    }
    assert(absent == b - a);
    let t = absent;
    assert((parts * t + t / 2) / t == parts) by {
        assert(t * parts == parts * t) by (nonlinear_arith);
        lemma_fundamental_div_mod_converse((parts * t + t / 2) as int, t as int, parts as int, (t / 2) as int);
    }
    assert(even_chunks(a, b, share(parts, t, t)) =~= even_chunks(a, b, parts));
    reveal_with_fuel(done_chunks, 3);
    assert(resume_chunks(total, parts, done) =~= front + even_chunks(a, b, parts) + back);
}

/// A gap gets its share of the chunks that were asked for, to the nearest, and at least one: no gap is left to
/// a single connection that is owed more, and none gets more than it is owed.
pub proof fn law_share_is_fair(parts: nat, length: nat, missing: nat)
    requires
        parts <= u32::MAX,
        0 < length <= missing,
    ensures
        share(parts, length, missing) >= 1,
        share(parts, length, missing) > 1 ==> 2 * share(parts, length, missing) * missing <= 2 * parts
            * length + missing,
        2 * parts * length <= 2 * share(parts, length, missing) * missing + missing,
{
    let m = (parts * length + missing / 2) as nat;
    let q = m / missing;
    assert(q * missing <= m < q * missing + missing) by (nonlinear_arith)
        requires
            q == m / missing,
            missing > 0,
    ;
    assert(q <= u32::MAX) by (nonlinear_arith)
        requires
            q * missing <= m,
            m == parts * length + missing / 2,
            parts <= u32::MAX,
            0 < length <= missing,
    ;
    let n = share(parts, length, missing);
    assert(2 * parts * length <= 2 * n * missing + missing) by (nonlinear_arith)
        requires
            m < q * missing + missing,
            m == parts * length + missing / 2,
            n >= q,
            missing > 0,
    ;
    if n > 1 {
        assert(n == q);
        assert(2 * n * missing <= 2 * parts * length + missing) by (nonlinear_arith)
            requires
                n * missing <= m,
                m == parts * length + missing / 2,
        ;
    }
}

/// How many bytes of a resource are not recorded.
pub open spec fn unrecorded(total: u64, done: Seq<ByteRange>) -> int {
    total - range::cover_set(range::clamped(done, total)).len()
}

/// Every gap between recorded bytes is cut evenly, into its share of the chunks that were asked for: as many for
/// its length as were asked for all the missing bytes, to the nearest, and at least one.
pub proof fn law_every_gap_gets_its_share(
    total: u64,
    parts: nat,
    done: Seq<ByteRange>,
    a: u64,
    b: u64,
) -> (found: (int, nat))
    requires
        parts <= u32::MAX,
        a < b <= total,
        forall|p: int| a <= p < b ==> !range::covered(done, p),
        a > 0 ==> range::covered(done, a - 1),
        b < total ==> range::covered(done, b as int),
    ensures
        ({
            let (lo, n) = found;
            let chunks = resume_chunks(total, parts, done);
            let cut = even_chunks(a, b, n);
            let m = unrecorded(total, done);
            &&& 0 <= lo
            &&& lo + cut.len() <= chunks.len()
            &&& chunks.subrange(lo, lo + cut.len()) == cut
            &&& n >= 1
            &&& n > 1 ==> 2 * n * m <= 2 * parts * (b - a) + m
            &&& 2 * parts * (b - a) <= 2 * n * m + m
        }),
{
    let there = present(total, done);
    let cut = range::clamped(done, total);
    lemma_present(total, done);
    let count = there.len() as int;
    let absent = missing(total, done);
    range::lemma_total_size_is_count(there);
    assert(range::cover_set(there) =~= range::cover_set(cut));
    assert(unrecorded(total, done) == absent);
    let k = lemma_gap_index(total, done, a, b);
    let gap = gap_chunks(a, b, parts, absent);
    let n = share(parts, (b - a) as nat, absent);
    let front = done_chunks(there, k, parts, absent);
    let chunks = resume_chunks(total, parts, done);
    assert(gap == even_chunks(a, b, n));
    lemma_gap_fits(there, k, a, b, total);
    law_share_is_fair(parts, (b - a) as nat, absent);
    if k < count {
        lemma_done_prefix(there, k + 1, count, parts, absent);
        let part = done_chunks(there, k + 1, parts, absent);
        assert(part == (front + gap).push(there[k]));
        assert(part.is_prefix_of(chunks)) by {
            assert(part.is_prefix_of(done_chunks(there, count, parts, absent)));
            assert(chunks.subrange(0, part.len() as int) =~= part);
        }
        assert(chunks.subrange(front.len() as int, front.len() + gap.len() as int) =~= gap) by {
            assert forall|i: int| 0 <= i < gap.len() implies chunks[front.len() + i] == gap[i] by {
                assert(chunks.subrange(0, part.len() as int)[front.len() + i] == part[front.len() + i]);
            }
        }
    } else {
        assert(chunks == front + gap);
        assert(chunks.subrange(front.len() as int, front.len() + gap.len() as int) =~= gap);
    }
    (front.len() as int, n)
}

/// A gap is no longer than what is missing.
proof fn lemma_gap_fits(there: Seq<ByteRange>, k: int, a: u64, b: u64, total: u64)
    requires
        range::separated(there),
        forall|i: int| 0 <= i < there.len() ==> (#[trigger] there[i]).end <= total,
        a < b <= total,
        0 <= k <= there.len(),
        done_end(there, k) == a,
        k < there.len() ==> there[k].start == b,
        k == there.len() ==> b == total,
    ensures
        b - a <= total - range::total_size(there),
{
    lemma_sizes_before(there, k);
    lemma_sizes_from(there, k, total);
}

proof fn lemma_sizes_before(there: Seq<ByteRange>, k: int)
    requires
        range::separated(there),
        0 <= k <= there.len(),
    ensures
        range::total_size(there.take(k)) <= done_end(there, k),
    decreases k,
{
    if k > 0 {
        lemma_sizes_before(there, k - 1);
        assert(there.take(k).drop_last() =~= there.take(k - 1));
        if k > 1 {
            assert(there[k - 2].end < there[k - 1].start);
        }
        assert(there[k - 1].start < there[k - 1].end);
    }
}

proof fn lemma_sizes_from(there: Seq<ByteRange>, k: int, total: u64)
    requires
        range::separated(there),
        forall|i: int| 0 <= i < there.len() ==> (#[trigger] there[i]).end <= total,
        0 <= k <= there.len(),
    ensures
        k < there.len() ==> range::total_size(there) <= range::total_size(there.take(k)) + total
            - there[k].start,
        k == there.len() ==> range::total_size(there) == range::total_size(there.take(k)),
    decreases there.len() - k,
{
    if k < there.len() {
        lemma_sizes_from(there, k + 1, total);
        assert(there.take(k + 1).drop_last() =~= there.take(k));
        assert(there[k].start < there[k].end);
        if k + 1 < there.len() {
            assert(there[k].end < there[k + 1].start);
        }
    } else {
        assert(there.take(k) =~= there);
    }
}

/// Which of the recorded stretches stands behind a gap.
proof fn lemma_gap_index(total: u64, done: Seq<ByteRange>, a: u64, b: u64) -> (k: int)
    requires
        a < b <= total,
        forall|p: int| a <= p < b ==> !range::covered(done, p),
        a > 0 ==> range::covered(done, a - 1),
        b < total ==> range::covered(done, b as int),
    ensures
        ({
            let there = present(total, done);
            &&& 0 <= k <= there.len()
            &&& done_end(there, k) == a
            &&& k < there.len() ==> there[k].start == b
            &&& k == there.len() ==> b == total
        }),
{
    let there = present(total, done);
    lemma_present(total, done);
    assert forall|p: int| range::covered(there, p) == (p < total && range::covered(done, p)) by {
        law_present_is_recorded(total, done, p);
    }
    let k = if a > 0 {
        assert(range::covered(there, a - 1));
        let j = choose|j: int| 0 <= j < there.len() && #[trigger] there[j].has_offset(a - 1);
        assert(there[j].end == a) by {
            if there[j].end > a {
                assert(there[j].has_offset(a as int));
                assert(range::covered(there, a as int));
            }
        }
        j + 1
    } else {
        0
    };
    if k < there.len() {
        let start = there[k].start as int;
        assert(there[k].start < there[k].end);
        assert(there[k].has_offset(start));
        assert(range::covered(there, start));
        if k > 0 {
            assert(there[k - 1].end < there[k].start);
        }
        assert(start >= b);
        if start > b {
            assert(there[k].end <= total);
            assert(range::covered(there, b as int));
            let i = choose|i: int| 0 <= i < there.len() && #[trigger] there[i].has_offset(b as int);
            if i < k - 1 {
                assert(there[i].end < there[k - 1].start);
                assert(there[k - 1].start < there[k - 1].end);
            } else if i > k {
                assert(there[k].end < there[i].start);
            }
        }
    } else if b < total {
        assert(range::covered(there, b as int));
        let i = choose|i: int| 0 <= i < there.len() && #[trigger] there[i].has_offset(b as int);
        if i < k - 1 {
            assert(there[i].end < there[k - 1].start);
            assert(there[k - 1].start < there[k - 1].end);
        }
    }
    k
}

} // verus!
