//! What the fetchers of a scatter download and its verifier share.

use crate::engine::chunk;
use crate::engine::chunk::ChunkTask;
use crate::engine::chunk::Progression;
use crate::engine::resume::ResumePlan;
use crate::error::Error;
use crate::plan;
use crate::range;
use crate::range::ByteRange;
use vstd::prelude::*;

verus! {

/// State a scatter download shares between its fetchers and its verifier: how many bytes each chunk has
/// received, and whether a chunk has permanently failed.
#[derive(Debug)]
pub struct Scatter {
    ranges: Vec<ByteRange>,
    received: Vec<u64>,
    total: u64,
    resumed: bool,
    failed: bool,
}

/// The sizes of chunks, in order.
pub open spec fn sizes_of(ranges: Seq<ByteRange>) -> Seq<u64> {
    Seq::new(ranges.len(), |i: int| ranges[i].size() as u64)
}

/// How many of `chunks` chunks are fetched at once.
pub open spec fn at_once(resumed: bool, chunks: nat) -> nat {
    if resumed || chunks == 0 {
        1
    } else {
        chunks
    }
}

/// Whether this is the download of a chunk of which `received` bytes are there: none where that is all of them.
pub open spec fn opened(
    range: ByteRange,
    received: u64,
    index: usize,
    retries: u32,
    now: u64,
    task: Option<ChunkTask>,
) -> bool {
    match task {
        Some(task) => {
            let from = (range.start + received) as u64;
            &&& received < range.size()
            &&& task@ == (Progression {
                index,
                range,
                retries,
                offset: from,
                attempts: 0,
                checkpointed: from,
                checkpoint_at: now,
                last_error: None,
                overrun: false,
            })
        },
        None => received == range.size(),
    }
}

impl Scatter {
    /// The chunks.
    pub closed spec fn ranges(self) -> Seq<ByteRange> {
        self.ranges@
    }

    /// The resource's length.
    pub closed spec fn total(self) -> u64 {
        self.total
    }

    /// How many bytes of each chunk are on disk.
    pub closed spec fn received(self) -> Seq<u64> {
        self.received@
    }

    /// Whether an existing `.xget` is continued.
    pub closed spec fn resumed(self) -> bool {
        self.resumed
    }

    /// Whether a chunk has permanently failed.
    pub closed spec fn failed(self) -> bool {
        self.failed
    }

    /// The chunks tile the resource, and none has received more than it has.
    pub open spec fn wf(self) -> bool {
        &&& range::tiles(self.ranges(), 0, self.total() as int)
        &&& self.received().len() == self.ranges().len()
        &&& forall|i: int|
            0 <= i < self.ranges().len() ==> (#[trigger] self.received()[i]) <= self.ranges()[i].size()
    }

    /// Start on a plan for a resource of `total` bytes.
    pub fn new(plan: ResumePlan, total: u64) -> (scatter: Scatter)
        requires
            plan.wf(total),
        ensures
            scatter.wf(),
            scatter.total() == total,
            scatter.ranges() == plan.ranges@,
            scatter.received() == plan.received@,
            scatter.resumed() == plan.resumed,
            !scatter.failed(),
    {
        Scatter {
            ranges: plan.ranges,
            received: plan.received,
            total,
            resumed: plan.resumed,
            failed: false,
        }
    }

    /// The number of chunks.
    pub fn chunks(&self) -> (n: usize)
        ensures
            n == self.ranges().len(),
    {
        self.ranges.len()
    }

    /// The chunks, in order.
    pub fn plan(&self) -> (ranges: Vec<ByteRange>)
        ensures
            ranges@ == self.ranges(),
    {
        let mut out: Vec<ByteRange> = Vec::new();
        let mut i: usize = 0;
        while i < self.ranges.len()
            invariant
                i <= self.ranges.len(),
                out@ == self.ranges@.take(i as int),
            decreases self.ranges.len() - i,
        {
            out.push(self.ranges[i]);
            i += 1;
            assert(out@ =~= self.ranges@.take(i as int));
        }
        assert(self.ranges@.take(i as int) =~= self.ranges@);
        out
    }

    /// The chunk sizes, to open a progress display with.
    pub fn sizes(&self) -> (sizes: Vec<u64>)
        ensures
            sizes@ == sizes_of(self.ranges()),
    {
        let mut sizes: Vec<u64> = Vec::new();
        let mut i: usize = 0;
        while i < self.ranges.len()
            invariant
                i <= self.ranges.len(),
                sizes@ == sizes_of(self.ranges@).take(i as int),
            decreases self.ranges.len() - i,
        {
            sizes.push(self.ranges[i].len());
            i += 1;
            assert(sizes@ =~= sizes_of(self.ranges@).take(i as int));
        }
        assert(sizes@ =~= sizes_of(self.ranges@));
        sizes
    }

    /// The bytes already on disk per chunk, to show a resume where it starts. Only meaningful when resuming:
    /// a fresh run has nothing on disk.
    pub fn restored(&self) -> (present: Option<&[u64]>)
        ensures
            match present {
                Some(present) => self.resumed() && present@ == self.received(),
                None => !self.resumed(),
            },
    {
        if self.resumed {
            Some(self.received.as_slice())
        } else {
            None
        }
    }

    /// How many chunks are fetched at once. A fresh run fetches every chunk at once: parallelism is the whole
    /// point. A resume instead fills its holes low-offset first, one at a time, so the verifier's contiguous
    /// prefix advances steadily from zero.
    pub fn concurrency(&self) -> (n: usize)
        ensures
            n == at_once(self.resumed(), self.ranges().len()),
    {
        if self.resumed || self.ranges.len() == 0 {
            1
        } else {
            self.ranges.len()
        }
    }

    /// The download of chunk `index`, past what is already on disk, or `None` if it is already complete.
    pub fn task(&self, index: usize, retries: u32, now: u64) -> (task: Option<ChunkTask>)
        requires
            self.wf(),
            index < self.ranges().len(),
        ensures
            opened(self.ranges()[index as int], self.received()[index as int], index, retries, now, task),
            task matches Some(task) ==> task.wf(),
    {
        let range = self.ranges[index];
        let received = self.received[index];
        assert(received <= range.size()) by {
            assert(self.received()[index as int] == received);
        }
        if received >= range.len() {
            None
        } else {
            Some(ChunkTask::new(index, range, range.start + received, retries, now))
        }
    }

    /// Chunk `index` now has `received` bytes on disk.
    pub fn record(&mut self, index: usize, received: u64)
        requires
            old(self).wf(),
            index < old(self).ranges().len(),
            received <= old(self).ranges()[index as int].size(),
        ensures
            final(self).ranges() == old(self).ranges(),
            final(self).received() == old(self).received().update(index as int, received),
            final(self).resumed() == old(self).resumed(),
            final(self).failed() == old(self).failed(),
            final(self).total() == old(self).total(),
            final(self).wf(),
    {
        self.received.set(index, received);
    }

    /// A chunk permanently failed.
    pub fn fail(&mut self)
        ensures
            final(self).ranges() == old(self).ranges(),
            final(self).received() == old(self).received(),
            final(self).resumed() == old(self).resumed(),
            final(self).failed(),
            final(self).total() == old(self).total(),
            old(self).wf() ==> final(self).wf(),
    {
        self.failed = true;
    }

    /// Whether a chunk has permanently failed.
    pub fn has_failed(&self) -> (r: bool)
        ensures
            r == self.failed(),
    {
        self.failed
    }

    /// How many bytes each chunk has received.
    pub fn counts(&self) -> (received: &[u64])
        ensures
            received@ == self.received(),
    {
        self.received.as_slice()
    }
}

/// The outcome of a scatter: what stopped the fetchers, else what the verifier found.
pub fn settle(fetched: Result<(), Error>, hashed: Result<Option<String>, Error>) -> (outcome: Result<
    Option<String>,
    Error,
>)
    ensures
        outcome == match fetched {
            Err(e) => Err(e),
            Ok(()) => hashed,
        },
{
    match fetched {
        Err(e) => Err(e),
        Ok(()) => hashed,
    }
}

/// The number of contiguous bytes downloaded from the plan's start: every leading fully-received chunk, plus
/// the partial bytes of the first chunk that is not yet complete.
pub open spec fn run_of(received: Seq<u64>, ranges: Seq<ByteRange>, from: int) -> nat
    decreases received.len() - from,
{
    if 0 <= from < received.len() && from < ranges.len() {
        received[from] as nat + if received[from] < ranges[from].size() {
            0
        } else {
            run_of(received, ranges, from + 1)
        }
    } else {
        0
    }
}

/// The contiguous run, from chunk `from` on, reaches no further than the chunks do, and every byte within it
/// has been received.
pub proof fn lemma_run(received: Seq<u64>, ranges: Seq<ByteRange>, total: u64, from: int)
    requires
        range::tiles(ranges, 0, total as int),
        received.len() == ranges.len(),
        forall|i: int| 0 <= i < ranges.len() ==> (#[trigger] received[i]) <= ranges[i].size(),
        0 <= from <= ranges.len(),
    ensures
        range::boundary(ranges, 0, from) + run_of(received, ranges, from) <= total,
        forall|i: int, p: int|
            from <= i < ranges.len() && #[trigger] ranges[i].has_offset(p) && p < range::boundary(
                ranges,
                0,
                from,
            ) + run_of(received, ranges, from) ==> p < ranges[i].start + received[i],
    decreases ranges.len() - from,
{
    if from < ranges.len() {
        lemma_run(received, ranges, total, from + 1);
        assert(received[from] <= ranges[from].size());
        assert(ranges[from].start == range::boundary(ranges, 0, from));
        assert(range::boundary(ranges, 0, from + 1) == ranges[from].end);
        assert(ranges[from].start < ranges[from].end);
        let here = range::boundary(ranges, 0, from) + run_of(received, ranges, from);
        assert(ranges[from].end <= total) by {
            if from + 1 < ranges.len() {
                let last = ranges.len() - 1;
                plan::lemma_tiles_ordered(ranges, 0, total as int, from, last);
                assert(ranges[last].start < ranges[last].end);
            }
        }
        assert forall|i: int, p: int|
            from <= i < ranges.len() && #[trigger] ranges[i].has_offset(p) && p < here implies p
            < ranges[i].start + received[i] by {
            if i > from {
                plan::lemma_tiles_ordered(ranges, 0, total as int, from, i);
            }
        }
    }
}

/// Where the run from chunk `from` on ends before the total, it ends in a chunk, at the first byte of it that
/// has not been received.
proof fn lemma_run_stops(received: Seq<u64>, ranges: Seq<ByteRange>, total: u64, from: int) -> (i: int)
    requires
        range::tiles(ranges, 0, total as int),
        received.len() == ranges.len(),
        forall|i: int| 0 <= i < ranges.len() ==> (#[trigger] received[i]) <= ranges[i].size(),
        0 <= from <= ranges.len(),
        range::boundary(ranges, 0, from) + run_of(received, ranges, from) < total,
    ensures
        from <= i < ranges.len(),
        ranges[i].has_offset(range::boundary(ranges, 0, from) + run_of(received, ranges, from)),
        range::boundary(ranges, 0, from) + run_of(received, ranges, from) == ranges[i].start
            + received[i],
    decreases ranges.len() - from,
{
    assert(from < ranges.len());
    assert(received[from] <= ranges[from].size());
    assert(ranges[from].start == range::boundary(ranges, 0, from));
    assert(range::boundary(ranges, 0, from + 1) == ranges[from].end);
    assert(ranges[from].start < ranges[from].end);
    if received[from] < ranges[from].size() {
        from
    } else {
        lemma_run_stops(received, ranges, total, from + 1)
    }
}

/// The contiguous run is the longest there is: every byte before its end has been received, and where it ends
/// before the total, the byte at its end has not.
pub proof fn law_run_is_longest(received: Seq<u64>, ranges: Seq<ByteRange>, total: u64)
    requires
        range::tiles(ranges, 0, total as int),
        received.len() == ranges.len(),
        forall|i: int| 0 <= i < ranges.len() ==> (#[trigger] received[i]) <= ranges[i].size(),
    ensures
        ({
            let run = run_of(received, ranges, 0) as int;
            &&& run <= total
            &&& forall|p: int| 0 <= p < run ==> #[trigger] arrived(received, ranges, p)
            &&& run < total ==> !arrived(received, ranges, run)
        }),
{
    let run = run_of(received, ranges, 0) as int;
    lemma_run(received, ranges, total, 0);
    assert forall|p: int| 0 <= p < run implies #[trigger] arrived(received, ranges, p) by {
        plan::lemma_tiles_cover(ranges, 0, total as int, p);
        let i = choose|i: int| 0 <= i < ranges.len() && #[trigger] ranges[i].has_offset(p);
        assert(p < ranges[i].start + received[i]);
    }
    if run < total {
        let i = lemma_run_stops(received, ranges, total, 0);
        assert forall|k: int| 0 <= k < ranges.len() && #[trigger] ranges[k].has_offset(run) implies run
            >= ranges[k].start + received[k] by {
            if k < i {
                plan::lemma_tiles_ordered(ranges, 0, total as int, k, i);
            } else if i < k {
                plan::lemma_tiles_ordered(ranges, 0, total as int, i, k);
            }
        }
    }
}

/// Whether the byte at offset `p` has been received, as a part of what its chunk has.
pub open spec fn arrived(received: Seq<u64>, ranges: Seq<ByteRange>, p: int) -> bool {
    exists|i: int|
        0 <= i < ranges.len() && #[trigger] ranges[i].has_offset(p) && p < ranges[i].start + received[i]
}

/// The number of contiguous bytes downloaded from the plan's start.
pub fn contiguous_run(received: &[u64], ranges: &[ByteRange]) -> (run: u64)
    requires
        run_of(received@, ranges@, 0) <= u64::MAX,
    ensures
        run == run_of(received@, ranges@, 0),
{
    let mut run: u64 = 0;
    let mut i: usize = 0;
    while i < received.len() && i < ranges.len()
        invariant
            i <= received.len(),
            i <= ranges.len(),
            run + run_of(received@, ranges@, i as int) == run_of(received@, ranges@, 0),
            run_of(received@, ranges@, 0) <= u64::MAX,
        decreases received.len() - i,
    {
        let got = received[i];
        run = run + got;
        if got < ranges[i].len() {
            return run;
        }
        i += 1;
    }
    run
}

/// Whether chunk `i` is the one whose range contains file offset `offset`: the first that ends after it.
pub open spec fn chunk_at(ranges: Seq<ByteRange>, offset: u64, i: int) -> bool {
    &&& 0 <= i < ranges.len()
    &&& forall|j: int| 0 <= j < i ==> (#[trigger] ranges[j]).end <= offset
    &&& offset < ranges[i].end
}

/// The index of the chunk whose range contains file offset `offset`: the first that ends after it, or the
/// last one when none does.
pub fn chunk_of(ranges: &[ByteRange], offset: u64) -> (index: usize)
    ensures
        if exists|i: int| chunk_at(ranges@, offset, i) {
            chunk_at(ranges@, offset, index as int)
        } else if ranges@.len() == 0 {
            index == 0
        } else {
            index == ranges@.len() - 1
        },
{
    let mut i: usize = 0;
    while i < ranges.len()
        invariant
            i <= ranges.len(),
            forall|j: int| 0 <= j < i ==> (#[trigger] ranges@[j]).end <= offset,
        decreases ranges.len() - i,
    {
        if offset < ranges[i].end {
            assert(chunk_at(ranges@, offset, i as int));
            return i;
        }
        i += 1;
    }
    if ranges.len() == 0 {
        0
    } else {
        ranges.len() - 1
    }
}

/// Every byte of the contiguous run is on disk: a file that holds what each chunk has received holds the
/// whole run.
pub proof fn law_run_is_on_disk(
    image: Seq<u8>,
    body: Seq<u8>,
    received: Seq<u64>,
    ranges: Seq<ByteRange>,
    total: u64,
)
    requires
        range::tiles(ranges, 0, total as int),
        received.len() == ranges.len(),
        forall|i: int| 0 <= i < ranges.len() ==> (#[trigger] received[i]) <= ranges[i].size(),
        forall|i: int|
            0 <= i < ranges.len() ==> chunk::holds(
                image,
                body,
                (#[trigger] ranges[i]).start as int,
                ranges[i].start + received[i],
            ),
    ensures
        chunk::holds(image, body, 0, run_of(received, ranges, 0) as int),
{
    lemma_run(received, ranges, total, 0);
    let run = run_of(received, ranges, 0) as int;
    assert forall|p: int|
        0 <= p < run implies p < image.len() && p < body.len() && (#[trigger] image[p]) == body[p] by {
        plan::lemma_tiles_cover(ranges, 0, total as int, p);
        let i = choose|i: int| 0 <= i < ranges.len() && #[trigger] ranges[i].has_offset(p);
        assert(chunk::holds(image, body, ranges[i].start as int, ranges[i].start + received[i]));
        assert(p < ranges[i].start + received[i]);
    }
    if run > 0 {
        assert(image[run - 1] == body[run - 1]);
    }
}

/// The sizes of the chunks are those of their ranges, and together they are the whole.
pub proof fn law_sizes_add_up(ranges: Seq<ByteRange>, total: u64)
    requires
        range::tiles(ranges, 0, total as int),
    ensures
        sizes_of(ranges).len() == ranges.len(),
        forall|i: int|
            0 <= i < ranges.len() ==> (#[trigger] sizes_of(ranges)[i]) == ranges[i].end - ranges[i].start,
        range::total_size(ranges) == total,
{
    lemma_total_size(ranges, total as int);
    assert forall|i: int| 0 <= i < ranges.len() implies (#[trigger] sizes_of(ranges)[i]) == ranges[i].end
        - ranges[i].start by {
        assert(ranges[i].start < ranges[i].end);
    }
}

proof fn lemma_total_size(ranges: Seq<ByteRange>, end: int)
    requires
        range::tiles(ranges, 0, end),
    ensures
        range::total_size(ranges) == end,
    decreases ranges.len(),
{
    if ranges.len() > 0 {
        let front = ranges.drop_last();
        let n = ranges.len() - 1;
        let last = ranges[n];
        assert(last.start == range::boundary(ranges, 0, n));
        assert(last.start < last.end);
        assert forall|i: int| 0 <= i < front.len() implies (#[trigger] front[i]).start < front[i].end
            && front[i].start == range::boundary(front, 0, i) by {
            assert(front[i] == ranges[i]);
            assert(ranges[i].start == range::boundary(ranges, 0, i));
        }
        assert(range::tiles(front, 0, last.start as int));
        lemma_total_size(front, last.start as int);
    }
}

/// The chunk at an offset is the one whose range holds it.
pub proof fn law_chunk_at_holds_the_offset(ranges: Seq<ByteRange>, total: u64, offset: u64, i: int)
    requires
        range::tiles(ranges, 0, total as int),
        offset < total,
    ensures
        chunk_at(ranges, offset, i) <==> 0 <= i < ranges.len() && ranges[i].has_offset(offset as int),
{
    if chunk_at(ranges, offset, i) {
        plan::lemma_tiles_cover(ranges, 0, total as int, offset as int);
        let k = choose|k: int| 0 <= k < ranges.len() && #[trigger] ranges[k].has_offset(offset as int);
        if k < i {
            assert(ranges[k].end <= offset);
        } else if i < k {
            plan::lemma_tiles_ordered(ranges, 0, total as int, i, k);
        }
    }
    if 0 <= i < ranges.len() && ranges[i].has_offset(offset as int) {
        assert forall|j: int| 0 <= j < i implies (#[trigger] ranges[j]).end <= offset by {
            plan::lemma_tiles_ordered(ranges, 0, total as int, j, i);
        }
    }
}

/// A fresh download fetches all its chunks at once; a resumed one fills one hole at a time.
pub proof fn law_chunks_are_fetched_at_once(chunks: nat)
    ensures
        chunks > 0 ==> at_once(false, chunks) == chunks,
        at_once(true, chunks) == 1,
        at_once(false, 0) == 1,
{
}

/// A chunk that is there is not fetched again, and any other is fetched from behind what is there of it.
pub proof fn law_chunk_is_fetched_from_behind_what_is_there(
    range: ByteRange,
    received: u64,
    index: usize,
    retries: u32,
    now: u64,
    task: Option<ChunkTask>,
)
    requires
        range.start < range.end,
        received <= range.end - range.start,
        opened(range, received, index, retries, now, task),
    ensures
        task is None <==> range.start + received == range.end,
        task matches Some(task) ==> {
            &&& task@.offset == range.start + received
            &&& task@.range == range
            &&& task@.retries == retries
            &&& task@.attempts == 0
            &&& !task@.overrun
        },
{
}

} // verus!
