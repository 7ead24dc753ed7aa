//! One chunk of a scatter download: what to fetch next, what to accept, when to record it, when to give up.

use crate::error;
use crate::error::short_error;
use crate::error::Error;
use crate::image;
use crate::range;
use crate::range::ByteRange;
use vstd::arithmetic::div_mod::lemma_small_mod;
use vstd::arithmetic::power2::*;
use vstd::prelude::*;

verus! {

/// A chunk checkpoints its flushed prefix to the control trailer after this many freshly downloaded bytes
/// (4 MiB), so a fast large chunk records often without a checkpoint per write.
pub const CHECKPOINT_BYTES: u64 = 4194304;

/// ...and at least this often (in nanoseconds: one second) while it is making progress, so a small or slow
/// chunk that never reaches [`CHECKPOINT_BYTES`] still persists its partial progress.
pub const CHECKPOINT_INTERVAL: u64 = 1000000000;

/// The wait before a retry, in milliseconds: a tenth of a second doubled with every attempt, up to the sixth.
pub open spec fn backoff_of(attempt: u32) -> nat {
    100 * pow2(
        if attempt < 6 {
            attempt as nat
        } else {
            6
        },
    )
}

/// Exponential backoff before a retry, in milliseconds, capped at a few seconds.
pub fn backoff(attempt: u32) -> (millis: u64)
    ensures
        millis == backoff_of(attempt),
{
    let exponent: u32 = if attempt < 6 {
        attempt
    } else {
        6
    };
    let mut factor: u64 = 1;
    let mut i: u32 = 0;
    proof {
        lemma2_to64();
    }
    while i < exponent
        invariant
            i <= exponent <= 6,
            factor == pow2(i as nat),
            factor <= 64,
        decreases exponent - i,
    {
        proof {
            lemma_pow2_unfold((i + 1) as nat);
            lemma2_to64();
            if i < 5 {
                lemma_pow2_strictly_increases((i + 1) as nat, 6);
            }
        }
        factor = factor * 2;
        i += 1;
    }
    100 * factor
}

/// The wait never shrinks from one attempt to the next, and never exceeds 6.4 seconds.
pub proof fn law_backoff_grows_to_a_cap(a: u32, b: u32)
    requires
        a <= b,
    ensures
        100 <= backoff_of(a) <= backoff_of(b) <= 6400,
{
    lemma2_to64();
    let x: nat = if a < 6 {
        a as nat
    } else {
        6
    };
    let y: nat = if b < 6 {
        b as nat
    } else {
        6
    };
    if x < y {
        lemma_pow2_strictly_increases(x, y);
    }
    if 0 < x {
        lemma_pow2_strictly_increases(0, x);
    }
    if y < 6 {
        lemma_pow2_strictly_increases(y, 6);
    }
}

/// The wait before a retry, in milliseconds, given a number drawn at random: the backoff, and up to a quarter
/// of it more.
pub open spec fn wait_of(attempt: u32, draw: u64) -> nat {
    (backoff_of(attempt) + draw % ((backoff_of(attempt) / 4 + 1) as u64)) as nat
}

/// How long to wait before a retry, in milliseconds: the backoff, spread out by a number drawn at random, so
/// that chunks which dropped together do not all come back at once.
pub fn wait(attempt: u32, draw: u64) -> (millis: u64)
    ensures
        millis == wait_of(attempt, draw),
{
    proof {
        law_backoff_grows_to_a_cap(attempt, attempt);
    }
    let base = backoff(attempt);
    base + draw % (base / 4 + 1)
}

/// Whatever is drawn, a wait is at least the backoff and exceeds it by no more than a quarter, and so never
/// exceeds eight seconds.
pub proof fn law_wait_is_bounded(attempt: u32, draw: u64)
    ensures
        backoff_of(attempt) <= wait_of(attempt, draw),
        4 * wait_of(attempt, draw) <= 5 * backoff_of(attempt),
        wait_of(attempt, draw) <= 8000,
{
    law_backoff_grows_to_a_cap(attempt, attempt);
}

/// Where a chunk's download stands.
pub struct Progression {
    /// The chunk's position in the plan.
    pub index: usize,
    /// The bytes the chunk covers.
    pub range: ByteRange,
    /// How many times it may be retried.
    pub retries: u32,
    /// Every byte of the chunk before this offset is on disk.
    pub offset: u64,
    /// How many attempts were made.
    pub attempts: nat,
    /// The offset last written to the control trailer.
    pub checkpointed: u64,
    /// When it last checkpointed.
    pub checkpoint_at: u64,
    /// The last failure, if any.
    pub last_error: Option<Error>,
    /// Whether the source was ever refused for sending more than it was asked for.
    pub overrun: bool,
}

/// Whether an error says that a source sent more than it was asked for.
pub open spec fn is_overrun(e: Error) -> bool {
    error::is_detail(e, "source sent more bytes than the requested range"@)
}

/// What a chunk's download does next.
#[derive(Debug)]
pub enum Attempt {
    /// Wait this many milliseconds (no wait before the first attempt), then stream `range` to its own offset.
    Fetch {
        /// The wait.
        delay: u64,
        /// What is left of the chunk.
        range: ByteRange,
    },
    /// Nothing: the chunk is complete, or its attempts are used up.
    Stop,
}

/// A retry to tell the user of.
#[derive(Debug)]
pub struct Retry {
    /// The chunk's position in the plan.
    pub index: usize,
    /// Which retry it is, from one.
    pub retry: u32,
    /// How many there may be.
    pub max: u32,
    /// How many bytes of the chunk are already there.
    pub resume_from: u64,
    /// The concrete cause.
    pub error: String,
}

/// Whether a chunk that stands at `before` goes on with this attempt, and stands at `after` then.
pub open spec fn begins(before: Progression, draw: u64, attempt: Attempt, after: Progression) -> bool {
    let goes_on = before.offset < before.range.end && before.attempts <= before.retries;
    &&& attempt matches Attempt::Fetch { delay, range } ==> goes_on && delay == (if before.attempts == 0 {
        0
    } else {
        wait_of(before.attempts as u32, draw)
    }) && range == (ByteRange { start: before.offset, end: before.range.end }) && after == (Progression {
        attempts: before.attempts + 1,
        ..before
    })
    &&& attempt is Stop ==> !goes_on && after == before
}

/// Whether this is how a chunk ends.
pub open spec fn ends(at: Progression, end: Result<ByteRange, Error>) -> bool {
    match end {
        Ok(range) => !at.overrun && at.offset == at.range.end && range == at.range,
        Err(e) => if at.overrun {
            is_overrun(e)
        } else {
            at.offset < at.range.end && e == match at.last_error {
                Some(error) => error,
                None => Error::LengthMismatch {
                    expected: at.range.size() as u64,
                    received: (at.offset - at.range.start) as u64,
                },
            }
        },
    }
}

/// Whether this is the retry to tell of after a failure.
pub open spec fn tells(at: Progression, error: Error, retry: Option<Retry>) -> bool {
    match retry {
        Some(r) => {
            &&& at.attempts <= at.retries
            &&& r.index == at.index
            &&& r.retry == at.attempts
            &&& r.max == at.retries
            &&& r.resume_from == at.offset - at.range.start
            &&& r.error@ == error::deepest(error)
        },
        None => at.attempts > at.retries,
    }
}

/// The prefix of a chunk to record at `now`, if it is time.
pub open spec fn recorded_at(at: Progression, now: u64) -> Option<ByteRange> {
    let progressed = at.offset - at.checkpointed;
    let is_due = progressed >= CHECKPOINT_BYTES || (progressed > 0 && now - at.checkpoint_at
        >= CHECKPOINT_INTERVAL);
    if is_due {
        Some(ByteRange { start: at.range.start, end: at.offset })
    } else {
        None
    }
}

/// The download of one chunk, starting from past any on-disk prefix and resuming from where it drops, with
/// backoff.
#[derive(Debug)]
pub struct ChunkTask {
    index: usize,
    range: ByteRange,
    retries: u32,
    offset: u64,
    attempts: u64,
    checkpointed: u64,
    checkpoint_at: u64,
    last_error: Option<Error>,
    overrun: bool,
}

impl View for ChunkTask {
    type V = Progression;

    closed spec fn view(&self) -> Progression {
        Progression {
            index: self.index,
            range: self.range,
            retries: self.retries,
            offset: self.offset,
            attempts: self.attempts as nat,
            checkpointed: self.checkpointed,
            checkpoint_at: self.checkpoint_at,
            last_error: self.last_error,
            overrun: self.overrun,
        }
    }
}

impl ChunkTask {
    /// The chunk's offset lies within it, and no byte past it was ever recorded.
    pub open spec fn wf(self) -> bool {
        &&& self@.range.start <= self@.checkpointed <= self@.offset <= self@.range.end
        &&& self@.attempts <= self@.retries + 1
    }

    /// Start on a chunk whose bytes before `resume_from` are already on disk.
    pub fn new(index: usize, range: ByteRange, resume_from: u64, retries: u32, now: u64) -> (task:
        ChunkTask)
        requires
            range.start <= resume_from <= range.end,
        ensures
            task.wf(),
            task@ == (Progression {
                index,
                range,
                retries,
                offset: resume_from,
                attempts: 0,
                checkpointed: resume_from,
                checkpoint_at: now,
                last_error: None,
                overrun: false,
            }),
    {
        ChunkTask {
            index,
            range,
            retries,
            offset: resume_from,
            attempts: 0,
            checkpointed: resume_from,
            checkpoint_at: now,
            last_error: None,
            overrun: false,
        }
    }

    /// The offset to write the next bytes at.
    pub fn offset(&self) -> (offset: u64)
        ensures
            offset == self@.offset,
    {
        self.offset
    }

    /// Begin the next attempt, unless the chunk is complete or its attempts are used up. An attempt asks for
    /// exactly what is missing: from the byte that was reached to the chunk's end. `draw` is a number drawn at
    /// random, which spreads the wait before a retry.
    pub fn next(&mut self, draw: u64) -> (attempt: Attempt)
        requires
            old(self).wf(),
        ensures
            final(self).wf(),
            begins(old(self)@, draw, attempt, final(self)@),
    {
        if self.offset >= self.range.end || self.attempts > self.retries as u64 {
            return Attempt::Stop;
        }
        let delay = if self.attempts == 0 {
            0
        } else {
            wait(self.attempts as u32, draw)
        };
        self.attempts = self.attempts + 1;
        Attempt::Fetch { delay, range: ByteRange { start: self.offset, end: self.range.end } }
    }

    /// Whether `len` more bytes from the source are accepted: a source may not send more than the range it
    /// was asked for. A refusal stands: see [`ChunkTask::finish`].
    pub fn accept(&mut self, len: u64) -> (r: Result<(), Error>)
        requires
            old(self).wf(),
        ensures
            final(self).wf(),
            match r {
                Ok(()) => len <= old(self)@.range.end - old(self)@.offset && final(self)@ == old(self)@,
                Err(e) => len > old(self)@.range.end - old(self)@.offset && is_overrun(e) && final(self)@
                    == (Progression { overrun: true, ..old(self)@ }),
            },
    {
        // Subtract rather than add, so that no length overflows.
        if len > self.range.end - self.offset {
            self.overrun = true;
            Err(Error::detail("source sent more bytes than the requested range"))
        } else {
            Ok(())
        }
    }

    /// `len` accepted bytes were written at the offset and flushed. Returns how many bytes of the chunk are
    /// now on disk.
    pub fn landed(&mut self, len: u64) -> (received: u64)
        requires
            old(self).wf(),
            len <= old(self)@.range.end - old(self)@.offset,
        ensures
            final(self).wf(),
            final(self)@ == (Progression { offset: (old(self)@.offset + len) as u64, ..old(self)@ }),
            received == old(self)@.offset + len - old(self)@.range.start,
    {
        self.offset = self.offset + len;
        self.offset - self.range.start
    }

    /// The flushed prefix to record now, if it is time: after enough new bytes, or after enough time while
    /// progressing. Every byte of it is on disk.
    pub fn checkpoint_due(&self, now: u64) -> (due: Option<ByteRange>)
        requires
            self.wf(),
        ensures
            due == recorded_at(self@, now),
    {
        let progressed = self.offset - self.checkpointed;
        if progressed >= CHECKPOINT_BYTES || (progressed > 0 && now.saturating_sub(self.checkpoint_at)
            >= CHECKPOINT_INTERVAL) {
            Some(ByteRange { start: self.range.start, end: self.offset })
        } else {
            None
        }
    }

    /// The flushed prefix was recorded.
    pub fn checkpoint_done(&mut self, now: u64)
        requires
            old(self).wf(),
        ensures
            final(self).wf(),
            final(self)@ == (Progression {
                checkpointed: old(self)@.offset,
                checkpoint_at: now,
                ..old(self)@
            }),
    {
        self.checkpointed = self.offset;
        self.checkpoint_at = now;
    }

    /// The attempt failed. Returns the retry to report, only when another attempt may follow. An answer that
    /// was rejected outright, because it is not of the range that was asked for, has left no byte behind, so
    /// the next attempt starts where this one did.
    pub fn failed(&mut self, error: Error) -> (retry: Option<Retry>)
        requires
            old(self).wf(),
            old(self)@.attempts > 0,
        ensures
            final(self).wf(),
            final(self)@ == (Progression { last_error: Some(error), ..old(self)@ }),
            tells(old(self)@, error, retry),
    {
        let retry = if self.attempts <= self.retries as u64 {
            Some(
                Retry {
                    index: self.index,
                    retry: self.attempts as u32,
                    max: self.retries,
                    resume_from: self.offset - self.range.start,
                    error: short_error(&error),
                },
            )
        } else {
            None
        };
        self.last_error = Some(error);
        retry
    }

    /// How the chunk ended: the whole range, to be recorded as on disk, or what stopped it. A source that sent
    /// more than it was asked for is not believed, even where every byte of the range has arrived.
    pub fn finish(self) -> (end: Result<ByteRange, Error>)
        requires
            self.wf(),
        ensures
            ends(self@, end),
    {
        if self.overrun {
            return Err(Error::detail("source sent more bytes than the requested range"));
        }
        let received = self.offset - self.range.start;
        let expected = self.range.len();
        if received != expected {
            match self.last_error {
                Some(error) => Err(error),
                None => Err(Error::LengthMismatch { expected, received }),
            }
        } else {
            Ok(self.range)
        }
    }
}

/// Whether a file holds the bytes of `body` from `start` up to `end`.
pub open spec fn holds(image: Seq<u8>, body: Seq<u8>, start: int, end: int) -> bool {
    &&& start < end ==> end <= image.len() && end <= body.len()
    &&& forall|p: int| start <= p < end ==> (#[trigger] image[p]) == body[p]
}

/// Bytes that a source served honestly extend what the file holds of the body: writing them at the chunk's
/// offset takes what it holds from there to the new offset.
pub proof fn law_landed_bytes_extend(
    image: Seq<u8>,
    body: Seq<u8>,
    start: int,
    offset: int,
    piece: Seq<u8>,
)
    requires
        0 <= start <= offset,
        offset + piece.len() <= body.len(),
        holds(image, body, start, offset),
        piece == body.subrange(offset, offset + piece.len()),
    ensures
        holds(image::write_at(image, offset as nat, piece), body, start, offset + piece.len()),
{
}

/// A chunk's writes stay within the chunk: what the file holds elsewhere of the body, it keeps.
pub proof fn law_writes_stay_in_their_chunk(
    image: Seq<u8>,
    body: Seq<u8>,
    offset: int,
    piece: Seq<u8>,
    start: int,
    end: int,
)
    requires
        0 <= offset,
        0 <= start,
        holds(image, body, start, end),
        end <= offset || offset + piece.len() <= start,
    ensures
        holds(image::write_at(image, offset as nat, piece), body, start, end),
{
    let out = image::write_at(image, offset as nat, piece);
    assert forall|p: int| start <= p < end implies (#[trigger] out[p]) == body[p] by {
        assert(image[p] == body[p]);
    }
}

/// Once every chunk of a tiling is filled, in whatever order the chunks arrived, the file is the body.
pub proof fn law_filled_chunks_reassemble(
    image: Seq<u8>,
    body: Seq<u8>,
    ranges: Seq<ByteRange>,
    total: u64,
)
    requires
        body.len() == total,
        range::tiles(ranges, 0, total as int),
        total <= image.len(),
        forall|i: int|
            0 <= i < ranges.len() ==> holds(
                image,
                body,
                (#[trigger] ranges[i]).start as int,
                ranges[i].end as int,
            ),
    ensures
        image.take(total as int) == body,
{
    assert forall|p: int| 0 <= p < total implies image[p] == body[p] by {
        crate::plan::lemma_tiles_cover(ranges, 0, total as int, p);
        let i = choose|i: int| 0 <= i < ranges.len() && #[trigger] ranges[i].has_offset(p);
        assert(holds(image, body, ranges[i].start as int, ranges[i].end as int));
    }
    assert(image.take(total as int) =~= body);
}

/// The wait starts at a tenth of a second, doubles with every attempt, and stays at 6.4 seconds from the sixth on.
pub proof fn law_backoff_doubles(attempt: u32)
    ensures
        backoff_of(0) == 100,
        attempt < 6 ==> backoff_of((attempt + 1) as u32) == 2 * backoff_of(attempt),
        attempt >= 6 ==> backoff_of(attempt) == 6400,
{
    lemma2_to64();
    if attempt < 6 {
        lemma_pow2_unfold((attempt + 1) as nat);
    }
}

/// Every wait between the backoff and a quarter more is drawn by some number, so that chunks which drop together
/// come back apart.
pub proof fn law_wait_is_spread(attempt: u32, millis: nat)
    requires
        backoff_of(attempt) <= millis,
        4 * millis <= 5 * backoff_of(attempt),
    ensures
        wait_of(attempt, (millis - backoff_of(attempt)) as u64) == millis,
{
    law_backoff_grows_to_a_cap(attempt, attempt);
    let spread = backoff_of(attempt) / 4 + 1;
    let draw = (millis - backoff_of(attempt)) as nat;
    assert(draw < spread);
    lemma_small_mod(draw, spread as nat);
}

/// An attempt asks for exactly what is missing, from the byte that was reached to the chunk's end, and none of what
/// is there already. The first is made at once, and any other after a wait.
pub proof fn law_attempt_asks_for_what_is_missing(
    before: Progression,
    draw: u64,
    attempt: Attempt,
    after: Progression,
)
    requires
        begins(before, draw, attempt, after),
        attempt is Fetch,
        before.attempts <= u32::MAX,
    ensures
        ({
            let range = attempt->range;
            let delay = attempt->delay;
            &&& range.start == before.offset
            &&& range.end == before.range.end
            &&& range.start < range.end
            &&& before.attempts == 0 ==> delay == 0
            &&& before.attempts > 0 ==> 200 <= delay <= 8000
            &&& after.offset == before.offset
            &&& after.range == before.range
            &&& after.overrun == before.overrun
            &&& after.attempts == before.attempts + 1
        }),
{
    if before.attempts > 0 {
        law_wait_is_bounded(before.attempts as u32, draw);
        law_backoff_grows_to_a_cap(1, before.attempts as u32);
        law_backoff_doubles(0);
    }
}

/// A chunk is attempted once, and then as many times more as it may be retried, and no longer than it takes: it
/// stops where it is complete or its attempts are used up, and nowhere else.
pub proof fn law_attempts_are_as_many_as_allowed(
    before: Progression,
    draw: u64,
    attempt: Attempt,
    after: Progression,
)
    requires
        begins(before, draw, attempt, after),
    ensures
        attempt is Stop <==> before.offset >= before.range.end || before.attempts >= before.retries + 1,
{
}

/// A chunk that arrived in full from a source that kept to the range is complete; one that is short is not, and
/// ends with what stopped it last, or with how much came of how much.
pub proof fn law_chunk_is_complete_or_fails(at: Progression, end: Result<ByteRange, Error>)
    requires
        ends(at, end),
        at.range.start <= at.offset <= at.range.end,
    ensures
        end is Ok <==> at.offset == at.range.end && !at.overrun,
        end is Ok ==> end->Ok_0 == at.range,
        at.overrun ==> end is Err && is_overrun(end->Err_0),
        at.offset < at.range.end && !at.overrun && at.last_error is Some ==> end == Err::<ByteRange, Error>(
            at.last_error->0,
        ),
        at.offset < at.range.end && !at.overrun && at.last_error is None ==> end == Err::<ByteRange, Error>(
            Error::LengthMismatch {
                expected: (at.range.end - at.range.start) as u64,
                received: (at.offset - at.range.start) as u64,
            },
        ),
{
}

/// A failure is told of exactly where another attempt may follow, with the concrete cause, which retry it is of how
/// many, and how many bytes are there already.
pub proof fn law_retry_is_told(at: Progression, causes: Vec<String>, retry: Option<Retry>)
    requires
        tells(at, Error::Transport(causes), retry),
        causes@.len() > 0,
    ensures
        retry is Some <==> at.attempts <= at.retries,
        retry matches Some(r) ==> r.index == at.index && r.retry == at.attempts && r.max == at.retries
            && r.resume_from == at.offset - at.range.start && r.error@ == causes@[causes@.len() - 1]@,
{
}

/// A chunk's progress is recorded after every four mebibytes, and after every second in which it made some, as the
/// range from its start to where it stands; without progress nothing is recorded.
pub proof fn law_progress_is_recorded_in_time(at: Progression, now: u64)
    requires
        at.checkpointed <= at.offset,
    ensures
        at.offset - at.checkpointed >= 4 * 1024 * 1024 ==> recorded_at(at, now) is Some,
        at.offset > at.checkpointed && now >= at.checkpoint_at + 1_000_000_000 ==> recorded_at(at, now) is Some,
        at.offset == at.checkpointed ==> recorded_at(at, now) is None,
        at.offset - at.checkpointed < 4 * 1024 * 1024 && now < at.checkpoint_at + 1_000_000_000
            ==> recorded_at(at, now) is None,
        recorded_at(at, now) matches Some(range) ==> range.start == at.range.start && range.end == at.offset,
{
}

} // verus!
