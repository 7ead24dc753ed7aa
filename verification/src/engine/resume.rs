//! How a scatter download is laid out, fresh or resumed.

use crate::control;
use crate::control::Control;
use crate::engine::scatter;
use crate::error;
use crate::error::Error;
use crate::plan;
use crate::plan::plan_range;
use crate::plan::plan_resume;
use crate::range;
use crate::range::ByteRange;
use crate::text;
use crate::vocabulary::Options;
use vstd::prelude::*;

verus! {

/// How a scatter download is laid out: the chunks tiling `[0, total)`, how many bytes of each are already on
/// disk from a previous run, and whether this continues an existing `.xget`.
#[derive(Debug)]
pub struct ResumePlan {
    /// The chunks to fetch, tiling `[0, total)` in order.
    pub ranges: Vec<ByteRange>,
    /// How many bytes of each chunk are already on disk, as a prefix from the chunk's start. A chunk whose
    /// received equals its length is complete and skipped.
    pub received: Vec<u64>,
    /// Whether this continues an existing `.xget` (so it must not be truncated).
    pub resumed: bool,
}

/// How many bytes of each chunk are there: all of a completed chunk, none of another.
pub open spec fn received_of(ranges: Seq<ByteRange>, completed: Seq<usize>) -> Seq<u64> {
    Seq::new(
        ranges.len(),
        |i: int|
            if exists|k: int| 0 <= k < completed.len() && #[trigger] completed[k] == i {
                ranges[i].size() as u64
            } else {
                0
            },
    )
}

impl ResumePlan {
    /// The chunks tile the resource, and no chunk has more bytes on disk than it has.
    pub open spec fn wf(self, total: u64) -> bool {
        &&& range::tiles(self.ranges@, 0, total as int)
        &&& self.received@.len() == self.ranges@.len()
        &&& forall|i: int|
            0 <= i < self.ranges@.len() ==> (#[trigger] self.received@[i]) <= self.ranges@[i].size()
    }

    /// The plan of a download that starts over.
    pub open spec fn is_fresh(self, total: u64, parts: u32) -> bool {
        &&& self.ranges@ == plan::even_chunks(0, total, parts as nat)
        &&& self.received@ == Seq::new(self.ranges@.len(), |i: int| 0u64)
        &&& !self.resumed
    }

    /// Whether a plan fetches the whole resource: its chunks tile it, as many as were asked for as far as there
    /// are bytes for them, and none of them has a byte yet.
    pub open spec fn starts_over(self, total: u64, parts: u32) -> bool {
        &&& !self.resumed
        &&& range::tiles(self.ranges@, 0, total as int)
        &&& 1 <= parts <= total ==> self.ranges@.len() == parts
        &&& parts > total ==> self.ranges@.len() == total
        &&& parts == 0 && total > 0 ==> self.ranges@.len() == 1
        &&& self.received@.len() == self.ranges@.len()
        &&& forall|i: int| 0 <= i < self.received@.len() ==> (#[trigger] self.received@[i]) == 0
    }

    /// The plan of a download that continues after the ranges recorded as done.
    pub open spec fn is_resume(self, total: u64, parts: u32, done: Seq<ByteRange>) -> bool {
        &&& self.ranges@ == plan::resume_chunks(total, parts as nat, done)
        &&& self.received@ == received_of(
            self.ranges@,
            plan::resume_completed(total, parts as nat, done),
        )
        &&& self.resumed
    }
}

/// Whether a stored validator and the resource's current validator are compatible for resume.
pub open spec fn agree(stored: Option<Seq<char>>, current: Option<Seq<char>>) -> bool {
    stored is Some && current is Some ==> stored == current
}

/// Whether a stored validator and the resource's current validator are compatible for resume. Two present
/// validators must be equal; if either side is absent there is nothing to compare, so resume falls back to
/// the length check that gates it.
pub fn validators_agree(stored: Option<&str>, current: Option<&str>) -> (r: bool)
    ensures
        r == agree(text::model::opt_str(stored), text::model::opt_str(current)),
{
    match (stored, current) {
        (Some(stored), Some(current)) => text::same_str(stored, current),
        _ => true,
    }
}

/// Whether a partial with this control is still one of the same resource.
pub open spec fn same_resource(
    record: control::model::Record,
    total: u64,
    validator: Option<Seq<char>>,
) -> bool {
    record.total == total && agree(record.validator, validator)
}

/// The plan of a download that starts over.
fn fresh(total: u64, parts: u32) -> (planned: ResumePlan)
    ensures
        planned.is_fresh(total, parts),
        planned.wf(total),
{
    let ranges = plan_range(0, total, parts);
    let mut received: Vec<u64> = Vec::new();
    let mut i: usize = 0;
    while i < ranges.len()
        invariant
            i <= ranges.len(),
            received@ == Seq::new(i as nat, |j: int| 0u64),
        decreases ranges.len() - i,
    {
        received.push(0);
        i += 1;
        assert(received@ =~= Seq::new(i as nat, |j: int| 0u64));
    }
    proof {
        plan::law_plan_tiles(0, total, parts as nat);
    }
    ResumePlan { ranges, received, resumed: false }
}

/// The plan of a download that continues after `done`.
fn resumed(total: u64, parts: u32, done: &[ByteRange]) -> (planned: ResumePlan)
    ensures
        planned.is_resume(total, parts, done@),
        planned.wf(total),
{
    let (ranges, completed) = plan_resume(total, parts, done);
    let mut received: Vec<u64> = Vec::new();
    let mut i: usize = 0;
    while i < ranges.len()
        invariant
            i <= ranges.len(),
            received@ == received_of(ranges@, completed@).take(i as int),
        decreases ranges.len() - i,
    {
        let mut k: usize = 0;
        let mut found = false;
        while k < completed.len()
            invariant
                k <= completed.len(),
                found == exists|j: int| 0 <= j < k && #[trigger] completed@[j] == i,
            decreases completed.len() - k,
        {
            if completed[k] == i {
                assert(completed@[k as int] == i);
                found = true;
            }
            k += 1;
        }
        received.push(
            if found {
                ranges[i].len()
            } else {
                0
            },
        );
        i += 1;
        assert(received@ =~= received_of(ranges@, completed@).take(i as int));
    }
    proof {
        assert(received_of(ranges@, completed@).take(i as int) =~= received_of(ranges@, completed@));
        plan::law_resume_tiles(total, parts as nat, done@);
    }
    ResumePlan { ranges, received, resumed: true }
}

/// What the layout of a download is, given what the partial file holds.
pub open spec fn laid_out(
    total: u64,
    validator: Option<Seq<char>>,
    options: Options,
    control: Option<Control>,
    part_len: u64,
    planned: Result<ResumePlan, Error>,
) -> bool {
    &&& planned matches Ok(p) ==> p.wf(total)
    &&& if !options.resume {
        planned matches Ok(p) && p.is_fresh(total, options.parts)
    } else {
        match control {
            Some(control) => planned matches Ok(p) && if same_resource(control@, total, validator) {
                p.is_resume(total, options.parts, control.done@)
            } else {
                p.is_fresh(total, options.parts)
            },
            None => if part_len == 0 {
                planned matches Ok(p) && p.is_fresh(total, options.parts)
            } else {
                planned matches Err(e) && error::is_detail(
                    e,
                    "cannot resume: no saved state in the partial file (use --restart to start over)"@,
                )
            },
        }
    }
}

/// Work out how a download is laid out. Fresh, it is the whole resource in `options.parts` chunks. Resuming,
/// the partial file's `control` lists the byte ranges already written, and the plan is rebuilt around them
/// with `options.parts` chunks, so a resume may use a different parallelism than the run that started it. A
/// partial of a resource that changed since is discarded, not stitched. A non-empty partial with no valid
/// control cannot be safely resumed (its holes are unknown), so it is an error rather than a corrupt result.
pub fn resume_plan(
    total: u64,
    validator: Option<&str>,
    options: &Options,
    control: Option<Control>,
    part_len: u64,
) -> (planned: Result<ResumePlan, Error>)
    ensures
        laid_out(total, text::model::opt_str(validator), *options, control, part_len, planned),
{
    if !options.resume {
        return Ok(fresh(total, options.parts));
    }
    match control {
        Some(control) => {
            let stored = match &control.validator {
                Some(stored) => Some(stored.as_str()),
                None => None,
            };
            if control.total == total && validators_agree(stored, validator) {
                Ok(resumed(total, options.parts, &control.done))
            } else {
                Ok(fresh(total, options.parts))
            }
        },
        None => if part_len == 0 {
            Ok(fresh(total, options.parts))
        } else {
            Err(
                Error::detail(
                    "cannot resume: no saved state in the partial file (use --restart to start over)",
                ),
            )
        },
    }
}

/// A partial of another version is never stitched: with two validators that differ, or two lengths that
/// differ, no byte of the partial counts as received.
pub proof fn law_changed_resource_is_not_stitched(
    planned: ResumePlan,
    total: u64,
    parts: u32,
    record: control::model::Record,
    validator: Option<Seq<char>>,
)
    requires
        if same_resource(record, total, validator) {
            planned.is_resume(total, parts, record.done)
        } else {
            planned.is_fresh(total, parts)
        },
        record.total != total || (record.validator is Some && validator is Some && record.validator
            != validator),
    ensures
        !planned.resumed,
        forall|i: int| 0 <= i < planned.received@.len() ==> #[trigger] planned.received@[i] == 0,
{
}

/// Every byte that a resumed plan counts as received was recorded as written: a chunk is received whole,
/// where the recorded ranges cover all of it, or not at all.
pub proof fn law_resumed_bytes_were_recorded(
    planned: ResumePlan,
    total: u64,
    parts: u32,
    done: Seq<ByteRange>,
    i: int,
    p: int,
)
    requires
        planned.is_resume(total, parts, done),
        0 <= i < planned.ranges@.len(),
        planned.ranges@[i].start <= p < planned.ranges@[i].start + planned.received@[i],
    ensures
        range::covered(done, p),
{
    assert(planned.ranges.len() == planned.ranges@.len());
    let completed = plan::resume_completed(total, parts as nat, done);
    let there = plan::present(total, done);
    plan::law_resume_aligned(total, parts as nat, done);
    let k = choose|k: int| 0 <= k < completed.len() && #[trigger] completed[k] == i;
    assert(planned.ranges@[completed[k] as int] == there[k]);
    assert(there[k].has_offset(p));
    assert(range::covered(there, p));
    plan::law_present_is_recorded(total, done, p);
}

/// A partial of a resource that did not change is kept: where a resume is asked for, the recorded length is the
/// resource's, and the two validators are the same or one of them is missing, the plan is a resumed one that
/// tiles the resource, and it counts as received exactly the bytes that were recorded, and leaves the rest to be
/// fetched.
pub proof fn law_unchanged_resource_is_resumed(
    total: u64,
    validator: Option<Seq<char>>,
    options: Options,
    control: Control,
    part_len: u64,
    planned: Result<ResumePlan, Error>,
)
    requires
        laid_out(total, validator, options, Some(control), part_len, planned),
        options.resume,
        control.total == total,
        control.validator is None || validator is None || control.validator->0@ == validator->0,
    ensures
        planned matches Ok(p) && {
            &&& p.resumed
            &&& range::tiles(p.ranges@, 0, total as int)
            &&& p.received@.len() == p.ranges@.len()
            &&& forall|at: int|
                0 <= at < total ==> #[trigger] scatter::arrived(p.received@, p.ranges@, at)
                    == range::covered(control.done@, at)
        },
{
    let p = planned->Ok_0;
    let parts = options.parts;
    let done = control.done@;
    assert forall|at: int|
        0 <= at < total implies #[trigger] scatter::arrived(p.received@, p.ranges@, at)
        == range::covered(done, at) by {
        lemma_arrived_is_recorded(p, total, parts, done, at);
    }
}

proof fn lemma_arrived_is_recorded(
    planned: ResumePlan,
    total: u64,
    parts: u32,
    done: Seq<ByteRange>,
    at: int,
)
    requires
        planned.is_resume(total, parts, done),
        planned.wf(total),
        0 <= at < total,
    ensures
        scatter::arrived(planned.received@, planned.ranges@, at) == range::covered(done, at),
{
    let ranges = planned.ranges@;
    if scatter::arrived(planned.received@, ranges, at) {
        let i = choose|i: int|
            0 <= i < ranges.len() && #[trigger] ranges[i].has_offset(at) && at < ranges[i].start
                + planned.received@[i];
        law_resumed_bytes_were_recorded(planned, total, parts, done, i, at);
    }
    if range::covered(done, at) {
        assert(planned.ranges.len() == ranges.len());
        let completed = plan::resume_completed(total, parts as nat, done);
        let there = plan::present(total, done);
        plan::law_resume_aligned(total, parts as nat, done);
        plan::law_present_is_recorded(total, done, at);
        let k = choose|k: int| 0 <= k < there.len() && #[trigger] there[k].has_offset(at);
        let i = completed[k] as int;
        assert(ranges[i] == there[k]);
        assert(completed[k] == i);
        assert(planned.received@[i] == ranges[i].size());
        assert(ranges[i].has_offset(at));
    }
}

/// A partial of a resource that changed is discarded: where the recorded length is not the resource's, or there
/// are two validators and they differ, nothing counts as received, and the whole resource is fetched in as many
/// chunks as were asked for.
pub proof fn law_changed_resource_is_fetched_anew(
    total: u64,
    validator: Option<Seq<char>>,
    options: Options,
    control: Control,
    part_len: u64,
    planned: Result<ResumePlan, Error>,
)
    requires
        laid_out(total, validator, options, Some(control), part_len, planned),
        control.total != total || (control.validator is Some && validator is Some
            && control.validator->0@ != validator->0),
    ensures
        planned matches Ok(p) && p.starts_over(total, options.parts),
{
    lemma_fresh_starts_over(planned->Ok_0, total, options.parts);
}

/// Without a resume, whatever lies on disk, and with nothing on disk, resume or not, the whole resource is
/// fetched in as many chunks as were asked for.
pub proof fn law_fresh_run_fetches_everything(
    total: u64,
    validator: Option<Seq<char>>,
    options: Options,
    control: Option<Control>,
    part_len: u64,
    planned: Result<ResumePlan, Error>,
)
    requires
        laid_out(total, validator, options, control, part_len, planned),
        !options.resume || (control is None && part_len == 0),
    ensures
        planned matches Ok(p) && p.starts_over(total, options.parts),
{
    lemma_fresh_starts_over(planned->Ok_0, total, options.parts);
}

/// A resume of a file that holds something, but no record of what, is refused: a plan is made in every other
/// case.
pub proof fn law_unknown_partial_is_refused(
    total: u64,
    validator: Option<Seq<char>>,
    options: Options,
    control: Option<Control>,
    part_len: u64,
    planned: Result<ResumePlan, Error>,
)
    requires
        laid_out(total, validator, options, control, part_len, planned),
    ensures
        planned is Err <==> options.resume && control is None && part_len > 0,
{
}

proof fn lemma_fresh_starts_over(planned: ResumePlan, total: u64, parts: u32)
    requires
        planned.is_fresh(total, parts),
    ensures
        planned.starts_over(total, parts),
{
    plan::law_plan_tiles(0, total, parts as nat);
    plan::law_plan_has_as_many_chunks_as_asked(0, total, parts as nat);
}

} // verus!
