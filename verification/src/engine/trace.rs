//! What a whole download leaves behind: the writes of all its chunks, in any order, and what is certified.

use crate::checksum::Checksum;
use crate::control;
use crate::control::Patch;
use crate::control::Writer;
use crate::digest;
use crate::engine::chunk;
use crate::engine::resume;
use crate::engine::resume::ResumePlan;
use crate::image;
use crate::plan;
use crate::range;
use crate::range::ByteRange;
use vstd::prelude::*;

verus! {

/// Some bytes, written at an offset.
pub struct Write {
    /// Where.
    pub offset: nat,
    /// What.
    pub bytes: Seq<u8>,
}

/// What a file holds after some writes, one after another.
pub open spec fn replay(image: Seq<u8>, writes: Seq<Write>) -> Seq<u8>
    decreases writes.len(),
{
    if writes.len() == 0 {
        image
    } else {
        image::write_at(replay(image, writes.drop_last()), writes.last().offset, writes.last().bytes)
    }
}

/// Whether a write puts bytes of the body where they belong in it.
pub open spec fn honest(write: Write, body: Seq<u8>) -> bool {
    &&& write.offset + write.bytes.len() <= body.len()
    &&& write.bytes == body.subrange(
        write.offset as int,
        (write.offset + write.bytes.len()) as int,
    )
}

/// Whether a write touches offset `p`.
pub open spec fn touches(write: Write, p: int) -> bool {
    write.offset <= p < write.offset + write.bytes.len()
}

/// Whether every byte of the body is either in the file from the start or written by someone.
pub open spec fn complete(image: Seq<u8>, body: Seq<u8>, writes: Seq<Write>) -> bool {
    forall|p: int|
        0 <= p < body.len() ==> (p < image.len() && (#[trigger] body[p]) == image[p]) || exists|k: int|
            0 <= k < writes.len() && touches(#[trigger] writes[k], p)
}

/// Honest writes, whatever their order and however they interleave, reassemble the body: once every byte was
/// there or has been written, the file is the body.
pub proof fn law_any_order_reassembles(image: Seq<u8>, body: Seq<u8>, writes: Seq<Write>)
    requires
        image.len() >= body.len(),
        forall|k: int| 0 <= k < writes.len() ==> honest(#[trigger] writes[k], body),
        complete(image, body, writes),
    ensures
        replay(image, writes).len() >= body.len(),
        replay(image, writes).take(body.len() as int) == body,
{
    assert forall|p: int| 0 <= p < body.len() implies p < replay(image, writes).len() && replay(
        image,
        writes,
    )[p] == body[p] by {
        lemma_replay_at(image, body, writes, p);
    }
    lemma_replay_len(image, writes);
    assert(replay(image, writes).take(body.len() as int) =~= body);
}

proof fn lemma_replay_len(image: Seq<u8>, writes: Seq<Write>)
    ensures
        replay(image, writes).len() >= image.len(),
    decreases writes.len(),
{
    if writes.len() > 0 {
        lemma_replay_len(image, writes.drop_last());
    }
}

proof fn lemma_replay_at(image: Seq<u8>, body: Seq<u8>, writes: Seq<Write>, p: int)
    requires
        0 <= p < body.len(),
        forall|k: int| 0 <= k < writes.len() ==> honest(#[trigger] writes[k], body),
        (p < image.len() && body[p] == image[p]) || exists|k: int|
            0 <= k < writes.len() && touches(#[trigger] writes[k], p),
    ensures
        p < replay(image, writes).len(),
        replay(image, writes)[p] == body[p],
    decreases writes.len(),
{
    if writes.len() > 0 {
        let last = writes.last();
        let front = writes.drop_last();
        assert(honest(writes[writes.len() - 1], body));
        if touches(last, p) {
            assert(last.bytes[p - last.offset] == body[p]);
        } else {
            assert forall|k: int| 0 <= k < front.len() implies honest(#[trigger] front[k], body) by {
                assert(front[k] == writes[k]);
            }
            if !(p < image.len() && body[p] == image[p]) {
                let k = choose|k: int| 0 <= k < writes.len() && touches(#[trigger] writes[k], p);
                assert(front[k] == writes[k]);
                assert(touches(front[k], p));
            }
            lemma_replay_at(image, body, front, p);
        }
    }
}

/// Where a partial records only bytes that are on disk, a resumed plan counts only bytes that are on disk: what
/// it takes as received of each chunk, the file holds.
pub proof fn law_resume_starts_from_held_bytes(
    image: Seq<u8>,
    body: Seq<u8>,
    planned: ResumePlan,
    total: u64,
    parts: u32,
    done: Seq<ByteRange>,
)
    requires
        planned.is_resume(total, parts, done),
        planned.wf(total),
        body.len() == total,
        image.len() >= total,
        forall|p: int| 0 <= p < total && range::covered(done, p) ==> (#[trigger] image[p]) == body[p],
    ensures
        forall|i: int|
            0 <= i < planned.ranges@.len() ==> chunk::holds(
                image,
                body,
                (#[trigger] planned.ranges@[i]).start as int,
                planned.ranges@[i].start + planned.received@[i],
            ),
{
    assert forall|i: int| 0 <= i < planned.ranges@.len() implies chunk::holds(
        image,
        body,
        (#[trigger] planned.ranges@[i]).start as int,
        planned.ranges@[i].start + planned.received@[i],
    ) by {
        let start = planned.ranges@[i].start as int;
        let end = planned.ranges@[i].start + planned.received@[i];
        assert(planned.received@[i] <= planned.ranges@[i].size());
        assert(planned.ranges@[i].start < planned.ranges@[i].end);
        lemma_within(planned.ranges@, total, i);
        assert forall|p: int| start <= p < end implies (#[trigger] image[p]) == body[p] by {
            resume::law_resumed_bytes_were_recorded(planned, total, parts, done, i, p);
        }
    }
}

proof fn lemma_within(ranges: Seq<ByteRange>, total: u64, i: int)
    requires
        range::tiles(ranges, 0, total as int),
        0 <= i < ranges.len(),
    ensures
        ranges[i].end <= total,
{
    let last = ranges.len() - 1;
    if i < last {
        plan::lemma_tiles_ordered(ranges, 0, total as int, i, last);
        assert(ranges[last].start < ranges[last].end);
    }
}

/// Whether the record in a scratch file is true: every byte of the resource that it lists as written, the file
/// holds.
pub open spec fn truthful(image: Seq<u8>, body: Seq<u8>) -> bool {
    control::model::control_of(image) matches Some(record) ==> forall|p: int|
        0 <= p < body.len() && range::covered(record.done, p) ==> p < image.len() && (#[trigger] image[p])
            == body[p]
}

/// A fresh record is true: it lists nothing.
pub proof fn law_fresh_record_is_true(
    data: Seq<u8>,
    writer: Writer,
    patch: Patch,
    validator: Option<Seq<char>>,
    source: Option<Seq<char>>,
    checksum: Checksum,
    body: Seq<u8>,
)
    requires
        data.len() == writer.total(),
        writer.began(patch, validator, source, checksum),
        control::model::optional_fits(validator),
        control::model::optional_fits(source),
    ensures
        truthful(patch.applied(data), body),
{
    control::law_create_is_read_back(data, writer, patch, validator, source, checksum);
}

/// A record stays true when a range is added to it that the file already holds.
pub proof fn law_record_of_held_bytes_stays_true(
    image: Seq<u8>,
    before: Writer,
    after: Writer,
    patch: Patch,
    range: ByteRange,
    body: Seq<u8>,
)
    requires
        before.tends(image),
        before.appended(after, patch, range),
        body.len() == before.total(),
        truthful(image, body),
        chunk::holds(image, body, range.start as int, range.end as int),
    ensures
        truthful(patch.applied(image), body),
{
    control::law_append_is_read_back(image, before, after, patch, range);
    let out = patch.applied(image);
    let old_done = control::model::control_of(image)->0.done;
    let done = control::model::control_of(out)->0.done;
    assert forall|p: int| 0 <= p < body.len() && range::covered(done, p) implies p < out.len() && (
    #[trigger] out[p]) == body[p] by {
        let i = choose|i: int| 0 <= i < done.len() && #[trigger] done[i].has_offset(p);
        if i < old_done.len() {
            assert(old_done[i] == done[i]);
            assert(range::covered(old_done, p));
        } else {
            assert(done[i] == range);
        }
        assert(image[p] == body[p]);
        assert(out.take(before.total() as int)[p] == image.take(before.total() as int)[p]);
    }
}

/// A record stays true under honest writes.
pub proof fn law_record_stays_true_under_writes(
    image: Seq<u8>,
    writer: Writer,
    body: Seq<u8>,
    write: Write,
)
    requires
        writer.tends(image),
        body.len() == writer.total(),
        honest(write, body),
        truthful(image, body),
    ensures
        truthful(image::write_at(image, write.offset, write.bytes), body),
{
    control::law_data_keeps_control(image, writer, write.offset, write.bytes);
    let out = image::write_at(image, write.offset, write.bytes);
    let done = control::model::control_of(image)->0.done;
    assert forall|p: int|
        0 <= p < body.len() && control::model::control_of(image) is Some && range::covered(done, p) implies p
        < out.len() && (#[trigger] out[p]) == body[p] by {
        assert(image[p] == body[p]);
        if touches(write, p) {
            assert(write.bytes[p - write.offset] == body[p]);
        }
    }
}

/// The digest of a download certifies the resource. Take a file that holds some of the body, any honest writes
/// that fill in the rest, and a verification that read the result from its start to the declared length: the
/// digest it returns is the digest of the body.
pub proof fn law_download_certifies_the_resource(
    image: Seq<u8>,
    body: Seq<u8>,
    writes: Seq<Write>,
    verified: Seq<u8>,
    checksum: Checksum,
)
    requires
        image.len() >= body.len(),
        forall|k: int| 0 <= k < writes.len() ==> honest(#[trigger] writes[k], body),
        complete(image, body, writes),
        verified == replay(image, writes).take(body.len() as int),
    ensures
        digest::checksum_of(checksum, verified) == digest::checksum_of(checksum, body),
{
    law_any_order_reassembles(image, body, writes);
}

} // verus!
