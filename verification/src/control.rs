//! Resume control embedded in the download's own `.xget` file, so there is one artifact, not a data file
//! plus a sidecar to keep in step.
//!
//! The layout is `[data: 0..total][trailer: completed-range text][footer: fixed]`. The sparse data occupies
//! `[0, total)`; a text trailer records, one per line, an optional `url <source>`, an optional
//! `tag <validator>`, `algo <checksum>`, and `done <start> <end>` for the byte ranges written and flushed;
//! a fixed footer at the very end carries a magic, the total, and the trailer length, so a later run can
//! find the trailer without knowing the total in advance. Chunk writes only ever touch the data region, and
//! control appends only ever touch the trailer and footer, so the two never collide. On success the trailer
//! and footer are truncated away, leaving the file a byte-exact image to rename into place. A file whose
//! footer does not validate (a foreign or truncated file) is simply not resumable.

use crate::checksum::Checksum;
use crate::error;
use crate::error::Error;
use crate::image;
use crate::range;
use crate::range::union_len;
use crate::range::ByteRange;
use crate::text;
use vstd::bytes::*;
use vstd::prelude::*;
use vstd::slice::slice_subrange;
use vstd::slice::slice_to_vec;
use vstd::string::*;
use vstd::utf8::*;

pub mod model;

verus! {

/// The fixed footer: magic (8) + total (8) + trailer length (8) + reserved (8).
pub const FOOTER: u64 = 32;

/// The resumable state read from a `.xget` file: the resource length and the completed byte ranges.
#[derive(Debug)]
pub struct Control {
    /// The resource's total length, to detect a stale control against a changed resource.
    pub total: u64,
    /// The resource validator recorded when the partial was written: an HTTP `ETag` when the server offered
    /// one, else `Last-Modified`, else the source's own immutable identity (an IPFS CID). `None` when the
    /// source offered no validator, in which case resume falls back to the length alone.
    pub validator: Option<String>,
    /// The source's re-openable reference (its URL) when it had one, so a resume can rebuild the source
    /// from this file alone.
    pub source: Option<String>,
    /// The checksum algorithm the download was verifying with, so a standalone resume reports the same
    /// digest the first run would have. `None` for a control without it.
    pub checksum: Option<Checksum>,
    /// The byte ranges recorded as written, each an absolute `[start, end)`. May overlap or be partial (a
    /// checkpoint of an in-flight chunk): the planner clamps and merges them.
    pub done: Vec<ByteRange>,
}

impl View for Control {
    type V = model::Record;

    open spec fn view(&self) -> model::Record {
        model::Record {
            total: self.total,
            validator: text::model::opt_view(self.validator),
            source: text::model::opt_view(self.source),
            checksum: self.checksum,
            done: self.done@,
        }
    }
}

/// What an optional control records.
pub open spec fn opt_record(control: Option<Control>) -> Option<model::Record> {
    match control {
        Some(control) => Some(control@),
        None => None,
    }
}

/// The eight bytes of `bytes` from `at` on.
fn eight(bytes: &[u8], at: usize) -> (n: u64)
    requires
        at + 8 <= bytes@.len(),
        at < 64,
    ensures
        n == spec_u64_from_le_bytes(bytes@.subrange(at as int, at + 8)),
{
    let end: usize = at + 8;
    u64_from_le_bytes(slice_subrange(bytes, at, end))
}

/// Whether `footer` opens with the magic of a control footer.
fn has_magic(footer: &[u8]) -> (r: bool)
    requires
        footer@.len() == FOOTER,
    ensures
        r == (footer@.take(8) == model::magic()),
{
    let r = footer[0] == 0x58 && footer[1] == 0x47 && footer[2] == 0x45 && footer[3] == 0x54
        && footer[4] == 0x43 && footer[5] == 0x54 && footer[6] == 0x4c && footer[7] == 0x31;
    proof {
        let front = footer@.take(8);
        if r {
            assert(front =~= model::magic());
        } else {
            assert(front[0] == footer@[0] && front[1] == footer@[1] && front[2] == footer@[2]
                && front[3] == footer@[3] && front[4] == footer@[4] && front[5] == footer@[5]
                && front[6] == footer@[6] && front[7] == footer@[7]);
        }
    }
    r
}

/// Where the footer of a file of `size` bytes starts, or `None` if the file is too short to have one.
pub fn footer_offset(size: u64) -> (at: Option<u64>)
    ensures
        at == (if size < FOOTER {
            None::<u64>
        } else {
            Some((size - FOOTER) as u64)
        }),
{
    if size < FOOTER {
        None
    } else {
        Some(size - FOOTER)
    }
}

/// The total and the trailer length of a file of `size` bytes that ends in `footer`, or `None` if the footer
/// does not validate: the layout must add up exactly, or this is not a control we wrote.
pub fn locate(footer: &[u8], size: u64) -> (at: Option<(u64, u64)>)
    requires
        footer@.len() == FOOTER,
    ensures
        at == model::layout(footer@, size as nat),
{
    if !has_magic(footer) {
        return None;
    }
    let total = eight(footer, 8);
    let trailer = eight(footer, 16);
    match total.checked_add(trailer) {
        Some(end) => match end.checked_add(FOOTER) {
            Some(all) => if all == size {
                Some((total, trailer))
            } else {
                None
            },
            None => None,
        },
        None => None,
    }
}

/// The range that a line of the trailer records, if it does.
fn done_range(line: &[char]) -> (range: Option<ByteRange>)
    ensures
        range == model::done_range(line@),
{
    let words = text::words(line);
    let ghost w = text::model::words(line@);
    if words.len() < 3 {
        return None;
    }
    assert(words@[0]@ == w[0] && words@[1]@ == w[1] && words@[2]@ == w[2]);
    let done = text::chars_of("done");
    if !text::same(&words[0], &done) {
        return None;
    }
    match (text::parse_u64(&words[1]), text::parse_u64(&words[2])) {
        (Some(start), Some(end)) => Some(ByteRange { start, end }),
        _ => None,
    }
}

/// What the trailer of a control says, or `None` if it is not text.
pub fn parse(total: u64, trailer: Vec<u8>) -> (control: Option<Control>)
    ensures
        opt_record(control) == model::parsed(total, trailer@),
{
    let text = match text::from_utf8(trailer) {
        Some(text) => text,
        None => return None,
    };
    let chars = text::chars_of(text.as_str());
    let lines = text::lines(&chars);
    let ghost all = text::model::lines(chars@);
    let mut control = Control {
        total,
        validator: None,
        source: None,
        checksum: None,
        done: Vec::new(),
    };
    let mut i: usize = 0;
    assert(control@ =~= model::blank(total));
    while i < lines.len()
        invariant
            i <= lines.len(),
            text::model::views(lines@) == all,
            control@ == model::with_lines(model::blank(total), all.take(i as int)),
        decreases lines.len() - i,
    {
        let line = &lines[i];
        let ghost before = control@;
        assert(line@ == all[i as int]);
        assert(all.take(i + 1).drop_last() =~= all.take(i as int));
        // The value is the rest of the line, so it may carry spaces.
        if let Some(value) = text::strip_prefix(line, "url ") {
            control.source = Some(text::string_of(value));
        } else if let Some(value) = text::strip_prefix(line, "tag ") {
            control.validator = Some(text::string_of(value));
        } else if let Some(value) = text::strip_prefix(line, "algo ") {
            let name = text::string_of(value);
            control.checksum = match Checksum::from_str(name.as_str()) {
                Ok(checksum) => Some(checksum),
                Err(_) => None,
            };
        } else if let Some(range) = done_range(line) {
            control.done.push(range);
        }
        assert(control@ =~= model::with_line(before, line@));
        i += 1;
    }
    assert(all.take(i as int) =~= all);
    Some(control)
}

/// The control embedded in a file that holds `image`, or `None` if the file is too short, or its footer does
/// not validate.
pub fn read(image: &[u8]) -> (control: Option<Control>)
    ensures
        opt_record(control) == model::control_of(image@),
{
    let size = image.len();
    if size < 32 {
        return None;
    }
    let footer = slice_subrange(image, size - 32, size);
    assert(footer@ =~= image@.skip(size - 32));
    match locate(footer, size as u64) {
        Some((total, trailer)) => {
            let text = slice_subrange(image, total as usize, (total + trailer) as usize);
            parse(total, slice_to_vec(text))
        },
        None => None,
    }
}

/// Whether a file holds a resumable download, given what its control says: a caller can resume automatically
/// without an explicit request.
pub fn resumable(control: &Option<Control>) -> (r: bool)
    ensures
        r == control is Some,
{
    control.is_some()
}

/// The source URL recorded in a control, if it is a valid control that stored one. This lets a caller resume
/// from the partial alone, with no URL given again.
pub fn control_source(control: Option<Control>) -> (source: Option<String>)
    ensures
        source == match control {
            Some(control) => control.source,
            None => None,
        },
{
    match control {
        Some(control) => control.source,
        None => None,
    }
}

/// A run of bytes to write at an offset of the `.xget` file.
#[derive(Debug)]
pub struct Patch {
    /// Where the bytes go.
    pub offset: u64,
    /// What to write.
    pub bytes: Vec<u8>,
}

impl Patch {
    /// What a file that held `image` holds once the patch is written.
    pub open spec fn applied(self, image: Seq<u8>) -> Seq<u8> {
        image::write_at(image, self.offset as nat, self.bytes@)
    }
}

/// The fixed footer bytes for a trailer of `trailer` bytes past a data region of `total` bytes.
pub fn footer_bytes(total: u64, trailer: u64) -> (bytes: Vec<u8>)
    ensures
        bytes@ == model::footer(total, trailer),
        bytes@.len() == FOOTER,
{
    let mut bytes: Vec<u8> = vec![0x58, 0x47, 0x45, 0x54, 0x43, 0x54, 0x4c, 0x31];
    let mut total_bytes = u64_to_le_bytes(total);
    let mut trailer_bytes = u64_to_le_bytes(trailer);
    let mut reserved: Vec<u8> = vec![0, 0, 0, 0, 0, 0, 0, 0];
    bytes.append(&mut total_bytes);
    bytes.append(&mut trailer_bytes);
    bytes.append(&mut reserved);
    assert(bytes@ =~= model::footer(total, trailer));
    bytes
}

/// Keeps the control of a `.xget` file: says what to write where to append completed or checkpointed byte
/// ranges to its trailer, the footer stamped anew after each, and where to cut them off on finish.
#[derive(Debug)]
pub struct Writer {
    total: u64,
    trailer: u64,
}

impl Writer {
    /// The length of the data region.
    pub closed spec fn total(self) -> u64 {
        self.total
    }

    /// The current trailer length in bytes (the footer sits immediately after it).
    pub closed spec fn trailer(self) -> u64 {
        self.trailer
    }

    /// Whether a file that holds `image` is laid out as this writer takes it to be, its trailer text that
    /// ends with its last line.
    pub open spec fn tends(self, image: Seq<u8>) -> bool {
        let end = self.total() + self.trailer();
        let text = image.subrange(self.total() as int, end);
        &&& image.len() == end + FOOTER
        &&& model::layout(image.skip(end), image.len()) == Some((self.total(), self.trailer()))
        &&& valid_utf8(text)
        &&& self.trailer() > 0 ==> decode_utf8(text).len() > 0 && decode_utf8(text).last() == '\n'
    }

    /// Whether a control was begun by writing `patch`.
    pub open spec fn began(
        self,
        patch: Patch,
        validator: Option<Seq<char>>,
        source: Option<Seq<char>>,
        checksum: Checksum,
    ) -> bool {
        let text = encode_utf8(model::opening(validator, source, checksum));
        &&& self.trailer() == text.len()
        &&& patch.offset == self.total()
        &&& patch.bytes@ == text + model::footer(self.total(), self.trailer())
    }

    /// Whether a range was recorded by writing `patch`, which left the control as `after` has it.
    pub open spec fn appended(self, after: Writer, patch: Patch, range: ByteRange) -> bool {
        let line = encode_utf8(model::done_line(range));
        &&& after.total() == self.total()
        &&& after.trailer() == self.trailer() + line.len()
        &&& patch.offset == self.total() + self.trailer()
        &&& patch.bytes@ == line + model::footer(after.total(), after.trailer())
    }

    /// Whether one more range can be recorded before the file's size no longer fits in 64 bits.
    pub open spec fn room(self) -> bool {
        self.total() + self.trailer() + 47 + FOOTER <= u64::MAX
    }

    /// Whether one more range can be recorded before the file's size no longer fits in 64 bits.
    pub fn has_room(&self) -> (r: bool)
        ensures
            r == self.room(),
    {
        self.trailer <= 0xffff_ffff_ffff_ffff - 47 - FOOTER && self.total <= 0xffff_ffff_ffff_ffff - 47
            - FOOTER - self.trailer
    }

    /// Begin control for a freshly allocated file whose data region already has `total` bytes: seed the
    /// trailer with the resource `source` (its URL, if any) as a `url` line, the `validator` (if any) as a
    /// `tag` line and the algorithm as an `algo` line, then the footer.
    pub fn create(
        total: u64,
        validator: Option<&str>,
        source: Option<&str>,
        checksum: Checksum,
    ) -> (made: (Writer, Patch))
        ensures
            made.0.total() == total,
            made.0.began(
                made.1,
                text::model::opt_str(validator),
                text::model::opt_str(source),
                checksum,
            ),
    {
        let mut opening = String::new();
        if let Some(source) = source {
            opening.append("url ");
            opening.append(source);
            opening.append("\n");
        }
        proof {
            reveal_strlit("\n");
            assert(opening@ =~= model::optional_line("url "@, text::model::opt_str(source)));
        }
        let ghost url = opening@;
        if let Some(value) = validator {
            opening.append("tag ");
            opening.append(value);
            opening.append("\n");
        }
        assert(opening@ =~= url + model::optional_line("tag "@, text::model::opt_str(validator)));
        opening.append("algo ");
        opening.append(checksum.name());
        opening.append("\n");
        assert(opening@ =~= model::opening(
            text::model::opt_str(validator),
            text::model::opt_str(source),
            checksum,
        ));
        let mut bytes = text::encode(opening.as_str());
        let trailer = bytes.len() as u64;
        let mut footer = footer_bytes(total, trailer);
        bytes.append(&mut footer);
        (Writer { total, trailer }, Patch { offset: total, bytes })
    }

    /// Reopen control for a resumed file of `size` bytes, to append after its existing trailer. The caller
    /// has already validated the footer (via [`read`]) and that its total matches.
    pub fn open(size: u64, total: u64) -> (opened: Result<Writer, Error>)
        ensures
            match opened {
                Ok(writer) => size >= total + FOOTER && writer.total() == total && writer.trailer()
                    == size - total - FOOTER,
                Err(e) => size < total + FOOTER && error::is_detail(
                    e,
                    "control file is smaller than its own layout"@,
                ),
            },
    {
        if size < total || size - total < FOOTER {
            Err(Error::detail("control file is smaller than its own layout"))
        } else {
            Ok(Writer { total, trailer: size - total - FOOTER })
        }
    }

    /// Append `range` as written and stamp the footer anew. The line and the new footer are one contiguous
    /// run of bytes at the current footer's position, so the file never sits with the line in place but the
    /// footer not yet updated. Recording a range twice, or a prefix then a longer one, is harmless: the
    /// planner merges them.
    pub fn append(&mut self, range: ByteRange) -> (patch: Patch)
        requires
            old(self).room(),
        ensures
            old(self).appended(*final(self), patch, range),
    {
        let mut line = String::new();
        line.append("done ");
        text::push_decimal(&mut line, range.start);
        line.push(' ');
        text::push_decimal(&mut line, range.end);
        line.push('\n');
        assert(line@ =~= model::done_line(range));
        proof {
            model::lemma_done_line_len(range);
        }
        let mut bytes = text::encode(line.as_str());
        let trailer = self.trailer + bytes.len() as u64;
        let mut footer = footer_bytes(self.total, trailer);
        bytes.append(&mut footer);
        let offset = self.total + self.trailer;
        self.trailer = trailer;
        Patch { offset, bytes }
    }

    /// The length to cut the file off at, which takes the trailer and footer away and leaves a byte-exact
    /// image of the resource.
    pub fn finish(&self) -> (len: u64)
        ensures
            len == self.total(),
    {
        self.total
    }
}

/// A read-only summary of a `.xget` control file, for inspecting a partial without touching the network.
#[derive(Debug)]
pub struct Inspection {
    /// The source URL recorded in the control, if the source had a re-openable one.
    pub source: Option<String>,
    /// The resource's total length in bytes.
    pub total: u64,
    /// Bytes already on disk: the union of the ranges recorded as written (overlaps counted once).
    pub downloaded: u64,
    /// The resource validator (an `ETag`/`Last-Modified`/CID), if one was recorded.
    pub validator: Option<String>,
    /// The checksum algorithm the download was verifying with, if the control recorded one.
    pub checksum: Option<Checksum>,
}

/// Whether this is the summary of a control file.
pub open spec fn inspected(control: Option<Control>, inspection: Option<Inspection>) -> bool {
    match control {
        Some(control) => {
            &&& inspection matches Some(i)
            &&& i.source == control.source
            &&& i.total == control.total
            &&& i.downloaded == range::cover_set(control.done@).len()
            &&& i.validator == control.validator
            &&& i.checksum == control.checksum
        },
        None => inspection is None,
    }
}

/// Summarize what a `.xget` control file says, or `None` if it is not a valid control.
pub fn inspect(control: Option<Control>) -> (inspection: Option<Inspection>)
    ensures
        inspected(control, inspection),
{
    match control {
        Some(control) => {
            let downloaded = union_len(&control.done);
            Some(
                Inspection {
                    source: control.source,
                    total: control.total,
                    downloaded,
                    validator: control.validator,
                    checksum: control.checksum,
                },
            )
        },
        None => None,
    }
}

/// A control that was just begun is read back as what it was begun with: the total, the validator, the
/// source and the algorithm, and nothing done. The validator and the source have to fit on a line.
pub proof fn law_create_is_read_back(
    data: Seq<u8>,
    writer: Writer,
    patch: Patch,
    validator: Option<Seq<char>>,
    source: Option<Seq<char>>,
    checksum: Checksum,
)
    requires
        data.len() == writer.total(),
        writer.began(patch, validator, source, checksum),
        model::optional_fits(validator),
        model::optional_fits(source),
    ensures
        writer.tends(patch.applied(data)),
        model::control_of(patch.applied(data)) == Some(
            (model::Record {
                total: writer.total(),
                validator,
                source,
                checksum: Some(checksum),
                done: Seq::empty(),
            }),
        ),
        patch.applied(data).take(writer.total() as int) == data,
{
    let opening = model::opening(validator, source, checksum);
    let text = encode_utf8(opening);
    let image = patch.applied(data);
    let total = writer.total();
    let end = total + text.len();
    model::lemma_layout(total, writer.trailer());
    assert(image.skip(end) =~= model::footer(total, writer.trailer()));
    assert(image.subrange(total as int, end) =~= text);
    encode_utf8_valid_utf8(opening);
    encode_utf8_decode_utf8(opening);
    model::lemma_opening(total, validator, source, checksum);
    assert(image.take(total as int) =~= data);
}

/// What a file says whose layout a writer keeps is what its trailer says.
proof fn lemma_kept_control(writer: Writer, image: Seq<u8>)
    requires
        writer.tends(image),
    ensures
        model::control_of(image) == model::parsed(
            writer.total(),
            image.subrange(writer.total() as int, writer.total() + writer.trailer()),
        ),
{
    model::lemma_layout(writer.total(), writer.trailer());
}

/// Recording a range adds that range to what the file says, and nothing else: what it said before stands,
/// and the data is untouched.
pub proof fn law_append_is_read_back(
    image: Seq<u8>,
    before: Writer,
    after: Writer,
    patch: Patch,
    range: ByteRange,
)
    requires
        before.tends(image),
        before.appended(after, patch, range),
    ensures
        after.tends(patch.applied(image)),
        model::control_of(image) is Some,
        model::control_of(patch.applied(image)) == Some(
            (model::Record {
                done: model::control_of(image)->0.done.push(range),
                ..model::control_of(image)->0
            }),
        ),
        patch.applied(image).take(before.total() as int) == image.take(before.total() as int),
{
    let total = before.total() as int;
    let line = encode_utf8(model::done_line(range));
    let out = patch.applied(image);
    let old_end = total + before.trailer();
    let end = total + after.trailer();
    let old_text = image.subrange(total, old_end);
    let text = out.subrange(total, end);
    model::lemma_layout(before.total(), before.trailer());
    model::lemma_layout(after.total(), after.trailer());
    assert(out.len() == end + FOOTER);
    assert(out.skip(end) =~= model::footer(after.total(), after.trailer()));
    assert(text =~= old_text + line);
    encode_utf8_valid_utf8(model::done_line(range));
    encode_utf8_decode_utf8(model::done_line(range));
    text::model::lemma_decode_concat(old_text, line);
    let record = model::with_lines(
        model::blank(before.total()),
        text::model::lines(decode_utf8(old_text)),
    );
    model::lemma_done_line(record, range);
    if before.trailer() == 0 {
        assert(old_text =~= Seq::<u8>::empty());
        assert(decode_utf8(old_text) =~= Seq::<char>::empty());
    }
    model::lemma_with_text(
        model::blank(before.total()),
        decode_utf8(old_text),
        model::done_line(range),
    );
    assert(decode_utf8(text).last() == model::done_line(range).last());
    lemma_kept_control(before, image);
    lemma_kept_control(after, out);
    assert(out.take(total) =~= image.take(total));
}

/// Writing data never changes what the control says: a write within the data region leaves the trailer and
/// the footer as they are.
pub proof fn law_data_keeps_control(image: Seq<u8>, writer: Writer, offset: nat, bytes: Seq<u8>)
    requires
        writer.tends(image),
        offset + bytes.len() <= writer.total(),
    ensures
        writer.tends(image::write_at(image, offset, bytes)),
        model::control_of(image::write_at(image, offset, bytes)) == model::control_of(image),
{
    let out = image::write_at(image, offset, bytes);
    let total = writer.total() as int;
    let end = total + writer.trailer();
    assert(out.skip(end) =~= image.skip(end));
    assert(out.subrange(total, end) =~= image.subrange(total, end));
    lemma_kept_control(writer, image);
    lemma_kept_control(writer, out);
}

/// Finishing leaves the data, byte for byte, and nothing else.
pub proof fn law_finish_leaves_data(image: Seq<u8>, writer: Writer)
    requires
        writer.tends(image),
    ensures
        image::resized(image, writer.total() as nat) == image.take(writer.total() as int),
{
    assert(image::resized(image, writer.total() as nat) =~= image.take(writer.total() as int));
}

/// A resumed file is opened with the layout that its footer states, so the writer keeps it, provided that its
/// trailer ends with its last line.
pub proof fn law_open_agrees_with_read(image: Seq<u8>, writer: Writer)
    requires
        model::control_of(image) is Some,
        writer.total() == model::control_of(image)->0.total,
        image.len() == writer.total() + writer.trailer() + FOOTER,
    ensures
        model::layout(image.skip(image.len() - FOOTER), image.len()) == Some(
            (writer.total(), writer.trailer()),
        ),
        ({
            let text = decode_utf8(
                image.subrange(writer.total() as int, writer.total() + writer.trailer()),
            );
            (writer.trailer() == 0 || (text.len() > 0 && text.last() == '\n')) == writer.tends(image)
        }),
{
    let (total, trailer) = model::layout(image.skip(image.len() - FOOTER), image.len())->0;
    let text = image.subrange(total as int, total + trailer);
    lemma_total_kept(model::blank(total), text::model::lines(decode_utf8(text)));
}

proof fn lemma_total_kept(record: model::Record, lines: Seq<Seq<char>>)
    ensures
        model::with_lines(record, lines).total == record.total,
    decreases lines.len(),
{
    if lines.len() > 0 {
        lemma_total_kept(record, lines.drop_last());
    }
}

/// A summary says what the control records, and how many bytes of data it records, each counted once however often
/// it was recorded: where the recorded ranges cover a stretch and nothing else, that is its length.
pub proof fn law_summary_counts_bytes_once(control: Control, inspection: Option<Inspection>, a: u64, b: u64)
    requires
        inspected(Some(control), inspection),
        a <= b,
        forall|p: int| range::covered(control.done@, p) <==> a <= p < b,
    ensures
        inspection matches Some(i) && {
            &&& i.downloaded == b - a
            &&& i.total == control.total
            &&& i.source == control.source
            &&& i.validator == control.validator
            &&& i.checksum == control.checksum
        },
{
    let stretch = seq![ByteRange { start: a, end: b }];
    let none = Seq::<ByteRange>::empty();
    if a < b {
        assert(range::separated(stretch));
        range::lemma_total_size_is_count(stretch);
        reveal_with_fuel(range::total_size, 2);
        assert forall|p: int| range::covered(stretch, p) == range::covered(control.done@, p) by {
            if a <= p < b {
                assert(stretch[0].has_offset(p));
            }
        }
        assert(range::cover_set(stretch) =~= range::cover_set(control.done@));
    } else {
        range::lemma_total_size_is_count(none);
        assert(range::cover_set(none) =~= range::cover_set(control.done@));
    }
}

/// What is no control has no summary.
pub proof fn law_no_control_no_summary(inspection: Option<Inspection>)
    requires
        inspected(None, inspection),
    ensures
        inspection is None,
{
}

} // verus!
