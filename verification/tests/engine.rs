//! The engine, driven over files and sources that live in memory.

use core::cell::{Cell, RefCell};

use sha2::{Digest as _, Sha256};
use xget::control::{self, Writer};
use xget::engine::chunk::{backoff, wait, Attempt, ChunkTask};
use xget::engine::output::{Delivery, Target};
use xget::engine::resume::{resume_plan, validators_agree};
use xget::engine::scatter::{chunk_of, contiguous_run, settle, Scatter};
use xget::engine::scratch::{
    is_alive, is_orphan, orphan_pid, part_path, scratch_name, signal_target, suspect,
};
use xget::engine::session::{Action, Event, Phase, Session};
use xget::engine::stream::StreamTask;
use xget::engine::verify::{ReadBack, Verifier};
use xget::error::short_error;
use xget::{ByteRange, Checksum, Error, Options, Output, Probe, Progress, Report};

/// How a source answers a range fetch: honestly, or with a specific injected fault.
#[derive(Clone, Copy)]
enum Behavior {
    /// Serve exactly the bytes asked for.
    Honest,
    /// Refuse the range, as a source does whose server answered `200` with the whole body.
    IgnoreRange,
    /// Serve one byte fewer than the range asks for, so the declared length is never satisfied.
    ShortByOne,
    /// Serve one byte more than the range asks for.
    LongByOne,
    /// Serve exactly the range, and then one byte more in a piece of its own.
    OneMore,
    /// Fail the very first fetch outright, then serve honestly, so a retry can recover.
    FailFirstFetch,
    /// Fail every fetch that starts at or past this offset.
    FailFrom(u64),
    /// Serve three bytes of the first fetch and then fail, so the retry has to resume.
    DropFirstFetch,
}

struct FakeSource {
    body: Vec<u8>,
    supports_ranges: bool,
    behavior: Behavior,
    validator: Option<String>,
    identity: Option<String>,
    fetches: RefCell<Vec<Option<ByteRange>>>,
}

/// What a fetch delivers: some pieces, and then perhaps an error.
type Stream = (Vec<Vec<u8>>, Option<Error>);

impl FakeSource {
    fn new(body: Vec<u8>, supports_ranges: bool, behavior: Behavior) -> Self {
        Self {
            body,
            supports_ranges,
            behavior,
            validator: None,
            identity: None,
            fetches: RefCell::new(Vec::new()),
        }
    }

    fn honest(body: Vec<u8>) -> Self {
        Self::new(body, true, Behavior::Honest)
    }

    fn probe(&self) -> Probe {
        Probe {
            length: self.body.len() as u64,
            supports_ranges: self.supports_ranges,
            validator: self.validator.clone(),
            ..Probe::default()
        }
    }

    fn fetch(&self, range: Option<ByteRange>) -> Result<Stream, Error> {
        let attempt = self.fetches.borrow().len();
        self.fetches.borrow_mut().push(range);
        let Some(range) = range else {
            return Ok((pieces(&self.body), None));
        };
        let start = range.start as usize;
        let end = (range.end as usize).min(self.body.len());
        match self.behavior {
            Behavior::IgnoreRange => Err(Error::RangeNotHonored { requested: range }),
            Behavior::ShortByOne => Ok((pieces(&self.body[start..(end - 1).max(start)]), None)),
            Behavior::LongByOne => {
                let mut long = self.body[start..end].to_vec();
                long.push(0);
                Ok((vec![long], None))
            }
            Behavior::OneMore => Ok((vec![self.body[start..end].to_vec(), vec![0]], None)),
            Behavior::FailFirstFetch if attempt == 0 => Err(Error::detail("injected")),
            Behavior::DropFirstFetch if attempt == 0 => Ok((
                vec![self.body[start..start + 3].to_vec()],
                Some(Error::detail("dropped")),
            )),
            Behavior::FailFrom(from) if range.start >= from => Err(Error::detail("drop")),
            _ => Ok((pieces(&self.body[start..end]), None)),
        }
    }
}

fn pieces(data: &[u8]) -> Vec<Vec<u8>> {
    data.chunks(7).map(<[u8]>::to_vec).collect()
}

/// A scratch file, the output it becomes, and a writer.
#[derive(Default)]
struct Disk {
    part: Option<Vec<u8>>,
    file: Option<Vec<u8>>,
    writer: Vec<u8>,
    clock: u64,
    /// Whether the chunks of a fresh run arrive from the first to the last.
    in_order: bool,
}

impl Disk {
    fn write(&mut self, offset: u64, bytes: &[u8]) {
        let image = self.part.as_mut().expect("a scratch to write to");
        let end = offset as usize + bytes.len();
        if image.len() < end {
            image.resize(end, 0);
        }
        image[offset as usize..end].copy_from_slice(bytes);
    }
}

fn sample_body(len: usize) -> Vec<u8> {
    (0..len).map(|i| (i * 31 + 7) as u8).collect()
}

fn sha256_hex(data: &[u8]) -> String {
    hex::encode(Sha256::digest(data))
}

fn options(parts: u32, retries: u32, checksum: Checksum, resume: bool) -> Options {
    Options {
        parts,
        retries,
        checksum,
        resume,
        ..Options::default()
    }
}

/// Fetch one chunk into the scratch, the way a fetcher does.
fn fetch_chunk<P: Progress>(
    source: &FakeSource,
    disk: &mut Disk,
    scatter: &mut Scatter,
    writer: &mut Writer,
    index: usize,
    retries: u32,
    progress: &P,
) -> Result<(), Error> {
    let Some(mut task) = scatter.task(index, retries, disk.clock) else {
        return Ok(());
    };
    while let Attempt::Fetch { range, .. } = task.next(0) {
        let mut fill = |task: &mut ChunkTask| -> Result<(), Error> {
            let (pieces, error) = source.fetch(Some(range))?;
            for piece in pieces {
                let len = piece.len() as u64;
                task.accept(len)?;
                disk.write(task.offset(), &piece);
                let received = task.landed(len);
                scatter.record(index, received);
                progress.received(index, len);
                disk.clock += 400_000_000;
                if let Some(range) = task.checkpoint_due(disk.clock) {
                    let patch = writer.append(range);
                    disk.write(patch.offset, &patch.bytes);
                    task.checkpoint_done(disk.clock);
                }
            }
            error.map_or(Ok(()), Err)
        };
        if let Err(error) = fill(&mut task) {
            if let Some(retry) = task.failed(error) {
                progress.retry(retry.index, retry.retry, retry.max, retry.resume_from, &retry.error);
            }
        }
    }
    let range = task.finish()?;
    let patch = writer.append(range);
    disk.write(patch.offset, &patch.bytes);
    Ok(())
}

/// Read the scratch back in order and certify it.
fn verify<P: Progress>(
    disk: &Disk,
    scatter: &Scatter,
    total: u64,
    checksum: Checksum,
    progress: &P,
) -> Result<Option<String>, Error> {
    let image = disk.part.as_ref().expect("a scratch to verify");
    let mut verifier = Verifier::new(scatter.plan(), total, checksum);
    let mut at = 0;
    loop {
        verifier.survey(scatter.counts(), scatter.has_failed())?;
        while let Some((index, want)) = verifier.next_span() {
            loop {
                let n = verifier.want(5);
                if n == 0 {
                    break;
                }
                verifier.absorb(&image[at..at + n])?;
                at += n;
            }
            progress.wrote(index, want);
        }
        if verifier.complete() {
            return Ok(verifier.certify());
        }
        assert!(scatter.has_failed(), "nothing more is coming");
    }
}

fn scatter_all<P: Progress>(
    source: &FakeSource,
    disk: &mut Disk,
    mut scatter: Scatter,
    mut writer: Writer,
    total: u64,
    options: Options,
    progress: &P,
) -> Result<Option<String>, Error> {
    progress.start(&scatter.sizes());
    if let Some(present) = scatter.restored() {
        progress.restore(present);
    }
    let mut fetched = Ok(());
    // A fresh run may finish its chunks in any order: take them from the last, unless told otherwise.
    let backwards = scatter.restored().is_none() && !disk.in_order;
    for step in 0..scatter.chunks() {
        let index = if backwards { scatter.chunks() - 1 - step } else { step };
        fetched = fetch_chunk(source, disk, &mut scatter, &mut writer, index, options.retries, progress);
        if fetched.is_err() {
            scatter.fail();
            break;
        }
    }
    let hashed = verify(disk, &scatter, total, options.checksum, progress);
    settle(fetched, hashed)
}

/// Run a download against the in-memory disk.
fn run<P: Progress>(
    source: &FakeSource,
    disk: &mut Disk,
    output: Output<(), ()>,
    options: Options,
    progress: &P,
) -> Result<Report, Error> {
    let mut session = Session::new(&output, options, source.identity.clone());
    let mut event = Event::Probed(source.probe());
    loop {
        let (next, action) = session.step(event);
        session = next;
        let options = session.options;
        let total = match &session.phase {
            Phase::Scattering { length } | Phase::Streaming { length } => *length,
            _ => 0,
        };
        let outcome = match action {
            Action::ReadPartial => {
                let image = disk.part.clone().unwrap_or_default();
                Ok(Event::Partial {
                    control: control::read(&image),
                    len: image.len() as u64,
                })
            }
            Action::Reopen(plan) => {
                let size = disk.part.as_ref().map_or(0, Vec::len) as u64;
                Writer::open(size, total).and_then(|writer| {
                    let scatter = Scatter::new(plan, total);
                    scatter_all(source, disk, scatter, writer, total, options, progress)
                        .map(Event::Fetched)
                })
            }
            Action::Allocate {
                plan,
                validator,
                source: identity,
                checksum,
            } => {
                disk.part = Some(vec![0; total as usize]);
                let (writer, patch) =
                    Writer::create(total, validator.as_deref(), identity.as_deref(), checksum);
                disk.write(patch.offset, &patch.bytes);
                let scatter = Scatter::new(plan, total);
                scatter_all(source, disk, scatter, writer, total, options, progress).map(Event::Fetched)
            }
            Action::Stream => {
                progress.start(&[total]);
                let target = output.target();
                if target == Target::Scratch {
                    disk.part = Some(Vec::new());
                }
                let mut task = StreamTask::new(total, options.checksum);
                source.fetch(None).and_then(|(pieces, _)| {
                    for piece in pieces {
                        assert!(task.has_room(piece.len()));
                        task.absorb(&piece);
                        match target {
                            Target::Scratch => disk.part.as_mut().unwrap().extend(&piece),
                            Target::Writer => disk.writer.extend(&piece),
                            Target::Nowhere => {}
                        }
                    }
                    task.certify().map(Event::Fetched)
                })
            }
            Action::Truncate(len) => {
                disk.part.as_mut().unwrap().truncate(len as usize);
                Ok(Event::Done)
            }
            Action::Deliver => {
                let image = disk.part.take().expect("a scratch to deliver");
                let delivery = output.delivery();
                if delivery.copy {
                    disk.writer.extend(&image);
                }
                if delivery.rename {
                    disk.file = Some(image);
                }
                Ok(Event::Done)
            }
            Action::Complete(report) => {
                progress.finish();
                return Ok(report);
            }
            Action::Fail(error) => return Err(error),
        };
        event = outcome.unwrap_or_else(Event::Failed);
    }
}

fn file() -> Output<(), ()> {
    Output::file(())
}

#[test]
fn a_clean_parallel_download_verifies_to_the_right_hash() {
    let body = sample_body(4096);
    let source = FakeSource::honest(body.clone());
    let mut disk = Disk::default();
    let report = run(&source, &mut disk, file(), options(5, 10, Checksum::Sha256, false), &())
        .expect("a clean parallel download succeeds");
    assert_eq!(report.length, body.len() as u64, "the whole resource");
    assert_eq!(
        report.hash.as_deref(),
        Some(sha256_hex(&body).as_str()),
        "the verified digest matches the known bytes"
    );
    assert_eq!(disk.file, Some(body), "every byte landed at its offset");
    assert_eq!(disk.part, None);
}

/// A reporter that counts what it is told.
#[derive(Default)]
struct Recorder {
    retries: Cell<u32>,
    resumed_from: Cell<u64>,
    received: Cell<u64>,
    wrote: Cell<u64>,
    restored: Cell<u64>,
    chunks: Cell<usize>,
    finished: Cell<bool>,
}

impl Progress for Recorder {
    fn start(&self, chunks: &[u64]) {
        self.chunks.set(chunks.len());
    }
    fn restore(&self, present: &[u64]) {
        self.restored.set(present.iter().sum());
    }
    fn received(&self, _index: usize, bytes: u64) {
        self.received.set(self.received.get() + bytes);
    }
    fn wrote(&self, _index: usize, bytes: u64) {
        self.wrote.set(self.wrote.get() + bytes);
    }
    fn retry(&self, _index: usize, _retry: u32, _max: u32, resume_from: u64, _error: &str) {
        self.retries.set(self.retries.get() + 1);
        self.resumed_from.set(resume_from);
    }
    fn finish(&self) {
        self.finished.set(true);
    }
}

#[test]
fn a_dropped_chunk_reports_a_retry_to_progress() {
    let source = FakeSource::new(sample_body(1024), true, Behavior::FailFirstFetch);
    let recorder = Recorder::default();
    run(
        &source,
        &mut Disk::default(),
        file(),
        options(1, 3, Checksum::Sha256, false),
        &recorder,
    )
    .expect("the retry recovers the dropped chunk");
    assert!(
        recorder.retries.get() >= 1,
        "the dropped first fetch was reported as a retry"
    );
    assert_eq!(recorder.received.get(), 1024);
    assert_eq!(recorder.wrote.get(), 1024);
    assert!(recorder.finished.get());
}

#[test]
fn a_source_that_ignores_the_range_is_a_typed_error() {
    let source = FakeSource::new(sample_body(2048), true, Behavior::IgnoreRange);
    let mut disk = Disk::default();
    let error = run(&source, &mut disk, file(), options(5, 1, Checksum::Sha256, false), &())
        .expect_err("a range-ignoring source must not be certified");
    assert!(
        matches!(error, Error::RangeNotHonored { .. }),
        "the failure names the range that was not honored, got {error:?}"
    );
    assert!(
        disk.file.is_none(),
        "no output file is left when the download fails"
    );
}

#[test]
fn a_short_served_chunk_becomes_a_length_mismatch() {
    let source = FakeSource::new(sample_body(2048), true, Behavior::ShortByOne);
    let error = run(
        &source,
        &mut Disk::default(),
        file(),
        options(1, 1, Checksum::Sha256, false),
        &(),
    )
    .expect_err("a chunk that never reaches its end cannot complete");
    assert!(
        matches!(
            error,
            Error::LengthMismatch {
                expected: 2048,
                received: 2047
            }
        ),
        "a short chunk is a length mismatch, got {error:?}"
    );
}

#[test]
fn a_source_that_sends_too_much_is_rejected() {
    let source = FakeSource::new(sample_body(20), true, Behavior::LongByOne);
    let error = run(
        &source,
        &mut Disk::default(),
        file(),
        options(1, 0, Checksum::Sha256, false),
        &(),
    )
    .expect_err("more bytes than asked for");
    assert_eq!(
        short_error(&error),
        "source sent more bytes than the requested range"
    );
    assert_eq!(error.message(), "fetch failed");
}

#[test]
fn a_byte_past_a_complete_range_is_rejected() {
    for retries in [0, 3] {
        let source = FakeSource::new(sample_body(2), true, Behavior::OneMore);
        let mut disk = Disk::default();
        let error = run(
            &source,
            &mut disk,
            file(),
            options(1, retries, Checksum::Sha256, false),
            &(),
        )
        .expect_err("the range was complete, and then came more");
        assert_eq!(
            short_error(&error),
            "source sent more bytes than the requested range"
        );
        assert!(disk.file.is_none(), "nothing is certified");
    }
}

#[test]
fn a_refusal_outlives_a_later_attempt() {
    let mut task = ChunkTask::new(0, ByteRange { start: 0, end: 2 }, 0, 1, 0);
    assert!(matches!(task.next(0), Attempt::Fetch { .. }));
    assert!(task.accept(3).is_err());
    task.failed(Error::detail("dropped"));
    assert!(matches!(task.next(0), Attempt::Fetch { .. }));
    assert!(task.accept(2).is_ok());
    assert_eq!(task.landed(2), 2);
    let error = task.finish().expect_err("it was refused once");
    assert_eq!(
        short_error(&error),
        "source sent more bytes than the requested range"
    );
}

#[test]
fn a_dropped_chunk_resumes_and_still_verifies() {
    let body = sample_body(1024);
    let source = FakeSource::new(body.clone(), true, Behavior::FailFirstFetch);
    let report = run(
        &source,
        &mut Disk::default(),
        file(),
        options(1, 3, Checksum::Sha256, false),
        &(),
    )
    .expect("the retry recovers the dropped chunk");
    assert_eq!(
        report.hash.as_deref(),
        Some(sha256_hex(&body).as_str()),
        "the recovered download still verifies to the known hash"
    );
    assert!(
        source.fetches.borrow().len() >= 2,
        "the first fetch was dropped and a retry was issued"
    );
}

#[test]
fn a_retry_asks_only_for_what_is_missing() {
    let body = sample_body(50);
    let source = FakeSource::new(body.clone(), true, Behavior::DropFirstFetch);
    let recorder = Recorder::default();
    let mut disk = Disk::default();
    run(&source, &mut disk, file(), options(1, 1, Checksum::Md5, false), &recorder)
        .expect("the retry recovers");
    assert_eq!(
        *source.fetches.borrow(),
        [
            Some(ByteRange { start: 0, end: 50 }),
            Some(ByteRange { start: 3, end: 50 })
        ]
    );
    assert_eq!(recorder.resumed_from.get(), 3);
    assert_eq!(disk.file, Some(body));
}

#[test]
fn resume_via_the_control_file_completes_a_partial_download() {
    let body = sample_body(4096);
    let mut disk = Disk::default();
    // Fail the final quarter, so the first three chunks can land and be recorded as done. The chunks are
    // taken in order, as a resume takes them.
    let partial = FakeSource::new(body.clone(), true, Behavior::FailFrom(3072));
    leave_partial(&partial, &mut disk, 4);
    assert!(disk.part.is_some(), "the partial file is kept for a resume");

    let full = FakeSource::honest(body.clone());
    let recorder = Recorder::default();
    let report = run(&full, &mut disk, file(), options(4, 1, Checksum::Sha256, true), &recorder)
        .expect("the resume completes the download");
    assert_eq!(report.length, body.len() as u64);
    assert_eq!(
        report.hash.as_deref(),
        Some(sha256_hex(&body).as_str()),
        "the resumed download verifies to the same digest as a clean one"
    );
    assert_eq!(recorder.restored.get(), 3072, "the bar opens where it stopped");
    assert_eq!(recorder.received.get(), 1024, "only the rest is fetched");
    assert_eq!(recorder.wrote.get(), 4096, "and all of it is verified");
    assert_eq!(disk.file, Some(body), "the resumed file holds every byte");
}

/// Leave a partial behind: a first pass that lands chunks in order until one fails.
fn leave_partial(source: &FakeSource, disk: &mut Disk, parts: u32) {
    disk.in_order = true;
    let first = run(source, disk, file(), options(parts, 1, Checksum::Sha256, true), &());
    assert!(first.is_err(), "the first pass fails on the dropped tail");
    assert!(disk.part.is_some(), "a partial is left behind");
}

#[test]
fn resume_re_chunks_with_a_different_parts_count() {
    let body = sample_body(8192);
    let mut disk = Disk::default();
    leave_partial(
        &FakeSource::new(body.clone(), true, Behavior::FailFrom(5000)),
        &mut disk,
        8,
    );
    let full = FakeSource::honest(body.clone());
    let report = run(&full, &mut disk, file(), options(3, 1, Checksum::Sha256, true), &())
        .expect("the resume completes with a different chunk count");
    assert_eq!(
        report.hash.as_deref(),
        Some(sha256_hex(&body).as_str()),
        "a re-chunked resume verifies to the same digest as a clean download"
    );
    assert_eq!(disk.file, Some(body), "the re-chunked resume holds every byte");
}

#[test]
fn a_changed_validator_discards_the_partial_and_restarts_clean() {
    let v1 = sample_body(4096);
    let mut disk = Disk::default();
    let mut first = FakeSource::new(v1.clone(), true, Behavior::FailFrom(3072));
    first.validator = Some("\"v1\"".to_owned());
    leave_partial(&first, &mut disk, 4);

    // The resource is now a different version of the same length, so only the validator can tell.
    let v2: Vec<u8> = v1.iter().map(|byte| byte ^ 0xff).collect();
    let mut second = FakeSource::honest(v2.clone());
    second.validator = Some("\"v2\"".to_owned());
    let report = run(&second, &mut disk, file(), options(4, 1, Checksum::Sha256, true), &())
        .expect("the restart completes against the new version");
    assert_eq!(
        report.hash.as_deref(),
        Some(sha256_hex(&v2).as_str()),
        "the output is wholly the new version, not a v1/v2 splice"
    );
    assert_eq!(disk.file, Some(v2), "every byte on disk is the new version's");
}

#[test]
fn a_non_range_source_streams_and_verifies() {
    let body = sample_body(3000);
    let source = FakeSource::new(body.clone(), false, Behavior::Honest);
    let mut disk = Disk::default();
    let report = run(&source, &mut disk, file(), options(5, 10, Checksum::Sha256, false), &())
        .expect("a non-range source is fetched as a single stream");
    assert_eq!(report.length, body.len() as u64);
    assert_eq!(
        report.hash.as_deref(),
        Some(sha256_hex(&body).as_str()),
        "the streamed download verifies to the known hash"
    );
    assert_eq!(disk.file, Some(body));
    assert_eq!(*source.fetches.borrow(), [None]);
}

#[test]
fn no_checksum_requested_returns_no_hash() {
    let body = sample_body(512);
    let source = FakeSource::honest(body.clone());
    let report = run(
        &source,
        &mut Disk::default(),
        file(),
        options(5, 10, Checksum::Skip, false),
        &(),
    )
    .expect("a download with hashing off still completes");
    assert_eq!(report.length, body.len() as u64);
    assert_eq!(
        report.hash, None,
        "no digest is certified when none is asked"
    );
}

#[test]
fn discard_verifies_but_writes_no_file() {
    let body = sample_body(4096);
    let source = FakeSource::honest(body.clone());
    let mut disk = Disk::default();
    let report = run(
        &source,
        &mut disk,
        Output::Discard,
        options(5, 10, Checksum::Sha256, false),
        &(),
    )
    .expect("a discard download verifies");
    assert_eq!(report.length, body.len() as u64, "the whole resource");
    assert_eq!(
        report.hash.as_deref(),
        Some(sha256_hex(&body).as_str()),
        "a discard certifies the same digest a file would"
    );
    assert!(disk.file.is_none(), "a discard leaves no output file");
    assert!(disk.part.is_none(), "a discard leaves no partial");
}

#[test]
fn writer_streams_the_exact_bytes_and_hash() {
    let body = sample_body(4096);
    let wanted = options(5, 10, Checksum::Sha256, false);
    let mut disk = Disk::default();
    let streamed = run(
        &FakeSource::honest(body.clone()),
        &mut disk,
        Output::writer(()),
        wanted,
        &(),
    )
    .expect("a writer download streams the verified bytes");
    let file = run(
        &FakeSource::honest(body.clone()),
        &mut Disk::default(),
        file(),
        wanted,
        &(),
    )
    .expect("the reference file download succeeds");
    assert_eq!(disk.writer, body, "the writer received every byte in order");
    assert_eq!(
        streamed.hash, file.hash,
        "a writer certifies the same digest a file does"
    );
    assert_eq!(
        streamed.hash.as_deref(),
        Some(sha256_hex(&body).as_str()),
        "the streamed digest matches the known bytes"
    );
    assert_eq!(streamed.length, body.len() as u64);
    assert!(disk.part.is_none() && disk.file.is_none());
}

#[test]
fn a_tee_delivers_the_same_bytes_to_a_file_and_a_writer() {
    let body = sample_body(4096);
    let mut disk = Disk::default();
    let report = run(
        &FakeSource::honest(body.clone()),
        &mut disk,
        Output::tee((), ()),
        options(5, 10, Checksum::Sha256, false),
        &(),
    )
    .expect("a tee download verifies and finalizes");
    assert_eq!(disk.writer, body, "the writer received every byte in order");
    assert_eq!(
        report.hash.as_deref(),
        Some(sha256_hex(&body).as_str()),
        "the tee certifies the digest of the bytes both sinks received"
    );
    assert_eq!(report.length, body.len() as u64);
    assert_eq!(disk.file, Some(body), "the file received every byte in order");
    assert!(
        disk.part.is_none(),
        "the scratch was renamed away, not left beside the output"
    );
}

#[test]
fn the_control_file_records_the_source_url_for_a_standalone_resume() {
    let mut disk = Disk::default();
    let mut source = FakeSource::new(sample_body(4096), true, Behavior::FailFrom(3072));
    source.identity = Some("https://example.com/thing.bin".to_owned());
    leave_partial(&source, &mut disk, 4);
    let image = disk.part.expect("a partial is left behind");
    assert_eq!(
        xget::control_source(control::read(&image)).as_deref(),
        Some("https://example.com/thing.bin"),
        "the .xget records the source URL so a standalone resume can rebuild the source"
    );
    let info = xget::inspect(control::read(&image)).expect("a valid control inspects");
    assert_eq!(
        info.source.as_deref(),
        Some("https://example.com/thing.bin")
    );
    assert_eq!(
        info.checksum,
        Some(Checksum::Sha256),
        "the .xget records the algorithm so a standalone resume verifies the same way"
    );
    assert_eq!(info.total, 4096);
    assert!(
        info.downloaded >= 3072 && info.downloaded < info.total,
        "the completed chunks are recorded as downloaded, got {}",
        info.downloaded
    );
    assert!(
        xget::inspect(control::read(&sample_body(4096))).is_none(),
        "a plain (non-control) file does not inspect as one"
    );
}

#[test]
fn the_builder_drives_a_download_like_the_function() {
    let body = sample_body(4096);
    let recorder = Recorder::default();
    let download = xget::from(FakeSource::honest(body.clone()))
        .chunks(4)
        .checksum(Checksum::Sha256)
        .progress(&recorder);
    let mut disk = Disk::default();
    let report = run(
        &download.source,
        &mut disk,
        file(),
        download.options,
        download.progress,
    )
    .expect("the builder download succeeds");
    assert_eq!(report.length, body.len() as u64);
    assert_eq!(
        report.hash.as_deref(),
        Some(sha256_hex(&body).as_str()),
        "the builder verifies to the same digest the function does"
    );
    assert_eq!(recorder.chunks.get(), 4);
    assert_eq!(disk.file, Some(body), "the builder wrote every byte");
}

#[test]
fn a_builder_starts_from_the_defaults() {
    let plain = xget::from(());
    assert_eq!(plain.options.parts, 5);
    assert_eq!(plain.options.retries, 10);
    assert_eq!(plain.options.checksum, Checksum::Sha256);
    assert_eq!(plain.options.timeout, None);
    assert!(!plain.options.resume && !plain.options.sequential);
    let wait = core::time::Duration::from_secs(3);
    let tuned = plain.tries(2).timeout(wait).resume().sequential();
    assert_eq!(tuned.options.retries, 2);
    assert_eq!(tuned.options.timeout, Some(wait));
    assert!(tuned.options.resume && tuned.options.sequential);
    let http = xget::get("https://example.com/big.iso").expect("a valid URL");
    assert_eq!(http.source.url(), "https://example.com/big.iso");
    assert!(xget::get("nonsense").is_err());
}

#[test]
fn a_sequential_download_streams_a_range_source_live() {
    let body = sample_body(100);
    let source = FakeSource::honest(body.clone());
    let mut disk = Disk::default();
    let wanted = Options {
        sequential: true,
        ..Options::default()
    };
    run(&source, &mut disk, Output::writer(()), wanted, &()).expect("a single stream");
    assert_eq!(disk.writer, body);
    assert_eq!(*source.fetches.borrow(), [None]);
}

#[test]
fn a_source_without_ranges_cannot_resume() {
    let source = FakeSource::new(sample_body(100), false, Behavior::Honest);
    let mut disk = Disk {
        part: Some(vec![1]),
        ..Disk::default()
    };
    let error = run(&source, &mut disk, file(), options(1, 1, Checksum::Md5, true), &())
        .expect_err("nothing to resume with");
    assert_eq!(
        short_error(&error),
        "cannot resume: the source does not support byte ranges"
    );
}

#[test]
fn a_partial_without_a_control_cannot_resume() {
    let source = FakeSource::honest(sample_body(100));
    let mut disk = Disk {
        part: Some(vec![1; 60]),
        ..Disk::default()
    };
    let error = run(&source, &mut disk, file(), options(1, 1, Checksum::Md5, true), &())
        .expect_err("its holes are unknown");
    assert_eq!(
        short_error(&error),
        "cannot resume: no saved state in the partial file (use --restart to start over)"
    );
}

#[test]
fn a_writer_never_resumes() {
    let session = Session::new(
        &Output::<(), ()>::writer(()),
        options(1, 1, Checksum::Md5, true),
        None,
    );
    assert!(!session.options.resume && !session.keeps_file);
    let session = Session::new(
        &Output::<(), ()>::tee((), ()),
        options(1, 1, Checksum::Md5, true),
        None,
    );
    assert!(session.options.resume && session.keeps_file);
}

#[test]
fn a_stream_of_the_wrong_length_is_a_mismatch() {
    let mut task = StreamTask::new(5, Checksum::Sha256);
    task.absorb(b"abc");
    match task.certify() {
        Err(Error::LengthMismatch { expected, received }) => {
            assert_eq!((expected, received), (5, 3));
        }
        other => panic!("{other:?}"),
    }
    assert!(!StreamTask::new(5, Checksum::Sha256).has_room(usize::MAX));
    assert!(StreamTask::new(5, Checksum::Blake3).has_room(usize::MAX));
}

#[test]
fn an_empty_resource_downloads() {
    let source = FakeSource::honest(Vec::new());
    let mut disk = Disk::default();
    let report = run(&source, &mut disk, file(), options(5, 1, Checksum::Sha256, false), &())
        .expect("nothing to fetch");
    assert_eq!(report.length, 0);
    assert_eq!(report.hash.as_deref(), Some(sha256_hex(&[]).as_str()));
    assert_eq!(disk.file, Some(Vec::new()));
}

#[test]
fn validators_agree_unless_both_differ() {
    assert!(validators_agree(None, None));
    assert!(validators_agree(Some("a"), None));
    assert!(validators_agree(None, Some("a")));
    assert!(validators_agree(Some("a"), Some("a")));
    assert!(!validators_agree(Some("a"), Some("b")));
}

#[test]
fn backoff_doubles_to_a_cap() {
    assert_eq!(backoff(0), 100);
    assert_eq!(backoff(1), 200);
    assert_eq!(backoff(5), 3200);
    assert_eq!(backoff(6), 6400);
    assert_eq!(backoff(u32::MAX), 6400);
}

#[test]
fn attempts_wait_and_run_out() {
    let range = ByteRange { start: 10, end: 20 };
    let mut task = ChunkTask::new(2, range, 14, 1, 0);
    match task.next(0) {
        Attempt::Fetch { delay, range } => {
            assert_eq!(delay, 0);
            assert_eq!(range, ByteRange { start: 14, end: 20 });
        }
        Attempt::Stop => panic!("an attempt is left"),
    }
    let retry = task.failed(Error::detail("why")).expect("another attempt follows");
    assert_eq!(
        (retry.index, retry.retry, retry.max, retry.resume_from, retry.error.as_str()),
        (2, 1, 1, 4, "why")
    );
    assert!(matches!(task.next(0), Attempt::Fetch { delay: 200, .. }));
    assert!(task.failed(Error::detail("again")).is_none(), "no attempt follows");
    assert!(matches!(task.next(0), Attempt::Stop));
    assert_eq!(short_error(&task.finish().expect_err("incomplete")), "again");
}

#[test]
fn checkpoints_come_by_bytes_or_by_time() {
    let range = ByteRange {
        start: 100,
        end: 100 + (1 << 30),
    };
    let mut task = ChunkTask::new(0, range, 100, 0, 5);
    assert_eq!(task.checkpoint_due(u64::MAX), None, "nothing progressed");
    assert_eq!(task.landed(10), 10);
    assert_eq!(task.checkpoint_due(1_000_000_004), None);
    let due = Some(ByteRange { start: 100, end: 110 });
    assert_eq!(task.checkpoint_due(1_000_000_005), due);
    task.checkpoint_done(1_000_000_005);
    assert_eq!(task.landed((4 << 20) - 1), (4 << 20) + 9);
    assert_eq!(task.checkpoint_due(1_000_000_006), None);
    task.landed(1);
    assert!(task.checkpoint_due(1_000_000_006).is_some());
}

#[test]
fn the_contiguous_run_stops_at_the_first_hole() {
    let ranges = xget::plan(30, 3);
    assert_eq!(contiguous_run(&[10, 4, 10], &ranges), 14);
    assert_eq!(contiguous_run(&[0, 10, 10], &ranges), 0);
    assert_eq!(contiguous_run(&[10, 10, 10], &ranges), 30);
    assert_eq!(chunk_of(&ranges, 0), 0);
    assert_eq!(chunk_of(&ranges, 10), 1);
    assert_eq!(chunk_of(&ranges, 29), 2);
    assert_eq!(chunk_of(&ranges, 99), 2);
    assert_eq!(chunk_of(&[], 0), 0);
}

#[test]
fn a_verifier_reads_no_further_than_the_run() {
    let mut verifier = Verifier::new(xget::plan(30, 3), 30, Checksum::Skip);
    verifier.survey(&[10, 4, 10], false).expect("no failure");
    assert_eq!(verifier.next_span(), Some((0, 10)));
    assert_eq!(verifier.want(6), 6);
    verifier.absorb(&[0; 6]).expect("bytes came");
    assert_eq!(verifier.want(6), 4);
    verifier.absorb(&[0; 4]).expect("bytes came");
    assert_eq!(verifier.next_span(), Some((1, 4)));
    assert!(matches!(
        verifier.absorb(&[]),
        Err(Error::LengthMismatch {
            expected: 4,
            received: 0
        })
    ));
    verifier.absorb(&[0; 4]).expect("bytes came");
    assert_eq!(verifier.next_span(), None);
    assert!(!verifier.complete());
    let error = verifier.survey(&[10, 4, 10], true).expect_err("a chunk failed");
    assert_eq!(
        short_error(&error),
        "a chunk failed before it could be verified"
    );
}

#[test]
fn reading_back_past_the_end_is_a_mismatch() {
    let mut read = ReadBack::new(10);
    assert_eq!(read.want(4), 4);
    read.got(4).expect("bytes came");
    assert_eq!(read.want(100), 6);
    assert!(matches!(
        read.got(0),
        Err(Error::LengthMismatch {
            expected: 10,
            received: 4
        })
    ));
}

#[test]
fn a_resume_fills_one_hole_at_a_time() {
    let fresh = options(4, 1, Checksum::Md5, false);
    let plan = resume_plan(100, None, &fresh, None, 0).expect("a fresh plan");
    assert_eq!(Scatter::new(plan, 100).concurrency(), 4);
    let empty = resume_plan(0, None, &fresh, None, 0).expect("an empty plan");
    assert_eq!(Scatter::new(empty, 0).concurrency(), 1);
    let mut image = vec![0; 100];
    let (_, patch) = Writer::create(100, None, None, Checksum::Md5);
    image.extend(patch.bytes);
    let again = options(4, 1, Checksum::Md5, true);
    let plan = resume_plan(100, None, &again, control::read(&image), 1).expect("a resumed plan");
    assert_eq!(Scatter::new(plan, 100).concurrency(), 1);
}

#[test]
fn deliveries_suit_the_sink() {
    let copy_and_rename = |copy, rename| Delivery { copy, rename };
    assert_eq!(file().delivery(), copy_and_rename(false, true));
    assert_eq!(Output::<(), ()>::writer(()).delivery(), copy_and_rename(true, false));
    assert_eq!(Output::<(), ()>::tee((), ()).delivery(), copy_and_rename(true, true));
    assert_eq!(Output::<(), ()>::Discard.delivery(), copy_and_rename(false, false));
    assert!(Output::<(), ()>::tee((), ()).first_file().is_some());
    assert!(Output::<(), ()>::Discard.first_file().is_none());
}

#[test]
fn scratch_names_tell_their_owner() {
    assert_eq!(part_path("big.tar.gz"), "big.tar.gz.xget");
    assert_eq!(scratch_name(42, 7), "xget-42-7.xget");
    assert_eq!(orphan_pid("xget-42-7.xget"), Some(42));
    for other in ["xget-42.xget", "xget-x-7.xget", "xget-42-x.xget", "my-42-7.xget", "xget-42-7"] {
        assert_eq!(orphan_pid(other), None, "{other}");
    }
}

#[test]
fn only_the_orphans_of_the_dead_are_swept() {
    assert!(is_orphan("xget-42-7.xget", 1, false));
    assert!(!is_orphan("xget-42-7.xget", 1, true), "alive");
    assert!(!is_orphan("xget-42-7.xget", 42, false), "our own");
    assert!(!is_orphan("notes.txt", 1, false), "not ours");
    assert_eq!(suspect("xget-42-7.xget", 1), Some(42));
    assert_eq!(suspect("xget-42-7.xget", 42), None);
    assert_eq!(signal_target(42), Some(42));
    assert_eq!(signal_target(u32::MAX), None);
    assert!(is_alive(0, None, 1));
    assert!(is_alive(-1, Some(1), 1));
    assert!(!is_alive(-1, Some(3), 1));
    assert!(!is_alive(-1, None, 1));
}

#[test]
fn errors_say_what_happened() {
    let range = Error::RangeNotHonored {
        requested: ByteRange { start: 1, end: 2 },
    };
    assert_eq!(
        range.message(),
        "source did not honor the requested range ByteRange { start: 1, end: 2 }"
    );
    let length = Error::LengthMismatch {
        expected: 5,
        received: 3,
    };
    assert_eq!(
        length.message(),
        "length mismatch: expected 5 bytes, received 3"
    );
    assert_eq!(short_error(&length), length.message());
    let deep = Error::Transport(vec!["request failed".to_owned(), "connection reset".to_owned()]);
    assert_eq!(short_error(&deep), "connection reset");
    assert_eq!(short_error(&Error::Transport(Vec::new())), "fetch failed");
}

#[test]
fn honest_writes_in_any_order_reassemble_the_body() {
    let body = sample_body(1000);
    let ranges = xget::plan(1000, 7);
    for order in [[0, 1, 2, 3, 4, 5, 6], [6, 5, 4, 3, 2, 1, 0], [3, 0, 6, 1, 5, 2, 4]] {
        let mut disk = Disk {
            part: Some(vec![0; 1000]),
            ..Disk::default()
        };
        for index in order {
            let range = ranges[index];
            // Twice over, as a retry does that fetches again what it already has.
            for _ in 0..2 {
                disk.write(range.start, &body[range.start as usize..range.end as usize]);
            }
        }
        assert_eq!(disk.part.as_ref(), Some(&body));
        let plan = resume_plan(1000, None, &options(7, 0, Checksum::Md5, false), None, 0).expect("fresh");
        let mut scatter = Scatter::new(plan, 1000);
        for (index, range) in ranges.iter().enumerate() {
            scatter.record(index, range.len());
        }
        let hash = verify(&disk, &scatter, 1000, Checksum::Md5, &()).expect("complete");
        assert_eq!(hash, Some(hex::encode(md5::Md5::digest(&body))));
    }
}

#[test]
fn a_resume_starts_from_the_bytes_on_disk() {
    let body = sample_body(1000);
    let mut image = vec![0u8; 1000];
    image[100..300].copy_from_slice(&body[100..300]);
    let (mut writer, patch) = Writer::create(1000, None, None, Checksum::Sha256);
    image.extend(&patch.bytes);
    let patch = writer.append(ByteRange { start: 100, end: 300 });
    image.truncate(patch.offset as usize);
    image.extend(&patch.bytes);
    let control = control::read(&image);
    let planned = resume_plan(1000, None, &options(4, 0, Checksum::Sha256, true), control, image.len() as u64)
        .expect("a resume");
    assert!(planned.resumed);
    assert_eq!(planned.received.iter().sum::<u64>(), 200);
    for (range, &received) in planned.ranges.iter().zip(&planned.received) {
        let held = range.start as usize..(range.start + received) as usize;
        assert_eq!(image[held.clone()], body[held]);
    }
}

#[test]
fn an_interrupted_run_records_only_bytes_that_are_on_disk() {
    let body = sample_body(1000);
    let source = FakeSource::honest(body.clone());
    let fresh = options(4, 0, Checksum::Sha256, false);
    let plan = resume_plan(1000, None, &fresh, None, 0).expect("fresh");
    let mut scatter = Scatter::new(plan, 1000);
    let (mut writer, patch) = Writer::create(1000, None, None, Checksum::Sha256);
    let mut disk = Disk {
        part: Some(vec![0; 1000]),
        ..Disk::default()
    };
    disk.write(patch.offset, &patch.bytes);
    // Two of the four chunks arrive before the run is interrupted.
    for index in [2, 0] {
        fetch_chunk(&source, &mut disk, &mut scatter, &mut writer, index, 0, &()).expect("a chunk");
    }
    let image = disk.part.clone().expect("a partial");
    let record = control::read(&image).expect("a control");
    assert!(!record.done.is_empty());
    for range in &record.done {
        let span = range.start as usize..range.end as usize;
        assert_eq!(image[span.clone()], body[span]);
    }
    let resumed = options(4, 0, Checksum::Sha256, true);
    let recorder = Recorder::default();
    let report = run(&source, &mut disk, file(), resumed, &recorder).expect("the resume finishes");
    assert_eq!(recorder.restored.get(), 500);
    assert_eq!(recorder.received.get(), 500, "nothing is fetched twice");
    assert_eq!(report.hash, Some(sha256_hex(&body)));
    assert_eq!(disk.file, Some(body));
}

#[test]
fn a_wait_is_spread_by_what_is_drawn() {
    assert_eq!(wait(1, 0), 200);
    assert_eq!(wait(1, 50), 250);
    assert_eq!(wait(1, 51), 200);
    assert_eq!(wait(6, 1600), 8000);
    for attempt in [1, 2, 5, 6, 7, u32::MAX] {
        for draw in [0, 1, 1000, u64::MAX] {
            let base = backoff(attempt);
            assert!((base..=base + base / 4).contains(&wait(attempt, draw)));
        }
    }
    let mut task = ChunkTask::new(0, ByteRange { start: 0, end: 2 }, 0, 1, 0);
    assert!(matches!(task.next(7), Attempt::Fetch { delay: 0, .. }));
    assert!(matches!(task.next(7), Attempt::Fetch { delay: 207, .. }));
}

#[test]
fn a_fresh_run_says_what_to_record() {
    let wanted = options(2, 0, Checksum::Blake3, false);
    let session = Session::new(&file(), wanted, Some("https://example.com/a".to_owned()));
    let probe = Probe {
        length: 10,
        supports_ranges: true,
        validator: Some("v".to_owned()),
        ..Probe::default()
    };
    match session.step(Event::Probed(probe)).1 {
        Action::Allocate {
            plan,
            validator,
            source,
            checksum,
        } => {
            assert_eq!(plan.ranges.len(), 2);
            assert_eq!(validator.as_deref(), Some("v"));
            assert_eq!(source.as_deref(), Some("https://example.com/a"));
            assert_eq!(checksum, Checksum::Blake3);
        }
        _ => panic!("a fresh run allocates"),
    }
}

#[test]
fn an_answer_that_ignored_the_range_leaves_nothing_behind() {
    let mut task = ChunkTask::new(0, ByteRange { start: 0, end: 2 }, 0, 1, 0);
    let Attempt::Fetch { range, .. } = task.next(0) else {
        panic!("a first attempt");
    };
    let retry = task.failed(Error::RangeNotHonored { requested: range });
    assert!(retry.is_some(), "the rejection is reported");
    assert_eq!(task.offset(), 0, "no byte of it was taken");
    // The next answer honors the range, and every byte that lands comes from it.
    assert!(matches!(task.next(0), Attempt::Fetch { range: again, .. } if again == range));
    assert!(task.accept(2).is_ok());
    task.landed(2);
    assert_eq!(task.finish().expect("an honest answer"), range);

    let mut task = ChunkTask::new(0, range, 0, 0, 0);
    task.next(0);
    task.failed(Error::RangeNotHonored { requested: range });
    assert!(matches!(task.finish(), Err(Error::RangeNotHonored { .. })));
}

#[test]
fn the_contiguous_run_is_the_longest() {
    let ranges = xget::plan(100, 4);
    assert_eq!(contiguous_run(&[25, 25, 3, 25], &ranges), 53, "byte 53 is missing");
    assert_eq!(contiguous_run(&[0, 25, 25, 25], &ranges), 0, "byte 0 is missing");
    assert_eq!(contiguous_run(&[25, 25, 25, 25], &ranges), 100, "nothing is missing");
}
