//! A run of the command line: what is decided at each turn, once what it depends on has been found out.

use crate::checksum::Checksum;
use crate::cli::expect;
use crate::cli::expect::adopt;
use crate::cli::expect::choose_checksum;
use crate::cli::expect::resolve_sidecar;
use crate::cli::expect::Expect;
use crate::cli::naming;
use crate::cli::naming::control_output;
use crate::cli::naming::control_resume_target;
use crate::cli::naming::infer_name;
use crate::cli::naming::placement;
use crate::cli::naming::Placement;
use crate::cli::sink::continues_partial;
use crate::cli::sink::should_resume;
use crate::cli::sink::Sink;
use crate::path::Platform;
use crate::source::ipfs;
use crate::text;
use crate::vocabulary::Options;
use crate::vocabulary::Probe;
use core::time::Duration;
use crate::digest;
use crate::path;
use crate::source::http;
use vstd::prelude::*;

verus! {

/// What a run was asked for.
#[derive(Debug)]
pub struct Request {
    /// The URL, or the path of a control file.
    pub url: String,
    /// The output argument.
    pub output: Option<String>,
    /// How many chunks.
    pub chunks: u32,
    /// How many retries.
    pub tries: u32,
    /// Whether a resume was asked for.
    pub resume: bool,
    /// Whether a fresh start was asked for.
    pub restart: bool,
    /// Whether a single stream was asked for.
    pub sequential: bool,
    /// The checksum algorithm, where one was asked for.
    pub checksum: Option<Checksum>,
    /// The inactivity timeout.
    pub timeout: Option<Duration>,
}

impl Request {
    /// The algorithm to verify with: the one asked for, else SHA-256.
    pub open spec fn algorithm(self) -> Checksum {
        match self.checksum {
            Some(checksum) => checksum,
            None => Checksum::Sha256,
        }
    }
}

/// Whether a run has to look into a file before anything else: its URL is the path of a control file, and no
/// separate output was given.
pub fn reads_control(request: &Request, platform: Platform) -> (r: bool)
    ensures
        r == (request.output is None && naming::output_of(request.url@, platform) is Some),
{
    request.output.is_none() && control_output(request.url.as_str(), platform).is_some()
}

/// Whether `run` is the run that a control file describes, or the one that was asked for.
pub open spec fn retargeted(
    request: Request,
    source: Option<String>,
    recorded: Option<Checksum>,
    platform: Platform,
    run: Request,
) -> bool {
    let output = naming::output_of(request.url@, platform);
    if request.output is None && source is Some && output is Some {
        &&& run.url@ == source->0@
        &&& run.output is Some
        &&& run.output->0@ == output->0
        &&& run.resume
        &&& run.chunks == request.chunks
        &&& run.tries == request.tries
        &&& run.restart == request.restart
        &&& run.sequential == request.sequential
        &&& run.checksum == if request.checksum is Some {
            request.checksum
        } else {
            recorded
        }
        &&& run.timeout == request.timeout
    } else {
        run == request
    }
}

/// The run that a control file describes, given the source and the algorithm recorded in it: the recorded URL,
/// the output it belongs to, resumed. It reports the same digest that the first run would have, unless another
/// algorithm was asked for. A run that names no control file, or one that records no source, stays as it is.
pub fn retarget(
    request: Request,
    source: Option<String>,
    recorded: Option<Checksum>,
    platform: Platform,
) -> (run: Request)
    ensures
        retargeted(request, source, recorded, platform, run),
{
    match control_resume_target(request.url.as_str(), request.output.is_some(), source, platform) {
        Some((url, output)) => {
            let checksum = if request.checksum.is_some() {
                request.checksum
            } else {
                recorded
            };
            Request { url, output: Some(output), resume: true, checksum, ..request }
        },
        None => request,
    }
}

/// Whether this is how a run's output path comes about.
pub open spec fn placed(
    request: Request,
    sink: Sink,
    suggested: Option<Seq<char>>,
    is_directory: bool,
    prefix: bool,
    place: Result<Option<(Placement, Option<String>)>, String>,
) -> bool {
    match sink {
        Sink::File => if request.output is Some && !is_directory {
            place == Ok::<Option<(Placement, Option<String>)>, String>(
                Some((Placement::AsGiven, None)),
            )
        } else {
            let how = if request.output is Some {
                Placement::InDirectory
            } else if prefix {
                Placement::UnderPrefix
            } else {
                Placement::Here
            };
            match suggested {
                Some(name) => {
                    &&& place matches Ok(Some((p, Some(n))))
                    &&& p == how
                    &&& n@ == name
                },
                None => match place {
                    Ok(Some((p, Some(n)))) => p == how && naming::basename(
                        request.url@,
                        Ok::<String, String>(n),
                    ),
                    Err(message) => naming::basename(
                        request.url@,
                        Err::<String, String>(message),
                    ),
                    _ => false,
                },
            }
        },
        _ => place == Ok::<Option<(Placement, Option<String>)>, String>(None),
    }
}

/// How a run's output path comes about, and the name to use where one is inferred. Nothing where the bytes do
/// not go to a file.
pub fn destination(
    request: &Request,
    sink: Sink,
    suggested: Option<&str>,
    is_directory: bool,
    prefix: bool,
) -> (place: Result<Option<(Placement, Option<String>)>, String>)
    ensures
        placed(*request, sink, text::model::opt_str(suggested), is_directory, prefix, place),
{
    if sink != Sink::File {
        return Ok(None);
    }
    let how = placement(request.output.is_some(), is_directory, prefix);
    if how == Placement::AsGiven {
        return Ok(Some((how, None)));
    }
    match infer_name(suggested, request.url.as_str()) {
        Ok(name) => Ok(Some((how, Some(name)))),
        Err(message) => Err(message),
    }
}

/// A pipe is fed as the bytes arrive where a download has more bytes than this (64 GiB): it is not held back
/// until a scratch file is complete.
pub const HUGE: u64 = 68719476736;

/// Whether a run is one ordered stream: where that was asked for, or where the bytes go to a pipe and are more
/// than the scratch space holds, or simply huge.
pub open spec fn streams(asked: bool, sink: Sink, length: Option<u64>, room: Option<u64>) -> bool {
    let pipe = sink == Sink::Stdout || sink == Sink::Stream;
    asked || (pipe && length is Some && (length->0 > HUGE || (room is Some && length->0 > room->0)))
}

/// What a run does once everything it depends on is known.
#[derive(Debug)]
pub struct Orders {
    /// How the download is tuned.
    pub options: Options,
    /// Whether a partial on disk is continued.
    pub partial: bool,
    /// The digest it has to match, with the algorithm that is pinned.
    pub expected: Option<(Option<Checksum>, String)>,
    /// The algorithm that was adopted from the source, if one was.
    pub adopted: Option<Checksum>,
}

/// What a run is expected to match before the source is asked.
pub open spec fn stated(expect: Option<Expect>, body: Seq<char>) -> Option<
    (Option<Checksum>, Seq<char>),
> {
    match expect {
        Some(Expect::Literal { algo, hex }) => Some((algo, hex@)),
        Some(Expect::Sidecar { algo, url }) => match expect::first_digest(text::model::words(body)) {
            Some(digest) => Some((algo, digest)),
            None => None,
        },
        None => None,
    }
}

/// What a run is expected to match in the end: what was stated, else what the source vouches for.
pub open spec fn settled(expect: Option<Expect>, body: Seq<char>, probe: Option<Probe>) -> Option<
    (Option<Checksum>, Seq<char>),
> {
    if expect is Some {
        stated(expect, body)
    } else {
        match probe {
            Some(probe) => match ipfs::vouched(probe.checksum) {
                Some((algo, hex)) => Some((Some(algo), hex)),
                None => None,
            },
            None => None,
        }
    }
}

/// Whether these are the orders of a run.
pub open spec fn ordered(
    request: Request,
    sink: Sink,
    resumable: bool,
    room: Option<u64>,
    expect: Option<Expect>,
    body: Seq<char>,
    probe: Option<Probe>,
    orders: Result<Orders, String>,
) -> bool {
    match orders {
        Ok(o) => {
            &&& expect is Some ==> stated(expect, body) is Some
            &&& expect::expected_view(o.expected) == settled(expect, body, probe)
            &&& o.partial == (sink == Sink::File && !request.restart && resumable)
            &&& o.adopted == if expect is None && probe is Some && probe->0.checksum is Some {
                Some((probe->0.checksum->0).0)
            } else {
                None::<Checksum>
            }
            &&& o.options.parts == request.chunks
            &&& o.options.retries == request.tries
            &&& o.options.timeout == request.timeout
            &&& o.options.resume == (sink == Sink::File && !request.restart && (resumable
                || request.resume))
            &&& o.options.sequential == streams(
                request.sequential,
                sink,
                match probe {
                    Some(probe) => Some(probe.length),
                    None => None,
                },
                room,
            )
            &&& o.options.checksum == match settled(expect, body, probe) {
                Some((Some(algo), _)) => algo,
                _ => request.algorithm(),
            }
            &&& settled(expect, body, probe) matches Some((None, _)) ==> request.algorithm()
                != Checksum::Skip
        },
        Err(message) => if expect is Some && stated(expect, body) is None {
            expect matches Some(Expect::Sidecar { algo, url }) && message@ == "no checksum found at "@
                + url@
        } else {
            &&& settled(expect, body, probe) matches Some((None, _))
            &&& request.algorithm() == Checksum::Skip
            &&& message@ == "--expect needs an algorithm: pass --checksum or use algo:hex"@
        },
    }
}

/// Give a run its orders. `body` is the text of the checksum file, where one was to be fetched; `resumable`
/// whether a resumable partial lies beside the output; `room` how much the scratch space holds.
pub fn orders(
    request: &Request,
    sink: Sink,
    resumable: bool,
    room: Option<u64>,
    expect: Option<Expect>,
    body: &str,
    probe: &Option<Probe>,
) -> (orders: Result<Orders, String>)
    ensures
        ordered(*request, sink, resumable, room, expect, body@, *probe, orders),
{
    let stated = match expect {
        Some(Expect::Literal { algo, hex }) => Some((algo, hex)),
        Some(Expect::Sidecar { algo, url }) => match resolve_sidecar(algo, url.as_str(), body) {
            Ok(resolved) => Some(resolved),
            Err(message) => {
                return Err(message);
            },
        },
        None => None,
    };
    let vouched = match probe {
        Some(probe) => match &probe.checksum {
            Some((algo, hex)) => Some((*algo, hex.clone())),
            None => None,
        },
        None => None,
    };
    let adopted = match (&stated, &vouched) {
        (None, Some((algo, _))) => Some(*algo),
        _ => None,
    };
    let expected = adopt(stated, vouched);
    let asked = match request.checksum {
        Some(checksum) => checksum,
        None => Checksum::Sha256,
    };
    let checksum = match choose_checksum(&expected, asked) {
        Ok(checksum) => checksum,
        Err(message) => {
            return Err(message);
        },
    };
    let pipe = sink == Sink::Stdout || sink == Sink::Stream;
    let overflows = match (probe, room) {
        (Some(probe), Some(room)) => probe.length > HUGE || probe.length > room,
        (Some(probe), None) => probe.length > HUGE,
        (None, _) => false,
    };
    let options = Options {
        parts: request.chunks,
        retries: request.tries,
        checksum,
        timeout: request.timeout,
        resume: should_resume(sink, request.resume, request.restart, resumable),
        sequential: request.sequential || (pipe && overflows),
    };
    Ok(
        Orders {
            options,
            partial: continues_partial(sink, request.restart, resumable),
            expected,
            adopted,
        },
    )
}

/// A run that expects the checksum file of its own digest, published under the extension of its algorithm, is
/// hashed with that algorithm and passes, whatever else the file says behind the digest and whatever the source
/// vouches for.
pub proof fn law_own_published_digest_passes(
    a: Seq<char>,
    b: Seq<char>,
    written: Seq<char>,
    algo: Checksum,
    parsed: Result<Expect, String>,
    digest: Seq<u8>,
    rest: Seq<char>,
    probe: Option<Probe>,
)
    requires
        expect::laws::is_extension(written, algo),
        expect::expectation(a + "://"@ + b + written, parsed),
        digest.len() == digest::digest_len(algo),
        rest.len() > 0 ==> text::model::is_whitespace(rest[0]),
    ensures
        parsed is Ok,
        ({
            let hash = digest::hex_of(digest);
            let expected = settled(Some(parsed->Ok_0), hash + rest, probe);
            &&& expected == Some((Some(algo), hash))
            &&& expect::passes(expected, Some(hash))
        }),
{
    expect::laws::law_url_is_a_checksum_file(a, b, written, algo, parsed);
    expect::law_published_digest_passes(algo, digest, rest);
}

/// What was asked for inline is what counts, whatever the source vouches for.
pub proof fn law_inline_expectation_counts(
    algo: Option<Checksum>,
    hex: String,
    body: Seq<char>,
    probe: Option<Probe>,
)
    ensures
        settled(Some(Expect::Literal { algo, hex }), body, probe) == Some((algo, hex@)),
{
}

/// Without an expectation a download is held to what its source vouches for, and to nothing where it vouches for
/// nothing.
pub proof fn law_vouched_checksum_counts(body: Seq<char>, probe: Probe)
    ensures
        probe.checksum matches Some((algo, hex)) ==> settled(None, body, Some(probe)) == Some(
            (Some(algo), hex@),
        ),
        probe.checksum is None ==> settled(None, body, Some(probe)) is None,
        settled(None, body, None) is None,
{
}

/// A file is never streamed unless that was asked for, and neither is a download of unknown length or one that
/// fits. A pipe is fed as the bytes arrive where they do not fit into the scratch space, or are huge.
pub proof fn law_only_a_pipe_that_overflows_streams(length: u64, room: u64)
    ensures
        !streams(false, Sink::File, Some(length), Some(room)),
        !streams(false, Sink::Discard, Some(length), Some(room)),
        !streams(false, Sink::Stdout, None, Some(room)),
        streams(false, Sink::Stdout, Some(length), Some(room)) <==> length > room || length > 68719476736,
        streams(false, Sink::Stream, Some(length), Some(room)) <==> length > room || length > 68719476736,
        streams(false, Sink::Stdout, Some(length), None) <==> length > 68719476736,
        streams(true, Sink::File, Some(length), Some(room)),
        streams(true, Sink::Discard, None, None),
{
}

/// A run is verified with the algorithm that was asked for, and with SHA-256 where none was.
pub proof fn law_asked_algorithm_is_used(request: Request)
    ensures
        request.checksum matches Some(checksum) ==> request.algorithm() == checksum,
        request.checksum is None ==> request.algorithm() == Checksum::Sha256,
{
}

/// A run does what it was asked for: as many chunks, as many retries and as long a timeout, and it is verified with
/// the algorithm that is pinned, or else with the one that was asked for.
pub proof fn law_orders_follow_the_request(
    request: Request,
    sink: Sink,
    resumable: bool,
    room: Option<u64>,
    expect: Option<Expect>,
    body: Seq<char>,
    probe: Option<Probe>,
    orders: Result<Orders, String>,
)
    requires
        ordered(request, sink, resumable, room, expect, body, probe, orders),
        orders is Ok,
    ensures
        ({
            let options = orders->Ok_0.options;
            &&& options.parts == request.chunks
            &&& options.retries == request.tries
            &&& options.timeout == request.timeout
            &&& expect matches Some(Expect::Literal { algo: Some(algo), hex }) ==> options.checksum == algo
            &&& expect is None && (probe is None || probe->0.checksum is None) ==> options.checksum
                == request.algorithm() && orders->Ok_0.expected is None
            &&& expect is None && probe is Some && probe->0.checksum is Some ==> {
                &&& options.checksum == (probe->0.checksum->0).0
                &&& orders->Ok_0.expected is Some
                &&& (orders->Ok_0.expected->0).1@ == (probe->0.checksum->0).1@
            }
        }),
{
}

/// A partial beside the output is continued without being asked, and one that is asked for is looked for, unless a
/// fresh start was asked for; only a file can be continued.
pub proof fn law_partials_are_continued(
    request: Request,
    sink: Sink,
    resumable: bool,
    room: Option<u64>,
    expect: Option<Expect>,
    body: Seq<char>,
    probe: Option<Probe>,
    orders: Result<Orders, String>,
)
    requires
        ordered(request, sink, resumable, room, expect, body, probe, orders),
        orders is Ok,
    ensures
        sink == Sink::File && !request.restart && (resumable || request.resume)
            ==> orders->Ok_0.options.resume,
        sink != Sink::File || request.restart || (!resumable && !request.resume)
            ==> !orders->Ok_0.options.resume,
        orders->Ok_0.partial ==> resumable && orders->Ok_0.options.resume,
        resumable && orders->Ok_0.options.resume ==> orders->Ok_0.partial,
{
}

/// A run is refused exactly where a checksum file states no digest, or a digest is expected of no algorithm.
pub proof fn law_only_an_unusable_expectation_is_refused(
    request: Request,
    sink: Sink,
    resumable: bool,
    room: Option<u64>,
    expect: Option<Expect>,
    body: Seq<char>,
    probe: Option<Probe>,
    orders: Result<Orders, String>,
)
    requires
        ordered(request, sink, resumable, room, expect, body, probe, orders),
    ensures
        expect is None ==> orders is Ok,
        expect matches Some(Expect::Literal { algo, hex }) ==> (orders is Err <==> algo is None
            && request.algorithm() == Checksum::Skip),
        expect matches Some(Expect::Sidecar { algo, url }) ==> (orders is Err <==> expect::first_digest(
            text::model::words(body),
        ) is None || (algo is None && request.algorithm() == Checksum::Skip)),
{
}

/// The path of a control file stands for the run that it records: its source, into the output that it lies beside,
/// resumed, with the algorithm of the first run unless another was asked for. Any other run stays as it is.
pub proof fn law_control_file_stands_for_its_run(
    path: Seq<char>,
    request: Request,
    source: String,
    recorded: Option<Checksum>,
    platform: Platform,
    run: Request,
)
    requires
        request.url@ == path + ".xget"@,
        request.output is None,
        path::model::rest(path, platform).len() > 0,
        path::model::rest(path, platform).last().len() > 0,
        retargeted(request, Some(source), recorded, platform, run),
    ensures
        run.url@ == source@,
        run.output is Some && run.output->0@ == path,
        run.resume,
        request.checksum is None ==> run.checksum == recorded,
        request.checksum is Some ==> run.checksum == request.checksum,
        run.chunks == request.chunks && run.tries == request.tries && run.restart == request.restart
            && run.sequential == request.sequential && run.timeout == request.timeout,
{
    naming::law_partial_belongs_to_its_output(path, platform);
}

/// A run with an output of its own, or one whose control records no source, is not another's.
pub proof fn law_other_runs_stay(
    request: Request,
    source: Option<String>,
    recorded: Option<Checksum>,
    platform: Platform,
    run: Request,
)
    requires
        retargeted(request, source, recorded, platform, run),
        request.output is Some || source is None,
    ensures
        run == request,
{
}

/// An output that is no directory is written to as it was given. Anything else is named by the source, and else by
/// the URL, in the directory that was given, under the prefix, or here.
pub proof fn law_output_is_placed(
    request: Request,
    suggested: Option<Seq<char>>,
    is_directory: bool,
    prefix: bool,
    place: Result<Option<(Placement, Option<String>)>, String>,
)
    requires
        placed(request, Sink::File, suggested, is_directory, prefix, place),
    ensures
        request.output is Some && !is_directory ==> place is Ok && place->Ok_0 is Some && (place->Ok_0->0).0
            == Placement::AsGiven,
        (request.output is None || is_directory) && suggested is Some ==> place is Ok && place->Ok_0 is Some
            && (place->Ok_0->0).1 is Some && (place->Ok_0->0).1->0@ == suggested->0,
        request.output is Some && is_directory && place is Ok ==> (place->Ok_0->0).0
            == Placement::InDirectory,
        request.output is None && prefix && place is Ok ==> (place->Ok_0->0).0 == Placement::UnderPrefix,
        request.output is None && !prefix && place is Ok ==> (place->Ok_0->0).0 == Placement::Here,
        place is Err ==> suggested is None,
{
}

/// A download that nothing names is named by the last segment of its URL's path, and where that is empty, it is
/// refused.
pub proof fn law_unnamed_output_is_named_by_the_url(
    request: Request,
    prefix: bool,
    place: Result<Option<(Placement, Option<String>)>, String>,
    front: Seq<Seq<char>>,
    last: Seq<char>,
)
    requires
        request.output is None,
        placed(request, Sink::File, None, false, prefix, place),
        http::parsed_url(request.url@) is Ok,
        (http::parsed_url(request.url@)->Ok_0).1 == Some(front.push(last)),
    ensures
        last.len() > 0 ==> place is Ok && (place->Ok_0->0).1 is Some && (place->Ok_0->0).1->0@ == last,
        last.len() == 0 ==> place is Err,
{
    assert(front.push(last).last() == last);
}

} // verus!
