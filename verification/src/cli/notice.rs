//! What the user is told before and after a download, and of a partial.

use crate::checksum;
use crate::checksum::Checksum;
use crate::cli::sink::ProgressMode;
use crate::cli::sink::Sink;
use crate::control::Inspection;
use crate::plan;
use crate::progress::bar;
use crate::progress::ink;
use crate::progress::sizes;
use crate::progress::sizes::fmt_size;
use crate::text;
use crate::vocabulary::Probe;
use crate::vocabulary::Report;
use crate::text::laws;
use vstd::prelude::*;
use vstd::string::*;

verus! {

/// The characters of each line.
pub open spec fn lines_of(lines: Seq<String>) -> Seq<Seq<char>> {
    Seq::new(lines.len(), |i: int| lines[i]@)
}

/// A dimmed label and what follows it.
pub open spec fn labelled(label: Seq<char>, value: Seq<char>) -> Seq<char> {
    bar::chrome(label) + " "@ + value
}

fn labelled_line(label: &str, value: &str) -> (line: String)
    ensures
        line@ == labelled(label@, value@),
{
    let mut line = ink::dim();
    line.append(label);
    let reset = ink::reset();
    line.append(reset.as_str());
    line.append(" ");
    line.append(value);
    assert(line@ =~= labelled(label@, value@));
    line
}

/// How many chunks a download is announced with.
pub open spec fn announced_chunks(probe: Option<Probe>, chunks: u32) -> nat {
    match probe {
        Some(probe) => if probe.supports_ranges {
            let n = plan::chunk_count(probe.length as nat, chunks as nat);
            if n == 0 {
                1
            } else {
                n
            }
        } else {
            1
        },
        None => chunks as nat,
    }
}

/// How the length of a download is announced.
pub open spec fn announced_length(probe: Option<Probe>, raw: bool) -> Seq<char> {
    match probe {
        Some(probe) => match probe.content_type {
            Some(kind) => sizes::size_text(probe.length, raw) + " ["@ + kind@ + "]"@,
            None => sizes::size_text(probe.length, raw),
        },
        None => "unknown"@,
    }
}

/// How the destination of a download is announced.
pub open spec fn announced_sink(sink: Sink, output: Option<Seq<char>>) -> Seq<char> {
    match (sink, output) {
        (Sink::File, Some(path)) => "'"@ + path + "'"@,
        (Sink::Stream, Some(path)) => "'"@ + path + "' <stream>"@,
        (Sink::Stdout, _) => "<stdout>"@,
        _ => "<discarded>"@,
    }
}

/// The block shown before a live bar.
pub open spec fn preamble_lines(
    url: Seq<char>,
    chunks: u32,
    raw: bool,
    probe: Option<Probe>,
    output: Option<Seq<char>>,
    sink: Sink,
    resume: bool,
) -> Seq<Seq<char>> {
    let head = seq![
        labelled("URL:"@, url),
        labelled("Chunks:"@, text::model::decimal(announced_chunks(probe, chunks))),
        labelled("Length:"@, announced_length(probe, raw)),
        labelled("Saving:"@, announced_sink(sink, output)),
    ];
    if resume {
        head.push(bar::chrome("Resuming a previous download"@))
    } else {
        head
    }
}

/// The lines of the block shown before a live bar: the URL, how many chunks, the length and media type, and
/// where the bytes are going, noting when the run is continuing a partial.
pub fn preamble(
    url: &str,
    chunks: u32,
    raw: bool,
    probe: &Option<Probe>,
    output: Option<&str>,
    sink: Sink,
    resume: bool,
) -> (lines: Vec<String>)
    ensures
        lines_of(lines@) == preamble_lines(
            url@,
            chunks,
            raw,
            *probe,
            text::model::opt_str(output),
            sink,
            resume,
        ),
{
    let count: u64 = match probe {
        Some(probe) => if probe.supports_ranges {
            let planned = plan::plan(probe.length, chunks);
            if planned.len() == 0 {
                1
            } else {
                planned.len() as u64
            }
        } else {
            1
        },
        None => chunks as u64,
    };
    let length = match probe {
        Some(probe) => {
            let mut length = fmt_size(probe.length, raw);
            if let Some(kind) = &probe.content_type {
                length.append(" [");
                length.append(kind.as_str());
                length.append("]");
            }
            length
        },
        None => "unknown".to_owned(),
    };
    let saving = match (sink, output) {
        (Sink::File, Some(path)) => {
            let mut saving = "'".to_owned();
            saving.append(path);
            saving.append("'");
            saving
        },
        (Sink::Stream, Some(path)) => {
            let mut saving = "'".to_owned();
            saving.append(path);
            saving.append("' <stream>");
            saving
        },
        (Sink::Stdout, _) => "<stdout>".to_owned(),
        (Sink::Discard, _) | (Sink::File, None) | (Sink::Stream, None) => "<discarded>".to_owned(),
    };
    let number = text::decimal(count);
    let mut lines: Vec<String> = Vec::new();
    lines.push(labelled_line("URL:", url));
    lines.push(labelled_line("Chunks:", number.as_str()));
    lines.push(labelled_line("Length:", length.as_str()));
    lines.push(labelled_line("Saving:", saving.as_str()));
    if resume {
        let mut line = ink::dim();
        line.append("Resuming a previous download");
        let reset = ink::reset();
        line.append(reset.as_str());
        assert(line@ =~= bar::chrome("Resuming a previous download"@));
        lines.push(line);
    }
    assert(lines_of(lines@) =~= preamble_lines(
        url@,
        chunks,
        raw,
        *probe,
        text::model::opt_str(output),
        sink,
        resume,
    ));
    lines
}

/// The notice that a source vouches for a checksum, unless the output is for machines.
pub fn adoption_notice(mode: ProgressMode, algo: Checksum) -> (line: Option<String>)
    ensures
        text::model::opt_view(line) == if mode == ProgressMode::Json {
            None
        } else {
            Some(
                bar::chrome(
                    "Verifying against the source's stored "@ + checksum::name_of(algo) + " checksum"@,
                ),
            )
        },
{
    if mode == ProgressMode::Json {
        return None;
    }
    let mut line = ink::dim();
    line.append("Verifying against the source's stored ");
    line.append(algo.name());
    line.append(" checksum");
    let reset = ink::reset();
    line.append(reset.as_str());
    assert(line@ =~= bar::chrome(
        "Verifying against the source's stored "@ + checksum::name_of(algo) + " checksum"@,
    ));
    Some(line)
}

/// The closing summary: how much was fetched in how long, and the verified checksum if one was requested.
pub open spec fn summary_lines(
    mode: ProgressMode,
    raw: bool,
    algo: Checksum,
    report: Report,
    elapsed: Seq<char>,
) -> Seq<Seq<char>> {
    if mode == ProgressMode::Json {
        Seq::empty()
    } else {
        let head = seq!["Downloaded "@ + sizes::size_text(report.length, raw) + " in "@ + elapsed];
        match report.hash {
            Some(hash) => head.push("Hash("@ + checksum::name_of(algo) + "): "@ + hash@),
            None => head,
        }
    }
}

/// The lines of the closing summary, with the time it took as it is to be shown. None for `json`, which emits
/// an `end` event instead.
pub fn summary(mode: ProgressMode, raw: bool, algo: Checksum, report: &Report, elapsed: &str) -> (lines:
    Vec<String>)
    ensures
        lines_of(lines@) == summary_lines(mode, raw, algo, *report, elapsed@),
{
    let mut lines: Vec<String> = Vec::new();
    if mode != ProgressMode::Json {
        let mut line = "Downloaded ".to_owned();
        let size = fmt_size(report.length, raw);
        line.append(size.as_str());
        line.append(" in ");
        line.append(elapsed);
        lines.push(line);
        if let Some(hash) = &report.hash {
            let mut line = "Hash(".to_owned();
            line.append(algo.name());
            line.append("): ");
            line.append(hash.as_str());
            lines.push(line);
        }
    }
    assert(lines_of(lines@) =~= summary_lines(mode, raw, algo, *report, elapsed@));
    lines
}

/// What a partial is said to be.
pub open spec fn info_lines(info: Inspection, output: Seq<char>, percent: Seq<char>, raw: bool) -> Seq<
    Seq<char>,
> {
    let head = seq![
        "Source:     "@ + match info.source {
            Some(source) => source@,
            None => "(unknown)"@,
        },
        "Size:       "@ + sizes::size_text(info.total, raw),
        "Downloaded: "@ + sizes::size_text(info.downloaded, raw) + "  ("@ + percent + "%)"@,
    ];
    let body = match info.validator {
        Some(validator) => head.push("Validator:  "@ + validator@),
        None => head,
    };
    body.push(
        if info.source is Some {
            "Status:     resumable   ->  xget "@ + output
        } else {
            "Status:     resumable (re-run with the original URL to resume)"@
        },
    )
}

/// The lines that tell of a partial: where it came from, how much of it is there (with `percent` as it is to
/// be shown), and how to finish it.
pub fn show_info(info: &Inspection, output: &str, percent: &str, raw: bool) -> (lines: Vec<String>)
    ensures
        lines_of(lines@) == info_lines(*info, output@, percent@, raw),
{
    let mut lines: Vec<String> = Vec::new();
    let mut line = "Source:     ".to_owned();
    match &info.source {
        Some(source) => line.append(source.as_str()),
        None => line.append("(unknown)"),
    }
    lines.push(line);
    let mut line = "Size:       ".to_owned();
    let total = fmt_size(info.total, raw);
    line.append(total.as_str());
    lines.push(line);
    let mut line = "Downloaded: ".to_owned();
    let downloaded = fmt_size(info.downloaded, raw);
    line.append(downloaded.as_str());
    line.append("  (");
    line.append(percent);
    line.append("%)");
    lines.push(line);
    if let Some(validator) = &info.validator {
        let mut line = "Validator:  ".to_owned();
        line.append(validator.as_str());
        lines.push(line);
    }
    let status = if info.source.is_some() {
        let mut status = "Status:     resumable   ->  xget ".to_owned();
        status.append(output);
        status
    } else {
        "Status:     resumable (re-run with the original URL to resume)".to_owned()
    };
    lines.push(status);
    assert(lines_of(lines@) =~= info_lines(*info, output@, percent@, raw));
    lines
}

/// The complaint about a file that is no control file.
pub fn not_resumable(path: &str) -> (message: String)
    ensures
        message@ == path@ + " is not a resumable xget control file"@,
{
    let mut message = path.to_owned();
    message.append(" is not a resumable xget control file");
    message
}

/// The closing summary ends with the digest and the algorithm it was made with, where there is one, and is left
/// out of JSON.
pub proof fn law_summary_tells_the_digest(
    mode: ProgressMode,
    raw: bool,
    algo: Checksum,
    report: Report,
    elapsed: Seq<char>,
)
    ensures
        mode == ProgressMode::Json ==> summary_lines(mode, raw, algo, report, elapsed).len() == 0,
        mode != ProgressMode::Json && report.hash is Some ==> text::model::strip_prefix(
            summary_lines(mode, raw, algo, report, elapsed).last(),
            "Hash("@ + checksum::name_of(algo) + "): "@,
        ) == Some(report.hash->0@),
        mode != ProgressMode::Json ==> text::model::strip_prefix(
            summary_lines(mode, raw, algo, report, elapsed)[0],
            "Downloaded "@ + sizes::size_text(report.length, raw) + " in "@,
        ) == Some(elapsed),
{
    laws::law_prefix_and_rest(
        elapsed,
        "Downloaded "@ + sizes::size_text(report.length, raw) + " in "@,
        elapsed,
    );
    if let Some(hash) = report.hash {
        laws::law_prefix_and_rest(hash@, "Hash("@ + checksum::name_of(algo) + "): "@, hash@);
    }
}

/// A download is announced with as many chunks as it will have: those that were asked for, as far as there are
/// bytes for them; one where the source serves no ranges.
pub proof fn law_announced_chunks_are_planned(probe: Probe, chunks: u32)
    ensures
        !probe.supports_ranges ==> announced_chunks(Some(probe), chunks) == 1,
        probe.supports_ranges && 1 <= chunks <= probe.length ==> announced_chunks(Some(probe), chunks)
            == chunks,
        probe.supports_ranges && 1 <= probe.length < chunks ==> announced_chunks(Some(probe), chunks)
            == probe.length,
        probe.supports_ranges && (chunks == 0 || probe.length == 0) ==> announced_chunks(Some(probe), chunks)
            == 1,
        announced_chunks(None, chunks) == chunks,
{
}

/// The block before a bar tells the URL, the number of chunks, the length and the destination, and whether a
/// partial is continued.
pub proof fn law_preamble_tells_the_request(
    url: Seq<char>,
    chunks: u32,
    raw: bool,
    probe: Option<Probe>,
    output: Seq<char>,
    resume: bool,
)
    ensures
        ({
            let lines = preamble_lines(url, chunks, raw, probe, Some(output), Sink::File, resume);
            &&& url.is_suffix_of(lines[0])
            &&& text::model::decimal(announced_chunks(probe, chunks)).is_suffix_of(lines[1])
            &&& probe is None ==> "unknown"@.is_suffix_of(lines[2])
            &&& probe matches Some(p) ==> (p.content_type is None ==> sizes::size_text(
                p.length,
                raw,
            ).is_suffix_of(lines[2]))
            &&& probe matches Some(p) ==> (p.content_type matches Some(kind) ==> (" ["@ + kind@
                + "]"@).is_suffix_of(lines[2]))
            &&& ("'"@ + output + "'"@).is_suffix_of(lines[3])
            &&& lines.len() == if resume {
                5int
            } else {
                4int
            }
        }),
{
    let lines = preamble_lines(url, chunks, raw, probe, Some(output), Sink::File, resume);
    lemma_ends(bar::chrome("URL:"@) + " "@, url);
    lemma_ends(bar::chrome("Chunks:"@) + " "@, text::model::decimal(announced_chunks(probe, chunks)));
    lemma_ends(bar::chrome("Length:"@) + " "@, "unknown"@);
    if let Some(p) = probe {
        lemma_ends(bar::chrome("Length:"@) + " "@, sizes::size_text(p.length, raw));
        if let Some(kind) = p.content_type {
            let end = " ["@ + kind@ + "]"@;
            lemma_ends(bar::chrome("Length:"@) + " "@ + sizes::size_text(p.length, raw), end);
            assert(lines[2] =~= bar::chrome("Length:"@) + " "@ + sizes::size_text(p.length, raw) + end);
        }
    }
    lemma_ends(bar::chrome("Saving:"@) + " "@, "'"@ + output + "'"@);
}

proof fn lemma_ends(a: Seq<char>, b: Seq<char>)
    ensures
        b.is_suffix_of(a + b),
{
    let s = a + b;
    assert(s.subrange(s.len() - b.len(), s.len() as int) =~= b);
}

/// What is told of a partial: its source, its size, how much is there, and how to finish it.
pub proof fn law_info_tells_the_partial(info: Inspection, output: Seq<char>, percent: Seq<char>, raw: bool)
    ensures
        ({
            let lines = info_lines(info, output, percent, raw);
            &&& info.source matches Some(source) ==> source@.is_suffix_of(lines[0])
            &&& sizes::size_text(info.total, raw).is_suffix_of(lines[1])
            &&& ("Downloaded: "@ + sizes::size_text(info.downloaded, raw)).is_prefix_of(lines[2])
            &&& info.validator matches Some(validator) ==> validator@.is_suffix_of(lines[3])
            &&& info.source is Some ==> output.is_suffix_of(lines.last())
        }),
{
    let lines = info_lines(info, output, percent, raw);
    if let Some(source) = info.source {
        lemma_ends("Source:     "@, source@);
    }
    lemma_ends("Size:       "@, sizes::size_text(info.total, raw));
    if let Some(validator) = info.validator {
        lemma_ends("Validator:  "@, validator@);
    }
    lemma_ends("Status:     resumable   ->  xget "@, output);
    let front = "Downloaded: "@ + sizes::size_text(info.downloaded, raw);
    assert(lines[2].subrange(0, front.len() as int) =~= front);
}

/// Where the bytes go is announced: to a file or a special file by its path, to standard output, or nowhere.
pub proof fn law_destination_is_announced(path: Seq<char>, output: Option<Seq<char>>)
    ensures
        announced_sink(Sink::File, Some(path)) == "'"@ + path + "'"@,
        ("'"@ + path + "'"@).is_prefix_of(announced_sink(Sink::Stream, Some(path))),
        announced_sink(Sink::Stdout, output) == "<stdout>"@,
        announced_sink(Sink::Discard, output) == "<discarded>"@,
{
    reveal_strlit("' <stream>");
    reveal_strlit("'");
    let s = announced_sink(Sink::Stream, Some(path));
    let front = "'"@ + path + "'"@;
    assert(s.subrange(0, front.len() as int) =~= front);
}

} // verus!
