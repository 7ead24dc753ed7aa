//! Where a run's bytes go, and whether it resumes.

use crate::path;
use crate::path::is_path;
use crate::path::Platform;
use crate::text;
use crate::source::http;
use crate::text::laws;
use vstd::prelude::*;

verus! {

/// Where a run's bytes go, chosen from the output argument. Only a regular file leaves a persistent artifact,
/// so only it resumes.
#[derive(Clone, Copy, PartialEq, Eq, Debug, Structural)]
pub enum Sink {
    /// Write to a regular file whose path is resolved and inferred as usual.
    File,
    /// Stream to stdout (the output argument was `-`).
    Stdout,
    /// Verify and keep nothing (the output argument was `/dev/null`).
    Discard,
    /// Stream to an existing special file: a named pipe, a device, or a shell process substitution. It cannot
    /// host a sibling `.xget` or be finalized by rename, so it is written sequentially like stdout, with no
    /// resume.
    Stream,
}

/// Where the bytes of a run go, by its output argument.
pub open spec fn sink_of(output: Option<Seq<char>>, special: bool, platform: Platform) -> Sink {
    match output {
        Some(path) => if path::model::same(path, "-"@, platform) {
            Sink::Stdout
        } else if path::model::same(path, "/dev/null"@, platform) {
            Sink::Discard
        } else if special {
            Sink::Stream
        } else {
            Sink::File
        },
        None => Sink::File,
    }
}

/// Read the output argument to decide the sink: `-` is stdout, the exact path `/dev/null` is a discard, an
/// existing special file (pipe/device/process-substitution) is a stream, anything else (or no argument) is a
/// regular file.
pub fn resolve_sink(output: Option<&str>, special: bool, platform: Platform) -> (sink: Sink)
    ensures
        sink == sink_of(text::model::opt_str(output), special, platform),
{
    match output {
        Some(path) => if is_path(path, "-", platform) {
            Sink::Stdout
        } else if is_path(path, "/dev/null", platform) {
            Sink::Discard
        } else if special {
            Sink::Stream
        } else {
            Sink::File
        },
        None => Sink::File,
    }
}

/// Whether a partial on disk is there to be continued: only a file has one, and only where a fresh start was
/// not asked for.
pub fn continues_partial(sink: Sink, restart: bool, resumable: bool) -> (partial: bool)
    ensures
        partial == (sink == Sink::File && !restart && resumable),
{
    sink == Sink::File && !restart && resumable
}

/// Whether the run resumes: a partial resumes by itself, and a resume that was asked for is one too, unless a
/// fresh start was asked for. Only a file resumes.
pub fn should_resume(sink: Sink, asked: bool, restart: bool, resumable: bool) -> (resume: bool)
    ensures
        resume == (sink == Sink::File && !restart && (resumable || asked)),
{
    continues_partial(sink, restart, resumable) || (sink == Sink::File && asked && !restart)
}

/// How to report progress while downloading.
#[derive(Clone, Copy, PartialEq, Eq, Debug, Structural)]
pub enum ProgressMode {
    /// A live bar on a terminal, otherwise plain lines.
    Auto,
    /// A live segmented bar.
    Bar,
    /// A single updating text line.
    Plain,
    /// One JSON event per update, to stderr.
    Json,
    /// No progress, only the final result.
    Quiet,
}

/// The progress mode that comes into effect.
pub open spec fn mode_of(asked: ProgressMode, no_bar: bool, terminal: bool) -> ProgressMode {
    match asked {
        ProgressMode::Auto => if terminal && !no_bar {
            ProgressMode::Bar
        } else {
            ProgressMode::Plain
        },
        ProgressMode::Bar => if no_bar {
            ProgressMode::Plain
        } else {
            ProgressMode::Bar
        },
        other => other,
    }
}

/// Resolve the effective progress mode: `auto` becomes a bar on a terminal and plain lines otherwise, and
/// `--no-bar` downgrades a bar to plain.
pub fn resolve_mode(asked: ProgressMode, no_bar: bool, terminal: bool) -> (mode: ProgressMode)
    ensures
        mode == mode_of(asked, no_bar, terminal),
{
    let mode = if asked == ProgressMode::Auto {
        if terminal {
            ProgressMode::Bar
        } else {
            ProgressMode::Plain
        }
    } else {
        asked
    };
    if no_bar && mode == ProgressMode::Bar {
        ProgressMode::Plain
    } else {
        mode
    }
}

/// The filter of the diagnostic log for a number of `-v` flags: nothing for none.
pub fn log_filter(verbose: u8) -> (filter: Option<&'static str>)
    ensures
        text::model::opt_str(filter) == if verbose == 0 {
            None
        } else if verbose == 1 {
            Some("xget=debug"@)
        } else {
            Some("xget=trace"@)
        },
{
    if verbose == 0 {
        None
    } else if verbose == 1 {
        Some("xget=debug")
    } else {
        Some("xget=trace")
    }
}

/// A dash is standard output and `/dev/null` a discard, whatever they are; any other name without a directory is a
/// stream where it is a special file, and a file where it is not, and so is no name.
pub proof fn law_output_argument_selects_the_sink(name: Seq<char>, special: bool, platform: Platform)
    requires
        http::laws::is_plain_name(name, platform),
        name != "-"@,
    ensures
        sink_of(Some("-"@), special, platform) == Sink::Stdout,
        sink_of(Some("/dev/null"@), special, platform) == Sink::Discard,
        sink_of(Some(name), true, platform) == Sink::Stream,
        sink_of(Some(name), false, platform) == Sink::File,
        sink_of(None, special, platform) == Sink::File,
{
    reveal_strlit("-");
    reveal_strlit("/dev/null");
    let dash = "-"@;
    assert(http::laws::is_plain_name(dash, platform));
    http::laws::lemma_plain_path(name, platform);
    http::laws::lemma_plain_path(dash, platform);
    let null = "/dev/null"@;
    let even = path::model::slashed(null, platform);
    assert(even =~= null);
    let none = Seq::<char>::empty();
    let dev = seq!['d', 'e', 'v'];
    let rest = seq!['n', 'u', 'l', 'l'];
    assert(null =~= none + seq!['/'] + (dev + seq!['/'] + rest));
    laws::law_split_takes_off_a_piece(none, '/', dev + seq!['/'] + rest);
    laws::law_split_takes_off_a_piece(dev, '/', rest);
    laws::law_split_takes_off_a_piece(rest, '/', none);
    let pieces = path::model::pieces(null, platform);
    assert(pieces =~= seq![none, dev, rest]);
    assert(!path::model::has_drive(pieces[0]));
    assert(path::model::rest(null, platform) == pieces);
    assert(path::model::rooted(null, platform));
    assert(!path::model::rooted(dash, platform));
    assert(!path::model::rooted(name, platform));
    assert(path::model::components(seq![name])[0] == name);
    assert(path::model::components(seq![dash])[0] == dash);
}

/// A bar is drawn where one was asked for, or on a terminal where nothing was, and never against `--no-bar`; what
/// else was asked for is what is shown.
pub proof fn law_progress_is_shown_as_asked(asked: ProgressMode, no_bar: bool, terminal: bool)
    ensures
        mode_of(asked, no_bar, terminal) == ProgressMode::Bar <==> !no_bar && (asked == ProgressMode::Bar || (
        asked == ProgressMode::Auto && terminal)),
        asked == ProgressMode::Json || asked == ProgressMode::Quiet || asked == ProgressMode::Plain
            ==> mode_of(asked, no_bar, terminal) == asked,
        mode_of(asked, no_bar, terminal) != ProgressMode::Auto,
        (asked == ProgressMode::Auto || asked == ProgressMode::Bar) && mode_of(asked, no_bar, terminal)
            != ProgressMode::Bar ==> mode_of(asked, no_bar, terminal) == ProgressMode::Plain,
{
}

} // verus!
