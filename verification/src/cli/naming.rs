//! The names of the files a run reads and writes.

use crate::engine::scratch::part_path;
use crate::path;
use crate::path::Platform;
use crate::source::http;
use crate::source::http::parse_url;
use crate::text;
use vstd::prelude::*;
use vstd::slice::slice_subrange;
use vstd::string::*;

verus! {

/// Whether a character separates the pieces of a path.
pub open spec fn separates(c: char, platform: Platform) -> bool {
    path::model::slash(c, platform) == '/'
}

/// A path without the separators, and the `.` behind a separator, that it ends in.
pub open spec fn tidy(path: Seq<char>, platform: Platform) -> Seq<char>
    decreases path.len(),
{
    if path.len() > 1 && separates(path.last(), platform) {
        tidy(path.drop_last(), platform)
    } else if path.len() > 1 && path.last() == '.' && separates(path[path.len() - 2], platform) {
        tidy(path.drop_last(), platform)
    } else {
        path
    }
}

/// The output that a control file belongs to: its path without the `.xget` suffix, where it has one behind a
/// name.
pub open spec fn output_of(path: Seq<char>, platform: Platform) -> Option<Seq<char>> {
    let whole = tidy(path, platform);
    let behind = path::model::rest(whole, platform);
    if behind.len() > 0 && behind.last().len() > 5 && ".xget"@.is_suffix_of(behind.last()) {
        Some(whole.take(whole.len() - 5))
    } else {
        None
    }
}

fn is_separator(c: char, platform: Platform) -> (r: bool)
    ensures
        r == separates(c, platform),
{
    c == '/' || (platform == Platform::Windows && c == '\\')
}

fn tidied<'a>(path: &'a [char], platform: Platform) -> (out: &'a [char])
    ensures
        out@ == tidy(path@, platform),
{
    let mut n: usize = path.len();
    assert(path@.take(n as int) =~= path@);
    while n > 1 && (is_separator(path[n - 1], platform) || (path[n - 1] == '.' && is_separator(
        path[n - 2],
        platform,
    )))
        invariant
            n <= path.len(),
            tidy(path@, platform) == tidy(path@.take(n as int), platform),
        decreases n,
    {
        assert(path@.take(n as int).drop_last() =~= path@.take(n - 1));
        n -= 1;
    }
    let out = slice_subrange(path, 0, n);
    assert(out@ =~= path@.take(n as int));
    out
}

/// The output that the control file at `path` belongs to, if that is the path of a control file. This is what
/// lets a download be resumed from its `.xget` alone.
pub fn control_output(path: &str, platform: Platform) -> (output: Option<String>)
    ensures
        text::model::opt_view(output) == output_of(path@, platform),
{
    let chars = text::chars_of(path);
    let whole = tidied(&chars, platform);
    match path::last_piece(whole, platform) {
        Some(name) => if name.len() > 5 && text::strip_suffix(&name, ".xget").is_some() {
            proof {
                lemma_last_piece_short(whole@, platform);
            }
            let out = slice_subrange(whole, 0, whole.len() - 5);
            assert(out@ =~= whole@.take(whole@.len() - 5));
            Some(text::string_of(out))
        } else {
            None
        },
        None => None,
    }
}

proof fn lemma_after_last_short(s: Seq<char>, c: char)
    ensures
        text::model::after_last(s, c).len() <= s.len(),
    decreases s.len(),
{
    text::model::lemma_position(s, c);
    let p = text::model::position(s, c) as int;
    if p < s.len() {
        lemma_after_last_short(s.skip(p + 1), c);
        text::model::lemma_split_nonempty(s.skip(p + 1), c);
        assert(text::model::split(s, c).last() == text::model::split(s.skip(p + 1), c).last());
    }
}

proof fn lemma_last_piece_short(path: Seq<char>, platform: Platform)
    requires
        path::model::rest(path, platform).len() > 0,
    ensures
        path::model::rest(path, platform).last().len() <= path.len(),
{
    let even = path::model::slashed(path, platform);
    lemma_after_last_short(even, '/');
    text::model::lemma_split_nonempty(even, '/');
}

/// The path of the control file that `path` names: the `.xget` itself, or the one beside the output.
pub fn control_path(path: &str, platform: Platform) -> (control: String)
    ensures
        control@ == if output_of(path@, platform) is Some {
            path@
        } else {
            path@ + ".xget"@
        },
{
    if control_output(path, platform).is_some() {
        path.to_owned()
    } else {
        part_path(path)
    }
}

/// The source and the output of a run that resumes from a control file alone: the URL that was given is the
/// path of the control file, no separate output was given, and the control records where it came from.
pub fn control_resume_target(
    url: &str,
    output_given: bool,
    source: Option<String>,
    platform: Platform,
) -> (target: Option<(String, String)>)
    ensures
        match target {
            Some((from, to)) => !output_given && text::model::opt_view(source) == Some(from@) && output_of(
                url@,
                platform,
            ) == Some(to@),
            None => output_given || source is None || output_of(url@, platform) is None,
        },
{
    if output_given {
        return None;
    }
    match (control_output(url, platform), source) {
        (Some(to), Some(from)) => Some((from, to)),
        _ => None,
    }
}

/// What a download is named, given the segments of its URL's path: the last of them, unless it is empty.
pub open spec fn last_segment(
    url: Seq<char>,
    segments: Option<Seq<Seq<char>>>,
    named: Result<String, String>,
) -> bool {
    if segments is Some && segments->0.len() > 0 && segments->0.last().len() > 0 {
        named matches Ok(name) && name@ == segments->0.last()
    } else {
        named matches Err(message) && message@ == "cannot infer a filename from "@ + url
            + "; give an output path"@
    }
}

/// What the last segment of a URL's path names a download as.
pub open spec fn basename(url: Seq<char>, named: Result<String, String>) -> bool {
    match http::parsed_url(url) {
        Ok((_, segments)) => last_segment(url, segments, named),
        Err(error) => named matches Err(message) && message@ == error,
    }
}

/// The last path segment of the URL, for naming a downloaded file.
pub fn url_basename(url: &str) -> (named: Result<String, String>)
    ensures
        basename(url@, named),
{
    match parse_url(url) {
        Ok((_, segments)) => segment_name(url, segments),
        Err(message) => Err(message),
    }
}

/// The name of a download whose URL has these path segments.
pub fn segment_name(url: &str, segments: Option<Vec<String>>) -> (named: Result<String, String>)
    ensures
        last_segment(url@, text::model::opt_texts(segments), named),
{
    if let Some(segments) = segments {
        let mut segments = segments;
        if let Some(last) = segments.pop() {
            if !last.as_str().is_empty() {
                return Ok(last);
            }
        }
    }
    let mut message = "cannot infer a filename from ".to_owned();
    message.append(url);
    message.append("; give an output path");
    Err(message)
}

/// Infer an output filename: the one the source suggests, otherwise the URL's last path segment.
pub fn infer_name(suggested: Option<&str>, url: &str) -> (named: Result<String, String>)
    ensures
        match suggested {
            Some(name) => named matches Ok(n) && n@ == name@,
            None => basename(url@, named),
        },
{
    match suggested {
        Some(name) => Ok(name.to_owned()),
        None => url_basename(url),
    }
}

/// How the output path comes about.
#[derive(Clone, Copy, PartialEq, Eq, Debug, Structural)]
pub enum Placement {
    /// The path that was given.
    AsGiven,
    /// An inferred name inside the directory that was given.
    InDirectory,
    /// An inferred name under the directory prefix.
    UnderPrefix,
    /// An inferred name, here.
    Here,
}

/// Decide how the output path comes about: an explicit file, a name inside an explicit directory, or a name
/// inferred from the resource under a directory prefix.
pub fn placement(output: bool, is_directory: bool, prefix: bool) -> (p: Placement)
    ensures
        p == if output && is_directory {
            Placement::InDirectory
        } else if output {
            Placement::AsGiven
        } else if prefix {
            Placement::UnderPrefix
        } else {
            Placement::Here
        },
{
    if output {
        if is_directory {
            Placement::InDirectory
        } else {
            Placement::AsGiven
        }
    } else if prefix {
        Placement::UnderPrefix
    } else {
        Placement::Here
    }
}

/// A complete file at the destination is never clobbered unless that was permitted.
pub fn may_write(path: &str, present: bool, overwrite: bool) -> (r: Result<(), String>)
    ensures
        match r {
            Ok(()) => !present || overwrite,
            Err(message) => present && !overwrite && message@ == path@
                + " already exists (use -f to overwrite)"@,
        },
{
    if present && !overwrite {
        let mut message = path.to_owned();
        message.append(" already exists (use -f to overwrite)");
        Err(message)
    } else {
        Ok(())
    }
}

/// The control file beside an output tells of that output: the partial of a path that ends in a file name
/// belongs to that path.
pub proof fn law_partial_belongs_to_its_output(path: Seq<char>, platform: Platform)
    requires
        path::model::rest(path, platform).len() > 0,
        path::model::rest(path, platform).last().len() > 0,
    ensures
        output_of(path + ".xget"@, platform) == Some(path),
{
    reveal_strlit(".xget");
    let whole = path + ".xget"@;
    let even = path::model::slashed(path, platform);
    assert(whole.last() == 't');
    assert(tidy(whole, platform) == whole);
    assert(path::model::slashed(whole, platform) =~= even + ".xget"@);
    lemma_split_append(even, ".xget"@, '/');
    text::model::lemma_split_nonempty(even, '/');
    let all = path::model::pieces(path, platform);
    let longer = path::model::pieces(whole, platform);
    let n = all.len() - 1;
    assert(longer.len() == all.len());
    assert(longer[n] == all[n] + ".xget"@);
    assert(forall|i: int| 0 <= i < n ==> (#[trigger] longer[i]) == all[i]);
    let behind = path::model::rest(path, platform);
    let after = path::model::rest(whole, platform);
    if platform == Platform::Windows {
        if n == 3 {
            assert(!path::model::has_share(all));
        }
        assert(path::model::has_share(longer) ==> path::model::has_share(all) || n == 3);
        if n == 0 && path::model::has_drive(all[0]) {
            assert(longer[0].skip(2) =~= all[0].skip(2) + ".xget"@);
        }
    }
    assert(after.len() > 0 && after.last() =~= behind.last() + ".xget"@);
    let name = after.last();
    assert(name.subrange(name.len() - 5, name.len() as int) =~= ".xget"@);
    assert(".xget"@.is_suffix_of(name));
    assert(whole.take(whole.len() - 5) =~= path);
}

/// Text without the separator, appended, extends the last piece.
proof fn lemma_split_append(s: Seq<char>, t: Seq<char>, c: char)
    requires
        forall|j: int| 0 <= j < t.len() ==> (#[trigger] t[j]) != c,
    ensures
        text::model::split(s + t, c) == text::model::split(s, c).drop_last().push(
            text::model::split(s, c).last() + t,
        ),
    decreases s.len(),
{
    text::model::lemma_position(s, c);
    let p = text::model::position(s, c) as int;
    if p < s.len() {
        text::model::lemma_position_is(s + t, c, p);
        assert((s + t).take(p) =~= s.take(p));
        assert((s + t).skip(p + 1) =~= s.skip(p + 1) + t);
        lemma_split_append(s.skip(p + 1), t, c);
        text::model::lemma_split_nonempty(s.skip(p + 1), c);
    } else {
        assert forall|j: int| 0 <= j < (s + t).len() implies (#[trigger] (s + t)[j]) != c by {
            if j >= s.len() {
                assert((s + t)[j] == t[j - s.len()]);
            }
        }
        text::model::lemma_position_is(s + t, c, (s + t).len() as int);
    }
    assert(text::model::split(s + t, c) =~= text::model::split(s, c).drop_last().push(
        text::model::split(s, c).last() + t,
    ));
}

/// A download is named after the last segment of its URL's path, whatever segments come before it; where that is
/// empty, or there is none, it has no name.
pub proof fn law_last_segment_names_the_download(
    url: Seq<char>,
    front: Seq<Seq<char>>,
    last: Seq<char>,
    named: Result<String, String>,
)
    requires
        last_segment(url, Some(front.push(last)), named),
    ensures
        last.len() > 0 ==> named is Ok && named->Ok_0@ == last,
        last.len() == 0 ==> named is Err,
{
    assert(front.push(last).last() == last);
}

/// A URL without segments names nothing.
pub proof fn law_no_segment_names_nothing(url: Seq<char>, named: Result<String, String>)
    requires
        last_segment(url, None, named) || last_segment(url, Some(Seq::empty()), named),
    ensures
        named is Err,
{
}

/// Only the path of a control file belongs to an output: it is that of the output with `.xget` behind it,
/// separators at its end and `.` behind them aside.
pub proof fn law_only_a_control_file_has_an_output(path: Seq<char>, platform: Platform)
    requires
        output_of(path, platform) is Some,
    ensures
        (output_of(path, platform)->0 + ".xget"@).is_prefix_of(path),
        forall|j: int|
            output_of(path, platform)->0.len() + 5 <= j < path.len() ==> separates(
                #[trigger] path[j],
                platform,
            ) || path[j] == '.',
{
    let whole = tidy(path, platform);
    let output = output_of(path, platform)->0;
    lemma_tidy(path, platform);
    reveal_strlit(".xget");
    lemma_last_piece_ends(whole, platform);
    let name = path::model::rest(whole, platform).last();
    lemma_last_piece_short(whole, platform);
    assert(whole =~= output + ".xget"@) by {
        assert(name.subrange(name.len() - 5, name.len() as int) == ".xget"@);
        assert forall|k: int| 0 <= k < 5 implies whole[whole.len() - 5 + k] == ".xget"@[k] by {
            assert(name[name.len() - 5 + k] == ".xget"@[k]);
            let c = whole[whole.len() - 5 + k];
            assert(path::model::slash(c, platform) == ".xget"@[k]);
        }
    }
}

proof fn lemma_tidy(path: Seq<char>, platform: Platform)
    ensures
        tidy(path, platform).is_prefix_of(path),
        forall|j: int|
            tidy(path, platform).len() <= j < path.len() ==> separates(#[trigger] path[j], platform)
                || path[j] == '.',
    decreases path.len(),
{
    if tidy(path, platform) != path {
        let front = path.drop_last();
        lemma_tidy(front, platform);
        assert forall|j: int| tidy(path, platform).len() <= j < path.len() implies separates(
            #[trigger] path[j],
            platform,
        ) || path[j] == '.' by {
            if j < front.len() {
                assert(front[j] == path[j]);
            }
        }
        assert(tidy(path, platform) =~= path.subrange(0, tidy(path, platform).len() as int));
    } else {
        assert(path =~= path.subrange(0, path.len() as int));
    }
}

/// The last piece of a path is what the path ends in.
proof fn lemma_last_piece_ends(path: Seq<char>, platform: Platform)
    requires
        path::model::rest(path, platform).len() > 0,
    ensures
        ({
            let last = path::model::rest(path, platform).last();
            &&& last.len() <= path.len()
            &&& forall|k: int|
                0 <= k < last.len() ==> (#[trigger] last[k]) == path::model::slash(
                    path[path.len() - last.len() + k],
                    platform,
                )
        }),
{
    let even = path::model::slashed(path, platform);
    lemma_last_piece_short(path, platform);
    lemma_after_last_ends(even, '/');
    text::model::lemma_split_nonempty(even, '/');
    let all = path::model::pieces(path, platform);
    let last = path::model::rest(path, platform).last();
    let piece = all.last();
    assert forall|k: int| 0 <= k < last.len() implies (#[trigger] last[k]) == path::model::slash(
        path[path.len() - last.len() + k],
        platform,
    ) by {
        let off = piece.len() - last.len();
        assert(last[k] == piece[k + off]);
        assert(piece[k + off] == even[even.len() - piece.len() + k + off]);
    }
}

proof fn lemma_after_last_ends(s: Seq<char>, c: char)
    ensures
        text::model::after_last(s, c).len() <= s.len(),
        text::model::after_last(s, c) == s.skip(s.len() - text::model::after_last(s, c).len()),
    decreases s.len(),
{
    text::model::lemma_position(s, c);
    let p = text::model::position(s, c) as int;
    if p < s.len() {
        lemma_after_last_ends(s.skip(p + 1), c);
        text::model::lemma_split_nonempty(s.skip(p + 1), c);
        assert(text::model::split(s, c).last() == text::model::split(s.skip(p + 1), c).last());
        let last = text::model::after_last(s, c);
        assert(s.skip(p + 1).skip(s.skip(p + 1).len() - last.len()) =~= s.skip(s.len() - last.len()));
    } else {
        assert(s.skip(0) =~= s);
    }
}

/// Separators behind the path of a control file do not matter.
pub proof fn law_separators_behind_a_control_file_do_not_matter(path: Seq<char>, platform: Platform)
    requires
        path.len() > 0,
    ensures
        output_of(path + seq!['/'], platform) == output_of(path, platform),
        output_of(path + seq!['/', '.'], platform) == output_of(path, platform),
{
    let a = path + seq!['/'];
    assert(a.drop_last() =~= path);
    let b = path + seq!['/', '.'];
    assert(b.drop_last() =~= a);
    assert(b[b.len() - 2] == '/');
}

} // verus!
