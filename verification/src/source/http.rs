//! An HTTP source: probe with a length request, fetch validated byte ranges.

use crate::error;
use crate::error::Error;
use crate::range::ByteRange;
use crate::path;
use crate::path::Platform;
use crate::text;
use crate::vocabulary::Probe;
use vstd::prelude::*;
use vstd::slice::slice_subrange;
use vstd::string::*;
use vstd::utf8::*;

pub mod laws;

verus! {

/// What `Url::parse` makes of a text: the URL as it is written once parsed, and the segments of its path where
/// it has them; or what is wrong with it.
pub uninterp spec fn parsed_url(url: Seq<char>) -> Result<
    (Seq<char>, Option<Seq<Seq<char>>>),
    Seq<char>,
>;

/// `reqwest::Url::parse`: the parsed URL written out, with its `path_segments` in order, or the error written
/// out. What it accepts, and how it writes a URL, is left to it.
#[verifier::external_body]
pub(crate) fn parse_url(url: &str) -> (parsed: Result<(String, Option<Vec<String>>), String>)
    ensures
        match parsed {
            Ok((text, segments)) => parsed_url(url@) == Ok::<
                (Seq<char>, Option<Seq<Seq<char>>>),
                Seq<char>,
            >((text@, text::model::opt_texts(segments))),
            Err(message) => parsed_url(url@) == Err::<
                (Seq<char>, Option<Seq<Seq<char>>>),
                Seq<char>,
            >(message@),
        },
{
    match reqwest::Url::parse(url) {
        Ok(url) => Ok(
            (url.to_string(), url.path_segments().map(|all| all.map(str::to_owned).collect())),
        ),
        Err(error) => Err(error.to_string()),
    }
}

/// How a status code is written out, with its reason.
pub uninterp spec fn status_line(status: u16) -> Seq<char>;

/// `reqwest::StatusCode`, written out: the number and the reason that is customary for it. A number that is
/// no status code is written as the error that says so.
#[verifier::external_body]
fn status_text(status: u16) -> (line: String)
    ensures
        line@ == status_line(status),
{
    match reqwest::StatusCode::from_u16(status) {
        Ok(status) => status.to_string(),
        Err(error) => error.to_string(),
    }
}

/// What a failed request is said to have returned.
pub open spec fn refused(request: Seq<char>, status: Seq<char>) -> Seq<char> {
    request + " returned HTTP "@ + status
}

/// The error for a request that was answered with a status other than success, written out.
pub fn refusal(request: &str, status: &str) -> (e: Error)
    ensures
        error::is_detail(e, refused(request@, status@)),
{
    let mut message = request.to_owned();
    message.append(" returned HTTP ");
    message.append(status);
    Error::detail(message.as_str())
}

/// What the head of a response says. A header whose value is no text is left out.
#[derive(Debug)]
pub struct Head {
    /// The status code.
    pub status: u16,
    /// The `Content-Disposition` header.
    pub disposition: Option<String>,
    /// The `Content-Type` header.
    pub content_type: Option<String>,
    /// The `Content-Range` header.
    pub content_range: Option<String>,
    /// The length of the body, where it is known.
    pub content_length: Option<u64>,
    /// The `ETag` header.
    pub etag: Option<String>,
    /// The `Last-Modified` header.
    pub last_modified: Option<String>,
}

/// A byte source backed by an HTTP(S) URL that supports range requests.
#[derive(Debug)]
pub struct HttpSource {
    url: String,
}

/// The total length in a `Content-Range` value like `bytes 0-0/1234`.
pub open spec fn range_total(value: Seq<char>) -> Option<nat> {
    text::model::parse_uint(text::model::trim(text::model::after_last(value, '/')), u64::MAX as nat)
}

/// The start offset in a `Content-Range` value like `bytes 100-199/1234`.
pub open spec fn range_start(value: Seq<char>) -> Option<nat> {
    match text::model::strip_prefix(value, "bytes "@) {
        Some(rest) => text::model::parse_uint(
            text::model::trim(text::model::before(text::model::before(rest, '/'), '-')),
            u64::MAX as nat,
        ),
        None => None,
    }
}

/// A number, as a mathematical one.
pub open spec fn opt_nat(n: Option<u64>) -> Option<nat> {
    match n {
        Some(n) => Some(n as nat),
        None => None,
    }
}

/// The value of a hexadecimal digit.
pub open spec fn hex_value(b: u8) -> Option<u8> {
    if 0x30 <= b <= 0x39 {
        Some((b - 0x30) as u8)
    } else if 0x41 <= b <= 0x46 {
        Some((b - 0x41 + 10) as u8)
    } else if 0x61 <= b <= 0x66 {
        Some((b - 0x61 + 10) as u8)
    } else {
        None
    }
}

/// The byte that two hexadecimal digits after a percent sign stand for.
pub open spec fn hex_pair(hi: u8, lo: u8) -> Option<u8> {
    match (hex_value(hi), hex_value(lo)) {
        (Some(h), Some(l)) => Some((16 * h + l) as u8),
        _ => None,
    }
}

/// `bytes` with every percent sign and the two characters after it replaced by the byte they stand for.
pub open spec fn percent_decoded(bytes: Seq<u8>) -> Option<Seq<u8>>
    decreases bytes.len(),
{
    if bytes.len() == 0 {
        Some(Seq::empty())
    } else if bytes[0] == 0x25 {
        if bytes.len() < 3 {
            None
        } else {
            match (hex_pair(bytes[1], bytes[2]), percent_decoded(bytes.skip(3))) {
                (Some(byte), Some(rest)) => Some(seq![byte] + rest),
                _ => None,
            }
        }
    } else {
        match percent_decoded(bytes.skip(1)) {
            Some(rest) => Some(seq![bytes[0]] + rest),
            None => None,
        }
    }
}

/// What an RFC 5987 extended value says.
pub open spec fn extended(raw: Seq<char>) -> Option<Seq<char>> {
    let encoded = text::model::after_last_str(raw, "''"@, raw.len() as int);
    match percent_decoded(encode_utf8(encoded)) {
        Some(bytes) => if valid_utf8(bytes) {
            Some(decode_utf8(bytes))
        } else {
            None
        },
        None => None,
    }
}

/// The first of the parts that is an extended filename and can be decoded.
pub open spec fn first_extended(parts: Seq<Seq<char>>) -> Option<Seq<char>>
    decreases parts.len(),
{
    if parts.len() == 0 {
        None
    } else {
        let here = match text::model::strip_prefix(text::model::trim(parts[0]), "filename*="@) {
            Some(raw) => extended(raw),
            None => None,
        };
        if here is Some {
            here
        } else {
            first_extended(parts.skip(1))
        }
    }
}

/// The first of the parts that is a plain filename, without the quotes around it.
pub open spec fn first_plain(parts: Seq<Seq<char>>) -> Option<Seq<char>>
    decreases parts.len(),
{
    if parts.len() == 0 {
        None
    } else {
        match text::model::strip_prefix(text::model::trim(parts[0]), "filename="@) {
            Some(raw) => Some(text::model::trim_of(text::model::trim(raw), '"')),
            None => first_plain(parts.skip(1)),
        }
    }
}

/// The filename that a `Content-Disposition` value suggests: the last path component of the extended name,
/// or else of the plain one.
pub open spec fn suggested(value: Seq<char>, platform: Platform) -> Option<Seq<char>> {
    let parts = text::model::split(value, ';');
    let name = if first_extended(parts) is Some {
        first_extended(parts)
    } else {
        first_plain(parts)
    };
    match name {
        Some(name) => path::model::file_name(name, platform),
        None => None,
    }
}

/// The media type in a `Content-Type` value, without its parameters.
pub open spec fn media_type(value: Seq<char>) -> Option<Seq<char>> {
    let media = text::model::trim(text::model::before(value, ';'));
    if media.len() > 0 {
        Some(media)
    } else {
        None
    }
}

/// Whether a status code means success.
pub open spec fn is_success(status: u16) -> bool {
    200 <= status < 300
}

/// Parse the total length from a `Content-Range` value like `bytes 0-0/1234`.
pub fn content_range_total(value: &str) -> (total: Option<u64>)
    ensures
        opt_nat(total) == range_total(value@),
{
    let chars = text::chars_of(value);
    text::parse_u64(text::trim(text::after_last(&chars, '/')))
}

/// Parse the start offset from a `Content-Range` value like `bytes 100-199/1234`.
pub fn content_range_start(value: &str) -> (start: Option<u64>)
    ensures
        opt_nat(start) == range_start(value@),
{
    let chars = text::chars_of(value);
    match text::strip_prefix(&chars, "bytes ") {
        Some(rest) => text::parse_u64(text::trim(text::before(text::before(rest, '/'), '-'))),
        None => None,
    }
}

fn hex_value_of(b: u8) -> (v: Option<u8>)
    ensures
        v == hex_value(b),
        v matches Some(v) ==> v < 16,
{
    if 0x30 <= b && b <= 0x39 {
        Some(b - 0x30)
    } else if 0x41 <= b && b <= 0x46 {
        Some(b - 0x41 + 10)
    } else if 0x61 <= b && b <= 0x66 {
        Some(b - 0x61 + 10)
    } else {
        None
    }
}

fn hex_pair_of(hi: u8, lo: u8) -> (v: Option<u8>)
    ensures
        v == hex_pair(hi, lo),
{
    match (hex_value_of(hi), hex_value_of(lo)) {
        (Some(h), Some(l)) => Some(16 * h + l),
        _ => None,
    }
}

fn percent_decode(bytes: &[u8]) -> (out: Option<Vec<u8>>)
    ensures
        match out {
            Some(out) => percent_decoded(bytes@) == Some(out@),
            None => percent_decoded(bytes@) is None,
        },
{
    let mut out: Vec<u8> = Vec::new();
    let mut i: usize = 0;
    assert(bytes@.skip(0) =~= bytes@);
    assert(match percent_decoded(bytes@.skip(0)) {
        Some(rest) => Some(out@ + rest) == percent_decoded(bytes@),
        None => percent_decoded(bytes@) is None,
    }) by {
        if let Some(rest) = percent_decoded(bytes@.skip(0)) {
            assert(out@ + rest =~= rest);
        }
    }
    while i < bytes.len()
        invariant
            i <= bytes.len(),
            match percent_decoded(bytes@.skip(i as int)) {
                Some(rest) => Some(out@ + rest) == percent_decoded(bytes@),
                None => percent_decoded(bytes@) is None,
            },
        decreases bytes.len() - i,
    {
        let ghost here = bytes@.skip(i as int);
        let ghost before = out@;
        assert(here[0] == bytes@[i as int]);
        if bytes[i] == 0x25 {
            if bytes.len() - i < 3 {
                return None;
            }
            assert(here[1] == bytes@[i + 1] && here[2] == bytes@[i + 2]);
            match hex_pair_of(bytes[i + 1], bytes[i + 2]) {
                Some(byte) => {
                    out.push(byte);
                    i += 3;
                    assert(here.skip(3) =~= bytes@.skip(i as int));
                    proof {
                        if let Some(rest) = percent_decoded(here.skip(3)) {
                            assert(out@ + rest =~= before + (seq![byte] + rest));
                        }
                    }
                },
                None => {
                    return None;
                },
            }
        } else {
            out.push(bytes[i]);
            i += 1;
            assert(here.skip(1) =~= bytes@.skip(i as int));
            proof {
                if let Some(rest) = percent_decoded(here.skip(1)) {
                    assert(out@ + rest =~= before + (seq![here[0]] + rest));
                }
            }
        }
    }
    assert(bytes@.skip(i as int) =~= Seq::<u8>::empty());
    assert(out@ + Seq::<u8>::empty() =~= out@);
    Some(out)
}

/// Decode an RFC 5987 extended value like `UTF-8''my%20file.zip` into `my file.zip`, percent-decoding the
/// bytes after the `charset''` prefix. Only UTF-8 output is accepted.
pub fn decode_extended_filename(raw: &str) -> (name: Option<String>)
    ensures
        text::model::opt_view(name) == extended(raw@),
{
    let chars = text::chars_of(raw);
    let encoded = text::string_of(text::after_last_str(&chars, "''"));
    let bytes = text::encode(encoded.as_str());
    match percent_decode(&bytes) {
        Some(decoded) => text::from_utf8(decoded),
        None => None,
    }
}

/// The first plain filename among the parts of a `Content-Disposition` value.
pub(crate) fn plain_name(parts: &Vec<Vec<char>>) -> (name: Option<Vec<char>>)
    ensures
        match name {
            Some(name) => first_plain(text::model::views(parts@)) == Some(name@),
            None => first_plain(text::model::views(parts@)) is None,
        },
{
    let ghost all = text::model::views(parts@);
    let mut i: usize = 0;
    assert(all.skip(0) =~= all);
    while i < parts.len()
        invariant
            i <= parts.len(),
            all == text::model::views(parts@),
            first_plain(all) == first_plain(all.skip(i as int)),
        decreases parts.len() - i,
    {
        let ghost here = all.skip(i as int);
        assert(here[0] == parts@[i as int]@);
        assert(here.skip(1) =~= all.skip(i + 1));
        if let Some(raw) = text::strip_prefix(text::trim(&parts[i]), "filename=") {
            return Some(text::copy_of(text::trim_of(text::trim(raw), '"')));
        }
        i += 1;
    }
    None
}

fn extended_name(parts: &Vec<Vec<char>>) -> (name: Option<Vec<char>>)
    ensures
        match name {
            Some(name) => first_extended(text::model::views(parts@)) == Some(name@),
            None => first_extended(text::model::views(parts@)) is None,
        },
{
    let ghost all = text::model::views(parts@);
    let mut i: usize = 0;
    assert(all.skip(0) =~= all);
    while i < parts.len()
        invariant
            i <= parts.len(),
            all == text::model::views(parts@),
            first_extended(all) == first_extended(all.skip(i as int)),
        decreases parts.len() - i,
    {
        let ghost here = all.skip(i as int);
        assert(here[0] == parts@[i as int]@);
        assert(here.skip(1) =~= all.skip(i + 1));
        if let Some(raw) = text::strip_prefix(text::trim(&parts[i]), "filename*=") {
            let raw = text::string_of(raw);
            if let Some(name) = decode_extended_filename(raw.as_str()) {
                return Some(text::chars_of(name.as_str()));
            }
        }
        i += 1;
    }
    None
}

/// Extract a filename from a `Content-Disposition` value, preferring the RFC 5987 `filename*` form and
/// falling back to a plain `filename`. The result is stripped to its final path component, so a server
/// cannot steer the output outside the intended directory with a value like `../../etc/passwd`. Returns
/// `None` if no usable, non-empty name is present.
pub fn content_disposition_name(value: &str, platform: Platform) -> (name: Option<String>)
    ensures
        text::model::opt_view(name) == suggested(value@, platform),
{
    let chars = text::chars_of(value);
    let parts = text::split(&chars, ';');
    let name = match extended_name(&parts) {
        Some(name) => Some(name),
        None => plain_name(&parts),
    };
    match name {
        Some(name) => match path::file_name(&name, platform) {
            Some(base) => Some(text::string_of(&base)),
            None => None,
        },
        None => None,
    }
}

/// What a probe of a resource of this length says.
pub open spec fn is_probe(
    probe: Probe,
    head: Head,
    platform: Platform,
    length: nat,
    supports_ranges: bool,
) -> bool {
    &&& probe.length == length
    &&& probe.supports_ranges == supports_ranges
    &&& text::model::opt_view(probe.filename) == match head.disposition {
        Some(value) => suggested(value@, platform),
        None => None,
    }
    &&& text::model::opt_view(probe.content_type) == match head.content_type {
        Some(value) => media_type(value@),
        None => None,
    }
    &&& probe.validator == if head.etag is Some {
        head.etag
    } else {
        head.last_modified
    }
    &&& probe.checksum is None
}

/// What the answer to a probe means.
pub open spec fn probed(head: Head, platform: Platform, answer: Result<Probe, Error>) -> bool {
    if head.status == 206 {
        match head.content_range {
            Some(value) => match range_total(value@) {
                Some(total) => answer matches Ok(probe) && is_probe(
                    probe,
                    head,
                    platform,
                    total,
                    true,
                ),
                None => answer matches Err(e) && error::is_detail(
                    e,
                    "206 without a parseable Content-Range total"@,
                ),
            },
            None => answer matches Err(e) && error::is_detail(
                e,
                "206 without a parseable Content-Range total"@,
            ),
        }
    } else if is_success(head.status) {
        match head.content_length {
            Some(length) => answer matches Ok(probe) && is_probe(
                probe,
                head,
                platform,
                length as nat,
                false,
            ),
            None => answer matches Err(e) && error::is_detail(e, "response has no Content-Length"@),
        }
    } else {
        answer matches Err(e) && error::is_detail(
            e,
            refused("probe"@, status_line(head.status)),
        )
    }
}

/// Whether the answer to a fetch is accepted. A range must be answered with `206` and a `Content-Range` that
/// starts where the range does.
pub open spec fn honored(range: ByteRange, status: u16, content_range: Option<Seq<char>>) -> bool {
    &&& status == 206
    &&& content_range matches Some(value)
    &&& range_start(value) == Some(range.start as nat)
}

/// What the answer to a fetch means.
pub open spec fn fetched(
    range: Option<ByteRange>,
    status: u16,
    content_range: Option<Seq<char>>,
    r: Result<(), Error>,
) -> bool {
    match range {
        Some(range) => if honored(range, status, content_range) {
            r is Ok
        } else {
            r == Err::<(), Error>(Error::RangeNotHonored { requested: range })
        },
        None => if is_success(status) {
            r is Ok
        } else {
            r matches Err(e) && error::is_detail(e, refused("fetch"@, status_line(status)))
        },
    }
}

/// The value of the `Range` header that asks for `range`: HTTP ranges are inclusive on both ends, and the end
/// of a [`ByteRange`] is exclusive.
pub open spec fn range_value(range: ByteRange) -> Seq<char> {
    "bytes="@ + text::model::decimal(range.start as nat) + seq!['-'] + text::model::decimal(
        (range.end - 1) as nat,
    )
}

/// The value of the `Range` header that asks for `range`.
pub fn range_header(range: ByteRange) -> (value: String)
    requires
        range.end > 0,
    ensures
        value@ == range_value(range),
{
    let mut value = String::new();
    value.append("bytes=");
    text::push_decimal(&mut value, range.start);
    value.push('-');
    text::push_decimal(&mut value, range.end - 1);
    assert(value@ =~= range_value(range));
    value
}

impl HttpSource {
    /// The URL.
    pub closed spec fn text(self) -> Seq<char> {
        self.url@
    }

    /// Build a source for `url`.
    pub fn new(url: &str) -> (source: Result<HttpSource, Error>)
        ensures
            match parsed_url(url@) {
                Ok((text, _)) => source matches Ok(s) && s.text() == text,
                Err(message) => source matches Err(e) && error::is_detail(e, message),
            },
    {
        match parse_url(url) {
            Ok((url, _)) => Ok(HttpSource { url }),
            Err(message) => Err(Error::detail(message.as_str())),
        }
    }

    /// The URL to request.
    pub fn url(&self) -> (url: &str)
        ensures
            url@ == self.text(),
    {
        self.url.as_str()
    }

    /// A re-openable reference to the resource: its URL. It is recorded in the resume control file, so a
    /// later run can rebuild the source from the `.xget` alone.
    pub fn identity(&self) -> (identity: Option<String>)
        ensures
            text::model::opt_view(identity) == Some(self.text()),
    {
        Some(self.url.clone())
    }

    /// The value of the `Range` header of a probe: it asks for a single byte, which a range-capable server
    /// answers with 206 and the total in `Content-Range`.
    pub fn probe_range() -> (value: &'static str)
        ensures
            value@ == "bytes=0-0"@,
    {
        "bytes=0-0"
    }

    /// What the answer to a probe says of the resource.
    pub fn probed(head: Head, platform: Platform) -> (answer: Result<Probe, Error>)
        ensures
            probed(head, platform, answer),
    {
        let (length, supports_ranges) = if head.status == 206 {
            let total = match &head.content_range {
                Some(value) => content_range_total(value.as_str()),
                None => None,
            };
            match total {
                Some(total) => (total, true),
                None => {
                    return Err(Error::detail("206 without a parseable Content-Range total"));
                },
            }
        } else if 200 <= head.status && head.status < 300 {
            match head.content_length {
                Some(length) => (length, false),
                None => {
                    return Err(Error::detail("response has no Content-Length"));
                },
            }
        } else {
            let status = status_text(head.status);
            return Err(refusal("probe", status.as_str()));
        };
        let filename = match &head.disposition {
            Some(value) => content_disposition_name(value.as_str(), platform),
            None => None,
        };
        let content_type = match &head.content_type {
            Some(value) => {
                let chars = text::chars_of(value.as_str());
                let media = text::trim(text::before(&chars, ';'));
                if media.len() > 0 {
                    Some(text::string_of(media))
                } else {
                    None
                }
            },
            None => None,
        };
        let validator = match head.etag {
            Some(etag) => Some(etag),
            None => head.last_modified,
        };
        Ok(Probe { length, supports_ranges, filename, content_type, validator, checksum: None })
    }

    /// Whether the answer to a fetch is taken. A 200 to a range request means the server ignored the range
    /// and is sending the whole body: it is rejected rather than spliced into the middle of a chunk.
    pub fn fetched(range: Option<ByteRange>, status: u16, content_range: Option<&str>) -> (r: Result<
        (),
        Error,
    >)
        ensures
            fetched(range, status, text::model::opt_str(content_range), r),
    {
        match range {
            Some(range) => {
                if status != 206 {
                    return Err(Error::RangeNotHonored { requested: range });
                }
                let start = match content_range {
                    Some(value) => content_range_start(value),
                    None => None,
                };
                match start {
                    Some(start) => if start == range.start {
                        Ok(())
                    } else {
                        Err(Error::RangeNotHonored { requested: range })
                    },
                    None => Err(Error::RangeNotHonored { requested: range }),
                }
            },
            None => {
                if 200 <= status && status < 300 {
                    Ok(())
                } else {
                    let line = status_text(status);
                    Err(refusal("fetch", line.as_str()))
                }
            },
        }
    }
}

/// A suggested filename never leads out of the directory it is used in.
pub proof fn law_suggested_name_stays_put(value: Seq<char>, platform: Platform)
    ensures
        suggested(value, platform) matches Some(name) ==> {
            &&& name.len() > 0
            &&& name != seq!['.']
            &&& name != seq!['.', '.']
            &&& forall|j: int| 0 <= j < name.len() ==> path::model::slash(#[trigger] name[j], platform) != '/'
        },
{
    let parts = text::model::split(value, ';');
    let name = if first_extended(parts) is Some {
        first_extended(parts)
    } else {
        first_plain(parts)
    };
    if let Some(name) = name {
        path::model::law_file_name_stays_put(name, platform);
    }
}

/// A server that answers a range request with anything but the range is never believed: only a `206` whose
/// `Content-Range` starts at the requested offset is accepted.
pub proof fn law_ignored_range_is_rejected(
    range: ByteRange,
    status: u16,
    content_range: Option<Seq<char>>,
)
    requires
        status != 206 || content_range is None || range_start(content_range->0) != Some(
            range.start as nat,
        ),
    ensures
        !honored(range, status, content_range),
{
}

/// A server that answers with exactly the range it was asked for is accepted, whatever the total is.
pub proof fn law_honest_range_is_accepted(range: ByteRange, total: nat)
    ensures
        honored(
            range,
            206,
            Some(
                "bytes "@ + text::model::decimal(range.start as nat) + seq!['-'] + text::model::decimal(
                    (range.end - 1) as nat,
                ) + seq!['/'] + text::model::decimal(total),
            ),
        ),
{
    let a = text::model::decimal(range.start as nat);
    let b = text::model::decimal((range.end - 1) as nat);
    let c = text::model::decimal(total);
    text::model::lemma_decimal(range.start as nat);
    text::model::lemma_decimal((range.end - 1) as nat);
    lemma_range_start(a, b, c);
    text::model::lemma_trim_clean(a);
    text::model::lemma_parse_decimal(range.start as nat, u64::MAX as nat);
}

/// What precedes the first slash of a span and a total is the span.
proof fn lemma_span(a: Seq<char>, b: Seq<char>, c: Seq<char>)
    requires
        text::model::all_digits(a),
        text::model::all_digits(b),
    ensures
        text::model::before(a + seq!['-'] + b + seq!['/'] + c, '/') == a + seq!['-'] + b,
{
    let rest = a + seq!['-'] + b + seq!['/'] + c;
    let span = a + seq!['-'] + b;
    assert forall|j: int| 0 <= j < span.len() implies #[trigger] rest[j] != '/' by {
        assert(rest[j] == span[j]);
        if j < a.len() {
            assert(text::model::is_digit(a[j]));
        } else if j > a.len() {
            assert(text::model::is_digit(b[j - a.len() - 1]));
        }
    }
    assert(rest[span.len() as int] == '/');
    text::model::lemma_position_is(rest, '/', span.len() as int);
    assert(rest.take(span.len() as int) =~= span);
}

/// What precedes the first dash of a span is its start.
proof fn lemma_span_start(a: Seq<char>, b: Seq<char>)
    requires
        text::model::all_digits(a),
    ensures
        text::model::before(a + seq!['-'] + b, '-') == a,
{
    let span = a + seq!['-'] + b;
    assert forall|j: int| 0 <= j < a.len() implies #[trigger] span[j] != '-' by {
        assert(span[j] == a[j]);
        assert(text::model::is_digit(a[j]));
    }
    assert(span[a.len() as int] == '-');
    text::model::lemma_position_is(span, '-', a.len() as int);
    assert(span.take(a.len() as int) =~= a);
}

/// The start of a content range is read from its digits.
proof fn lemma_range_start(a: Seq<char>, b: Seq<char>, c: Seq<char>)
    requires
        text::model::all_digits(a),
        text::model::all_digits(b),
    ensures
        range_start("bytes "@ + a + seq!['-'] + b + seq!['/'] + c) == text::model::parse_uint(
            text::model::trim(a),
            u64::MAX as nat,
        ),
{
    let rest = a + seq!['-'] + b + seq!['/'] + c;
    let value = "bytes "@ + a + seq!['-'] + b + seq!['/'] + c;
    assert(value =~= "bytes "@ + rest);
    assert("bytes "@ =~= value.subrange(0, "bytes "@.len() as int));
    assert("bytes "@.is_prefix_of(value));
    assert(value.skip("bytes "@.len() as int) =~= rest);
    lemma_span(a, b, c);
    lemma_span_start(a, b);
}

} // verus!
