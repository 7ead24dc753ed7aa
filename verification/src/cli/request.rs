//! What the arguments of a request mean: its URL, its headers, its retries.

use crate::source::ipfs;
use crate::source::s3;
use crate::text;
use crate::text::laws;
use vstd::prelude::*;
use vstd::string::*;

verus! {

/// The source that a URL selects.
#[derive(Debug)]
pub enum Scheme {
    /// An object in an S3 bucket.
    S3 {
        /// The bucket.
        bucket: String,
        /// The key within it.
        key: String,
    },
    /// Content-addressed data, by its reference.
    Ipfs(String),
    /// Anything else is requested over HTTP.
    Http,
}

/// The bucket and the key of what follows the scheme of an S3 URL: the first path segment is the bucket and
/// the rest is the key, and neither may be empty.
pub open spec fn object(rest: Seq<char>) -> Option<(Seq<char>, Seq<char>)> {
    match text::model::split_once(rest, '/') {
        Some((bucket, key)) => if bucket.len() > 0 && key.len() > 0 {
            Some((bucket, key))
        } else {
            None
        },
        None => None,
    }
}

/// Split what follows the scheme of an S3 URL into a bucket and a key.
pub fn split_object(rest: &str) -> (split: Option<(String, String)>)
    ensures
        match split {
            Some((bucket, key)) => object(rest@) == Some((bucket@, key@)),
            None => object(rest@) is None,
        },
{
    let chars = text::chars_of(rest);
    match text::split_once(&chars, '/') {
        Some((bucket, key)) => if bucket.len() > 0 && key.len() > 0 {
            Some((text::string_of(bucket), text::string_of(key)))
        } else {
            None
        },
        None => None,
    }
}

/// Whether a URL selects a source, by its scheme, or is refused with a message.
pub open spec fn selects(url: Seq<char>, scheme: Result<Scheme, String>) -> bool {
    match text::model::strip_prefix(url, "s3://"@) {
        Some(rest) => match object(rest) {
            Some((b, k)) => scheme matches Ok(Scheme::S3 { bucket, key }) && bucket@ == b && key@ == k,
            None => scheme matches Err(message) && message@ == "s3 URL must be s3://bucket/key"@,
        },
        None => match text::model::strip_prefix(url, "ipfs://"@) {
            Some(rest) => scheme matches Ok(Scheme::Ipfs(reference)) && reference@ == rest,
            None => scheme matches Ok(Scheme::Http),
        },
    }
}

/// Which source a URL selects, by its scheme.
pub fn scheme_of(url: &str) -> (scheme: Result<Scheme, String>)
    ensures
        selects(url@, scheme),
{
    let chars = text::chars_of(url);
    if let Some(rest) = text::strip_prefix(&chars, "s3://") {
        let rest = text::string_of(rest);
        return match split_object(rest.as_str()) {
            Some((bucket, key)) => Ok(Scheme::S3 { bucket, key }),
            None => Err("s3 URL must be s3://bucket/key".to_owned()),
        };
    }
    if let Some(rest) = text::strip_prefix(&chars, "ipfs://") {
        return Ok(Scheme::Ipfs(text::string_of(rest)));
    }
    Ok(Scheme::Http)
}

/// The bucket and the key of a checksum file's URL, where it is an S3 one; anything else is requested over
/// HTTP.
pub fn sidecar_object(url: &str) -> (object: Result<Option<(String, String)>, String>)
    ensures
        match text::model::strip_prefix(url@, "s3://"@) {
            Some(rest) => match self::object(rest) {
                Some((b, k)) => object matches Ok(Some((bucket, key))) && bucket@ == b && key@ == k,
                None => object matches Err(message) && message@
                    == "s3 checksum URL must be s3://bucket/key"@,
            },
            None => object matches Ok(None),
        },
{
    let chars = text::chars_of(url);
    match text::strip_prefix(&chars, "s3://") {
        Some(rest) => {
            let rest = text::string_of(rest);
            match split_object(rest.as_str()) {
                Some(pair) => Ok(Some(pair)),
                None => Err("s3 checksum URL must be s3://bucket/key".to_owned()),
            }
        },
        None => Ok(None),
    }
}

/// Whether a character may stand in a header name: a letter, a digit, or one of fifteen signs.
pub open spec fn is_name_char(c: char) -> bool {
    ||| ('0' <= c && c <= '9') || ('A' <= c && c <= 'Z') || ('a' <= c && c <= 'z')
    ||| c == '!' || c == '#' || c == '$' || c == '%' || c == '&' || c == '\''
    ||| c == '*' || c == '+' || c == '-' || c == '.' || c == '^'
    ||| c == '_' || c == '`' || c == '|' || c == '~'
}

/// Whether a text is a header name: at least one character and at most 65535, each of which may stand in one.
pub open spec fn is_header_name(text: Seq<char>) -> bool {
    0 < text.len() <= 65535 && forall|i: int| 0 <= i < text.len() ==> is_name_char(#[trigger] text[i])
}

/// Whether a text can be the value of a header: it holds no control character but tabs.
pub open spec fn is_header_value(text: Seq<char>) -> bool {
    forall|i: int|
        0 <= i < text.len() ==> (#[trigger] text[i]) == '\t' || (text[i] >= ' ' && text[i] != '\x7f')
}

/// `reqwest::header::HeaderName`, parsed from a text and written out: a text that is a header name is written
/// in lower case, and any other is refused.
#[verifier::external_body]
fn parse_name(text: &str) -> (name: Option<String>)
    ensures
        text::model::opt_view(name) == if is_header_name(text@) {
            Some(text::model::lower(text@))
        } else {
            None
        },
{
    text.parse::<reqwest::header::HeaderName>().ok().map(|name| name.to_string())
}

/// `reqwest::header::HeaderValue`, parsed from a text: whether it is one. A value holds the text as it is.
#[verifier::external_body]
fn accepts_value(text: &str) -> (ok: bool)
    ensures
        ok == is_header_value(text@),
{
    text.parse::<reqwest::header::HeaderValue>().is_ok()
}

/// What a header argument means: the name in lower case and the value, both without the whitespace around
/// them.
pub open spec fn header(raw: Seq<char>, parsed: Result<(String, String), String>) -> bool {
    match text::model::split_once(raw, ':') {
        Some((name, value)) => if !is_header_name(text::model::trim(name)) {
            parsed matches Err(message) && message@ == "invalid header name: "@ + name
        } else if !is_header_value(text::model::trim(value)) {
            parsed matches Err(message) && message@ == "invalid header value: "@ + value
        } else {
            &&& parsed matches Ok((n, v))
            &&& n@ == text::model::lower(text::model::trim(name))
            &&& v@ == text::model::trim(value)
        },
        None => parsed matches Err(message) && message@ == "header must be `Name: Value`: "@ + raw,
    }
}

/// Parse one `Name: Value` header argument. A malformed header is rejected before anything is requested.
pub fn parse_header(raw: &str) -> (parsed: Result<(String, String), String>)
    ensures
        header(raw@, parsed),
{
    let chars = text::chars_of(raw);
    match text::split_once(&chars, ':') {
        Some((name, value)) => {
            let trimmed_name = text::string_of(text::trim(name));
            let trimmed_value = text::string_of(text::trim(value));
            match parse_name(trimmed_name.as_str()) {
                Some(written) => if accepts_value(trimmed_value.as_str()) {
                    Ok((written, trimmed_value))
                } else {
                    let mut message = "invalid header value: ".to_owned();
                    text::push_chars(&mut message, value);
                    Err(message)
                },
                None => {
                    let mut message = "invalid header name: ".to_owned();
                    text::push_chars(&mut message, name);
                    Err(message)
                },
            }
        },
        None => {
            let mut message = "header must be `Name: Value`: ".to_owned();
            message.append(raw);
            Err(message)
        },
    }
}

/// What a retry count means.
pub open spec fn tries(value: Seq<char>) -> Option<nat> {
    let lower = text::model::lower(value);
    if lower == "inf"@ || lower == "infinite"@ {
        Some(u32::MAX as nat)
    } else {
        text::model::parse_uint(value, u32::MAX as nat)
    }
}

/// Parse a retry count, accepting `inf`/`infinite` as unlimited.
pub fn parse_tries(value: &str) -> (parsed: Result<u32, String>)
    ensures
        match tries(value@) {
            Some(n) => parsed matches Ok(m) && m == n,
            None => parsed matches Err(message) && message@ == "expected a number or `inf`, got `"@ + value@
                + "`"@,
        },
{
    let chars = text::chars_of(value);
    let lower = text::lower(&chars);
    let inf = text::chars_of("inf");
    let infinite = text::chars_of("infinite");
    if text::same(&lower, &inf) || text::same(&lower, &infinite) {
        return Ok(u32::MAX);
    }
    match text::parse_u32(&chars) {
        Some(n) => Ok(n),
        None => {
            let mut message = "expected a number or `inf`, got `".to_owned();
            message.append(value);
            message.append("`");
            Err(message)
        },
    }
}

/// The identity of an object, recorded in a partial, selects the same object again.
pub proof fn law_object_identity_selects_it(
    bucket: Seq<char>,
    key: Seq<char>,
    scheme: Result<Scheme, String>,
)
    requires
        bucket.len() > 0,
        key.len() > 0,
        !bucket.contains('/'),
        selects(s3::identity_of(bucket, key), scheme),
    ensures
        scheme matches Ok(Scheme::S3 { bucket: b, key: k }) && b@ == bucket && k@ == key,
{
    let url = s3::identity_of(bucket, key);
    let rest = bucket + seq!['/'] + key;
    assert(url =~= "s3://"@ + rest);
    assert(url.take("s3://"@.len() as int) =~= "s3://"@);
    assert(url.skip("s3://"@.len() as int) =~= rest);
    assert forall|j: int| 0 <= j < bucket.len() implies (#[trigger] rest[j]) != '/' by {
        assert(bucket.contains(bucket[j]));
    }
    text::model::lemma_position_is(rest, '/', bucket.len() as int);
    assert(rest.take(bucket.len() as int) =~= bucket);
    assert(rest.skip(bucket.len() as int + 1) =~= key);
}

/// The identity of content-addressed data, recorded in a partial, selects the same address again.
pub proof fn law_address_selects_it(address: Seq<char>, scheme: Result<Scheme, String>)
    requires
        selects(ipfs::identity_of(address), scheme),
    ensures
        scheme matches Ok(Scheme::Ipfs(reference)) && reference@ == address,
{
    reveal_strlit("s3://");
    reveal_strlit("ipfs://");
    let url = ipfs::identity_of(address);
    assert(url[0] == 'i');
    assert(url.take(5)[0] == 'i');
    assert(url.take("ipfs://"@.len() as int) =~= "ipfs://"@);
    assert(url.skip("ipfs://"@.len() as int) =~= address);
}

/// A number of retries is read as it is written, and `inf` and `infinite`, in any letter case, as no limit.
pub proof fn law_tries_are_read(n: u32, written: Seq<char>)
    ensures
        tries(text::model::decimal(n as nat)) == Some(n as nat),
        text::model::lower(written) == "inf"@ || text::model::lower(written) == "infinite"@ ==> tries(written)
            == Some(u32::MAX as nat),
{
    laws::law_decimal_reads_back(n as nat, u32::MAX as nat);
    let d = text::model::decimal(n as nat);
    reveal_strlit("inf");
    reveal_strlit("infinite");
    assert(text::model::is_digit(d[0]));
    assert(text::model::lower(d)[0] == text::model::lower_char(d[0]));
    assert(text::model::lower(d)[0] != 'i');
}

/// What is no number and does not mean without limit is refused, and so is a number that is too large.
pub proof fn law_other_tries_are_refused(written: Seq<char>, i: int, n: nat)
    requires
        0 <= i < written.len(),
        !text::model::is_digit(written[i]),
        i > 0 || written[i] != '+',
        text::model::lower(written) != "inf"@,
        text::model::lower(written) != "infinite"@,
        n > u32::MAX,
    ensures
        tries(written) is None,
        tries(text::model::decimal(n)) is None,
{
    laws::law_only_digits_are_a_number(written, i, u32::MAX as nat);
    laws::law_decimal_reads_back(n, n);
    let d = text::model::decimal(n);
    reveal_strlit("inf");
    reveal_strlit("infinite");
    assert(text::model::is_digit(d[0]));
    assert(text::model::lower(d)[0] == text::model::lower_char(d[0]));
    assert(text::model::lower(d)[0] != 'i');
}

/// A header is sent under the name and with the value that it was given, the name in lower case, without the
/// whitespace around either; the value may hold colons.
pub proof fn law_header_is_sent_as_given(
    a: Seq<char>,
    name: Seq<char>,
    b: Seq<char>,
    c: Seq<char>,
    value: Seq<char>,
    d: Seq<char>,
    parsed: Result<(String, String), String>,
)
    requires
        laws::blank(a) && laws::blank(b) && laws::blank(c) && laws::blank(d),
        laws::free_of(a, ':') && laws::free_of(b, ':'),
        is_header_name(name),
        laws::tight(value),
        forall|j: int| 0 <= j < value.len() ==> (#[trigger] value[j]) >= ' ' && value[j] != '\x7f',
        header(a + name + b + seq![':'] + (c + value + d), parsed),
    ensures
        parsed matches Ok((n, v)) && n@ == text::model::lower(name) && v@ == value,
{
    assert(laws::tight(name)) by {
        assert(is_name_char(name[0]) && is_name_char(name[name.len() - 1]));
    }
    let left = a + name + b;
    assert forall|j: int| 0 <= j < left.len() implies (#[trigger] left[j]) != ':' by {
        if a.len() <= j < a.len() + name.len() {
            assert(is_name_char(name[j - a.len()]));
        } else if j >= a.len() + name.len() {
            assert(left[j] == b[j - a.len() - name.len()]);
        } else {
            assert(left[j] == a[j]);
        }
    }
    laws::law_split_once_cuts_at_the_first(left, ':', c + value + d);
    laws::law_trim_takes_off_whitespace(a, name, b);
    laws::law_trim_takes_off_whitespace(c, value, d);
}

/// Without a colon there is no header.
pub proof fn law_header_needs_a_colon(raw: Seq<char>, parsed: Result<(String, String), String>)
    requires
        laws::free_of(raw, ':'),
        header(raw, parsed),
    ensures
        parsed is Err,
{
    laws::law_split_once_cuts_at_the_first(raw, ':', Seq::empty());
}

/// A URL of any other scheme is requested over HTTP.
pub proof fn law_other_schemes_are_http(url: Seq<char>, scheme: Result<Scheme, String>)
    requires
        selects(url, scheme),
        !"s3://"@.is_prefix_of(url),
        !"ipfs://"@.is_prefix_of(url),
    ensures
        scheme matches Ok(Scheme::Http),
{
}

/// An S3 URL needs a bucket and a key.
pub proof fn law_object_needs_a_bucket_and_a_key(rest: Seq<char>, scheme: Result<Scheme, String>)
    requires
        selects("s3://"@ + rest, scheme),
        laws::free_of(rest, '/') || rest[0] == '/' || laws::free_of(rest.drop_last(), '/'),
    ensures
        scheme is Err,
{
    laws::law_prefix_and_rest(rest, "s3://"@, rest);
    if laws::free_of(rest, '/') {
        laws::law_split_once_cuts_at_the_first(rest, '/', Seq::empty());
    } else if rest.len() > 0 && rest[0] == '/' {
        let none = Seq::<char>::empty();
        laws::law_split_once_cuts_at_the_first(none, '/', rest.skip(1));
        assert(none + seq!['/'] + rest.skip(1) =~= rest);
    } else {
        let front = rest.drop_last();
        assert(rest.last() == '/') by {
            if rest.last() != '/' {
                assert forall|j: int| 0 <= j < rest.len() implies (#[trigger] rest[j]) != '/' by {
                    if j < front.len() {
                        assert(front[j] == rest[j]);
                    }
                }
            }
        }
        laws::law_split_once_cuts_at_the_first(front, '/', Seq::empty());
        assert(front + seq!['/'] + Seq::<char>::empty() =~= rest);
    }
}

} // verus!
