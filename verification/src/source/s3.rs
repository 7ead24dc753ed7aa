//! An S3 source: probe with a `HeadObject`, fetch byte ranges with a `GetObject`.

use crate::checksum::Checksum;
use crate::digest;
use crate::digest::hex_encode;
use crate::error;
use crate::error::Error;
use crate::source::http;
use crate::source::http::plain_name;
use crate::source::ipfs;
use crate::path;
use crate::path::Platform;
use crate::text;
use crate::vocabulary::Probe;
use crate::text::laws;
use vstd::prelude::*;
use vstd::string::*;

verus! {

/// What a text decodes to from base64, if it is that.
pub uninterp spec fn base64_decoded(text: Seq<char>) -> Option<Seq<u8>>;

/// `aws_smithy_types::base64::decode`: the bytes that a text stands for in the standard base64 alphabet, or
/// nothing where it is not valid. Which texts are valid is left to it.
#[verifier::external_body]
fn base64_decode(text: &str) -> (bytes: Option<Vec<u8>>)
    ensures
        match bytes {
            Some(bytes) => base64_decoded(text@) == Some(bytes@),
            None => base64_decoded(text@) is None,
        },
{
    aws_smithy_types::base64::decode(text).ok()
}

/// What the answer to a `HeadObject` says.
#[derive(Debug)]
pub struct ObjectHead {
    /// The object's size.
    pub content_length: Option<i64>,
    /// Which ranges are accepted.
    pub accept_ranges: Option<String>,
    /// The media type.
    pub content_type: Option<String>,
    /// The content disposition.
    pub disposition: Option<String>,
    /// The stored SHA-256, in base64.
    pub sha256: Option<String>,
    /// The stored SHA-1, in base64.
    pub sha1: Option<String>,
    /// The entity tag.
    pub etag: Option<String>,
}

/// A byte source backed by an object in an S3 (or S3-compatible) bucket.
#[derive(Debug)]
pub struct S3Source {
    /// The bucket.
    pub bucket: String,
    /// The key within it.
    pub key: String,
}

/// The filename that a plain `filename=` in a content disposition suggests.
pub open spec fn suggested(value: Seq<char>, platform: Platform) -> Option<Seq<char>> {
    match http::first_plain(text::model::split(value, ';')) {
        Some(name) => path::model::file_name(name, platform),
        None => None,
    }
}

/// A stored value, if it is the checksum of a whole object: one of part checksums has a `-N` suffix.
pub open spec fn whole(value: Option<Seq<char>>) -> Option<Seq<char>> {
    match value {
        Some(value) => if value.contains('-') {
            None
        } else {
            Some(value)
        },
        None => None,
    }
}

/// The bytes of a whole object's checksum, if they can be decoded.
pub open spec fn whole_bytes(value: Option<Seq<char>>) -> Option<Seq<u8>> {
    match whole(value) {
        Some(value) => base64_decoded(value),
        None => None,
    }
}

/// The checksum to take of those that an object was stored with: SHA-256 first, then SHA-1.
pub open spec fn preferred(sha256: Option<Seq<u8>>, sha1: Option<Seq<u8>>) -> Option<
    (Checksum, Seq<char>),
> {
    match (sha256, sha1) {
        (Some(bytes), _) => Some((Checksum::Sha256, digest::hex_of(bytes))),
        (None, Some(bytes)) => Some((Checksum::Sha1, digest::hex_of(bytes))),
        (None, None) => None,
    }
}

/// The checksum an object was stored with.
pub open spec fn stored(sha256: Option<Seq<char>>, sha1: Option<Seq<char>>) -> Option<
    (Checksum, Seq<char>),
> {
    preferred(whole_bytes(sha256), whole_bytes(sha1))
}

/// Bytes that may be there.
pub open spec fn opt_bytes(bytes: Option<Vec<u8>>) -> Option<Seq<u8>> {
    match bytes {
        Some(bytes) => Some(bytes@),
        None => None,
    }
}

/// The identity of an object: its URL.
pub open spec fn identity_of(bucket: Seq<char>, key: Seq<char>) -> Seq<char> {
    "s3://"@ + bucket + seq!['/'] + key
}

/// What the answer to a `HeadObject` means.
pub open spec fn probed(head: ObjectHead, platform: Platform, answer: Result<Probe, Error>) -> bool {
    if head.content_length is Some && head.content_length->0 >= 0 {
        &&& answer matches Ok(probe)
        &&& probe.length == head.content_length->0
        &&& probe.supports_ranges == (head.accept_ranges is Some && text::model::lower(
            head.accept_ranges->0@,
        ) == "bytes"@)
        &&& text::model::opt_view(probe.filename) == match head.disposition {
            Some(value) => suggested(value@, platform),
            None => None,
        }
        &&& text::model::opt_view(probe.content_type) == nonempty(head.content_type)
        &&& text::model::opt_view(probe.validator) == nonempty(head.etag)
        &&& ipfs::vouched(probe.checksum) == stored(
            text::model::opt_view(head.sha256),
            text::model::opt_view(head.sha1),
        )
    } else {
        answer matches Err(e) && error::is_detail(
            e,
            "HeadObject response has no content length"@,
        )
    }
}

/// A value that is there and not empty.
pub open spec fn nonempty(value: Option<String>) -> Option<Seq<char>> {
    match value {
        Some(value) => if value@.len() > 0 {
            Some(value@)
        } else {
            None
        },
        None => None,
    }
}

/// Extract a filename from a content disposition, taking a plain `filename=` and stripping it to its final
/// path component so a stored value like `../../etc/passwd` cannot steer the output outside the intended
/// directory. Returns `None` if no usable, non-empty name is present.
pub fn content_disposition_name(value: &str, platform: Platform) -> (name: Option<String>)
    ensures
        text::model::opt_view(name) == suggested(value@, platform),
{
    let chars = text::chars_of(value);
    let parts = text::split(&chars, ';');
    match plain_name(&parts) {
        Some(name) => match path::file_name(&name, platform) {
            Some(base) => Some(text::string_of(&base)),
            None => None,
        },
        None => None,
    }
}

/// A stored value, if it is the checksum of a whole object.
pub fn whole_object(value: Option<&str>) -> (kept: Option<&str>)
    ensures
        text::model::opt_str(kept) == whole(text::model::opt_str(value)),
{
    match value {
        Some(value) => {
            let chars = text::chars_of(value);
            let at = text::position(&chars, '-');
            proof {
                text::model::lemma_position(chars@, '-');
                if at < chars@.len() {
                    assert(chars@[at as int] == '-');
                }
            }
            if at < chars.len() {
                None
            } else {
                Some(value)
            }
        },
        None => None,
    }
}

fn decode_whole(value: Option<&str>) -> (bytes: Option<Vec<u8>>)
    ensures
        opt_bytes(bytes) == whole_bytes(text::model::opt_str(value)),
{
    match whole_object(value) {
        Some(value) => base64_decode(value),
        None => None,
    }
}

/// The checksum to take, given the bytes of those that could be decoded.
pub fn prefer(sha256: Option<Vec<u8>>, sha1: Option<Vec<u8>>) -> (checksum: Option<(Checksum, String)>)
    ensures
        ipfs::vouched(checksum) == preferred(opt_bytes(sha256), opt_bytes(sha1)),
{
    match (sha256, sha1) {
        (Some(bytes), _) => Some((Checksum::Sha256, hex_encode(&bytes))),
        (None, Some(bytes)) => Some((Checksum::Sha1, hex_encode(&bytes))),
        (None, None) => None,
    }
}

/// Read a whole-object stored checksum as an algorithm and lowercase hex digest. Prefers SHA-256, then SHA-1
/// (the two S3 algorithms the engine also computes); composite multipart checksums (a `-N` suffix) are
/// ignored.
pub fn stored_checksum(sha256: Option<&str>, sha1: Option<&str>) -> (checksum: Option<
    (Checksum, String),
>)
    ensures
        ipfs::vouched(checksum) == stored(text::model::opt_str(sha256), text::model::opt_str(sha1)),
{
    prefer(decode_whole(sha256), decode_whole(sha1))
}

/// A value, if it is there and not empty.
fn keep_nonempty(value: Option<String>) -> (kept: Option<String>)
    ensures
        text::model::opt_view(kept) == nonempty(value),
{
    match value {
        Some(value) => if value.as_str().is_empty() {
            None
        } else {
            Some(value)
        },
        None => None,
    }
}

impl S3Source {
    /// A source for `key` in `bucket`.
    pub fn new(bucket: String, key: String) -> (source: S3Source)
        ensures
            source.bucket == bucket,
            source.key == key,
    {
        S3Source { bucket, key }
    }

    /// A re-openable reference to the object.
    pub fn identity(&self) -> (identity: Option<String>)
        ensures
            text::model::opt_view(identity) == Some(identity_of(self.bucket@, self.key@)),
    {
        let mut identity = "s3://".to_owned();
        identity.append(self.bucket.as_str());
        identity.push('/');
        identity.append(self.key.as_str());
        assert(identity@ =~= identity_of(self.bucket@, self.key@));
        Some(identity)
    }

    /// What the answer to a `HeadObject` says of the object. S3 always reports the object's size on a
    /// successful head; a missing length is a broken response we cannot plan a chunked download against, so
    /// it is an error rather than a guess. The object's `ETag` identifies this version, so a resume can tell
    /// it apart from a later upload to the same key.
    pub fn probed(head: ObjectHead, platform: Platform) -> (answer: Result<Probe, Error>)
        ensures
            probed(head, platform, answer),
    {
        let length = match head.content_length {
            Some(length) => if length >= 0 {
                length as u64
            } else {
                return Err(Error::detail("HeadObject response has no content length"));
            },
            None => {
                return Err(Error::detail("HeadObject response has no content length"));
            },
        };
        let supports_ranges = match &head.accept_ranges {
            Some(value) => {
                let chars = text::chars_of(value.as_str());
                let lowered = text::lower(&chars);
                let bytes = text::chars_of("bytes");
                text::same(&lowered, &bytes)
            },
            None => false,
        };
        let filename = match &head.disposition {
            Some(value) => content_disposition_name(value.as_str(), platform),
            None => None,
        };
        let checksum = stored_checksum(
            text::borrow_opt(&head.sha256),
            text::borrow_opt(&head.sha1),
        );
        Ok(
            Probe {
                length,
                supports_ranges,
                filename,
                content_type: keep_nonempty(head.content_type),
                validator: keep_nonempty(head.etag),
                checksum,
            },
        )
    }
}

/// A stored checksum is taken as it is, unless it is one of part checksums, which carries the number of parts
/// behind a dash.
pub proof fn law_composite_checksum_is_passed_over(a: Seq<char>, b: Seq<char>)
    ensures
        whole(Some(a + seq!['-'] + b)) is None,
        !a.contains('-') ==> whole(Some(a)) == Some(a),
        whole(None) is None,
{
    let s = a + seq!['-'] + b;
    assert(s[a.len() as int] == '-');
}

/// An object is held to its SHA-256, and without one to its SHA-1, in hexadecimal.
pub proof fn law_stored_sha256_comes_first(sha256: Seq<u8>, sha1: Option<Seq<u8>>)
    ensures
        preferred(Some(sha256), sha1) == Some((Checksum::Sha256, digest::hex_of(sha256))),
        sha1 is Some ==> preferred(None, sha1) == Some((Checksum::Sha1, digest::hex_of(sha1->0))),
        preferred(None, None) is None,
{
}

/// What is stored in base64 for a whole object is what the object is held to.
pub proof fn law_stored_checksum_is_decoded(text: Seq<char>, sha1: Option<Seq<char>>)
    requires
        !text.contains('-'),
        base64_decoded(text) is Some,
    ensures
        stored(Some(text), sha1) == Some((Checksum::Sha256, digest::hex_of(base64_decoded(text)->0))),
        stored(None, Some(text)) == Some((Checksum::Sha1, digest::hex_of(base64_decoded(text)->0))),
{
}

/// A quoted name is suggested as it stands between its quotes, spaces inside it included.
pub proof fn law_quoted_name_is_suggested(name: Seq<char>, platform: Platform)
    requires
        http::laws::is_plain_name(name, platform),
        laws::free_of(name, '"'),
        laws::free_of(name, ';'),
    ensures
        suggested("attachment; filename=\""@ + name + seq!['"'], platform) == Some(name),
{
    http::laws::lemma_quoted_disposition(name);
    http::laws::lemma_plain_name(name, platform);
}

/// A suggested name never leads out of the directory it is used in.
pub proof fn law_suggested_name_stays_put(value: Seq<char>, platform: Platform)
    ensures
        suggested(value, platform) matches Some(name) ==> {
            &&& name.len() > 0
            &&& name != seq!['.']
            &&& name != seq!['.', '.']
            &&& forall|j: int| 0 <= j < name.len() ==> path::model::slash(#[trigger] name[j], platform) != '/'
        },
{
    if let Some(name) = http::first_plain(text::model::split(value, ';')) {
        path::model::law_file_name_stays_put(name, platform);
    }
}

/// A value that is empty is none.
pub proof fn law_empty_values_are_none(value: String)
    ensures
        value@.len() > 0 ==> nonempty(Some(value)) == Some(value@),
        value@.len() == 0 ==> nonempty(Some(value)) is None,
        nonempty(None) is None,
{
}

/// An object is as long as its head says, and serves ranges where its head says `bytes`, in any letter case; its
/// version is known by its entity tag. Without a length it is not fetched.
pub proof fn law_object_is_what_its_head_says(
    head: ObjectHead,
    platform: Platform,
    answer: Result<Probe, Error>,
)
    requires
        probed(head, platform, answer),
    ensures
        answer is Ok <==> head.content_length is Some && head.content_length->0 >= 0,
        answer matches Ok(probe) ==> {
            &&& probe.length == head.content_length->0
            &&& probe.supports_ranges <==> head.accept_ranges is Some && text::model::lower(
                head.accept_ranges->0@,
            ) == "bytes"@
            &&& head.etag matches Some(tag) ==> (tag@.len() > 0 ==> probe.validator is Some
                && probe.validator->0@ == tag@)
            &&& head.etag is None ==> probe.validator is None
            &&& head.content_type matches Some(kind) ==> (kind@.len() > 0 ==> probe.content_type is Some
                && probe.content_type->0@ == kind@)
            &&& head.sha256 is None && head.sha1 is None ==> probe.checksum is None
        },
{
}

} // verus!
