//! An IPFS byte source: fetch content-addressed data (`ipfs://<cid>`) through an HTTP gateway.
//!
//! `ipfs://<cid>[/path]` becomes `GET <gateway>/ipfs/<cid>[/path]`, so a gateway's byte-range support
//! carries the engine's parallel scatter, resume, and verify unchanged. A CID that addresses raw bytes
//! carries the content's own hash, so the download is verified against its own address for free. A CID that
//! wraps a file in a UnixFS DAG addresses the DAG root rather than the raw bytes, and is trusted the way the
//! gateway is.

use crate::checksum::Checksum;
use crate::digest;
use crate::digest::hex_encode;
use crate::error;
use crate::error::Error;
use crate::source::http;
use crate::source::http::HttpSource;
use crate::text;
use crate::vocabulary::Probe;
use crate::text::laws;
use vstd::prelude::*;
use vstd::string::*;

verus! {

/// The multicodec for a raw block, whose CID hashes the content bytes directly (so it is verifiable).
pub const RAW_CODEC: u64 = 0x55;

/// What a CID says: the codec, the hash function and its digest, and how the CID is written.
#[derive(Debug)]
pub struct CidParts {
    /// The multicodec of the content.
    pub codec: u64,
    /// The multihash code of the hash function.
    pub code: u64,
    /// The digest.
    pub digest: Vec<u8>,
    /// The CID, written out.
    pub text: String,
}

/// What `Cid::try_from` makes of a text: the codec, the hash code, the digest, and the CID as it is written
/// once parsed; or what is wrong with it.
pub uninterp spec fn parsed_cid(text: Seq<char>) -> Result<
    (u64, u64, Seq<u8>, Seq<char>),
    Seq<char>,
>;

/// `cid::Cid::try_from`, the parts of the CID or the error written out. Which texts are CIDs is left to it.
#[verifier::external_body]
fn parse_cid(text: &str) -> (parsed: Result<CidParts, String>)
    ensures
        match parsed {
            Ok(c) => parsed_cid(text@) == Ok::<(u64, u64, Seq<u8>, Seq<char>), Seq<char>>(
                (c.codec, c.code, c.digest@, c.text@),
            ),
            Err(message) => parsed_cid(text@) == Err::<(u64, u64, Seq<u8>, Seq<char>), Seq<char>>(
                message@,
            ),
        },
{
    match cid::Cid::try_from(text) {
        Ok(cid) => Ok(
            CidParts {
                codec: cid.codec(),
                code: cid.hash().code(),
                digest: cid.hash().digest().to_vec(),
                text: cid.to_string(),
            },
        ),
        Err(error) => Err(error.to_string()),
    }
}

/// The algorithm that a multihash code stands for, where the engine computes it.
pub open spec fn algorithm_of(code: u64) -> Option<Checksum> {
    if code == 0x11 {
        Some(Checksum::Sha1)
    } else if code == 0x12 {
        Some(Checksum::Sha256)
    } else if code == 0x13 {
        Some(Checksum::Sha512)
    } else if code == 0x1e {
        Some(Checksum::Blake3)
    } else {
        None
    }
}

/// A vouched-for checksum, in the terms of contracts.
pub open spec fn vouched(checksum: Option<(Checksum, String)>) -> Option<(Checksum, Seq<char>)> {
    match checksum {
        Some((algorithm, hex)) => Some((algorithm, hex@)),
        None => None,
    }
}

/// The checksum that a CID vouches for.
pub open spec fn cid_checksum(codec: u64, code: u64, bytes: Seq<u8>) -> Option<
    (Checksum, Seq<char>),
> {
    match algorithm_of(code) {
        Some(algorithm) => if codec == RAW_CODEC {
            Some((algorithm, digest::hex_of(bytes)))
        } else {
            None
        },
        None => None,
    }
}

/// The first of the places a gateway can come from that has one, without trailing slashes.
pub open spec fn gateway_of(
    explicit: Option<Seq<char>>,
    environment: Option<Seq<char>>,
    file: Option<Seq<char>>,
) -> Seq<char> {
    let chosen = if explicit is Some && explicit->0.len() > 0 {
        explicit->0
    } else if environment is Some && environment->0.len() > 0 {
        environment->0
    } else if file is Some {
        file->0
    } else {
        "https://dweb.link"@
    };
    text::model::trim_end_of(chosen, '/')
}

/// Parse a CID.
pub fn read_cid(text: &str) -> (cid: Result<CidParts, Error>)
    ensures
        match parsed_cid(text@) {
            Ok((codec, code, bytes, written)) => cid matches Ok(c) && c.codec == codec && c.code == code
                && c.digest@ == bytes && c.text@ == written,
            Err(message) => cid matches Err(e) && error::is_detail(
                e,
                "invalid IPFS CID: "@ + message,
            ),
        },
{
    match parse_cid(text) {
        Ok(cid) => Ok(cid),
        Err(message) => {
            let mut detail = "invalid IPFS CID: ".to_owned();
            detail.append(message.as_str());
            Err(Error::detail(detail.as_str()))
        },
    }
}

/// The checksum a CID vouches for, when it addresses raw bytes with a hash the engine can verify. A
/// DAG-wrapped CID (the usual case for a file above one block) addresses the DAG root, not the bytes, so it
/// yields `None`.
pub fn checksum_from_cid(cid: &CidParts) -> (checksum: Option<(Checksum, String)>)
    ensures
        vouched(checksum) == cid_checksum(cid.codec, cid.code, cid.digest@),
{
    if cid.codec != RAW_CODEC {
        return None;
    }
    let algorithm = if cid.code == 0x11 {
        Checksum::Sha1
    } else if cid.code == 0x12 {
        Checksum::Sha256
    } else if cid.code == 0x13 {
        Checksum::Sha512
    } else if cid.code == 0x1e {
        Checksum::Blake3
    } else {
        return None;
    };
    Some((algorithm, hex_encode(&cid.digest)))
}

/// Resolve the gateway base URL, preferring an explicit one, then the environment's, then the one in the
/// local daemon's file, then a public fallback. Trailing slashes are trimmed so the path joins cleanly.
pub fn resolve_gateway(
    explicit: Option<String>,
    environment: Option<String>,
    file: Option<String>,
) -> (gateway: String)
    ensures
        gateway@ == gateway_of(
            text::model::opt_view(explicit),
            text::model::opt_view(environment),
            text::model::opt_view(file),
        ),
{
    let explicit = match explicit {
        Some(gateway) => if gateway.as_str().is_empty() {
            None
        } else {
            Some(gateway)
        },
        None => None,
    };
    let environment = match environment {
        Some(gateway) => if gateway.as_str().is_empty() {
            None
        } else {
            Some(gateway)
        },
        None => None,
    };
    let chosen = match explicit {
        Some(gateway) => gateway,
        None => match environment {
            Some(gateway) => gateway,
            None => match file {
                Some(gateway) => gateway,
                None => "https://dweb.link".to_owned(),
            },
        },
    };
    let chars = text::chars_of(chosen.as_str());
    text::string_of(text::trim_end_of(&chars, '/'))
}

/// The gateway that the text of a daemon's `gateway` file advertises, if it is not blank.
pub fn gateway_file(content: &str) -> (gateway: Option<String>)
    ensures
        text::model::opt_view(gateway) == if text::model::trim(content@).len() > 0 {
            Some(text::model::trim(content@))
        } else {
            None
        },
{
    let chars = text::chars_of(content);
    let trimmed = text::trim(&chars);
    if trimmed.len() > 0 {
        Some(text::string_of(trimmed))
    } else {
        None
    }
}

/// The path of a reference `<cid>[/path]`, with its slash.
pub open spec fn path_of(reference: Seq<char>) -> Seq<char> {
    match text::model::split_once(reference, '/') {
        Some((_, rest)) => seq!['/'] + rest,
        None => Seq::empty(),
    }
}

/// The identity of content-addressed data: its URL.
pub open spec fn identity_of(address: Seq<char>) -> Seq<char> {
    "ipfs://"@ + address
}

/// Split a reference into its CID and its path, which keeps its slash.
pub fn split_reference(reference: &str) -> (parts: (String, String))
    ensures
        parts.0@ == text::model::before(reference@, '/'),
        parts.1@ == path_of(reference@),
{
    let chars = text::chars_of(reference);
    let mut path = String::new();
    match text::split_once(&chars, '/') {
        Some((cid, rest)) => {
            path.push('/');
            text::push_chars(&mut path, rest);
            assert(path@ =~= path_of(reference@));
            (text::string_of(cid), path)
        },
        None => {
            proof {
                text::model::lemma_position(reference@, '/');
                assert(text::model::before(reference@, '/') =~= reference@);
                assert(path@ =~= path_of(reference@));
            }
            (reference.to_owned(), path)
        },
    }
}

/// The URL of a resource behind a gateway.
pub open spec fn gateway_url(gateway: Seq<char>, cid: Seq<char>, path: Seq<char>) -> Seq<char> {
    gateway + "/ipfs/"@ + cid + path
}

/// An IPFS source backed by an HTTP gateway. It delegates transport to an [`HttpSource`] over the gateway URL
/// and, when the CID vouches for the raw bytes, offers that hash for verification.
#[derive(Debug)]
pub struct IpfsSource {
    http: HttpSource,
    checksum: Option<(Checksum, String)>,
    identity: String,
}

/// Whether a source is the one for a reference through a gateway, or the error is the one for it.
pub open spec fn is_source(
    reference: Seq<char>,
    gateway: Seq<char>,
    source: Result<IpfsSource, Error>,
) -> bool {
    let cid = text::model::before(reference, '/');
    let path = path_of(reference);
    match parsed_cid(cid) {
        Err(message) => source matches Err(e) && error::is_detail(e, "invalid IPFS CID: "@ + message),
        Ok((codec, code, bytes, written)) => match http::parsed_url(gateway_url(gateway, cid, path)) {
            Err(message) => source matches Err(e) && error::is_detail(e, message),
            Ok((url, _)) => {
                &&& source matches Ok(s)
                &&& s.url() == url
                &&& s.checksum() == cid_checksum(codec, code, bytes)
                &&& s.address() == written + path
            },
        },
    }
}

/// Whether this is what a gateway's probe says of a resource with this address, for whose bytes its CID may vouch.
pub open spec fn adopts(
    address: Seq<char>,
    vouches: Option<(Checksum, Seq<char>)>,
    probe: Probe,
    adopted: Probe,
) -> bool {
    &&& adopted.length == probe.length
    &&& adopted.supports_ranges == probe.supports_ranges
    &&& adopted.filename == probe.filename
    &&& adopted.content_type == probe.content_type
    &&& text::model::opt_view(adopted.validator) == Some(address)
    &&& vouched(adopted.checksum) == if probe.checksum is Some {
        vouched(probe.checksum)
    } else {
        vouches
    }
}

impl IpfsSource {
    /// The gateway URL of the resource.
    pub closed spec fn url(self) -> Seq<char> {
        self.http.text()
    }

    /// What the CID vouches for.
    pub closed spec fn checksum(self) -> Option<(Checksum, Seq<char>)> {
        vouched(self.checksum)
    }

    /// The content-addressed identity of this resource (`<cid>[/path]`), used as the resume validator. Being
    /// the address itself, it is immutable and gateway-independent.
    pub closed spec fn address(self) -> Seq<char> {
        self.identity@
    }

    /// Build a source for `reference` (a `<cid>` or `<cid>/path`) through the gateway that is given, or else
    /// the environment's, or the local daemon's, or a public one.
    pub fn new(
        reference: &str,
        gateway: Option<String>,
        environment: Option<String>,
        file: Option<String>,
    ) -> (source: Result<IpfsSource, Error>)
        ensures
            is_source(
                reference@,
                gateway_of(
                    text::model::opt_view(gateway),
                    text::model::opt_view(environment),
                    text::model::opt_view(file),
                ),
                source,
            ),
    {
        let (cid_text, path) = split_reference(reference);
        let cid = match read_cid(cid_text.as_str()) {
            Ok(cid) => cid,
            Err(e) => {
                return Err(e);
            },
        };
        let mut url = resolve_gateway(gateway, environment, file);
        url.append("/ipfs/");
        url.append(cid_text.as_str());
        url.append(path.as_str());
        match HttpSource::new(url.as_str()) {
            Ok(http) => Ok(IpfsSource::addressed(http, cid, path.as_str())),
            Err(e) => Err(e),
        }
    }

    /// The source for what a parsed CID and a path within it address, to be fetched through `http`.
    pub fn addressed(http: HttpSource, cid: CidParts, path: &str) -> (source: IpfsSource)
        ensures
            source.url() == http.text(),
            source.checksum() == cid_checksum(cid.codec, cid.code, cid.digest@),
            source.address() == cid.text@ + path@,
    {
        let checksum = checksum_from_cid(&cid);
        let mut identity = cid.text;
        identity.append(path);
        IpfsSource { http, checksum, identity }
    }

    /// The source to fetch through.
    pub fn http(&self) -> (http: &HttpSource)
        ensures
            http.text() == self.url(),
    {
        &self.http
    }

    /// A re-openable reference to the resource.
    pub fn identity(&self) -> (identity: Option<String>)
        ensures
            text::model::opt_view(identity) == Some(identity_of(self.address())),
    {
        let mut identity = "ipfs://".to_owned();
        identity.append(self.identity.as_str());
        Some(identity)
    }

    /// What the gateway's probe says of the resource: the CID is the content's address, so when it hashes
    /// the raw bytes the download is verified against it (unless the gateway already vouched for something),
    /// and it is a stronger, gateway-independent validator than whatever `ETag` a gateway returns.
    pub fn probed(&self, probe: Probe) -> (adopted: Probe)
        ensures
            adopts(self.address(), self.checksum(), probe, adopted),
    {
        let checksum = match probe.checksum {
            Some(checksum) => Some(checksum),
            None => match &self.checksum {
                Some((algorithm, hex)) => Some((*algorithm, hex.clone())),
                None => None,
            },
        };
        Probe {
            length: probe.length,
            supports_ranges: probe.supports_ranges,
            filename: probe.filename,
            content_type: probe.content_type,
            validator: Some(self.identity.clone()),
            checksum,
        }
    }
}

/// A gateway is taken from what was given, else from the environment, else from the daemon's file, else it is the
/// public one; an empty one counts as none, and slashes behind it are taken off.
pub proof fn law_gateway_is_the_first_there_is(
    gateway: Seq<char>,
    slashes: Seq<char>,
    environment: Option<Seq<char>>,
    file: Option<Seq<char>>,
)
    requires
        gateway.len() > 0,
        gateway[0] != '/',
        gateway.last() != '/',
        laws::run_of(slashes, '/'),
    ensures
        gateway_of(Some(gateway + slashes), environment, file) == gateway,
        gateway_of(None, Some(gateway + slashes), file) == gateway,
        gateway_of(Some(Seq::empty()), Some(gateway + slashes), file) == gateway,
        gateway_of(None, None, Some(gateway + slashes)) == gateway,
        gateway_of(Some(Seq::empty()), Some(Seq::empty()), Some(gateway + slashes)) == gateway,
        gateway_of(None, None, None) == "https://dweb.link"@,
{
    laws::law_trim_of_takes_off_runs(Seq::empty(), gateway, slashes, '/');
    reveal_strlit("https://dweb.link");
    let public = "https://dweb.link"@;
    let none = Seq::<char>::empty();
    laws::law_trim_of_takes_off_runs(none, public, none, '/');
    assert(public + none =~= public);
}

/// A reference is asked for behind `/ipfs/` on the gateway, as it was written.
pub proof fn law_reference_is_asked_for_as_written(gateway: Seq<char>, reference: Seq<char>)
    ensures
        gateway_url(gateway, text::model::before(reference, '/'), path_of(reference)) == gateway + "/ipfs/"@
            + reference,
{
    text::model::lemma_position(reference, '/');
    let p = text::model::position(reference, '/') as int;
    if p < reference.len() {
        assert(text::model::before(reference, '/') + path_of(reference) =~= reference);
    } else {
        assert(text::model::before(reference, '/') =~= reference);
        assert(path_of(reference) =~= Seq::<char>::empty());
    }
    assert(gateway_url(gateway, text::model::before(reference, '/'), path_of(reference)) =~= gateway
        + "/ipfs/"@ + reference);
}

/// A reference is a CID, and behind the first slash a path.
pub proof fn law_reference_is_a_cid_and_a_path(cid: Seq<char>, rest: Seq<char>)
    requires
        laws::free_of(cid, '/'),
    ensures
        text::model::before(cid + seq!['/'] + rest, '/') == cid,
        path_of(cid + seq!['/'] + rest) == seq!['/'] + rest,
        text::model::before(cid, '/') == cid,
        path_of(cid) == Seq::<char>::empty(),
{
    laws::law_split_once_cuts_at_the_first(cid, '/', rest);
}

/// A CID of raw bytes vouches for their SHA-1, SHA-256, SHA-512 or BLAKE3, by the code of its hash; one of
/// anything else, or of any other hash, vouches for nothing.
pub proof fn law_raw_cid_vouches_for_its_bytes(codec: u64, code: u64, digest: Seq<u8>)
    ensures
        codec == 0x55 && code == 0x11 ==> cid_checksum(codec, code, digest) == Some(
            (Checksum::Sha1, digest::hex_of(digest)),
        ),
        codec == 0x55 && code == 0x12 ==> cid_checksum(codec, code, digest) == Some(
            (Checksum::Sha256, digest::hex_of(digest)),
        ),
        codec == 0x55 && code == 0x13 ==> cid_checksum(codec, code, digest) == Some(
            (Checksum::Sha512, digest::hex_of(digest)),
        ),
        codec == 0x55 && code == 0x1e ==> cid_checksum(codec, code, digest) == Some(
            (Checksum::Blake3, digest::hex_of(digest)),
        ),
        codec != 0x55 || (code != 0x11 && code != 0x12 && code != 0x13 && code != 0x1e) ==> cid_checksum(
            codec,
            code,
            digest,
        ) is None,
{
}

/// A source is known by its content, whatever gateway it is fetched through: two gateways that both lead to a
/// reference give the same address and vouch for the same.
pub proof fn law_address_does_not_depend_on_the_gateway(
    reference: Seq<char>,
    one: Seq<char>,
    other: Seq<char>,
    a: Result<IpfsSource, Error>,
    b: Result<IpfsSource, Error>,
)
    requires
        is_source(reference, one, a),
        is_source(reference, other, b),
        a is Ok,
        b is Ok,
    ensures
        a->Ok_0.address() == b->Ok_0.address(),
        a->Ok_0.checksum() == b->Ok_0.checksum(),
{
}

/// The address of a source is its CID and the path behind it, and it is fetched from the gateway under the
/// reference; what is no CID is refused.
pub proof fn law_source_is_the_reference(
    reference: Seq<char>,
    gateway: Seq<char>,
    source: Result<IpfsSource, Error>,
)
    requires
        is_source(reference, gateway, source),
    ensures
        source matches Ok(s) ==> {
            let cid = parsed_cid(text::model::before(reference, '/'));
            &&& cid matches Ok((_, _, _, written)) && s.address() == written + path_of(reference)
            &&& http::parsed_url(gateway + "/ipfs/"@ + reference) matches Ok((url, _)) && s.url() == url
        },
        parsed_cid(text::model::before(reference, '/')) is Err ==> source is Err,
{
    law_reference_is_asked_for_as_written(gateway, reference);
}

/// A resource is known by its address, whatever version its gateway names, and held to what its CID vouches for
/// where the gateway vouches for nothing; the rest is what the gateway says.
pub proof fn law_resource_is_known_by_its_address(
    address: Seq<char>,
    vouches: Option<(Checksum, Seq<char>)>,
    probe: Probe,
    adopted: Probe,
)
    requires
        adopts(address, vouches, probe, adopted),
    ensures
        adopted.validator is Some && adopted.validator->0@ == address,
        probe.checksum is None && vouches is Some ==> adopted.checksum is Some && (adopted.checksum->0).0 == (
        vouches->0).0 && (adopted.checksum->0).1@ == (vouches->0).1,
        probe.checksum is None && vouches is None ==> adopted.checksum is None,
        adopted.length == probe.length && adopted.supports_ranges == probe.supports_ranges,
        adopted.filename == probe.filename && adopted.content_type == probe.content_type,
{
}

} // verus!
