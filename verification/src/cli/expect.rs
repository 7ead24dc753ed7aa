//! A checksum that a download is required to match: parsed, resolved, chosen and compared.

use crate::checksum;
use crate::checksum::Checksum;
use crate::digest;
use crate::source::ipfs;
use crate::text;
use vstd::prelude::*;
use vstd::string::*;

pub mod laws;

verus! {

/// An expectation: either a checksum given inline, or a URL to a checksum file to fetch. Both carry an
/// optional pinned algorithm (from an `algo:` prefix inline, or the sidecar's extension).
#[derive(Clone, Debug)]
pub enum Expect {
    /// A digest given on the command line.
    Literal {
        /// The algorithm, if pinned by an `algo:` prefix.
        algo: Option<Checksum>,
        /// The expected lowercase hex digest.
        hex: String,
    },
    /// A URL to a checksum file, as published beside many releases (`file.tar.gz.sha256`).
    Sidecar {
        /// The algorithm, if inferred from the URL's extension.
        algo: Option<Checksum>,
        /// The checksum file's URL.
        url: String,
    },
}

/// Whether a text ends in one of two suffixes.
pub open spec fn ends_in(s: Seq<char>, a: Seq<char>, b: Seq<char>) -> bool {
    a.is_suffix_of(s) || b.is_suffix_of(s)
}

/// The algorithm that a checksum file's extension tells of, in any letter case.
pub open spec fn extension_algorithm(url: Seq<char>) -> Option<Checksum> {
    let lower = text::model::lower(url);
    if ends_in(lower, ".sha256"@, ".sha256sum"@) {
        Some(Checksum::Sha256)
    } else if ends_in(lower, ".sha512"@, ".sha512sum"@) {
        Some(Checksum::Sha512)
    } else if ends_in(lower, ".sha1"@, ".sha1sum"@) {
        Some(Checksum::Sha1)
    } else if ends_in(lower, ".md5"@, ".md5sum"@) {
        Some(Checksum::Md5)
    } else {
        None
    }
}

/// What an expectation says, given its text.
pub open spec fn expectation(value: Seq<char>, parsed: Result<Expect, String>) -> bool {
    if text::model::contains(value, "://"@) {
        &&& parsed matches Ok(Expect::Sidecar { algo, url })
        &&& algo == extension_algorithm(value)
        &&& url@ == value
    } else {
        match text::model::split_once(value, ':') {
            Some((name, hex)) => match checksum::named(name) {
                Some(named) => {
                    &&& parsed matches Ok(Expect::Literal { algo, hex: h })
                    &&& algo == Some(named)
                    &&& h@ == text::model::lower(hex)
                },
                None => {
                    &&& parsed matches Err(message)
                    &&& message@ == "unknown checksum (use none, md5, sha1, sha256, sha512, or blake3)"@
                },
            },
            None => {
                &&& parsed matches Ok(Expect::Literal { algo, hex })
                &&& algo is None
                &&& hex@ == text::model::lower(value)
            },
        }
    }
}

fn has_suffix(s: &[char], a: &str, b: &str) -> (r: bool)
    ensures
        r == ends_in(s@, a@, b@),
{
    text::strip_suffix(s, a).is_some() || text::strip_suffix(s, b).is_some()
}

/// Infer a checksum algorithm from a checksum file's extension, e.g. `.sha256` or `.sha256sum`.
pub fn algo_from_extension(url: &str) -> (algo: Option<Checksum>)
    ensures
        algo == extension_algorithm(url@),
{
    let chars = text::chars_of(url);
    let lower = text::lower(&chars);
    if has_suffix(&lower, ".sha256", ".sha256sum") {
        Some(Checksum::Sha256)
    } else if has_suffix(&lower, ".sha512", ".sha512sum") {
        Some(Checksum::Sha512)
    } else if has_suffix(&lower, ".sha1", ".sha1sum") {
        Some(Checksum::Sha1)
    } else if has_suffix(&lower, ".md5", ".md5sum") {
        Some(Checksum::Md5)
    } else {
        None
    }
}

/// Parse an expectation: a URL (contains `://`) becomes a [`Expect::Sidecar`] with the algorithm inferred
/// from its extension; otherwise an `algo:hex` or bare `hex` [`Expect::Literal`]. A bad `algo:` prefix is
/// rejected here; the sidecar it names is fetched later.
pub fn parse_expect(value: &str) -> (parsed: Result<Expect, String>)
    ensures
        expectation(value@, parsed),
{
    let chars = text::chars_of(value);
    if text::contains(&chars, "://") {
        return Ok(Expect::Sidecar { algo: algo_from_extension(value), url: value.to_owned() });
    }
    match text::split_once(&chars, ':') {
        Some((name, hex)) => {
            let name = text::string_of(name);
            match Checksum::from_str(name.as_str()) {
                Ok(algo) => Ok(
                    Expect::Literal {
                        algo: Some(algo),
                        hex: text::string_of(&text::lower(hex)),
                    },
                ),
                Err(error) => Err(error.message().to_owned()),
            }
        },
        None => Ok(Expect::Literal { algo: None, hex: text::string_of(&text::lower(&chars)) }),
    }
}

/// Whether a character is a hexadecimal digit.
pub open spec fn is_hex(c: char) -> bool {
    ('0' <= c && c <= '9') || ('a' <= c && c <= 'f') || ('A' <= c && c <= 'F')
}

/// Whether a word is a hex string of a checksum's length (md5, sha1, sha256, or sha512).
pub open spec fn is_digest(word: Seq<char>) -> bool {
    &&& word.len() == 32 || word.len() == 40 || word.len() == 64 || word.len() == 128
    &&& forall|i: int| 0 <= i < word.len() ==> is_hex(#[trigger] word[i])
}

/// The first of the words that is a digest, in lower case.
pub open spec fn first_digest(words: Seq<Seq<char>>) -> Option<Seq<char>>
    decreases words.len(),
{
    if words.len() == 0 {
        None
    } else if is_digest(words[0]) {
        Some(text::model::lower(words[0]))
    } else {
        first_digest(words.skip(1))
    }
}

/// Whether `token` is a hex string of a checksum's length.
pub fn is_hex_digest(token: &[char]) -> (r: bool)
    ensures
        r == is_digest(token@),
{
    let n = token.len();
    if n != 32 && n != 40 && n != 64 && n != 128 {
        return false;
    }
    let mut i: usize = 0;
    while i < n
        invariant
            i <= n,
            n == token@.len(),
            forall|j: int| 0 <= j < i ==> is_hex(#[trigger] token@[j]),
        decreases n - i,
    {
        let c = token[i];
        if !(('0' <= c && c <= '9') || ('a' <= c && c <= 'f') || ('A' <= c && c <= 'F')) {
            assert(!is_hex(token@[i as int]));
            return false;
        }
        i += 1;
    }
    true
}

/// The digest that the text of a checksum file states: its first hex-looking word, so both a bare digest and
/// the usual `<hex>  <filename>` line work.
pub fn digest_in(body: &str) -> (hex: Option<String>)
    ensures
        text::model::opt_view(hex) == first_digest(text::model::words(body@)),
{
    let chars = text::chars_of(body);
    let words = text::words(&chars);
    let ghost all = text::model::words(body@);
    let mut i: usize = 0;
    assert(all.skip(0) =~= all);
    while i < words.len()
        invariant
            i <= words.len(),
            all == text::model::words(body@),
            text::model::views(words@) == all,
            first_digest(all) == first_digest(all.skip(i as int)),
        decreases words.len() - i,
    {
        let ghost here = all.skip(i as int);
        assert(here[0] == words@[i as int]@);
        assert(here.skip(1) =~= all.skip(i + 1));
        if is_hex_digest(&words[i]) {
            return Some(text::string_of(&text::lower(&words[i])));
        }
        i += 1;
    }
    None
}

/// Resolve a checksum file to the digest it states, given its text.
pub fn resolve_sidecar(algo: Option<Checksum>, url: &str, body: &str) -> (resolved: Result<
    (Option<Checksum>, String),
    String,
>)
    ensures
        match first_digest(text::model::words(body@)) {
            Some(digest) => resolved matches Ok((a, hex)) && a == algo && hex@ == digest,
            None => resolved matches Err(message) && message@ == "no checksum found at "@ + url@,
        },
{
    match digest_in(body) {
        Some(hex) => Ok((algo, hex)),
        None => {
            let mut message = "no checksum found at ".to_owned();
            message.append(url);
            Err(message)
        },
    }
}

/// An expected digest with its algorithm, in the terms of contracts.
pub open spec fn expected_view(expected: Option<(Option<Checksum>, String)>) -> Option<
    (Option<Checksum>, Seq<char>),
> {
    match expected {
        Some((algo, hex)) => Some((algo, hex@)),
        None => None,
    }
}

/// With no explicit expectation, adopt a checksum the source vouches for (e.g. an S3 stored checksum), so the
/// download is verified against it for free.
pub fn adopt(
    expected: Option<(Option<Checksum>, String)>,
    vouched: Option<(Checksum, String)>,
) -> (adopted: Option<(Option<Checksum>, String)>)
    ensures
        expected_view(adopted) == if expected is Some {
            expected_view(expected)
        } else {
            match ipfs::vouched(vouched) {
                Some((algo, hex)) => Some((Some(algo), hex)),
                None => None,
            }
        },
{
    match expected {
        Some(expected) => Some(expected),
        None => match vouched {
            Some((algo, hex)) => Some((Some(algo), hex)),
            None => None,
        },
    }
}

/// Whether this is the algorithm to verify with.
pub open spec fn chooses(
    expected: Option<(Option<Checksum>, Seq<char>)>,
    asked: Checksum,
    chosen: Result<Checksum, String>,
) -> bool {
    match expected {
        Some((Some(algo), _)) => chosen == Ok::<Checksum, String>(algo),
        Some((None, _)) => if asked == Checksum::Skip {
            chosen matches Err(message) && message@
                == "--expect needs an algorithm: pass --checksum or use algo:hex"@
        } else {
            chosen == Ok::<Checksum, String>(asked)
        },
        None => chosen == Ok::<Checksum, String>(asked),
    }
}

/// The algorithm to verify with: the one that the expectation pins, else the one that was asked for. An
/// expectation without any algorithm cannot be checked.
pub fn choose_checksum(
    expected: &Option<(Option<Checksum>, String)>,
    asked: Checksum,
) -> (chosen: Result<Checksum, String>)
    ensures
        chooses(expected_view(*expected), asked, chosen),
{
    match expected {
        Some((Some(algo), _)) => Ok(*algo),
        Some((None, _)) => if asked == Checksum::Skip {
            Err("--expect needs an algorithm: pass --checksum or use algo:hex".to_owned())
        } else {
            Ok(asked)
        },
        None => Ok(asked),
    }
}

/// Whether a download passes: its digest is the one that was expected, letter case aside, or nothing was
/// expected.
pub open spec fn passes(
    expected: Option<(Option<Checksum>, Seq<char>)>,
    hash: Option<Seq<char>>,
) -> bool {
    match expected {
        Some((_, want)) => match hash {
            Some(got) => text::model::lower(got) == text::model::lower(want),
            None => false,
        },
        None => true,
    }
}

/// Whether this is what a finished download is told, given what was expected of it.
pub open spec fn judged(
    expected: Option<(Option<Checksum>, Seq<char>)>,
    checksum: Checksum,
    hash: Option<Seq<char>>,
    told: Result<(), String>,
) -> bool {
    &&& told is Ok == passes(expected, hash)
    &&& told matches Err(message) ==> {
        let want = (expected->0).1;
        match hash {
            Some(got) => message@ == "checksum mismatch: expected "@ + checksum::name_of(checksum) + ":"@ + want
                + ", got "@ + checksum::name_of(checksum) + ":"@ + got,
            None => message@ == "no checksum was computed to verify against"@,
        }
    }
}

/// Judge a finished download by what was expected of it.
pub fn judge(
    expected: &Option<(Option<Checksum>, String)>,
    checksum: Checksum,
    hash: &Option<String>,
) -> (verdict: Result<(), String>)
    ensures
        judged(expected_view(*expected), checksum, text::model::opt_view(*hash), verdict),
{
    match expected {
        Some((_, want)) => match hash {
            Some(got) => {
                let a = text::chars_of(got.as_str());
                let b = text::chars_of(want.as_str());
                if text::same(&text::lower(&a), &text::lower(&b)) {
                    Ok(())
                } else {
                    let mut message = "checksum mismatch: expected ".to_owned();
                    message.append(checksum.name());
                    message.append(":");
                    message.append(want.as_str());
                    message.append(", got ");
                    message.append(checksum.name());
                    message.append(":");
                    message.append(got.as_str());
                    Err(message)
                }
            },
            None => Err("no checksum was computed to verify against".to_owned()),
        },
        None => Ok(()),
    }
}

/// A download whose digest differs from the expected one never passes, and neither does one that was not
/// hashed.
pub proof fn law_mismatch_fails(
    expected: Option<(Option<Checksum>, Seq<char>)>,
    hash: Option<Seq<char>>,
)
    requires
        expected is Some,
        hash is None || text::model::lower(hash->0) != text::model::lower((expected->0).1),
    ensures
        !passes(expected, hash),
{
}

/// A checksum file states the digest that it begins with, whatever follows: a bare digest and the usual
/// `<hex>  <filename>` line both work.
pub proof fn law_checksum_file_states_its_digest(hex: Seq<char>, rest: Seq<char>)
    requires
        is_digest(hex),
        rest.len() > 0 ==> text::model::is_whitespace(rest[0]),
    ensures
        first_digest(text::model::words(hex + rest)) == Some(text::model::lower(hex)),
{
    assert forall|j: int| 0 <= j < hex.len() implies !text::model::is_whitespace(#[trigger] hex[j]) by {
        assert(is_hex(hex[j]));
    }
    text::model::lemma_first_word(hex, rest);
    let words = text::model::words(hex + rest);
    assert(words[0] == hex);
}

/// A digest that a run reports is one that a checksum file can state, and a run that ends with the same
/// digest passes against it.
pub proof fn law_published_digest_passes(checksum: Checksum, digest: Seq<u8>, rest: Seq<char>)
    requires
        checksum != Checksum::Skip,
        digest.len() == digest::digest_len(checksum),
        rest.len() > 0 ==> text::model::is_whitespace(rest[0]),
    ensures
        ({
            let hash = digest::hex_of(digest);
            let stated = first_digest(text::model::words(hash + rest));
            &&& is_digest(hash)
            &&& stated == Some(hash)
            &&& passes(Some((Some(checksum), stated->0)), Some(hash))
        }),
{
    let hash = digest::hex_of(digest);
    assert forall|i: int| 0 <= i < hash.len() implies is_hex(#[trigger] hash[i])
        && text::model::lower_char(hash[i]) == hash[i] by {
        let d = digest[i / 2] as int;
        assert(0 <= d / 16 < 16 && 0 <= d % 16 < 16);
    }
    assert(text::model::lower(hash) =~= hash);
    law_checksum_file_states_its_digest(hash, rest);
}

} // verus!
