//! What an expectation means, and what a download has to be to meet it.

use crate::checksum;
use crate::checksum::Checksum;
use crate::cli::expect;
use crate::cli::expect::Expect;
use crate::text::laws;
use crate::text::model as text;
use vstd::prelude::*;

verus! {

/// Whether a text is the extension of an algorithm's checksum files: a dot and its name, or that and `sum`.
pub open spec fn is_extension(written: Seq<char>, algo: Checksum) -> bool {
    let lower = text::lower(written);
    match algo {
        Checksum::Md5 => lower == ".md5"@ || lower == ".md5sum"@,
        Checksum::Sha1 => lower == ".sha1"@ || lower == ".sha1sum"@,
        Checksum::Sha256 => lower == ".sha256"@ || lower == ".sha256sum"@,
        Checksum::Sha512 => lower == ".sha512"@ || lower == ".sha512sum"@,
        _ => false,
    }
}

proof fn lemma_lower_concat(a: Seq<char>, b: Seq<char>)
    ensures
        text::lower(a + b) == text::lower(a) + text::lower(b),
{
    assert(text::lower(a + b) =~= text::lower(a) + text::lower(b));
}

proof fn lemma_suffix(s: Seq<char>, t: Seq<char>, at: int)
    requires
        0 < at <= t.len(),
        t.len() > s.len() || s[s.len() - at] != t[t.len() - at],
    ensures
        !t.is_suffix_of(s),
{
    if t.is_suffix_of(s) {
        assert(s.subrange(s.len() - t.len(), s.len() as int)[t.len() - at] == t[t.len() - at]);
    }
}

proof fn lemma_is_suffix(a: Seq<char>, t: Seq<char>)
    ensures
        t.is_suffix_of(a + t),
{
    let s = a + t;
    assert(s.subrange(s.len() - t.len(), s.len() as int) =~= t);
}

/// The extension of a checksum file tells its algorithm, whatever stands before it, in any letter case.
pub proof fn law_extension_tells_the_algorithm(stem: Seq<char>, written: Seq<char>, algo: Checksum)
    requires
        is_extension(written, algo),
    ensures
        expect::extension_algorithm(stem + written) == Some(algo),
{
    lemma_lower_concat(stem, written);
    let a = text::lower(stem);
    let end = text::lower(written);
    let s = a + end;
    reveal_strlit(".md5");
    reveal_strlit(".md5sum");
    reveal_strlit(".sha1");
    reveal_strlit(".sha1sum");
    reveal_strlit(".sha256");
    reveal_strlit(".sha256sum");
    reveal_strlit(".sha512");
    reveal_strlit(".sha512sum");
    lemma_is_suffix(a, end);
    let n = end.len() as int;
    assert(s[s.len() - 1] == end[n - 1]);
    assert(s[s.len() - 4] == end[n - 4]);
    if end.last() == 'm' {
        lemma_suffix(s, ".sha256"@, 1);
        lemma_suffix(s, ".sha512"@, 1);
        lemma_suffix(s, ".sha1"@, 1);
        lemma_suffix(s, ".md5"@, 1);
        if end != ".sha256sum"@ {
            lemma_suffix(s, ".sha256sum"@, 4);
        }
        if end != ".sha512sum"@ {
            lemma_suffix(s, ".sha512sum"@, 4);
        }
        if end != ".sha1sum"@ {
            lemma_suffix(s, ".sha1sum"@, 4);
        }
    } else {
        lemma_suffix(s, ".sha256sum"@, 1);
        lemma_suffix(s, ".sha512sum"@, 1);
        lemma_suffix(s, ".sha1sum"@, 1);
        lemma_suffix(s, ".md5sum"@, 1);
        if end != ".sha256"@ {
            lemma_suffix(s, ".sha256"@, 1);
        }
        if end != ".sha512"@ {
            lemma_suffix(s, ".sha512"@, 1);
        }
        if end != ".sha1"@ {
            lemma_suffix(s, ".sha1"@, 1);
        }
    }
}

/// No algorithm is told by anything but such an extension.
pub proof fn law_only_an_extension_tells(url: Seq<char>, algo: Checksum)
    requires
        expect::extension_algorithm(url) == Some(algo),
    ensures
        exists|n: int| 0 <= n <= url.len() && is_extension(#[trigger] url.skip(n), algo),
{
    let s = text::lower(url);
    let t = match algo {
        Checksum::Sha256 => if ".sha256"@.is_suffix_of(s) {
            ".sha256"@
        } else {
            ".sha256sum"@
        },
        Checksum::Sha512 => if ".sha512"@.is_suffix_of(s) {
            ".sha512"@
        } else {
            ".sha512sum"@
        },
        Checksum::Sha1 => if ".sha1"@.is_suffix_of(s) {
            ".sha1"@
        } else {
            ".sha1sum"@
        },
        _ => if ".md5"@.is_suffix_of(s) {
            ".md5"@
        } else {
            ".md5sum"@
        },
    };
    let n = s.len() - t.len();
    assert(t.is_suffix_of(s));
    assert(text::lower(url.skip(n)) =~= s.subrange(n, s.len() as int));
    assert(is_extension(url.skip(n), algo));
}

/// A URL is taken for a checksum file, and its extension for the algorithm.
pub proof fn law_url_is_a_checksum_file(
    a: Seq<char>,
    b: Seq<char>,
    written: Seq<char>,
    algo: Checksum,
    parsed: Result<Expect, String>,
)
    requires
        is_extension(written, algo),
        expect::expectation(a + "://"@ + b + written, parsed),
    ensures
        parsed matches Ok(Expect::Sidecar { algo: told, url }) && told == Some(algo) && url@ == a + "://"@ + b
            + written,
{
    let stem = a + "://"@ + b;
    laws::law_contains_what_it_holds(a, "://"@, b + written);
    assert(a + "://"@ + (b + written) =~= stem + written);
    law_extension_tells_the_algorithm(stem, written, algo);
}

/// An algorithm and a digest given inline are taken as they are, the digest in lower case.
pub proof fn law_inline_digest_is_taken(
    name: Seq<char>,
    hex: Seq<char>,
    algo: Checksum,
    parsed: Result<Expect, String>,
)
    requires
        text::lower(name) == checksum::name_of(algo),
        laws::free_of(hex, '/'),
        expect::expectation(name + seq![':'] + hex, parsed),
    ensures
        parsed matches Ok(Expect::Literal { algo: told, hex: h }) && told == Some(algo) && h@ == text::lower(
            hex,
        ),
{
    checksum::law_names(name);
    lemma_name_letters(name, algo);
    let value = name + seq![':'] + hex;
    lemma_no_scheme(value);
    laws::law_split_once_cuts_at_the_first(name, ':', hex);
}

/// A digest alone is taken as it is, in lower case, and leaves the algorithm open.
pub proof fn law_bare_digest_is_taken(hex: Seq<char>, parsed: Result<Expect, String>)
    requires
        laws::free_of(hex, '/'),
        laws::free_of(hex, ':'),
        expect::expectation(hex, parsed),
    ensures
        parsed matches Ok(Expect::Literal { algo: told, hex: h }) && told is None && h@ == text::lower(hex),
{
    lemma_no_scheme(hex);
    laws::law_split_once_cuts_at_the_first(hex, ':', Seq::empty());
}

/// A name that is no algorithm's is refused.
pub proof fn law_unknown_algorithm_is_refused(
    name: Seq<char>,
    hex: Seq<char>,
    parsed: Result<Expect, String>,
)
    requires
        forall|algo: Checksum| text::lower(name) != #[trigger] checksum::name_of(algo),
        laws::free_of(name, ':'),
        laws::free_of(name, '/'),
        laws::free_of(hex, '/'),
        expect::expectation(name + seq![':'] + hex, parsed),
    ensures
        parsed is Err,
{
    checksum::law_names(name);
    if let Some(algo) = checksum::named(name) {
        assert(text::lower(name) == checksum::name_of(algo));
    }
    lemma_no_scheme(name + seq![':'] + hex);
    laws::law_split_once_cuts_at_the_first(name, ':', hex);
}

proof fn lemma_no_scheme(value: Seq<char>)
    requires
        laws::free_of(value, '/'),
    ensures
        !text::contains(value, "://"@),
{
    reveal_strlit("://");
    if text::contains(value, "://"@) {
        let i = choose|i: int| #[trigger] text::occurs_at(value, "://"@, i);
        assert(value.subrange(i, i + 3)[1] == '/');
        assert(value[i + 1] == '/');
    }
}

proof fn lemma_name_letters(name: Seq<char>, algo: Checksum)
    requires
        text::lower(name) == checksum::name_of(algo),
    ensures
        laws::free_of(name, ':'),
        laws::free_of(name, '/'),
{
    reveal_strlit("none");
    reveal_strlit("md5");
    reveal_strlit("sha1");
    reveal_strlit("sha256");
    reveal_strlit("sha512");
    reveal_strlit("blake3");
    assert forall|j: int| 0 <= j < name.len() implies (#[trigger] name[j]) != ':' && name[j] != '/' by {
        let n = checksum::name_of(algo);
        assert(text::lower(name)[j] == text::lower_char(name[j]));
        assert(n.len() == name.len() && n[j] == text::lower_char(name[j]));
        assert(n.len() <= 6);
        assert(j == 0 || j == 1 || j == 2 || j == 3 || j == 4 || j == 5);
        assert(n[j] != ':' && n[j] != '/');
    }
}

/// Words of a checksum file that are no digests are passed over: those of another length, and those that hold
/// anything but hexadecimal digits.
pub proof fn law_other_words_are_passed_over(word: Seq<char>, b: Seq<char>, rest: Seq<char>, i: int)
    requires
        word.len() > 0,
        laws::solid(word),
        laws::blank(b),
        b.len() > 0,
        (word.len() != 32 && word.len() != 40 && word.len() != 64 && word.len() != 128) || (0 <= i
            < word.len() && !('0' <= word[i] <= '9') && !('a' <= word[i] <= 'f') && !('A' <= word[i]
            <= 'F')),
    ensures
        expect::first_digest(text::words(word + b + rest)) == expect::first_digest(text::words(rest)),
{
    let none = Seq::<char>::empty();
    laws::law_words_are_what_whitespace_separates(none, word, b, rest);
    assert(none + word + b + rest =~= word + b + rest);
    let all = text::words(word + b + rest);
    assert(all[0] == word);
    assert(all.skip(1) =~= text::words(rest));
    if expect::is_digest(word) {
        assert(expect::is_hex(word[i]));
    }
}

/// A download passes against its own digest, in any letter case, under whatever algorithm; against none it
/// always passes.
pub proof fn law_same_digest_passes(algo: Option<Checksum>, hash: Seq<char>)
    ensures
        expect::passes(Some((algo, hash)), Some(hash)),
        expect::passes(Some((algo, text::lower(hash))), Some(hash)),
        expect::passes(Some((algo, text::upper(hash))), Some(hash)),
        expect::passes(None, Some(hash)),
        expect::passes(None, None),
        !expect::passes(Some((algo, hash)), None),
{
    assert(text::lower(text::lower(hash)) =~= text::lower(hash)) by {
        assert forall|i: int| 0 <= i < hash.len() implies text::lower(text::lower(hash))[i] == text::lower(
            hash,
        )[i] by {
            lemma_lower_twice(hash[i]);
        }
    }
    assert(text::lower(text::upper(hash)) =~= text::lower(hash)) by {
        assert forall|i: int| 0 <= i < hash.len() implies text::lower(text::upper(hash))[i] == text::lower(
            hash,
        )[i] by {
            lemma_lower_twice(hash[i]);
        }
    }
}

proof fn lemma_lower_twice(c: char)
    ensures
        text::lower_char(text::lower_char(c)) == text::lower_char(c),
        text::lower_char(text::upper_char(c)) == text::lower_char(c),
{
}

/// A download does not pass where its digest and the expected one differ in length, or in a digit.
pub proof fn law_other_digest_fails(algo: Option<Checksum>, want: Seq<char>, got: Seq<char>, i: int)
    requires
        want.len() != got.len() || (0 <= i < want.len() && text::lower_char(want[i]) != text::lower_char(
            got[i],
        )),
    ensures
        !expect::passes(Some((algo, want)), Some(got)),
{
    if text::lower(want) == text::lower(got) {
        assert(text::lower(want).len() == text::lower(got).len());
        assert(text::lower(want)[i] == text::lower(got)[i]);
    }
}

/// A download with the expected digest is let pass and any other is refused, with both digests in the message.
pub proof fn law_download_is_judged_by_its_digest(
    algo: Option<Checksum>,
    checksum: Checksum,
    want: Seq<char>,
    got: Seq<char>,
    told: Result<(), String>,
)
    requires
        expect::judged(Some((algo, want)), checksum, Some(got), told),
    ensures
        want == got ==> told is Ok,
        text::lower(want) == text::lower(got) <==> told is Ok,
        told matches Err(message) ==> text::contains(message@, want) && got.is_suffix_of(message@),
{
    if let Err(message) = told {
        let name = checksum::name_of(checksum);
        let a = "checksum mismatch: expected "@ + name + ":"@;
        let b = ", got "@ + name + ":"@;
        assert(message@ =~= a + want + (b + got));
        laws::law_contains_what_it_holds(a, want, b + got);
        assert(message@.subrange(message@.len() - got.len(), message@.len() as int) =~= got);
    }
}

/// Without an expectation every download is let pass, and with one, none that was not hashed.
pub proof fn law_unhashed_download_is_refused(
    expected: Option<(Option<Checksum>, Seq<char>)>,
    checksum: Checksum,
    told: Result<(), String>,
)
    requires
        expect::judged(expected, checksum, None, told),
    ensures
        told is Ok <==> expected is None,
{
}

/// The algorithm that an expectation pins is used, and else the one that was asked for; a digest that comes with no
/// algorithm cannot be checked where hashing is skipped.
pub proof fn law_pinned_algorithm_is_used(
    algo: Checksum,
    hex: Seq<char>,
    asked: Checksum,
    chosen: Result<Checksum, String>,
)
    ensures
        expect::chooses(Some((Some(algo), hex)), asked, chosen) ==> chosen == Ok::<Checksum, String>(algo),
        expect::chooses(None, asked, chosen) ==> chosen == Ok::<Checksum, String>(asked),
        expect::chooses(Some((None, hex)), asked, chosen) && asked != Checksum::Skip ==> chosen == Ok::<
            Checksum,
            String,
        >(asked),
        expect::chooses(Some((None, hex)), Checksum::Skip, chosen) ==> chosen is Err,
{
}

} // verus!
