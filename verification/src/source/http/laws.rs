//! What is asked of a server and what its answers are taken for, whatever their numbers and names.

use crate::error::Error;
use crate::path;
use crate::path::Platform;
use crate::range::ByteRange;
use crate::source::http;
use crate::source::http::Head;
use crate::text::laws;
use crate::text::model as text;
use crate::vocabulary::Probe;
use vstd::prelude::*;
use vstd::utf8::*;

verus! {

/// Whether a text is a number: digits, and at least one.
pub open spec fn is_number(s: Seq<char>) -> bool {
    s.len() > 0 && text::all_digits(s)
}

/// How a server reads the value of a `Range` header: the unit `bytes`, an equals sign, the first offset, a dash
/// and the last offset. It gives the two offsets.
pub open spec fn requested(value: Seq<char>) -> Option<(nat, nat)> {
    match text::strip_prefix(value, "bytes="@) {
        Some(span) => match text::split_once(span, '-') {
            Some((first, last)) => if is_number(first) && is_number(last) {
                Some((text::value(first), text::value(last)))
            } else {
                None
            },
            None => None,
        },
        None => None,
    }
}

/// A request asks for exactly the bytes of the range, from its first to its last.
pub proof fn law_request_asks_for_the_range(range: ByteRange)
    requires
        range.start < range.end,
    ensures
        requested(http::range_value(range)) == Some(
            (range.start as nat, (range.end - 1) as nat),
        ),
{
    let first = text::decimal(range.start as nat);
    let last = text::decimal((range.end - 1) as nat);
    lemma_decimal(range.start as nat);
    lemma_decimal((range.end - 1) as nat);
    let span = first + seq!['-'] + last;
    assert(http::range_value(range) =~= "bytes="@ + span);
    laws::law_prefix_and_rest(span, "bytes="@, span);
    laws::law_split_once_cuts_at_the_first(first, '-', last);
}

proof fn lemma_decimal(n: nat)
    requires
        n <= u64::MAX,
    ensures
        is_number(text::decimal(n)),
        text::value(text::decimal(n)) == n,
        laws::free_of(text::decimal(n), '-'),
        laws::free_of(text::decimal(n), '/'),
        laws::tight(text::decimal(n)),
        laws::solid(text::decimal(n)),
{
    laws::law_decimal_reads_back(n, u64::MAX as nat);
    let d = text::decimal(n);
    assert forall|j: int| 0 <= j < d.len() implies (#[trigger] d[j]) != '-' && d[j] != '/'
        && !text::is_whitespace(d[j]) by {
        assert(text::is_digit(d[j]));
    }
    assert(text::is_digit(d[0]));
    assert(text::unsigned_part(d) == d);
}

/// How a server writes the `Content-Range` of an answer.
pub open spec fn content_range(first: nat, last: nat, total: nat) -> Seq<char> {
    "bytes "@ + text::decimal(first) + seq!['-'] + text::decimal(last) + seq!['/'] + text::decimal(total)
}

/// The first offset and the total that a server states are the ones that are read, also where the span is not
/// known.
pub proof fn law_content_range_is_read(first: u64, last: u64, total: u64)
    ensures
        http::range_start(content_range(first as nat, last as nat, total as nat)) == Some(first as nat),
        http::range_total(content_range(first as nat, last as nat, total as nat)) == Some(total as nat),
        http::range_total("bytes */"@ + text::decimal(total as nat)) == Some(total as nat),
{
    let a = text::decimal(first as nat);
    let b = text::decimal(last as nat);
    let c = text::decimal(total as nat);
    lemma_decimal(first as nat);
    lemma_decimal(last as nat);
    lemma_decimal(total as nat);
    let value = content_range(first as nat, last as nat, total as nat);
    let span = a + seq!['-'] + b;
    let rest = span + seq!['/'] + c;
    assert(value =~= "bytes "@ + rest);
    laws::law_prefix_and_rest(rest, "bytes "@, rest);
    assert forall|j: int| 0 <= j < span.len() implies (#[trigger] span[j]) != '/' by {
        if j < a.len() {
            assert(span[j] == a[j]);
        } else if j > a.len() {
            assert(span[j] == b[j - a.len() - 1]);
        }
    }
    laws::law_split_once_cuts_at_the_first(span, '/', c);
    laws::law_split_once_cuts_at_the_first(a, '-', b);
    lemma_trimmed(a);
    laws::law_decimal_reads_back(first as nat, u64::MAX as nat);
    assert(value =~= ("bytes "@ + span) + seq!['/'] + c);
    laws::law_after_last_is_behind_the_last("bytes "@ + span, '/', c);
    lemma_trimmed(c);
    laws::law_decimal_reads_back(total as nat, u64::MAX as nat);
    reveal_strlit("bytes */");
    let unknown = "bytes */"@ + c;
    assert(unknown =~= "bytes */"@.drop_last() + seq!['/'] + c);
    laws::law_after_last_is_behind_the_last("bytes */"@.drop_last(), '/', c);
}

proof fn lemma_trimmed(s: Seq<char>)
    requires
        laws::tight(s),
    ensures
        text::trim(s) == s,
{
    let none = Seq::<char>::empty();
    laws::law_trim_takes_off_whitespace(none, s, none);
    assert(none + s + none =~= s);
}

/// An answer is believed exactly where it is a `206` that starts at the first byte that was asked for.
pub proof fn law_only_the_asked_range_is_believed(
    range: ByteRange,
    status: u16,
    first: u64,
    last: u64,
    total: u64,
)
    ensures
        http::honored(
            range,
            status,
            Some(content_range(first as nat, last as nat, total as nat)),
        ) <==> status == 206 && first == range.start,
        !http::honored(range, status, None),
{
    law_content_range_is_read(first, last, total);
}

/// A probe that is answered with one byte and the total finds a resource of that length that serves ranges. One
/// that is answered with the whole finds a resource that does not, as long as the length is given. Any other
/// status is an error.
pub proof fn law_probe_finds_the_length(
    head: Head,
    platform: Platform,
    answer: Result<Probe, Error>,
    first: u64,
    last: u64,
    total: u64,
)
    requires
        http::probed(head, platform, answer),
        head.status == 206 ==> head.content_range is Some && head.content_range->0@ == content_range(
            first as nat,
            last as nat,
            total as nat,
        ),
    ensures
        head.status == 206 ==> {
            &&& answer matches Ok(probe)
            &&& probe.supports_ranges
            &&& probe.length == total
        },
        200 <= head.status < 300 && head.status != 206 && head.content_length is Some ==> {
            &&& answer matches Ok(probe)
            &&& !probe.supports_ranges
            &&& probe.length == head.content_length->0
        },
        200 <= head.status < 300 && head.status != 206 && head.content_length is None ==> answer is Err,
        head.status < 200 || head.status >= 300 ==> answer is Err,
{
    law_content_range_is_read(first, last, total);
}

/// A version is known by its entity tag, and without one by the time it was last changed; a server vouches for
/// no checksum.
pub proof fn law_probe_knows_the_version(
    head: Head,
    platform: Platform,
    answer: Result<Probe, Error>,
)
    requires
        http::probed(head, platform, answer),
        answer is Ok,
    ensures
        head.etag is Some ==> answer->Ok_0.validator == head.etag,
        head.etag is None ==> answer->Ok_0.validator == head.last_modified,
        answer->Ok_0.checksum is None,
{
}

/// A media type is read without the parameters behind it and the whitespace around it.
pub proof fn law_media_type_is_read(
    a: Seq<char>,
    media: Seq<char>,
    b: Seq<char>,
    parameters: Seq<char>,
)
    requires
        laws::blank(a),
        media.len() > 0,
        laws::tight(media),
        laws::free_of(media, ';'),
        laws::blank(b),
        laws::free_of(a, ';'),
        laws::free_of(b, ';'),
    ensures
        http::media_type(a + media + b) == Some(media),
        http::media_type(a + media + b + seq![';'] + parameters) == Some(media),
{
    let s = a + media + b;
    assert(laws::free_of(s, ';'));
    laws::law_split_once_cuts_at_the_first(s, ';', parameters);
    laws::law_trim_takes_off_whitespace(a, media, b);
}

/// Whether a text can stand as the name of a file as it is: it is not empty, not `.` or `..`, holds no separator
/// and, on Windows, no colon.
pub open spec fn is_plain_name(name: Seq<char>, platform: Platform) -> bool {
    &&& name.len() > 0
    &&& name != seq!['.']
    &&& name != seq!['.', '.']
    &&& laws::free_of(name, '/')
    &&& platform == Platform::Windows ==> laws::free_of(name, '\\') && laws::free_of(name, ':')
}

/// A plain name is its own file name.
pub proof fn lemma_plain_name(name: Seq<char>, platform: Platform)
    requires
        is_plain_name(name, platform),
    ensures
        path::model::file_name(name, platform) == Some(name),
{
    lemma_plain_path(name, platform);
}

/// A path that is a plain name has no prefix, and no component but that name.
pub proof fn lemma_plain_path(name: Seq<char>, platform: Platform)
    requires
        is_plain_name(name, platform),
    ensures
        path::model::prefix(name, platform) == Seq::<Seq<char>>::empty(),
        path::model::rest(name, platform) == seq![name],
        path::model::components(seq![name]) == seq![name],
{
    let even = path::model::slashed(name, platform);
    assert(even =~= name);
    laws::law_split_takes_off_a_piece(name, '/', Seq::empty());
    let pieces = path::model::pieces(name, platform);
    assert(pieces == seq![name]);
    if platform == Platform::Windows && name.len() >= 2 {
        assert(name[1] != ':');
    }
    let rest = path::model::rest(name, platform);
    assert(rest == seq![name]);
    reveal_with_fuel(path::model::components, 2);
    assert(rest.drop_last() =~= Seq::<Seq<char>>::empty());
    assert(path::model::components(rest) =~= seq![name]);
    assert(path::model::prefix(name, platform) =~= Seq::<Seq<char>>::empty());
}

/// A quoted name is suggested as it stands between its quotes, spaces inside it included.
pub proof fn law_quoted_name_is_suggested(name: Seq<char>, platform: Platform)
    requires
        is_plain_name(name, platform),
        laws::free_of(name, '"'),
        laws::free_of(name, ';'),
    ensures
        http::suggested("attachment; filename=\""@ + name + seq!['"'], platform) == Some(name),
{
    lemma_quoted_disposition(name);
    lemma_plain_name(name, platform);
}

/// A disposition with one quoted name offers that name, and no extended one.
pub proof fn lemma_quoted_disposition(name: Seq<char>)
    requires
        name.len() > 0,
        laws::free_of(name, '"'),
        laws::free_of(name, ';'),
    ensures
        ({
            let parts = text::split("attachment; filename=\""@ + name + seq!['"'], ';');
            http::first_extended(parts) is None && http::first_plain(parts) == Some(name)
        }),
{
    let quoted = seq!['"'] + name + seq!['"'];
    lemma_parts(quoted);
    let value = "attachment; filename=\""@ + name + seq!['"'];
    reveal_strlit("attachment; filename=\"");
    reveal_strlit("attachment");
    reveal_strlit("filename=");
    assert(value =~= disposition(quoted));
    assert(laws::tight(quoted));
    lemma_unquoted(name);
    lemma_trimmed(quoted);
}

/// A probe carries the name and the media type that the answer's headers give, and none where they give none.
pub proof fn law_probe_carries_the_name_and_the_type(
    head: Head,
    platform: Platform,
    answer: Result<Probe, Error>,
    name: Seq<char>,
    media: Seq<char>,
    parameters: Seq<char>,
)
    requires
        http::probed(head, platform, answer),
        answer is Ok,
        is_plain_name(name, platform),
        laws::free_of(name, '"'),
        laws::free_of(name, ';'),
        media.len() > 0,
        laws::tight(media),
        laws::free_of(media, ';'),
    ensures
        head.disposition is None ==> answer->Ok_0.filename is None,
        head.disposition is Some && head.disposition->0@ == "attachment; filename=\""@ + name + seq!['"']
            ==> answer->Ok_0.filename is Some && answer->Ok_0.filename->0@ == name,
        head.content_type is None ==> answer->Ok_0.content_type is None,
        head.content_type is Some && (head.content_type->0@ == media || head.content_type->0@ == media
            + seq![';'] + parameters) ==> answer->Ok_0.content_type is Some
            && answer->Ok_0.content_type->0@ == media,
{
    law_quoted_name_is_suggested(name, platform);
    let none = Seq::<char>::empty();
    law_media_type_is_read(none, media, none, parameters);
    assert(none + media + none =~= media);
}

/// A name without quotes is suggested as it is, without the whitespace around it.
pub proof fn law_bare_name_is_suggested(name: Seq<char>, platform: Platform)
    requires
        is_plain_name(name, platform),
        laws::free_of(name, '"'),
        laws::free_of(name, ';'),
        laws::tight(name),
    ensures
        http::suggested("attachment; filename="@ + name, platform) == Some(name),
{
    lemma_parts(name);
    let value = "attachment; filename="@ + name;
    reveal_strlit("attachment; filename=");
    reveal_strlit("attachment");
    reveal_strlit("filename=");
    assert(value =~= disposition(name));
    let none = Seq::<char>::empty();
    assert(name[0] != '"' && name[name.len() - 1] != '"');
    laws::law_trim_of_takes_off_runs(none, name, none, '"');
    assert(none + name + none =~= name);
    lemma_trimmed(name);
    lemma_plain_name(name, platform);
}

/// A name that comes with a path is suggested without it.
pub proof fn law_path_is_stripped(dir: Seq<char>, name: Seq<char>)
    requires
        is_plain_name(name, Platform::Unix),
        laws::free_of(name, '"'),
        laws::free_of(name, ';'),
        laws::free_of(dir, '"'),
        laws::free_of(dir, ';'),
    ensures
        http::suggested(
            "attachment; filename=\""@ + (dir + seq!['/'] + name) + seq!['"'],
            Platform::Unix,
        ) == Some(name),
{
    let full = dir + seq!['/'] + name;
    let quoted = seq!['"'] + full + seq!['"'];
    let value = "attachment; filename=\""@ + full + seq!['"'];
    assert(laws::free_of(full, '"') && laws::free_of(full, ';'));
    lemma_parts(quoted);
    reveal_strlit("attachment; filename=\"");
    reveal_strlit("attachment");
    reveal_strlit("filename=");
    assert(value =~= disposition(quoted));
    lemma_unquoted(full);
    lemma_trimmed(quoted);
    path::model::law_last_component_is_the_file_name(dir, name);
}

proof fn lemma_unquoted(name: Seq<char>)
    requires
        name.len() > 0,
        laws::free_of(name, '"'),
    ensures
        text::trim_of(seq!['"'] + name + seq!['"'], '"') == name,
{
    assert(name[0] != '"' && name[name.len() - 1] != '"');
    laws::law_trim_of_takes_off_runs(seq!['"'], name, seq!['"'], '"');
}

/// A disposition with one plain name.
pub open spec fn disposition(raw: Seq<char>) -> Seq<char> {
    "attachment"@ + seq![';'] + (seq![' '] + ("filename="@ + raw))
}

/// A disposition with one plain name offers that name, and no extended one.
proof fn lemma_parts(raw: Seq<char>)
    requires
        raw.len() > 0,
        laws::tight(raw),
        laws::free_of(raw, ';'),
    ensures
        http::first_extended(text::split(disposition(raw), ';')) is None,
        http::first_plain(text::split(disposition(raw), ';')) == Some(
            text::trim_of(text::trim(raw), '"'),
        ),
{
    reveal_strlit("attachment");
    reveal_strlit("filename=");
    reveal_strlit("filename*=");
    let head = "attachment"@;
    let field = "filename="@ + raw;
    let tail = seq![' '] + field;
    assert(laws::free_of(head, ';'));
    assert forall|j: int| 0 <= j < tail.len() implies (#[trigger] tail[j]) != ';' by {
        if j >= 10 {
            assert(tail[j] == raw[j - 10]);
        }
    }
    laws::law_split_takes_off_a_piece(head, ';', tail);
    laws::law_split_takes_off_a_piece(tail, ';', Seq::empty());
    let parts = text::split(disposition(raw), ';');
    assert(parts =~= seq![head, tail]);
    assert(laws::tight(head));
    lemma_trimmed(head);
    assert(field.last() == raw.last());
    assert(laws::tight(field));
    laws::law_trim_takes_off_whitespace(seq![' '], field, Seq::empty());
    assert(seq![' '] + field + Seq::<char>::empty() =~= tail);
    assert(text::trim(parts[1]) == field);
    assert(parts.skip(1) =~= seq![tail]);
    assert(parts.skip(1).skip(1) =~= Seq::<Seq<char>>::empty());
    assert(!"filename*="@.is_prefix_of(head)) by {
        assert(head[0] != "filename*="@[0]);
    }
    assert(!"filename="@.is_prefix_of(head)) by {
        assert(head[0] != "filename="@[0]);
    }
    assert(!"filename*="@.is_prefix_of(field)) by {
        assert(field[8] == '=');
        assert("filename*="@[8] == '*');
        if "filename*="@.is_prefix_of(field) {
            assert(field.subrange(0, 10)[8] == "filename*="@[8]);
        }
    }
    laws::law_prefix_and_rest(raw, "filename="@, raw);
    reveal_with_fuel(http::first_extended, 3);
    reveal_with_fuel(http::first_plain, 3);
}

/// A hexadecimal digit, in upper case.
pub open spec fn hex_char(d: int) -> char {
    if d < 10 {
        ('0' as int + d) as char
    } else {
        ('A' as int + d - 10) as char
    }
}

/// Bytes as they are written in an extended value: those that `keeps` picks as they are, and any other as a
/// percent sign and two hexadecimal digits.
pub open spec fn percent_encoded(bytes: Seq<u8>, keeps: spec_fn(u8) -> bool) -> Seq<char>
    decreases bytes.len(),
{
    if bytes.len() == 0 {
        Seq::empty()
    } else {
        let b = bytes[0];
        let here = if keeps(b) {
            seq![b as char]
        } else {
            seq!['%', hex_char(b as int / 16), hex_char(b as int % 16)]
        };
        here + percent_encoded(bytes.skip(1), keeps)
    }
}

/// Whether a byte may stand for itself in an extended value: a letter, a digit, or one of `-`, `.`, `_`, `~`.
pub open spec fn is_unreserved(b: u8) -> bool {
    ||| 0x30 <= b <= 0x39 || 0x41 <= b <= 0x5a || 0x61 <= b <= 0x7a
    ||| b == 0x2d || b == 0x2e || b == 0x5f || b == 0x7e
}

/// The characters of a percent-encoded text: letters, digits, four signs and percent signs.
proof fn lemma_encoded_chars(bytes: Seq<u8>, keeps: spec_fn(u8) -> bool)
    requires
        forall|b: u8| keeps(b) ==> is_unreserved(b),
    ensures
        forall|j: int|
            0 <= j < percent_encoded(bytes, keeps).len() ==> is_encoded_char(
                #[trigger] percent_encoded(bytes, keeps)[j],
            ),
    decreases bytes.len(),
{
    if bytes.len() > 0 {
        lemma_encoded_chars(bytes.skip(1), keeps);
        let rest = percent_encoded(bytes.skip(1), keeps);
        let all = percent_encoded(bytes, keeps);
        let n = all.len() - rest.len();
        lemma_byte_chars(bytes[0]);
        assert forall|j: int| 0 <= j < all.len() implies is_encoded_char(#[trigger] all[j]) by {
            if j >= n {
                assert(all[j] == rest[j - n]);
            }
        }
    }
}

proof fn lemma_byte_chars(b: u8)
    ensures
        is_unreserved(b) ==> is_encoded_char(b as char),
        is_encoded_char(hex_char(b as int / 16)),
        is_encoded_char(hex_char(b as int % 16)),
        is_encoded_char('%'),
        http::hex_value(hex_char(b as int / 16) as u8) == Some((b / 16) as u8),
        http::hex_value(hex_char(b as int % 16) as u8) == Some((b % 16) as u8),
{
    assert(0 <= b as int / 16 < 16 && 0 <= b as int % 16 < 16);
}

/// Whether a character may occur in a percent-encoded text.
pub open spec fn is_encoded_char(c: char) -> bool {
    ||| '0' <= c <= '9' || 'A' <= c <= 'Z' || 'a' <= c <= 'z'
    ||| c == '-' || c == '.' || c == '_' || c == '~' || c == '%'
}

proof fn lemma_decodes(bytes: Seq<u8>, keeps: spec_fn(u8) -> bool)
    requires
        forall|b: u8| keeps(b) ==> is_unreserved(b),
    ensures
        http::percent_decoded(encode_utf8(percent_encoded(bytes, keeps))) == Some(bytes),
    decreases bytes.len(),
{
    let all = percent_encoded(bytes, keeps);
    lemma_encoded_chars(bytes, keeps);
    assert(is_ascii_chars(all));
    is_ascii_chars_encode_utf8(all);
    let enc = encode_utf8(all);
    if bytes.len() > 0 {
        let b = bytes[0];
        let rest = percent_encoded(bytes.skip(1), keeps);
        lemma_encoded_chars(bytes.skip(1), keeps);
        assert(is_ascii_chars(rest));
        is_ascii_chars_encode_utf8(rest);
        lemma_decodes(bytes.skip(1), keeps);
        lemma_byte_chars(b);
        let n = all.len() - rest.len();
        assert(enc.skip(n) =~= encode_utf8(rest)) by {
            assert forall|j: int| 0 <= j < rest.len() implies enc.skip(n)[j] == encode_utf8(rest)[j] by {
                assert(all[j + n] == rest[j]);
                assert(enc[j + n] == all[j + n] as u8);
            }
        }
        if keeps(b) {
            assert(all[0] == b as char);
            assert(enc[0] == all[0] as u8);
            assert(enc[0] == b);
            assert(is_unreserved(b));
            assert(enc[0] != 0x25);
        } else {
            assert(all[0] == '%' && all[1] == hex_char(b as int / 16) && all[2] == hex_char(b as int % 16));
            assert(enc[0] == all[0] as u8 && enc[1] == all[1] as u8 && enc[2] == all[2] as u8);
            assert(enc[0] == 0x25);
            assert(http::hex_pair(enc[1], enc[2]) == Some(b));
        }
        assert(seq![b] + bytes.skip(1) =~= bytes);
    } else {
        assert(enc =~= Seq::<u8>::empty());
        assert(bytes =~= Seq::<u8>::empty());
    }
}

/// An extended name is read back from its encoding, whichever of its bytes were left as they are.
pub proof fn law_extended_name_is_decoded(name: Seq<char>, keeps: spec_fn(u8) -> bool)
    requires
        forall|b: u8| keeps(b) ==> is_unreserved(b),
    ensures
        http::extended("UTF-8''"@ + percent_encoded(encode_utf8(name), keeps)) == Some(name),
{
    let encoded = percent_encoded(encode_utf8(name), keeps);
    lemma_encoded_chars(encode_utf8(name), keeps);
    lemma_decodes(encode_utf8(name), keeps);
    encode_utf8_valid_utf8(name);
    encode_utf8_decode_utf8(name);
    reveal_strlit("UTF-8''");
    reveal_strlit("''");
    let raw = "UTF-8''"@ + encoded;
    let charset = "UTF-8''"@.take(5);
    assert(raw =~= charset + "''"@ + encoded);
    assert forall|i: int| charset.len() < i <= (charset + "''"@ + encoded).len() implies !#[trigger] text::occurs_at(
        charset + "''"@ + encoded,
        "''"@,
        i,
    ) by {
        let s = charset + "''"@ + encoded;
        if text::occurs_at(s, "''"@, i) {
            assert(s.subrange(i, i + 2)[1] == '\'');
            assert(s[i + 1] == encoded[i + 1 - 7]);
            assert(is_encoded_char(encoded[i - 6]));
        }
    }
    laws::law_after_last_str_is_behind_it(charset, "''"@, encoded);
}

/// An extended name is preferred to a plain one.
pub proof fn law_extended_name_is_preferred(
    name: Seq<char>,
    plain: Seq<char>,
    keeps: spec_fn(u8) -> bool,
    platform: Platform,
)
    requires
        is_plain_name(name, platform),
        forall|b: u8| keeps(b) ==> is_unreserved(b),
        laws::free_of(plain, ';'),
        laws::free_of(plain, '"'),
    ensures
        http::suggested(
            "attachment; filename=\""@ + plain + "\"; filename*=UTF-8''"@ + percent_encoded(
                encode_utf8(name),
                keeps,
            ),
            platform,
        ) == Some(name),
        http::suggested(
            "attachment; filename*=UTF-8''"@ + percent_encoded(encode_utf8(name), keeps),
            platform,
        ) == Some(name),
{
    let encoded = percent_encoded(encode_utf8(name), keeps);
    let raw = "UTF-8''"@ + encoded;
    law_extended_name_is_decoded(name, keeps);
    lemma_encoded_chars(encode_utf8(name), keeps);
    lemma_plain_name(name, platform);
    reveal_strlit("attachment; filename=\"");
    reveal_strlit("\"; filename*=UTF-8''");
    reveal_strlit("attachment; filename*=UTF-8''");
    reveal_strlit("UTF-8''");
    reveal_strlit("attachment");
    reveal_strlit("filename=");
    reveal_strlit("filename*=");
    let head = "attachment"@;
    let field = "filename*="@ + raw;
    let tail = seq![' '] + field;
    let first = seq![' '] + ("filename="@ + (seq!['"'] + plain + seq!['"']));
    assert forall|j: int| 0 <= j < tail.len() implies (#[trigger] tail[j]) != ';' by {
        if j >= 18 {
            assert(tail[j] == encoded[j - 18]);
            assert(is_encoded_char(encoded[j - 18]));
        }
    }
    assert forall|j: int| 0 <= j < first.len() implies (#[trigger] first[j]) != ';' by {
        if 11 <= j < 11 + plain.len() {
            assert(first[j] == plain[j - 11]);
        }
    }
    assert(laws::free_of(head, ';'));
    let one = "attachment; filename*=UTF-8''"@ + encoded;
    assert(one =~= head + seq![';'] + tail);
    laws::law_split_takes_off_a_piece(head, ';', tail);
    laws::law_split_takes_off_a_piece(tail, ';', Seq::empty());
    let both = "attachment; filename=\""@ + plain + "\"; filename*=UTF-8''"@ + encoded;
    let rest = first + seq![';'] + tail;
    assert(both =~= head + seq![';'] + rest);
    laws::law_split_takes_off_a_piece(head, ';', rest);
    laws::law_split_takes_off_a_piece(first, ';', tail);
    let parts = text::split(one, ';');
    let more = text::split(both, ';');
    assert(parts =~= seq![head, tail]);
    assert(more =~= seq![head, first, tail]);
    lemma_field(raw, encoded);
    lemma_not_extended(plain);
    assert(parts.skip(1) =~= seq![tail]);
    assert(more.skip(1) =~= seq![first, tail]);
    assert(more.skip(1).skip(1) =~= seq![tail]);
    assert(!"filename*="@.is_prefix_of(head)) by {
        assert(head[0] != "filename*="@[0]);
    }
    assert(laws::tight(head));
    lemma_trimmed(head);
    reveal_with_fuel(http::first_extended, 4);
}

proof fn lemma_field(raw: Seq<char>, encoded: Seq<char>)
    requires
        raw == "UTF-8''"@ + encoded,
        forall|j: int| 0 <= j < encoded.len() ==> is_encoded_char(#[trigger] encoded[j]),
    ensures
        text::strip_prefix(text::trim(seq![' '] + ("filename*="@ + raw)), "filename*="@) == Some(raw),
{
    reveal_strlit("UTF-8''");
    reveal_strlit("filename*=");
    let field = "filename*="@ + raw;
    if encoded.len() > 0 {
        assert(field.last() == encoded.last());
        assert(is_encoded_char(encoded[encoded.len() - 1]));
    } else {
        assert(field.last() == '\'');
    }
    assert(laws::tight(field));
    laws::law_trim_takes_off_whitespace(seq![' '], field, Seq::empty());
    assert(seq![' '] + field + Seq::<char>::empty() =~= seq![' '] + field);
    laws::law_prefix_and_rest(raw, "filename*="@, raw);
}

proof fn lemma_not_extended(plain: Seq<char>)
    ensures
        text::strip_prefix(
            text::trim(seq![' '] + ("filename="@ + (seq!['"'] + plain + seq!['"']))),
            "filename*="@,
        ) is None,
{
    reveal_strlit("filename=");
    reveal_strlit("filename*=");
    let field = "filename="@ + (seq!['"'] + plain + seq!['"']);
    assert(field.last() == '"');
    assert(laws::tight(field));
    laws::law_trim_takes_off_whitespace(seq![' '], field, Seq::empty());
    assert(seq![' '] + field + Seq::<char>::empty() =~= seq![' '] + field);
    assert(field[8] == '=');
    if "filename*="@.is_prefix_of(field) {
        assert(field.subrange(0, 10)[8] == "filename*="@[8]);
    }
}

/// Hexadecimal digits are read in either letter case, and nothing else is one.
pub proof fn law_hex_digits_are_read(b: u8, d: u8)
    requires
        d < 16,
    ensures
        d < 10 ==> http::hex_value((0x30 + d) as u8) == Some(d),
        d >= 10 ==> http::hex_value((0x41 + d - 10) as u8) == Some(d) && http::hex_value(
            (0x61 + d - 10) as u8,
        ) == Some(d),
        !(0x30 <= b <= 0x39) && !(0x41 <= b <= 0x46) && !(0x61 <= b <= 0x66) ==> http::hex_value(b) is None,
{
}

/// A percent sign that two hexadecimal digits do not follow spoils a value, wherever it stands behind plain bytes.
pub proof fn law_broken_escape_spoils_the_value(plain: Seq<u8>, rest: Seq<u8>)
    requires
        forall|j: int| 0 <= j < plain.len() ==> (#[trigger] plain[j]) != 0x25,
        rest.len() < 2 || http::hex_value(rest[0]) is None || http::hex_value(rest[1]) is None,
    ensures
        http::percent_decoded(plain + seq![0x25u8] + rest) is None,
        http::percent_decoded(plain) == Some(plain),
    decreases plain.len(),
{
    let s = plain + seq![0x25u8] + rest;
    if plain.len() > 0 {
        assert(s[0] == plain[0]);
        assert(s.skip(1) =~= plain.skip(1) + seq![0x25u8] + rest);
        law_broken_escape_spoils_the_value(plain.skip(1), rest);
        assert(seq![plain[0]] + plain.skip(1) =~= plain);
    } else {
        assert(s[0] == 0x25);
        if rest.len() >= 2 {
            assert(s[1] == rest[0] && s[2] == rest[1]);
        }
        assert(plain =~= Seq::<u8>::empty());
    }
}

/// A content range without the unit `bytes` before it, or without a number, has no start.
pub proof fn law_content_range_needs_its_unit(value: Seq<char>, junk: Seq<char>, i: int)
    requires
        !"bytes "@.is_prefix_of(value),
        laws::free_of(junk, '/'),
        laws::free_of(junk, '-'),
        laws::tight(junk),
        0 <= i < junk.len(),
        !text::is_digit(junk[i]),
        i > 0 || junk[i] != '+',
    ensures
        http::range_start(value) is None,
        http::range_start("bytes "@ + junk) is None,
        http::range_total(junk) is None,
{
    lemma_trimmed(junk);
    laws::law_only_digits_are_a_number(junk, i, u64::MAX as nat);
    lemma_whole_start(junk);
    assert(text::after_last(junk, '/') == junk) by {
        laws::law_split_takes_off_a_piece(junk, '/', Seq::empty());
    }
}

/// Text without a slash and a dash is taken for a start as a whole.
proof fn lemma_whole_start(junk: Seq<char>)
    requires
        laws::free_of(junk, '/'),
        laws::free_of(junk, '-'),
    ensures
        http::range_start("bytes "@ + junk) == text::parse_uint(text::trim(junk), u64::MAX as nat),
{
    assert(text::strip_prefix("bytes "@ + junk, "bytes "@) == Some(junk)) by {
        laws::law_prefix_and_rest(junk, "bytes "@, junk);
    }
    assert(text::before(junk, '/') == junk) by {
        laws::law_split_once_cuts_at_the_first(junk, '/', Seq::empty());
    }
    assert(text::before(junk, '-') == junk) by {
        laws::law_split_once_cuts_at_the_first(junk, '-', Seq::empty());
    }
}

/// A failed request is told of with what was asked and what was answered.
pub proof fn law_refusal_tells_the_status(request: Seq<char>, status: Seq<char>)
    ensures
        request.is_prefix_of(http::refused(request, status)),
        (" returned HTTP "@ + status).is_suffix_of(http::refused(request, status)),
{
    let s = http::refused(request, status);
    let end = " returned HTTP "@ + status;
    assert(s.subrange(0, request.len() as int) =~= request);
    assert(s.subrange(s.len() - end.len(), s.len() as int) =~= end);
}

/// A range is taken from an answer that is it, and any other answer is an error that names the range; the whole is
/// taken from any answer of success.
pub proof fn law_answer_is_taken_or_refused(
    range: ByteRange,
    status: u16,
    first: u64,
    last: u64,
    total: u64,
    r: Result<(), Error>,
)
    ensures
        http::fetched(
            Some(range),
            status,
            Some(content_range(first as nat, last as nat, total as nat)),
            r,
        ) ==> (if status == 206 && first == range.start {
            r is Ok
        } else {
            r == Err::<(), Error>(Error::RangeNotHonored { requested: range })
        }),
        http::fetched(Some(range), status, None, r) ==> r == Err::<(), Error>(
            Error::RangeNotHonored { requested: range },
        ),
        http::fetched(None, status, None, r) ==> (r is Ok <==> 200 <= status < 300),
{
    law_only_the_asked_range_is_believed(range, status, first, last, total);
}

/// Whether a part of a disposition is no filename, plain or extended.
pub open spec fn is_other(part: Seq<char>) -> bool {
    !"filename="@.is_prefix_of(text::trim(part)) && !"filename*="@.is_prefix_of(text::trim(part))
}

/// A quoted name is suggested whatever kind of disposition stands before it and whatever parameters stand behind it,
/// as long as none of these is a filename of its own.
pub proof fn law_quoted_name_is_found_among_parameters(
    kind: Seq<char>,
    name: Seq<char>,
    behind: Seq<char>,
    platform: Platform,
)
    requires
        is_plain_name(name, platform),
        laws::free_of(name, '"'),
        laws::free_of(name, ';'),
        laws::free_of(kind, ';'),
        is_other(kind),
        http::first_extended(text::split(behind, ';')) is None,
    ensures
        http::suggested(kind + seq![';'] + " filename=\""@ + name + seq!['"', ';'] + behind, platform) == Some(
            name,
        ),
        http::suggested(kind + seq![';'] + " filename=\""@ + name + seq!['"'], platform) == Some(name),
{
    reveal_strlit(" filename=\"");
    reveal_strlit("filename=");
    let quoted = seq!['"'] + name + seq!['"'];
    let field = seq![' '] + ("filename="@ + quoted);
    assert(" filename=\""@ + name + seq!['"'] =~= field);
    assert forall|j: int| 0 <= j < field.len() implies (#[trigger] field[j]) != ';' by {
        if 11 <= j < 11 + name.len() {
            assert(field[j] == name[j - 11]);
        }
    }
    let whole = kind + seq![';'] + (field + seq![';'] + behind);
    let short = kind + seq![';'] + field;
    assert(kind + seq![';'] + " filename=\""@ + name + seq!['"', ';'] + behind =~= whole);
    assert(kind + seq![';'] + " filename=\""@ + name + seq!['"'] =~= short);
    laws::law_split_takes_off_a_piece(kind, ';', field + seq![';'] + behind);
    laws::law_split_takes_off_a_piece(field, ';', behind);
    laws::law_split_takes_off_a_piece(kind, ';', field);
    let more = text::split(behind, ';');
    lemma_quoted_among(kind, name, more);
    lemma_quoted_among(kind, name, Seq::empty());
    assert(text::split(whole, ';') =~= seq![kind, field] + more);
    assert(text::split(short, ';') =~= seq![kind, field] + Seq::<Seq<char>>::empty());
    lemma_plain_name(name, platform);
}

proof fn lemma_quoted_among(kind: Seq<char>, name: Seq<char>, more: Seq<Seq<char>>)
    requires
        name.len() > 0,
        laws::free_of(name, '"'),
        is_other(kind),
        http::first_extended(more) is None,
    ensures
        ({
            let field = seq![' '] + ("filename="@ + (seq!['"'] + name + seq!['"']));
            let parts = seq![kind, field] + more;
            http::first_extended(parts) is None && http::first_plain(parts) == Some(name)
        }),
{
    let quoted = seq!['"'] + name + seq!['"'];
    let field = seq![' '] + ("filename="@ + quoted);
    let parts = seq![kind, field] + more;
    lemma_not_extended(name);
    reveal_strlit("filename=");
    let bare = "filename="@ + quoted;
    assert(bare.last() == '"');
    assert(laws::tight(bare));
    laws::law_trim_takes_off_whitespace(seq![' '], bare, Seq::empty());
    assert(seq![' '] + bare + Seq::<char>::empty() =~= field);
    laws::law_prefix_and_rest(quoted, "filename="@, quoted);
    lemma_trimmed(quoted);
    lemma_unquoted(name);
    assert(parts[0] == kind && parts[1] == field);
    assert(parts.skip(1) =~= seq![field] + more);
    assert(parts.skip(1)[0] == field);
    assert(parts.skip(1).skip(1) =~= more);
    reveal_with_fuel(http::first_extended, 3);
    reveal_with_fuel(http::first_plain, 3);
}

} // verus!
