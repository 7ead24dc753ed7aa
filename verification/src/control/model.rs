//! What a `.xget` file says: the meaning of its footer and of its trailer.

use crate::checksum;
use crate::checksum::Checksum;
use crate::range::ByteRange;
use crate::text::model as text;
use vstd::bytes::*;
use crate::text::laws;
use vstd::prelude::*;
use vstd::utf8::*;

verus! {

/// The size of the footer.
pub open spec fn footer_size() -> nat {
    32
}

/// The bytes `XGETCTL1`, which mark a control footer.
pub open spec fn magic() -> Seq<u8> {
    seq![0x58u8, 0x47u8, 0x45u8, 0x54u8, 0x43u8, 0x54u8, 0x4cu8, 0x31u8]
}

/// The footer for a trailer of `trailer` bytes past a data region of `total` bytes: the magic, the total,
/// the trailer length, and eight reserved zero bytes.
pub open spec fn footer(total: u64, trailer: u64) -> Seq<u8> {
    magic() + spec_u64_to_le_bytes(total) + spec_u64_to_le_bytes(trailer) + seq![0u8; 8]
}

/// The total and the trailer length that a footer states, if it is a control footer and they add up to the
/// size of the file.
pub open spec fn layout(foot: Seq<u8>, size: nat) -> Option<(u64, u64)> {
    let total = spec_u64_from_le_bytes(foot.subrange(8, 16));
    let trailer = spec_u64_from_le_bytes(foot.subrange(16, 24));
    if foot.take(8) == magic() && total + trailer + footer_size() == size {
        Some((total, trailer))
    } else {
        None
    }
}

/// What a control records.
#[verifier::ext_equal]
pub struct Record {
    /// The resource's total length.
    pub total: u64,
    /// The resource validator.
    pub validator: Option<Seq<char>>,
    /// The source's URL.
    pub source: Option<Seq<char>>,
    /// The checksum algorithm.
    pub checksum: Option<Checksum>,
    /// The byte ranges recorded as written.
    pub done: Seq<ByteRange>,
}

/// A record of nothing but the total.
pub open spec fn blank(total: u64) -> Record {
    Record { total, validator: None, source: None, checksum: None, done: Seq::empty() }
}

/// The range that a line records, if it does: `done`, a start and an end.
pub open spec fn done_range(line: Seq<char>) -> Option<ByteRange> {
    let w = text::words(line);
    if w.len() >= 3 && w[0] == "done"@ {
        match (text::parse_uint(w[1], u64::MAX as nat), text::parse_uint(w[2], u64::MAX as nat)) {
            (Some(start), Some(end)) => Some(ByteRange { start: start as u64, end: end as u64 }),
            _ => None,
        }
    } else {
        None
    }
}

/// What one more line of the trailer adds to a record. A line of no known form adds nothing.
pub open spec fn with_line(record: Record, line: Seq<char>) -> Record {
    if let Some(value) = text::strip_prefix(line, "url "@) {
        Record { source: Some(value), ..record }
    } else if let Some(value) = text::strip_prefix(line, "tag "@) {
        Record { validator: Some(value), ..record }
    } else if let Some(value) = text::strip_prefix(line, "algo "@) {
        Record { checksum: checksum::named(value), ..record }
    } else if let Some(range) = done_range(line) {
        Record { done: record.done.push(range), ..record }
    } else {
        record
    }
}

/// What lines of the trailer add to a record.
pub open spec fn with_lines(record: Record, lines: Seq<Seq<char>>) -> Record
    decreases lines.len(),
{
    if lines.len() == 0 {
        record
    } else {
        with_line(with_lines(record, lines.drop_last()), lines.last())
    }
}

/// What a trailer says, if it is text.
pub open spec fn parsed(total: u64, trailer: Seq<u8>) -> Option<Record> {
    if valid_utf8(trailer) {
        Some(with_lines(blank(total), text::lines(decode_utf8(trailer))))
    } else {
        None
    }
}

/// What a file says as a control: nothing where it is too short, or its footer is not a control footer that
/// adds up.
pub open spec fn control_of(image: Seq<u8>) -> Option<Record> {
    let size = image.len();
    if size < footer_size() {
        None
    } else {
        match layout(image.skip(size - footer_size()), size) {
            Some((total, trailer)) => parsed(total, image.subrange(total as int, total + trailer)),
            None => None,
        }
    }
}

/// A line of a trailer that a name and a value make.
pub open spec fn line(name: Seq<char>, value: Seq<char>) -> Seq<char> {
    (name + value).push('\n')
}

/// A line for a value, if there is one.
pub open spec fn optional_line(name: Seq<char>, value: Option<Seq<char>>) -> Seq<char> {
    match value {
        Some(value) => line(name, value),
        None => Seq::empty(),
    }
}

/// The trailer of a fresh control.
pub open spec fn opening(
    validator: Option<Seq<char>>,
    source: Option<Seq<char>>,
    algorithm: Checksum,
) -> Seq<char> {
    optional_line("url "@, source) + optional_line("tag "@, validator) + line(
        "algo "@,
        checksum::name_of(algorithm),
    )
}

/// The line that records a range.
pub open spec fn done_line(range: ByteRange) -> Seq<char> {
    line(
        "done "@,
        text::decimal(range.start as nat) + seq![' '] + text::decimal(range.end as nat),
    )
}

/// Whether a value survives being written on a line: it holds no line feed and does not end in a carriage
/// return.
pub open spec fn fits_line(value: Seq<char>) -> bool {
    &&& forall|j: int| 0 <= j < value.len() ==> #[trigger] value[j] != '\n'
    &&& value.len() > 0 ==> value.last() != '\r'
}

/// Whether an optional value survives being written on a line.
pub open spec fn optional_fits(value: Option<Seq<char>>) -> bool {
    value matches Some(value) ==> fits_line(value)
}

/// The footer of a file says what it was made with.
pub proof fn lemma_layout(total: u64, trailer: u64)
    ensures
        footer(total, trailer).len() == footer_size(),
        layout(footer(total, trailer), (total + trailer + footer_size()) as nat) == Some(
            (total, trailer),
        ),
{
    lemma_auto_spec_u64_to_from_le_bytes();
    let f = footer(total, trailer);
    assert(f.take(8) =~= magic());
    assert(f.subrange(8, 16) =~= spec_u64_to_le_bytes(total));
    assert(f.subrange(16, 24) =~= spec_u64_to_le_bytes(trailer));
}

/// Lines add to a record one after another.
pub proof fn lemma_with_lines_concat(record: Record, a: Seq<Seq<char>>, b: Seq<Seq<char>>)
    ensures
        with_lines(record, a + b) == with_lines(with_lines(record, a), b),
    decreases b.len(),
{
    if b.len() == 0 {
        assert(a + b =~= a);
    } else {
        lemma_with_lines_concat(record, a, b.drop_last());
        assert((a + b).drop_last() =~= a + b.drop_last());
        assert((a + b).last() == b.last());
    }
}

/// Text that ends its last line adds to a record what its own lines add.
pub proof fn lemma_with_text(record: Record, a: Seq<char>, b: Seq<char>)
    requires
        a.len() == 0 || a.last() == '\n',
    ensures
        with_lines(record, text::lines(a + b)) == with_lines(
            with_lines(record, text::lines(a)),
            text::lines(b),
        ),
{
    text::lemma_lines_concat(a, b);
    lemma_with_lines_concat(record, text::lines(a), text::lines(b));
}

/// A line with a value that fits is read back whole.
pub proof fn lemma_line(record: Record, name: Seq<char>, value: Seq<char>)
    requires
        fits_line(name + value),
    ensures
        with_lines(record, text::lines(line(name, value))) == with_line(record, name + value),
{
    let s = name + value;
    text::lemma_one_line(s);
    let ls = text::lines(line(name, value));
    assert(ls =~= seq![s]);
    assert(ls.drop_last() =~= Seq::<Seq<char>>::empty());
    assert(with_lines(record, ls.drop_last()) == record);
}

/// A value after a name that ends in a space fits on the line where it fits by itself.
proof fn lemma_fits(name: Seq<char>, value: Seq<char>)
    requires
        fits_line(name),
        fits_line(value),
    ensures
        fits_line(name + value),
        text::strip_prefix(name + value, name) == Some(value),
{
    let s = name + value;
    assert forall|j: int| 0 <= j < s.len() implies #[trigger] s[j] != '\n' by {
        if j < name.len() {
            assert(s[j] == name[j]);
        } else {
            assert(s[j] == value[j - name.len()]);
        }
    }
    if value.len() > 0 {
        assert(s.last() == value.last());
    } else {
        assert(s =~= name);
    }
    assert(s.skip(name.len() as int) =~= value);
    assert(s.subrange(0, name.len() as int) =~= name);
    assert(name.is_prefix_of(s));
}

proof fn lemma_not_prefix(s: Seq<char>, name: Seq<char>, i: int)
    requires
        0 <= i < name.len(),
        i < s.len(),
        s[i] != name[i],
    ensures
        text::strip_prefix(s, name) is None,
{
    if name.is_prefix_of(s) {
        assert(s.subrange(0, name.len() as int)[i] == name[i]);
    }
}

/// What a fresh trailer says is what it was made with.
pub proof fn lemma_opening(
    total: u64,
    validator: Option<Seq<char>>,
    source: Option<Seq<char>>,
    algorithm: Checksum,
)
    requires
        optional_fits(validator),
        optional_fits(source),
    ensures
        with_lines(blank(total), text::lines(opening(validator, source, algorithm))) == (Record {
            total,
            validator,
            source,
            checksum: Some(algorithm),
            done: Seq::empty(),
        }),
        opening(validator, source, algorithm).last() == '\n',
        opening(validator, source, algorithm).len() > 0,
{
    reveal_strlit("url ");
    reveal_strlit("tag ");
    reveal_strlit("algo ");
    let none = blank(total);
    let url = optional_line("url "@, source);
    let tag = optional_line("tag "@, validator);
    let algo = line("algo "@, checksum::name_of(algorithm));
    let r1 = Record { source, ..none };
    let r2 = Record { validator, ..r1 };
    assert(with_lines(none, text::lines(url)) == r1) by {
        match source {
            Some(value) => {
                lemma_fits("url "@, value);
                lemma_line(none, "url "@, value);
            },
            None => {
                assert(text::lines(url) =~= Seq::<Seq<char>>::empty());
                assert(r1 =~= none);
            },
        }
    }
    assert(with_lines(r1, text::lines(tag)) == r2) by {
        match validator {
            Some(value) => {
                lemma_fits("tag "@, value);
                lemma_line(r1, "tag "@, value);
                assert(("tag "@ + value)[0] == 't');
                lemma_not_prefix("tag "@ + value, "url "@, 0);
            },
            None => {
                assert(text::lines(tag) =~= Seq::<Seq<char>>::empty());
                assert(r2 =~= r1);
            },
        }
    }
    let name = checksum::name_of(algorithm);
    assert(fits_line(name)) by {
        reveal_strlit("none");
        reveal_strlit("md5");
        reveal_strlit("sha1");
        reveal_strlit("sha256");
        reveal_strlit("sha512");
        reveal_strlit("blake3");
    }
    lemma_fits("algo "@, name);
    lemma_line(r2, "algo "@, name);
    assert(("algo "@ + name)[0] == 'a');
    lemma_not_prefix("algo "@ + name, "url "@, 0);
    lemma_not_prefix("algo "@ + name, "tag "@, 0);
    checksum::lemma_name_lower(algorithm);
    checksum::law_name_is_read_back(algorithm, name);
    lemma_with_text(none, url, tag);
    if tag.len() > 0 {
        assert((url + tag).last() == tag.last());
    } else {
        assert(url + tag =~= url);
    }
    lemma_with_text(none, url + tag, algo);
    assert(opening(validator, source, algorithm).last() == algo.last());
}

/// A recorded range is read back.
pub proof fn lemma_done_line(record: Record, range: ByteRange)
    ensures
        with_lines(record, text::lines(done_line(range))) == (Record {
            done: record.done.push(range),
            ..record
        }),
        done_line(range).len() > 0,
        done_line(range).last() == '\n',
{
    reveal_strlit("url ");
    reveal_strlit("tag ");
    reveal_strlit("algo ");
    reveal_strlit("done ");
    reveal_strlit("done");
    let a = text::decimal(range.start as nat);
    let b = text::decimal(range.end as nat);
    let value = a + seq![' '] + b;
    text::lemma_decimal(range.start as nat);
    text::lemma_decimal(range.end as nat);
    assert forall|j: int| 0 <= j < a.len() implies !text::is_whitespace(#[trigger] a[j]) by {
        assert(text::is_digit(a[j]));
    }
    assert forall|j: int| 0 <= j < b.len() implies !text::is_whitespace(#[trigger] b[j]) by {
        assert(text::is_digit(b[j]));
    }
    assert(fits_line(value)) by {
        assert forall|j: int| 0 <= j < value.len() implies #[trigger] value[j] != '\n' by {
            if j < a.len() {
                assert(value[j] == a[j]);
                assert(text::is_digit(a[j]));
            } else if j > a.len() {
                assert(value[j] == b[j - a.len() - 1]);
                assert(text::is_digit(b[j - a.len() - 1]));
            }
        }
        assert(value.last() == b.last());
        assert(text::is_digit(b[b.len() - 1]));
    }
    lemma_fits("done "@, value);
    lemma_line(record, "done "@, value);
    let s = "done "@ + value;
    assert(s[0] == 'd');
    lemma_not_prefix(s, "url "@, 0);
    lemma_not_prefix(s, "tag "@, 0);
    lemma_not_prefix(s, "algo "@, 0);
    let tail = seq![' '] + b;
    assert(s =~= "done"@ + (seq![' '] + (a + tail)));
    text::lemma_first_word("done"@, seq![' '] + (a + tail));
    text::lemma_words_after_space(a + tail);
    text::lemma_first_word(a, tail);
    text::lemma_words_after_space(b);
    assert(b + Seq::<char>::empty() =~= b);
    text::lemma_first_word(b, Seq::empty());
    assert(text::words(Seq::<char>::empty()) =~= Seq::<Seq<char>>::empty());
    assert(text::words(s) =~= seq!["done"@, a, b]);
    text::lemma_parse_decimal(range.start as nat, u64::MAX as nat);
    text::lemma_parse_decimal(range.end as nat, u64::MAX as nat);
}

/// The line that records a range is at most 47 bytes long.
pub proof fn lemma_done_line_len(range: ByteRange)
    ensures
        encode_utf8(done_line(range)).len() == done_line(range).len(),
        done_line(range).len() <= 47,
{
    reveal_strlit("done ");
    text::lemma_decimal(range.start as nat);
    text::lemma_decimal(range.end as nat);
    lemma_decimal_len(range.start as nat, 20);
    lemma_decimal_len(range.end as nat, 20);
    let s = done_line(range);
    let a = text::decimal(range.start as nat);
    let b = text::decimal(range.end as nat);
    assert forall|j: int| 0 <= j < s.len() implies 0 <= (#[trigger] s[j] as nat) <= 0x7f by {
        let value = a + seq![' '] + b;
        if 5 <= j < 5 + a.len() {
            assert(s[j] == a[j - 5]);
            assert(text::is_digit(a[j - 5]));
        } else if 5 + a.len() < j < s.len() - 1 {
            assert(s[j] == b[j - a.len() - 6]);
            assert(text::is_digit(b[j - a.len() - 6]));
        }
    }
    assert(is_ascii_chars(s));
    is_ascii_chars_encode_utf8(s);
}

/// Ten to the power of `k`.
pub open spec fn ten_to(k: nat) -> nat
    decreases k,
{
    if k == 0 {
        1
    } else {
        10 * ten_to((k - 1) as nat)
    }
}

/// A number below ten to the power of `k` is written in at most `k` digits.
proof fn lemma_decimal_below(n: nat, k: nat)
    requires
        k > 0,
        n < ten_to(k),
    ensures
        text::decimal(n).len() <= k,
    decreases n,
{
    if n >= 10 {
        assert(ten_to(k) == 10 * ten_to((k - 1) as nat));
        if k == 1 {
            assert(ten_to(0) == 1);
        }
        lemma_decimal_below(n / 10, (k - 1) as nat);
    }
}

proof fn lemma_decimal_len(n: nat, k: nat)
    requires
        n <= u64::MAX,
        k == 20,
    ensures
        text::decimal(n).len() <= 20,
{
    reveal_with_fuel(ten_to, 21);
    lemma_decimal_below(n, 20);
}

/// A control file ends in 32 bytes: the letters `XGETCTL1`, the length of the data and the length of the trailer
/// in eight bytes each, the lowest first, and eight zeros.
pub proof fn law_footer_layout(total: u64, trailer: u64)
    ensures
        footer(total, trailer).len() == 32,
        footer(total, trailer).take(8) == encode_utf8("XGETCTL1"@),
        spec_u64_from_le_bytes(footer(total, trailer).subrange(8, 16)) == total,
        spec_u64_from_le_bytes(footer(total, trailer).subrange(16, 24)) == trailer,
        footer(total, trailer).skip(24) == seq![0u8; 8],
        layout(footer(total, trailer), (total + trailer + 32) as nat) == Some((total, trailer)),
{
    reveal_strlit("XGETCTL1");
    let magic_text = "XGETCTL1"@;
    assert(is_ascii_chars(magic_text));
    is_ascii_chars_encode_utf8(magic_text);
    assert(encode_utf8(magic_text) =~= magic());
    lemma_layout(total, trailer);
    lemma_auto_spec_u64_to_from_le_bytes();
    let f = footer(total, trailer);
    assert(f.take(8) =~= magic());
    assert(f.subrange(8, 16) =~= spec_u64_to_le_bytes(total));
    assert(f.subrange(16, 24) =~= spec_u64_to_le_bytes(trailer));
    assert(f.skip(24) =~= seq![0u8; 8]);
}

/// A file is a control file only where its last bytes say so and its lengths add up.
pub proof fn law_other_files_are_no_control(image: Seq<u8>)
    requires
        ({
            let foot = image.skip(image.len() - 32);
            image.len() < 32 || foot.take(8) != encode_utf8("XGETCTL1"@) || spec_u64_from_le_bytes(
                foot.subrange(8, 16),
            ) + spec_u64_from_le_bytes(foot.subrange(16, 24)) + 32 != image.len()
        }),
    ensures
        control_of(image) is None,
{
    law_footer_layout(0, 0);
    assert(footer(0, 0).take(8) =~= magic());
}

/// A range is recorded in a line of its own: `done`, its start and its end.
pub proof fn law_done_line_form(range: ByteRange)
    ensures
        done_line(range) == "done "@ + text::decimal(range.start as nat) + seq![' '] + text::decimal(
            range.end as nat,
        ) + seq!['\n'],
        done_range(done_line(range).drop_last()) == Some(range),
{
    assert(done_line(range) =~= "done "@ + text::decimal(range.start as nat) + seq![' '] + text::decimal(
        range.end as nat,
    ) + seq!['\n']);
    let a = text::decimal(range.start as nat);
    let b = text::decimal(range.end as nat);
    laws::law_decimal_reads_back(range.start as nat, u64::MAX as nat);
    laws::law_decimal_reads_back(range.end as nat, u64::MAX as nat);
    assert(laws::solid(a) && laws::solid(b)) by {
        assert forall|j: int| 0 <= j < a.len() implies !text::is_whitespace(#[trigger] a[j]) by {
            assert(text::is_digit(a[j]));
        }
        assert forall|j: int| 0 <= j < b.len() implies !text::is_whitespace(#[trigger] b[j]) by {
            assert(text::is_digit(b[j]));
        }
    }
    reveal_strlit("done ");
    reveal_strlit("done");
    let line = done_line(range).drop_last();
    let none = Seq::<char>::empty();
    let space = seq![' '];
    assert(line =~= none + "done"@ + space + (a + space + b));
    laws::law_words_are_what_whitespace_separates(none, "done"@, space, a + space + b);
    assert(a + space + b =~= none + a + space + b);
    laws::law_words_are_what_whitespace_separates(none, a, space, b);
    assert(b =~= none + b + none + none);
    laws::law_words_are_what_whitespace_separates(none, b, none, none);
    assert(text::words(line) =~= seq!["done"@, a, b]);
}

/// A fresh trailer says where the resource came from, which version it is, and how it is verified, in a line each.
pub proof fn law_opening_form(validator: Seq<char>, source: Seq<char>, algorithm: Checksum)
    ensures
        opening(Some(validator), Some(source), algorithm) == "url "@ + source + seq!['\n'] + "tag "@ + validator
            + seq!['\n'] + "algo "@ + checksum::name_of(algorithm) + seq!['\n'],
        opening(None, None, algorithm) == "algo "@ + checksum::name_of(algorithm) + seq!['\n'],
{
    assert(opening(Some(validator), Some(source), algorithm) =~= "url "@ + source + seq!['\n'] + "tag "@
        + validator + seq!['\n'] + "algo "@ + checksum::name_of(algorithm) + seq!['\n']);
    assert(opening(None, None, algorithm) =~= "algo "@ + checksum::name_of(algorithm) + seq!['\n']);
}

/// A line of no known form is passed over, so that a control with more in it is still read.
pub proof fn law_unknown_lines_are_passed_over(record: Record, line: Seq<char>)
    requires
        !"url "@.is_prefix_of(line),
        !"tag "@.is_prefix_of(line),
        !"algo "@.is_prefix_of(line),
        text::words(line).len() == 0 || text::words(line)[0] != "done"@,
    ensures
        with_line(record, line) == record,
{
}

/// Each line says one thing: where the resource came from, which version it is, how it is verified, or a range that
/// is there, as it is written behind the line's name, spaces included.
pub proof fn law_lines_say_one_thing(record: Record, value: Seq<char>, range: ByteRange)
    ensures
        with_line(record, "url "@ + value) == (Record { source: Some(value), ..record }),
        with_line(record, "tag "@ + value) == (Record { validator: Some(value), ..record }),
        with_line(record, "algo "@ + value) == (Record { checksum: checksum::named(value), ..record }),
        with_line(record, done_line(range).drop_last()) == (Record {
            done: record.done.push(range),
            ..record
        }),
{
    laws::law_prefix_and_rest(value, "url "@, value);
    laws::law_prefix_and_rest(value, "tag "@, value);
    laws::law_prefix_and_rest(value, "algo "@, value);
    law_done_line_form(range);
    reveal_strlit("url ");
    reveal_strlit("tag ");
    reveal_strlit("algo ");
    reveal_strlit("done ");
    let tag = "tag "@ + value;
    let algo = "algo "@ + value;
    let done = done_line(range).drop_last();
    assert(tag[0] == 't' && algo[0] == 'a' && done[0] == 'd');
    lemma_other_start(tag, "url "@);
    lemma_other_start(algo, "url "@);
    lemma_other_start(algo, "tag "@);
    lemma_other_start(done, "url "@);
    lemma_other_start(done, "tag "@);
    lemma_other_start(done, "algo "@);
}

proof fn lemma_other_start(s: Seq<char>, prefix: Seq<char>)
    requires
        s.len() > 0,
        prefix.len() > 0,
        s[0] != prefix[0],
    ensures
        !prefix.is_prefix_of(s),
{
    if prefix.is_prefix_of(s) {
        assert(s.subrange(0, prefix.len() as int)[0] == prefix[0]);
    }
}

} // verus!
