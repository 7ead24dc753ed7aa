//! One JSON event per update, for machine consumers.

use crate::checksum;
use crate::checksum::Checksum;
use crate::digest;
use crate::progress::meter::Count;
use crate::progress::meter::Meter;
use crate::text;
use vstd::prelude::*;
use vstd::string::*;

verus! {

/// How a character is written between the quotes of a JSON string: a quote and a backslash after a backslash,
/// a control character as an escape, anything else as it is.
pub open spec fn escape_of(c: char) -> Seq<char> {
    if c == '\\' || c == '"' {
        seq!['\\', c]
    } else if c == '\n' {
        seq!['\\', 'n']
    } else if c == '\r' {
        seq!['\\', 'r']
    } else if c == '\t' {
        seq!['\\', 't']
    } else if ' ' > c {
        seq![
            '\\',
            'u',
            '0',
            '0',
            digest::hex_digit(c as int / 16),
            digest::hex_digit(c as int % 16),
        ]
    } else {
        seq![c]
    }
}

/// A text as it is written between the quotes of a JSON string.
pub open spec fn escaped(s: Seq<char>) -> Seq<char>
    decreases s.len(),
{
    if s.len() == 0 {
        Seq::empty()
    } else {
        escape_of(s[0]) + escaped(s.skip(1))
    }
}

fn hex_char(d: u8) -> (c: char)
    requires
        d < 16,
    ensures
        c == digest::hex_digit(d as int),
{
    if d < 10 {
        (0x30u8 + d) as char
    } else {
        (0x57u8 + d) as char
    }
}

fn push_escaped(out: &mut String, c: char)
    ensures
        final(out)@ == old(out)@ + escape_of(c),
{
    let ghost before = out@;
    if c == '\\' || c == '"' {
        out.push('\\');
        out.push(c);
    } else if c == '\n' {
        out.push('\\');
        out.push('n');
    } else if c == '\r' {
        out.push('\\');
        out.push('r');
    } else if c == '\t' {
        out.push('\\');
        out.push('t');
    } else if ' ' > c {
        let code: u8 = c as u8;
        out.push('\\');
        out.push('u');
        out.push('0');
        out.push('0');
        out.push(hex_char(code / 16));
        out.push(hex_char(code % 16));
    } else {
        out.push(c);
    }
    assert(out@ =~= before + escape_of(c));
}

/// Escape a text so that a line that quotes it stays one line of valid JSON.
pub fn escape(s: &str) -> (out: String)
    ensures
        out@ == escaped(s@),
{
    let chars = text::chars_of(s);
    let mut out = String::new();
    let mut i: usize = 0;
    assert(chars@.skip(0) =~= chars@);
    assert(out@ + escaped(chars@) =~= escaped(chars@));
    while i < chars.len()
        invariant
            i <= chars.len(),
            out@ + escaped(chars@.skip(i as int)) == escaped(chars@),
        decreases chars.len() - i,
    {
        let ghost before = out@;
        let ghost rest = chars@.skip(i as int);
        push_escaped(&mut out, chars[i]);
        assert(rest.skip(1) =~= chars@.skip(i + 1));
        assert(before + (escape_of(rest[0]) + escaped(rest.skip(1))) =~= before + escape_of(rest[0])
            + escaped(rest.skip(1)));
        i += 1;
    }
    assert(out@ + escaped(chars@.skip(i as int)) =~= out@);
    out
}

/// A `progress` event.
pub open spec fn progress_text(count: Count, now: u64, percent: Seq<char>) -> Seq<char> {
    "{\"event\":\"progress\",\"done\":"@ + text::model::decimal(count.done as nat) + ",\"total\":"@
        + text::model::decimal(count.total as nat) + ",\"percent\":"@ + percent + ",\"speed\":"@
        + text::model::decimal(count.rate_at(now)) + ",\"eta\":"@ + text::model::decimal(
        count.eta_at(now),
    ) + "}"@
}

/// A `progress` event at `now`, with `percent` as it is to be shown. Byte counts are raw so a consumer can
/// format them itself.
pub fn progress_event(meter: &mut Meter, now: u64, percent: &str) -> (s: String)
    requires
        old(meter).wf(),
    ensures
        final(meter).wf(),
        final(meter)@ == (Count { head: old(meter)@.head_at(now), ..old(meter)@ }),
        s@ == progress_text(old(meter)@, now, percent@),
{
    let speed = meter.rate(now);
    let eta = meter.eta(now);
    let mut s = "{\"event\":\"progress\",\"done\":".to_owned();
    text::push_decimal(&mut s, meter.done());
    s.append(",\"total\":");
    text::push_decimal(&mut s, meter.total());
    s.append(",\"percent\":");
    s.append(percent);
    s.append(",\"speed\":");
    text::push_decimal(&mut s, speed);
    s.append(",\"eta\":");
    text::push_decimal(&mut s, eta);
    s.append("}");
    assert(s@ =~= progress_text(old(meter)@, now, percent@));
    s
}

/// A `retry` event.
pub open spec fn retry_text(index: usize, retry: u32, max: u32, resume_from: u64, error: Seq<char>) -> Seq<
    char,
> {
    "{\"event\":\"retry\",\"chunk\":"@ + text::model::decimal(index as nat) + ",\"retry\":"@
        + text::model::decimal(retry as nat) + ",\"max\":"@ + text::model::decimal(max as nat)
        + ",\"resume_from\":"@ + text::model::decimal(resume_from as nat) + ",\"error\":\""@ + escaped(
        error,
    ) + "\"}"@
}

/// A `retry` event on a dropped chunk.
pub fn retry_event(index: usize, retry: u32, max: u32, resume_from: u64, error: &str) -> (s: String)
    ensures
        s@ == retry_text(index, retry, max, resume_from, error@),
{
    let cause = escape(error);
    let mut s = "{\"event\":\"retry\",\"chunk\":".to_owned();
    text::push_decimal(&mut s, index as u64);
    s.append(",\"retry\":");
    text::push_decimal(&mut s, retry as u64);
    s.append(",\"max\":");
    text::push_decimal(&mut s, max as u64);
    s.append(",\"resume_from\":");
    text::push_decimal(&mut s, resume_from);
    s.append(",\"error\":\"");
    s.append(cause.as_str());
    s.append("\"}");
    assert(s@ =~= retry_text(index, retry, max, resume_from, error@));
    s
}

/// An `end` event.
pub open spec fn end_text(count: Count, now: u64) -> Seq<char> {
    "{\"event\":\"end\",\"done\":"@ + text::model::decimal(count.done as nat) + ",\"total\":"@
        + text::model::decimal(count.total as nat) + ",\"elapsed\":"@ + text::model::decimal(
        count.elapsed(now) as nat,
    ) + "}"@
}

/// The final `end` event.
pub fn end_event(meter: &Meter, now: u64) -> (s: String)
    ensures
        s@ == end_text(meter@, now),
{
    let mut s = "{\"event\":\"end\",\"done\":".to_owned();
    text::push_decimal(&mut s, meter.done());
    s.append(",\"total\":");
    text::push_decimal(&mut s, meter.total());
    s.append(",\"elapsed\":");
    text::push_decimal(&mut s, meter.elapsed_ms(now));
    s.append("}");
    assert(s@ =~= end_text(meter@, now));
    s
}

/// A `verified` event.
pub open spec fn verified_text(algo: Checksum, hash: Seq<char>) -> Seq<char> {
    "{\"event\":\"verified\",\"checksum\":\""@ + checksum::name_of(algo) + "\",\"hash\":\""@
        + escaped(hash) + "\"}"@
}

/// The `verified` event, with the checksum that a download was verified to have.
pub fn verified_event(algo: Checksum, hash: &str) -> (s: String)
    ensures
        s@ == verified_text(algo, hash@),
{
    let hash_text = escape(hash);
    let mut s = "{\"event\":\"verified\",\"checksum\":\"".to_owned();
    s.append(algo.name());
    s.append("\",\"hash\":\"");
    s.append(hash_text.as_str());
    s.append("\"}");
    assert(s@ =~= verified_text(algo, hash@));
    s
}

/// The value of a hexadecimal digit.
pub open spec fn hex_value(c: char) -> Option<int> {
    if '0' <= c && c <= '9' {
        Some(c as int - '0' as int)
    } else if 'a' <= c && c <= 'f' {
        Some(c as int - 'a' as int + 10)
    } else if 'A' <= c && c <= 'F' {
        Some(c as int - 'A' as int + 10)
    } else {
        None
    }
}

/// What an escape of one letter stands for.
pub open spec fn letter(c: char) -> Option<char> {
    if c == '"' || c == '\\' || c == '/' {
        Some(c)
    } else if c == 'b' {
        Some('\x08')
    } else if c == 'f' {
        Some('\x0c')
    } else if c == 'n' {
        Some('\n')
    } else if c == 'r' {
        Some('\r')
    } else if c == 't' {
        Some('\t')
    } else {
        None
    }
}

/// What four hexadecimal digits stand for. Half of a surrogate pair is no character.
pub open spec fn unit(a: char, b: char, c: char, d: char) -> Option<char> {
    match (hex_value(a), hex_value(b), hex_value(c), hex_value(d)) {
        (Some(a), Some(b), Some(c), Some(d)) => {
            let code = 4096 * a + 256 * b + 16 * c + d;
            if 0xd800 <= code < 0xe000 {
                None
            } else {
                Some(code as char)
            }
        },
        _ => None,
    }
}

/// The first character of a text between the quotes of a JSON string, and how many characters it is written
/// in. A bare quote ends the string and a bare control character is not allowed in it.
pub open spec fn first(s: Seq<char>) -> Option<(char, nat)> {
    if s.len() == 0 || s[0] == '"' || ' ' > s[0] {
        None
    } else if s[0] != '\\' {
        Some((s[0], 1))
    } else if s.len() >= 6 && s[1] == 'u' {
        match unit(s[2], s[3], s[4], s[5]) {
            Some(c) => Some((c, 6)),
            None => None,
        }
    } else if s.len() >= 2 {
        match letter(s[1]) {
            Some(c) => Some((c, 2)),
            None => None,
        }
    } else {
        None
    }
}

/// What a reader of JSON makes of a text between the quotes of a string, if it is one.
pub open spec fn unescaped(s: Seq<char>) -> Option<Seq<char>>
    decreases s.len(),
{
    if s.len() == 0 {
        Some(Seq::empty())
    } else {
        match first(s) {
            Some((c, n)) => match unescaped(s.skip(n as int)) {
                Some(rest) => Some(seq![c] + rest),
                None => None,
            },
            None => None,
        }
    }
}

/// An escaped character is read back as itself.
proof fn lemma_escape_of(c: char, rest: Seq<char>)
    ensures
        first(escape_of(c) + rest) == Some((c, escape_of(c).len())),
{
    let s = escape_of(c) + rest;
    if c == '\\' || c == '"' || c == '\n' || c == '\r' || c == '\t' {
        assert(s[0] == '\\');
        assert(s[1] != 'u');
    } else if ' ' > c {
        let code = c as int;
        let h = code / 16;
        let l = code % 16;
        assert(0 <= h < 2 && 0 <= l < 16 && code == 16 * h + l);
        assert(s[4] == digest::hex_digit(h) && s[5] == digest::hex_digit(l));
        assert(hex_value(digest::hex_digit(h)) == Some(h));
        assert(hex_value(digest::hex_digit(l)) == Some(l));
        assert(hex_value('0') == Some(0int));
    } else {
        assert(s[0] == c);
    }
}

/// What was escaped reads back as itself, with no bare quote to end it early and no bare control character.
pub proof fn law_escape_reads_back(s: Seq<char>)
    ensures
        unescaped(escaped(s)) == Some(s),
    decreases s.len(),
{
    if s.len() > 0 {
        let head = escape_of(s[0]);
        let rest = escaped(s.skip(1));
        lemma_escape_of(s[0], rest);
        law_escape_reads_back(s.skip(1));
        assert((head + rest).skip(head.len() as int) =~= rest);
        assert(seq![s[0]] + s.skip(1) =~= s);
    }
}

/// Whether a text is free of control characters, and so one line.
pub open spec fn is_line(s: Seq<char>) -> bool {
    forall|i: int| 0 <= i < s.len() ==> (#[trigger] s[i]) >= ' '
}

proof fn lemma_line_concat(a: Seq<char>, b: Seq<char>)
    requires
        is_line(a),
        is_line(b),
    ensures
        is_line(a + b),
{
}

proof fn lemma_escape_is_line(c: char)
    ensures
        is_line(escape_of(c)),
{
    let code = c as int;
    if ' ' > c {
        assert(0 <= code / 16 < 2 && 0 <= code % 16 < 16);
        assert(digest::hex_digit(code / 16) >= ' ' && digest::hex_digit(code % 16) >= ' ');
    }
}

proof fn lemma_escaped_is_line(s: Seq<char>)
    ensures
        is_line(escaped(s)),
    decreases s.len(),
{
    if s.len() > 0 {
        lemma_escaped_is_line(s.skip(1));
        lemma_escape_is_line(s[0]);
        lemma_line_concat(escape_of(s[0]), escaped(s.skip(1)));
    }
}

proof fn lemma_decimal_is_line(n: nat)
    ensures
        is_line(text::model::decimal(n)),
{
    text::model::lemma_decimal(n);
    let digits = text::model::decimal(n);
    assert forall|i: int| 0 <= i < digits.len() implies (#[trigger] digits[i]) >= ' ' by {
        assert(text::model::is_digit(digits[i]));
    }
}

/// A retry event is one line, whatever the cause holds.
pub proof fn law_retry_event_is_one_line(
    index: usize,
    retry: u32,
    max: u32,
    resume_from: u64,
    error: Seq<char>,
)
    ensures
        is_line(retry_text(index, retry, max, resume_from, error)),
{
    reveal_strlit("{\"event\":\"retry\",\"chunk\":");
    reveal_strlit(",\"retry\":");
    reveal_strlit(",\"max\":");
    reveal_strlit(",\"resume_from\":");
    reveal_strlit(",\"error\":\"");
    reveal_strlit("\"}");
    lemma_decimal_is_line(index as nat);
    lemma_decimal_is_line(retry as nat);
    lemma_decimal_is_line(max as nat);
    lemma_decimal_is_line(resume_from as nat);
    lemma_escaped_is_line(error);
}

/// A progress event is one line, as long as the percentage that is shown in it is.
pub proof fn law_progress_event_is_one_line(count: Count, now: u64, percent: Seq<char>)
    requires
        is_line(percent),
    ensures
        is_line(progress_text(count, now, percent)),
{
    reveal_strlit("{\"event\":\"progress\",\"done\":");
    reveal_strlit(",\"total\":");
    reveal_strlit(",\"percent\":");
    reveal_strlit(",\"speed\":");
    reveal_strlit(",\"eta\":");
    reveal_strlit("}");
    lemma_decimal_is_line(count.done as nat);
    lemma_decimal_is_line(count.total as nat);
    lemma_decimal_is_line(count.rate_at(now));
    lemma_decimal_is_line(count.eta_at(now));
}

/// The closing events are one line each.
pub proof fn law_closing_events_are_one_line(
    count: Count,
    now: u64,
    algo: Checksum,
    hash: Seq<char>,
)
    ensures
        is_line(end_text(count, now)),
        is_line(verified_text(algo, hash)),
{
    reveal_strlit("{\"event\":\"end\",\"done\":");
    reveal_strlit(",\"total\":");
    reveal_strlit(",\"elapsed\":");
    reveal_strlit("}");
    lemma_decimal_is_line(count.done as nat);
    lemma_decimal_is_line(count.total as nat);
    lemma_decimal_is_line(count.elapsed(now) as nat);
    reveal_strlit("{\"event\":\"verified\",\"checksum\":\"");
    reveal_strlit("\",\"hash\":\"");
    reveal_strlit("\"}");
    reveal_strlit("none");
    reveal_strlit("md5");
    reveal_strlit("sha1");
    reveal_strlit("sha256");
    reveal_strlit("sha512");
    reveal_strlit("blake3");
    lemma_escaped_is_line(hash);
    assert(is_line(checksum::name_of(algo)));
}

} // verus!
