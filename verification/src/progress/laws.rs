//! What the numbers that are shown have to do with the bytes that came.

use crate::progress::bar;
use crate::progress::json;
use crate::progress::meter;
use crate::progress::meter::Count;
use crate::progress::plain;
use crate::progress::sizes;
use crate::progress::speedometer;
use crate::progress::window;
use crate::text::laws;
use crate::text::model as text;
use crate::progress::ink;
use vstd::prelude::*;

verus! {

/// The percentage is the largest whole number of hundredths that has arrived, and zero of nothing.
pub proof fn law_percent_is_of_the_whole(count: Count)
    requires
        100 * count.done <= u64::MAX,
    ensures
        count.total == 0 ==> bar::percent_of(count) == 0,
        count.total > 0 ==> bar::percent_of(count) * count.total <= 100 * count.done < (bar::percent_of(count)
            + 1) * count.total,
{
    if count.total > 0 {
        let n = (100 * count.done) as nat;
        let d = count.total as nat;
        let q = bar::percent_of(count);
        assert(q * d <= n < (q + 1) * d) by (nonlinear_arith)
            requires
                q == n / d,
                d > 0,
        ;
    }
}

/// The time that is left is what the missing bytes take at the present rate, in whole seconds; where nothing is
/// missing, or nothing comes, none is given.
pub proof fn law_eta_is_what_is_missing_takes(count: Count, now: u64)
    ensures
        count.done >= count.total || count.rate_at(now) == 0 ==> count.eta_at(now) == 0,
        count.done < count.total && count.rate_at(now) > 0 ==> count.eta_at(now) * count.rate_at(now)
            <= count.total - count.done < (count.eta_at(now) + 1) * count.rate_at(now),
{
    if count.done < count.total && count.rate_at(now) > 0 {
        let n = (count.total - count.done) as nat;
        let d = count.rate_at(now);
        let q = count.eta_at(now);
        assert(q * d <= n < (q + 1) * d) by (nonlinear_arith)
            requires
                q == n / d,
                d > 0,
        ;
    }
}

/// Once the window has filled, the rate is what came within it, over its three seconds, and before the first
/// tenth of a second is over, what came is taken for that tenth's.
pub proof fn law_rate_is_over_the_window(samples: Seq<(int, u64)>, head: int, elapsed: u64)
    requires
        window::since(samples, head - 29) <= u64::MAX / 1000,
    ensures
        elapsed >= 3000 ==> speedometer::rate_of(samples, head, elapsed) == window::since(samples, head - 29)
            / 3,
        elapsed <= 100 ==> speedometer::rate_of(samples, head, elapsed) == 10 * window::since(
            samples,
            head - 29,
        ),
{
    let s = window::since(samples, head - 29);
    assert(1000 * s / 3000 == s / 3);
    assert(1000 * s / 100 == 10 * s);
}

/// A sample counts in full as long as its bucket is inside the window, and not at all afterwards.
pub proof fn law_sample_counts_while_it_is_inside(samples: Seq<(int, u64)>, at: int, bytes: u64, from: int)
    ensures
        at >= from ==> window::since(samples.push((at, bytes)), from) == window::since(samples, from) + bytes,
        at < from ==> window::since(samples.push((at, bytes)), from) == window::since(samples, from),
        window::since(Seq::empty(), from) == 0,
{
    assert(samples.push((at, bytes)).drop_last() =~= samples);
}

/// Bytes land in the bucket of their own tenth of a second, as long as time does not run back by a window.
pub proof fn law_bytes_land_in_their_own_bucket(index: int, head: int)
    requires
        0 <= index,
    ensures
        window::landing(index, window::newest(head, index)) == index || index + 30 <= head,
        window::newest(head, index) >= index,
        window::newest(head, index) >= head,
        window::newest(head, index) == head || window::newest(head, index) == index,
{
}

/// The sum of chunk sizes grows by each of them.
pub proof fn law_sizes_add_up(sizes: Seq<u64>, size: u64)
    ensures
        meter::sum_of(Seq::empty()) == 0,
        meter::sum_of(sizes.push(size)) == meter::sum_of(sizes) + size,
{
    assert(sizes.push(size).drop_last() =~= sizes);
}

/// A wait is written in its two largest units: hours and minutes, minutes and seconds, or seconds.
pub proof fn law_wait_is_written_in_two_units(h: u64, m: u64, s: u64)
    requires
        m < 60,
        s < 60,
        3600 * h + 60 * m + s <= u64::MAX,
    ensures
        h > 0 ==> sizes::eta_text((3600 * h + 60 * m + s) as u64) == text::decimal(h as nat) + seq!['h']
            + text::decimal(m as nat) + seq!['m'],
        m > 0 ==> sizes::eta_text((60 * m + s) as u64) == text::decimal(m as nat) + seq!['m']
            + text::decimal(s as nat) + seq!['s'],
        sizes::eta_text(s) == text::decimal(s as nat) + seq!['s'],
{
    let all = 3600 * h + 60 * m + s;
    assert(all / 3600 == h && all % 3600 / 60 == m) by (nonlinear_arith)
        requires
            all == 3600 * h + 60 * m + s,
            0 <= m < 60,
            0 <= s < 60,
            0 <= h,
    ;
    let part = 60 * m + s;
    assert(part / 60 == m && part % 60 == s);
}

/// A raw size is the number of bytes, and a raw speed that number by the second; any other speed is written like
/// the size that comes in a second, by the second, and one in bits like eight times as many.
pub proof fn law_sizes_are_written(bytes: u64, bits: bool)
    ensures
        text::parse_uint(sizes::size_text(bytes, true), u64::MAX as nat) == Some(bytes as nat),
        sizes::speed_text(bytes, true, bits) == sizes::size_text(bytes, true) + "/s"@,
        sizes::speed_text(bytes, false, false) == sizes::size_text(bytes, false) + "/s"@,
        sizes::size_text(bytes, false) == sizes::iec_text((8 * bytes) as u128),
        8 * bytes < 1000 ==> sizes::speed_text(bytes, false, true) == sizes::bit_text((8 * bytes) as u128)
            + "ps"@,
{
    laws::law_decimal_reads_back(bytes as nat, u64::MAX as nat);
    reveal_with_fuel(sizes::decimal_unit, 2);
}

/// A number in two digits or more reads back.
pub proof fn law_two_digits_read_back(n: nat)
    ensures
        n < 100 ==> text::two_digits(n).len() == 2,
        text::parse_uint(text::two_digits(n), n) == Some(n),
{
    laws::law_decimal_reads_back(n, n);
    let d = text::decimal(n);
    if n < 10 {
        let s = text::two_digits(n);
        assert(d =~= seq![text::digit(n)]);
        assert(s =~= seq!['0', text::digit(n)]);
        assert(text::is_digit(text::digit(n)));
        let zero = seq![text::digit(0)];
        assert(zero =~= seq!['0']);
        assert(text::all_digits(zero));
        assert(text::value(zero) == 0) by {
            assert(zero.drop_last() =~= Seq::<char>::empty());
            assert(text::value(Seq::<char>::empty()) == 0);
        }
        laws::law_number_is_read_digit_by_digit(zero, n, n);
        assert(zero.push(text::digit(n)) =~= s);
    } else if n < 100 {
        reveal_with_fuel(text::decimal, 3);
        assert(d.len() == 2);
    }
}

/// A percentage is set flush right in three places.
pub proof fn law_percentage_is_flush_right(n: nat)
    requires
        n < 1000,
    ensures
        bar::padded(n).len() == 3,
        text::trim(bar::padded(n)) == text::decimal(n),
{
    laws::law_decimal_reads_back(n, n);
    let d = text::decimal(n);
    reveal_with_fuel(text::decimal, 4);
    assert(d.len() <= 3);
    reveal_strlit("  ");
    reveal_strlit(" ");
    assert(text::is_digit(d[0]) && text::is_digit(d[d.len() - 1]));
    let none = Seq::<char>::empty();
    laws::law_trim_takes_off_whitespace("  "@, d, none);
    laws::law_trim_takes_off_whitespace(" "@, d, none);
    laws::law_trim_takes_off_whitespace(none, d, none);
    assert("  "@ + d + none =~= "  "@ + d);
    assert(" "@ + d + none =~= " "@ + d);
    assert(none + d + none =~= d);
}

/// The bar takes the space beside the numbers, but no more than two fifths of the screen and no more than 48
/// cells, and at least eight; and it is as wide as that allows.
pub proof fn law_bar_is_as_wide_as_it_may_be(columns: u16, multi: bool)
    requires
        columns <= 1638,
    ensures
        ({
            let w = bar::width_of(columns, multi);
            let beside: int = if multi {
                34
            } else {
                52
            };
            &&& 8 <= w <= 48
            &&& w > 8 ==> 5 * w <= 2 * columns && w + beside <= columns
            &&& w < 48 ==> 5 * (w + 1) > 2 * columns || w + 1 + beside > columns
        }),
{
}

/// A line for each chunk is drawn for two to nineteen chunks.
pub proof fn law_chunks_get_a_line(chunks: nat)
    ensures
        bar::two_lines(chunks) <==> 1 < chunks && chunks < 20,
{
}

/// A locale is one of UTF-8 wherever it says so, in any letter case, with a dash or without.
pub proof fn law_utf8_locale_is_known(a: Seq<char>, named: Seq<char>, b: Seq<char>)
    requires
        text::upper(named) == "UTF-8"@ || text::upper(named) == "UTF8"@,
    ensures
        bar::names_utf8(a + named + b),
{
    let s = a + named + b;
    assert(text::upper(s) =~= text::upper(a) + text::upper(named) + text::upper(b));
    laws::law_contains_what_it_holds(text::upper(a), text::upper(named), text::upper(b));
}

/// What a JSON event says under a key, as far as it is a number: what stands between the key and the next comma.
pub open spec fn number_behind(s: Seq<char>, key: Seq<char>) -> Option<nat> {
    match text::strip_prefix(s, key) {
        Some(rest) => text::parse_uint(text::before(rest, ','), u64::MAX as nat),
        None => None,
    }
}

/// A progress event says how many bytes have arrived, of how many, first.
pub proof fn law_progress_event_tells_the_counts(count: Count, now: u64, percent: Seq<char>)
    ensures
        ({
            let s = json::progress_text(count, now, percent);
            let done = "{\"event\":\"progress\",\"done\":"@;
            &&& number_behind(s, done) == Some(count.done as nat)
            &&& number_behind(s, done + text::decimal(count.done as nat) + ",\"total\":"@) == Some(
                count.total as nat,
            )
        }),
{
    reveal_strlit(",\"total\":");
    reveal_strlit(",\"percent\":");
    let s = json::progress_text(count, now, percent);
    let head = "{\"event\":\"progress\",\"done\":"@;
    let d = text::decimal(count.done as nat);
    let t = text::decimal(count.total as nat);
    let end = percent + ",\"speed\":"@ + text::decimal(count.rate_at(now)) + ",\"eta\":"@ + text::decimal(
        count.eta_at(now),
    ) + "}"@;
    let tail = t + ",\"percent\":"@ + end;
    assert(s =~= head + (d + ",\"total\":"@ + tail));
    assert(s =~= (head + d + ",\"total\":"@) + tail);
    lemma_number(head, count.done, ",\"total\":"@ + tail);
    assert(d + (",\"total\":"@ + tail) =~= d + ",\"total\":"@ + tail);
    lemma_number(head + d + ",\"total\":"@, count.total, ",\"percent\":"@ + end);
    assert(t + (",\"percent\":"@ + end) =~= tail);
}

proof fn lemma_number(key: Seq<char>, n: u64, rest: Seq<char>)
    requires
        rest.len() > 0,
        rest[0] == ',',
    ensures
        number_behind(key + (text::decimal(n as nat) + rest), key) == Some(n as nat),
{
    let d = text::decimal(n as nat);
    laws::law_decimal_reads_back(n as nat, u64::MAX as nat);
    laws::law_prefix_and_rest(d + rest, key, d + rest);
    assert forall|j: int| 0 <= j < d.len() implies (#[trigger] d[j]) != ',' by {
        assert(text::is_digit(d[j]));
    }
    laws::law_split_once_cuts_at_the_first(d, ',', rest.skip(1));
    assert(d + seq![','] + rest.skip(1) =~= d + rest);
}

/// A retry event says which chunk failed, and its last field is the cause, escaped.
pub proof fn law_retry_event_tells_the_cause(
    index: usize,
    retry: u32,
    max: u32,
    resume_from: u64,
    error: Seq<char>,
)
    ensures
        number_behind(
            json::retry_text(index, retry, max, resume_from, error),
            "{\"event\":\"retry\",\"chunk\":"@,
        ) == Some(index as nat),
        (",\"error\":\""@ + json::escaped(error) + "\"}"@).is_suffix_of(
            json::retry_text(index, retry, max, resume_from, error),
        ),
        json::unescaped(json::escaped(error)) == Some(error),
{
    reveal_strlit(",\"retry\":");
    let s = json::retry_text(index, retry, max, resume_from, error);
    let head = "{\"event\":\"retry\",\"chunk\":"@;
    let d = text::decimal(index as nat);
    let last = ",\"error\":\""@ + json::escaped(error) + "\"}"@;
    let middle = ",\"retry\":"@ + text::decimal(retry as nat) + ",\"max\":"@ + text::decimal(max as nat)
        + ",\"resume_from\":"@ + text::decimal(resume_from as nat);
    assert(s =~= head + (d + (middle + last)));
    lemma_number(head, index as u64, middle + last);
    assert(s =~= (head + d + middle) + last);
    let front = head + d + middle;
    assert(s.subrange(s.len() - last.len(), s.len() as int) =~= last);
    json::law_escape_reads_back(error);
}

/// A line of progress ends with the time that is left, in minutes and seconds.
pub proof fn law_line_ends_with_the_time_left(
    count: Count,
    now: u64,
    percent: Seq<char>,
    raw: bool,
    bits: bool,
)
    ensures
        ({
            let clock = text::two_digits(count.eta_at(now) / 60) + seq![':'] + text::two_digits(
                count.eta_at(now) % 60,
            );
            ("  ETA "@ + clock).is_suffix_of(plain::line_text(count, now, percent, raw, bits))
        }),
{
    let clock = text::two_digits(count.eta_at(now) / 60) + seq![':'] + text::two_digits(
        count.eta_at(now) % 60,
    );
    let last = "  ETA "@ + clock;
    let s = plain::line_text(count, now, percent, raw, bits);
    assert(s.subrange(s.len() - last.len(), s.len() as int) =~= last);
}

/// The unit that a number is written in is the largest power of a thousand that it reaches.
pub proof fn law_unit_is_the_largest(n: nat)
    requires
        n > 0,
    ensures
        sizes::decimal_unit(n, 1) <= n < 1000 * sizes::decimal_unit(n, 1),
{
    lemma_unit(n, 1);
}

proof fn lemma_unit(n: nat, unit: nat)
    requires
        0 < unit <= n,
    ensures
        sizes::decimal_unit(n, unit) <= n < 1000 * sizes::decimal_unit(n, unit),
    decreases n - unit,
{
    if 1000 * unit <= n {
        lemma_unit(n, 1000 * unit);
    }
}

/// The gauge reads what came within its window, over the time since the start, of which it takes no less than a
/// tenth of a second and no more than three seconds.
pub proof fn law_gauge_reads_the_window(samples: Seq<(int, u64)>, head: int, elapsed: u64)
    requires
        window::since(samples, head - 29) <= u64::MAX / 10,
    ensures
        elapsed <= 100_000_000 ==> speedometer::gauged(samples, head, elapsed) == 10 * window::since(
            samples,
            head - 29,
        ),
        elapsed >= 3_000_000_000 ==> speedometer::gauged(samples, head, elapsed) == window::since(
            samples,
            head - 29,
        ) / 3,
        100_000_000 <= elapsed <= 3_000_000_000 ==> speedometer::gauged(samples, head, elapsed) == (
        1_000_000_000 * window::since(samples, head - 29)) / (elapsed as nat),
{
    let s = window::since(samples, head - 29);
    assert(1_000_000_000 * s / 100_000_000 == 10 * s);
    assert(1_000_000_000 * s / 3_000_000_000 == s / 3);
    if 100_000_000 <= elapsed <= 3_000_000_000 {
        let e = elapsed as nat;
        assert((1_000_000_000 * s) / e <= 10 * s) by (nonlinear_arith)
            requires
                e >= 100_000_000,
        ;
    }
}

/// A frame shows the whole bar, the percentage, and how much there is of how much; with a line for the chunks it
/// shows that too.
pub proof fn law_frame_shows_the_bar(
    count: Count,
    now: u64,
    aggregate: Seq<char>,
    segments: Seq<char>,
    multi: bool,
    raw: bool,
    bits: bool,
)
    ensures
        ({
            let frame = bar::frame_text(count, now, aggregate, segments, multi, raw, bits);
            &&& text::contains(frame, aggregate)
            &&& multi ==> text::contains(frame, segments)
            &&& text::contains(frame, bar::rate_text(count, now, raw, bits))
            &&& bar::amount_text(count, raw).is_suffix_of(frame)
            &&& text::contains(bar::rate_text(count, now, raw, bits), bar::padded(bar::percent_of(count)) + "%"@)
            &&& text::contains(
                bar::rate_text(count, now, raw, bits),
                sizes::speed_text(count.rate_at(now) as u64, raw, bits),
            )
            &&& text::contains(
                bar::amount_text(count, raw),
                sizes::size_text(count.done, raw) + "/"@ + sizes::size_text(count.total, raw),
            )
        }),
{
    let rate = bar::rate_text(count, now, raw, bits);
    let amount = bar::amount_text(count, raw);
    if multi {
        lemma_two_line_frame(count, now, aggregate, segments, raw, bits);
    } else {
        lemma_one_line_frame(count, now, aggregate, segments, raw, bits);
    }
    lemma_rate_shows(count, now, raw, bits);
    let shown = sizes::size_text(count.done, raw) + "/"@ + sizes::size_text(count.total, raw);
    assert(amount =~= ink::bold_color(2) + shown + "\x1b[0m"@);
    laws::law_contains_what_it_holds(ink::bold_color(2), shown, "\x1b[0m"@);
}

/// What stands in the middle of three texts, or at their end, is in them.
proof fn lemma_five(a: Seq<char>, b: Seq<char>, c: Seq<char>, d: Seq<char>, e: Seq<char>)
    ensures
        text::contains(a + b + c + d + e, b),
        text::contains(a + b + c + d + e, d),
        e.is_suffix_of(a + b + c + d + e),
{
    let s = a + b + c + d + e;
    assert(s =~= a + b + (c + d + e));
    laws::law_contains_what_it_holds(a, b, c + d + e);
    laws::law_contains_what_it_holds(a + b + c, d, e);
    assert(s.subrange(s.len() - e.len(), s.len() as int) =~= e);
}

proof fn lemma_two_line_frame(
    count: Count,
    now: u64,
    aggregate: Seq<char>,
    segments: Seq<char>,
    raw: bool,
    bits: bool,
)
    ensures
        ({
            let frame = bar::frame_text(count, now, aggregate, segments, true, raw, bits);
            &&& text::contains(frame, aggregate)
            &&& text::contains(frame, segments)
            &&& text::contains(frame, bar::rate_text(count, now, raw, bits))
            &&& bar::amount_text(count, raw).is_suffix_of(frame)
        }),
{
    let frame = bar::frame_text(count, now, aggregate, segments, true, raw, bits);
    let rate = bar::rate_text(count, now, raw, bits);
    let amount = bar::amount_text(count, raw);
    let a = "  "@ + bar::chrome("┏"@) + " "@;
    let b = " "@ + bar::chrome("┓"@) + "  "@;
    let c = "\n  "@ + bar::chrome("┗"@) + " "@;
    let d = " "@ + bar::chrome("┛"@) + "  "@;
    let upper = a + aggregate + b + rate;
    assert(frame =~= upper + c + segments + d + amount);
    let lower = c + segments + d + amount;
    assert(frame =~= a + aggregate + b + rate + lower);
    lemma_five(a, aggregate, b, rate, lower);
    lemma_five(upper + c, segments, d, amount, Seq::empty());
    assert(upper + c + segments + d + amount + Seq::<char>::empty() =~= frame);
    assert(frame.subrange(frame.len() - amount.len(), frame.len() as int) =~= amount);
}

proof fn lemma_one_line_frame(
    count: Count,
    now: u64,
    aggregate: Seq<char>,
    segments: Seq<char>,
    raw: bool,
    bits: bool,
)
    ensures
        ({
            let frame = bar::frame_text(count, now, aggregate, segments, false, raw, bits);
            &&& text::contains(frame, aggregate)
            &&& text::contains(frame, bar::rate_text(count, now, raw, bits))
            &&& bar::amount_text(count, raw).is_suffix_of(frame)
        }),
{
    let frame = bar::frame_text(count, now, aggregate, segments, false, raw, bits);
    let rate = bar::rate_text(count, now, raw, bits);
    let amount = bar::amount_text(count, raw);
    let a = "  "@ + bar::chrome("["@);
    let b = bar::chrome("]"@) + "  "@;
    let end = "  "@ + amount;
    assert(frame =~= a + aggregate + b + rate + end);
    lemma_five(a, aggregate, b, rate, end);
    assert(frame.subrange(frame.len() - amount.len(), frame.len() as int) =~= amount);
}

proof fn lemma_rate_shows(count: Count, now: u64, raw: bool, bits: bool)
    ensures
        text::contains(
            bar::rate_text(count, now, raw, bits),
            bar::padded(bar::percent_of(count)) + "%"@,
        ),
        text::contains(
            bar::rate_text(count, now, raw, bits),
            sizes::speed_text(count.rate_at(now) as u64, raw, bits),
        ),
{
    let rate = bar::rate_text(count, now, raw, bits);
    let percent = bar::padded(bar::percent_of(count)) + "%"@;
    let speed = sizes::speed_text(count.rate_at(now) as u64, raw, bits);
    let green = ink::bold_color(2);
    let eta = "\x1b[0m"@ + "  "@ + ink::bold_color(3) + sizes::eta_text(count.eta_at(now) as u64)
        + "\x1b[0m"@;
    let middle = "\x1b[0m"@ + "  "@ + ink::bold_color(12);
    assert(rate =~= green + percent + middle + speed + eta);
    lemma_five(green, percent, middle, speed, eta);
}

/// A line of progress shows how much there is of how much, and how fast it comes; that of a retry which chunk it
/// is, counted from one, and why.
pub proof fn law_lines_show_the_counts(
    count: Count,
    now: u64,
    percent: Seq<char>,
    raw: bool,
    bits: bool,
    index: usize,
    retry: u32,
    max: u32,
    resume_from: u64,
    error: Seq<char>,
)
    ensures
        text::contains(
            plain::line_text(count, now, percent, raw, bits),
            percent + "%  "@ + sizes::size_text(count.done, raw) + seq!['/'] + sizes::size_text(
                count.total,
                raw,
            ),
        ),
        text::contains(
            plain::line_text(count, now, percent, raw, bits),
            sizes::speed_text(count.rate_at(now) as u64, raw, bits),
        ),
        text::contains(plain::retry_text(index, retry, max, resume_from, error, raw), ": "@ + error),
        text::contains(
            plain::retry_text(index, retry, max, resume_from, error, raw),
            "chunk "@ + text::decimal((index + 1) as nat) + " retry "@,
        ),
{
    let line = plain::line_text(count, now, percent, raw, bits);
    let sizes_shown = percent + "%  "@ + sizes::size_text(count.done, raw) + seq!['/'] + sizes::size_text(
        count.total,
        raw,
    );
    let speed = sizes::speed_text(count.rate_at(now) as u64, raw, bits);
    let eta = "  ETA "@ + text::two_digits(count.eta_at(now) / 60) + seq![':'] + text::two_digits(
        count.eta_at(now) % 60,
    );
    assert(line =~= "\r\x1b[K"@ + sizes_shown + ("  "@ + speed + eta));
    laws::law_contains_what_it_holds("\r\x1b[K"@, sizes_shown, "  "@ + speed + eta);
    assert(line =~= ("\r\x1b[K"@ + sizes_shown + "  "@) + speed + eta);
    laws::law_contains_what_it_holds("\r\x1b[K"@ + sizes_shown + "  "@, speed, eta);
    let told = plain::retry_text(index, retry, max, resume_from, error, raw);
    let n = text::decimal((index + 1) as nat);
    let count_text = text::decimal(retry as nat) + seq!['/'] + text::decimal(max as nat);
    let from = " (from "@ + sizes::size_text(resume_from, raw) + ")"@;
    assert(told =~= ("\r\x1b[Kchunk "@ + n + " retry "@ + count_text) + (": "@ + error) + from);
    laws::law_contains_what_it_holds("\r\x1b[Kchunk "@ + n + " retry "@ + count_text, ": "@ + error, from);
    reveal_strlit("\r\x1b[Kchunk ");
    reveal_strlit("chunk ");
    let front = "\r\x1b[Kchunk "@.take(4);
    assert("\r\x1b[Kchunk "@ =~= front + "chunk "@);
    let named = "chunk "@ + n + " retry "@;
    assert(told =~= front + named + (count_text + (": "@ + error) + from));
    laws::law_contains_what_it_holds(front, named, count_text + (": "@ + error) + from);
}

} // verus!
