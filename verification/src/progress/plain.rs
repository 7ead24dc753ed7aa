//! A single updating text line, for when there is no terminal to draw a live bar on.

use crate::progress::meter::Count;
use crate::progress::meter::Meter;
use crate::progress::sizes;
use crate::progress::sizes::fmt_size;
use crate::progress::sizes::fmt_speed;
use crate::text;
use vstd::prelude::*;
use vstd::string::*;

verus! {

/// The line: back to its start, cleared, and `percent  done/total  speed  ETA eta`.
pub open spec fn line_text(count: Count, now: u64, percent: Seq<char>, raw: bool, bits: bool) -> Seq<
    char,
> {
    "\r\x1b[K"@ + percent + "%  "@ + sizes::size_text(count.done, raw) + seq!['/'] + sizes::size_text(
        count.total,
        raw,
    ) + "  "@ + sizes::speed_text(count.rate_at(now) as u64, raw, bits) + "  ETA "@
        + text::model::two_digits(count.eta_at(now) / 60) + seq![':'] + text::model::two_digits(
        count.eta_at(now) % 60,
    )
}

/// The progress line at `now`, with `percent` as it is to be shown.
pub fn progress_line(meter: &mut Meter, now: u64, percent: &str, raw: bool, bits: bool) -> (s: String)
    requires
        old(meter).wf(),
    ensures
        final(meter).wf(),
        final(meter)@ == (Count { head: old(meter)@.head_at(now), ..old(meter)@ }),
        s@ == line_text(old(meter)@, now, percent@, raw, bits),
{
    let rate = meter.rate(now);
    let speed = fmt_speed(rate, raw, bits);
    let eta = meter.eta_clock(now);
    let done = fmt_size(meter.done(), raw);
    let total = fmt_size(meter.total(), raw);
    let mut s = "\r\x1b[K".to_owned();
    s.append(percent);
    s.append("%  ");
    s.append(done.as_str());
    s.push('/');
    s.append(total.as_str());
    s.append("  ");
    s.append(speed.as_str());
    s.append("  ETA ");
    s.append(eta.as_str());
    assert(s@ =~= line_text(old(meter)@, now, percent@, raw, bits));
    s
}

/// The line that tells of a retry, on a line of its own: the chunks are counted from one.
pub open spec fn retry_text(
    index: usize,
    retry: u32,
    max: u32,
    resume_from: u64,
    error: Seq<char>,
    raw: bool,
) -> Seq<char> {
    "\r\x1b[Kchunk "@ + text::model::decimal((index + 1) as nat) + " retry "@ + text::model::decimal(
        retry as nat,
    ) + seq!['/'] + text::model::decimal(max as nat) + ": "@ + error + " (from "@ + sizes::size_text(
        resume_from,
        raw,
    ) + ")"@
}

/// The line that tells of a retry.
pub fn retry_line(index: usize, retry: u32, max: u32, resume_from: u64, error: &str, raw: bool) -> (s:
    String)
    requires
        index < usize::MAX,
    ensures
        s@ == retry_text(index, retry, max, resume_from, error@, raw),
{
    let mut s = "\r\x1b[Kchunk ".to_owned();
    text::push_decimal(&mut s, (index + 1) as u64);
    s.append(" retry ");
    text::push_decimal(&mut s, retry as u64);
    s.push('/');
    text::push_decimal(&mut s, max as u64);
    s.append(": ");
    s.append(error);
    s.append(" (from ");
    let from = fmt_size(resume_from, raw);
    s.append(from.as_str());
    s.append(")");
    assert(s@ =~= retry_text(index, retry, max, resume_from, error@, raw));
    s
}

} // verus!
