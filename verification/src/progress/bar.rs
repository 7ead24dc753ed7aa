//! The live segmented bar: its size, its readout, and whether the terminal can show it.

use crate::progress::ink;
use crate::progress::meter::Count;
use crate::progress::meter::Meter;
use crate::progress::sizes;
use crate::progress::sizes::fmt_size;
use crate::progress::sizes::fmt_speed;
use crate::progress::sizes::format_eta;
use crate::progress::window;
use crate::text;
use vstd::prelude::*;
use vstd::string::*;

verus! {

/// The bar takes at most this fraction of the terminal width, so it scales with the screen instead of
/// stretching across it.
pub const BAR_MAX_PCT: u16 = 40;

/// The bar never grows past this many cells, however wide the terminal, keeping the stats in focus.
pub const BAR_MAX: u16 = 48;

/// Whether a number of chunks is worth a line of its own: one chunk has nothing to aggregate and twenty would
/// not fit, so both collapse to a single aggregate bar.
pub open spec fn two_lines(chunks: nat) -> bool {
    2 <= chunks < 20
}

/// The width of the bar on a terminal of `columns`: the space beside the stats, but never past a fraction of
/// the screen nor a cap, and never so little that it vanishes.
pub open spec fn width_of(columns: u16, multi: bool) -> int {
    let scaled = if columns * 40 > u16::MAX {
        (u16::MAX / 100) as int
    } else {
        columns * 40 / 100
    };
    let cap = if scaled < 48 {
        scaled
    } else {
        48
    };
    let reserve: int = if multi {
        34
    } else {
        52
    };
    let beside = if columns > reserve {
        columns - reserve
    } else {
        0
    };
    let fit = if cap < beside {
        cap
    } else {
        beside
    };
    if fit < 8 {
        8
    } else {
        fit
    }
}

/// Whether the per-chunk line is drawn.
pub fn is_multi(chunks: usize) -> (multi: bool)
    ensures
        multi == two_lines(chunks as nat),
{
    2 <= chunks && chunks < 20
}

/// The width of the bar, 80 columns being taken for a terminal that does not say.
pub fn bar_width(columns: Option<u16>, multi: bool) -> (width: u16)
    ensures
        width == width_of(
            match columns {
                Some(columns) => columns,
                None => 80,
            },
            multi,
        ),
        8 <= width <= 48,
{
    let columns: u16 = match columns {
        Some(columns) => columns,
        None => 80,
    };
    let scaled: u16 = match columns.checked_mul(BAR_MAX_PCT) {
        Some(scaled) => scaled / 100,
        None => u16::MAX / 100,
    };
    let cap = if scaled < BAR_MAX {
        scaled
    } else {
        BAR_MAX
    };
    let reserve: u16 = if multi {
        34
    } else {
        52
    };
    let beside = columns.saturating_sub(reserve);
    let fit = if cap < beside {
        cap
    } else {
        beside
    };
    if fit < 8 {
        8
    } else {
        fit
    }
}

/// A number, padded with spaces on the left to three characters.
pub open spec fn padded(n: nat) -> Seq<char> {
    let digits = text::model::decimal(n);
    if digits.len() == 1 {
        "  "@ + digits
    } else if digits.len() == 2 {
        " "@ + digits
    } else {
        digits
    }
}

/// How much is done, in percent.
pub open spec fn percent_of(count: Count) -> nat {
    if count.total == 0 {
        0
    } else {
        window::cap((100 * count.done) as nat) / (count.total as nat)
    }
}

/// The readout of progress, speed and wait.
pub open spec fn rate_text(count: Count, now: u64, raw: bool, bits: bool) -> Seq<char> {
    ink::bold_color(2) + padded(percent_of(count)) + "%"@ + "\x1b[0m"@ + "  "@ + ink::bold_color(12)
        + sizes::speed_text(count.rate_at(now) as u64, raw, bits) + "\x1b[0m"@ + "  "@ + ink::bold_color(3)
        + sizes::eta_text(count.eta_at(now) as u64) + "\x1b[0m"@
}

/// The readout of sizes.
pub open spec fn amount_text(count: Count, raw: bool) -> Seq<char> {
    ink::bold_color(2) + sizes::size_text(count.done, raw) + "/"@ + sizes::size_text(count.total, raw)
        + "\x1b[0m"@
}

/// A piece of chrome, dimmed.
pub open spec fn chrome(s: Seq<char>) -> Seq<char> {
    "\x1b[2m"@ + s + "\x1b[0m"@
}

/// The bar block: an aggregate header line over the per-chunk line when there are a few chunks, otherwise a
/// single aggregate bar.
pub open spec fn frame_text(
    count: Count,
    now: u64,
    aggregate: Seq<char>,
    segments: Seq<char>,
    multi: bool,
    raw: bool,
    bits: bool,
) -> Seq<char> {
    if multi {
        "  "@ + chrome("┏"@) + " "@ + aggregate + " "@ + chrome("┓"@) + "  "@ + rate_text(
            count,
            now,
            raw,
            bits,
        ) + "\n  "@ + chrome("┗"@) + " "@ + segments + " "@ + chrome("┛"@) + "  "@ + amount_text(
            count,
            raw,
        )
    } else {
        "  "@ + chrome("["@) + aggregate + chrome("]"@) + "  "@ + rate_text(count, now, raw, bits) + "  "@
            + amount_text(count, raw)
    }
}

/// Append a dimmed piece of chrome to `out`.
fn push_chrome(out: &mut String, s: &str)
    ensures
        final(out)@ == old(out)@ + chrome(s@),
{
    let ghost before = out@;
    let dim = ink::dim();
    let reset = ink::reset();
    out.append(dim.as_str());
    out.append(s);
    out.append(reset.as_str());
    assert(out@ =~= before + chrome(s@));
}

/// Append a number padded to three characters to `out`.
fn push_padded(out: &mut String, n: u64)
    ensures
        final(out)@ == old(out)@ + padded(n as nat),
{
    let ghost before = out@;
    proof {
        reveal_strlit("  ");
        reveal_strlit(" ");
    }
    if n < 10 {
        out.append("  ");
        assert(text::model::decimal(n as nat).len() == 1);
    } else if n < 100 {
        out.append(" ");
        assert(text::model::decimal((n / 10) as nat).len() == 1);
        assert(text::model::decimal(n as nat).len() == 2);
    } else {
        proof {
            text::model::lemma_decimal((n / 100) as nat);
            assert((n / 10) / 10 == n / 100);
            assert(text::model::decimal((n / 10) as nat).len() >= 2);
        }
    }
    text::push_decimal(out, n);
    assert(out@ =~= before + padded(n as nat));
}

fn rate_readout(meter: &mut Meter, now: u64, raw: bool, bits: bool) -> (s: String)
    requires
        old(meter).wf(),
    ensures
        final(meter).wf(),
        final(meter)@ == (Count { head: old(meter)@.head_at(now), ..old(meter)@ }),
        s@ == rate_text(old(meter)@, now, raw, bits),
{
    let reset = ink::reset();
    let rate = meter.rate(now);
    let speed = fmt_speed(rate, raw, bits);
    let wait = meter.eta(now);
    let eta = format_eta(wait);
    let mut s = ink::paint(2);
    push_padded(&mut s, meter.percent());
    s.append("%");
    s.append(reset.as_str());
    s.append("  ");
    let blue = ink::paint(12);
    s.append(blue.as_str());
    s.append(speed.as_str());
    s.append(reset.as_str());
    s.append("  ");
    let yellow = ink::paint(3);
    s.append(yellow.as_str());
    s.append(eta.as_str());
    s.append(reset.as_str());
    assert(s@ =~= rate_text(old(meter)@, now, raw, bits));
    s
}

fn amount_readout(meter: &Meter, raw: bool) -> (s: String)
    ensures
        s@ == amount_text(meter@, raw),
{
    let reset = ink::reset();
    let mut s = ink::paint(2);
    let done = fmt_size(meter.done(), raw);
    let total = fmt_size(meter.total(), raw);
    s.append(done.as_str());
    s.append("/");
    s.append(total.as_str());
    s.append(reset.as_str());
    assert(s@ =~= amount_text(meter@, raw));
    s
}

/// Compose the bar block at `now` from the bars as they are drawn: `aggregate` is the one bar over all chunks,
/// `segments` the one with a segment per chunk.
pub fn frame(
    meter: &mut Meter,
    now: u64,
    aggregate: &str,
    segments: &str,
    multi: bool,
    raw: bool,
    bits: bool,
) -> (block: String)
    requires
        old(meter).wf(),
    ensures
        final(meter).wf(),
        final(meter)@ == (Count { head: old(meter)@.head_at(now), ..old(meter)@ }),
        block@ == frame_text(old(meter)@, now, aggregate@, segments@, multi, raw, bits),
{
    let rate = rate_readout(meter, now, raw, bits);
    let amount = amount_readout(meter, raw);
    let mut block = "  ".to_owned();
    if multi {
        push_chrome(&mut block, "┏");
        block.append(" ");
        block.append(aggregate);
        block.append(" ");
        push_chrome(&mut block, "┓");
        block.append("  ");
        block.append(rate.as_str());
        block.append("\n  ");
        push_chrome(&mut block, "┗");
        block.append(" ");
        block.append(segments);
        block.append(" ");
        push_chrome(&mut block, "┛");
        block.append("  ");
        block.append(amount.as_str());
    } else {
        push_chrome(&mut block, "[");
        block.append(aggregate);
        push_chrome(&mut block, "]");
        block.append("  ");
        block.append(rate.as_str());
        block.append("  ");
        block.append(amount.as_str());
    }
    assert(block@ =~= frame_text(old(meter)@, now, aggregate@, segments@, multi, raw, bits));
    block
}

/// Whether a locale string names a UTF-8 encoding.
pub open spec fn names_utf8(locale: Seq<char>) -> bool {
    let upper = text::model::upper(locale);
    text::model::contains(upper, "UTF-8"@) || text::model::contains(upper, "UTF8"@)
}

/// Whether a locale string names a UTF-8 encoding (e.g. `en_US.UTF-8`, `C.utf8`).
pub fn locale_is_utf8(locale: &str) -> (r: bool)
    ensures
        r == names_utf8(locale@),
{
    let chars = text::chars_of(locale);
    let upper = text::upper(&chars);
    text::contains(&upper, "UTF-8") || text::contains(&upper, "UTF8")
}

/// Whether the terminal can render the heavy block and box-drawing glyphs the bar prefers: by the first of the
/// three locale settings that is set.
pub fn supports_unicode(lc_all: Option<&str>, lc_ctype: Option<&str>, lang: Option<&str>) -> (r: bool)
    ensures
        r == match (lc_all, lc_ctype, lang) {
            (Some(locale), _, _) => names_utf8(locale@),
            (None, Some(locale), _) => names_utf8(locale@),
            (None, None, Some(locale)) => names_utf8(locale@),
            (None, None, None) => false,
        },
{
    match lc_all {
        Some(locale) => locale_is_utf8(locale),
        None => match lc_ctype {
            Some(locale) => locale_is_utf8(locale),
            None => match lang {
                Some(locale) => locale_is_utf8(locale),
                None => false,
            },
        },
    }
}

} // verus!
