//! How sizes, speeds and waits are written.

use crate::text;
use vstd::prelude::*;
use vstd::string::*;

verus! {

/// How a size, given in bits, is written in bytes and powers of 1024.
pub uninterp spec fn iec_text(bits: u128) -> Seq<char>;

/// How a size, given in bits, is written in bits and powers of 1000.
pub uninterp spec fn bit_text(bits: u128) -> Seq<char>;

/// `xbytes::ByteSize::from_bits` and its representation in IEC bytes (`10 MiB`). How many digits it shows is
/// left to it.
#[verifier::external_body]
fn iec_of(bits: u128) -> (s: String)
    ensures
        s@ == iec_text(bits),
{
    xbytes::ByteSize::from_bits(bits).repr(xbytes::Mode::Default).to_string()
}

/// `xbytes::ByteSize::from_bits` and its representation in decimal bits (`83.89 Mb`). How many digits it
/// shows is left to it.
#[verifier::external_body]
fn bits_of(bits: u128) -> (s: String)
    ensures
        s@ == bit_text(bits),
{
    xbytes::ByteSize::from_bits(bits).repr(xbytes::Mode::Bits | xbytes::Mode::Decimal).to_string()
}

/// How a byte count is written: the number itself, or a human-readable size.
pub open spec fn size_text(bytes: u64, raw: bool) -> Seq<char> {
    if raw {
        text::model::decimal(bytes as nat)
    } else {
        iec_text((8 * bytes) as u128)
    }
}

/// The largest power of a thousand that `n` reaches, at least one, where `unit` is such a power already.
pub open spec fn decimal_unit(n: nat, unit: nat) -> nat
    decreases n - unit,
{
    if unit > 0 && 1000 * unit <= n {
        decimal_unit(n, 1000 * unit)
    } else {
        unit
    }
}

/// `n` to the nearest hundredth of its own decimal unit, half a hundredth up.
pub open spec fn to_hundredths(n: nat) -> nat {
    let unit = decimal_unit(n, 1);
    if unit == 1 {
        n
    } else {
        let step = unit / 100;
        (n + step / 2) / step * step
    }
}

/// How a speed is written: bytes per second, or bits per second; a raw count is always of bytes.
pub open spec fn speed_text(rate: u64, raw: bool, bits: bool) -> Seq<char> {
    if raw || !bits {
        size_text(rate, raw) + "/s"@
    } else {
        bit_text(to_hundredths((8 * rate) as nat) as u128) + "ps"@
    }
}

/// Format a byte count, either raw or human-readable.
pub fn fmt_size(bytes: u64, raw: bool) -> (s: String)
    ensures
        s@ == size_text(bytes, raw),
{
    if raw {
        text::decimal(bytes)
    } else {
        iec_of(8 * bytes as u128)
    }
}

/// Round a count of bits to the nearest hundredth of the decimal unit it is written in.
pub fn round_hundredths(n: u128) -> (r: u128)
    requires
        n <= 8 * u64::MAX,
    ensures
        r == to_hundredths(n as nat),
{
    let mut unit: u128 = 1;
    while 1000 * unit <= n
        invariant
            0 < unit,
            unit == 1 || unit % 1000 == 0,
            unit == 1 || unit <= n,
            n <= 8 * u64::MAX,
            decimal_unit(n as nat, 1) == decimal_unit(n as nat, unit as nat),
        decreases n + 1 - unit,
    {
        unit = 1000 * unit;
    }
    if unit == 1 {
        return n;
    }
    let step = unit / 100;
    assert(step >= 10);
    let q = (n + step / 2) / step;
    assert(q * step <= n + step / 2) by (nonlinear_arith)
        requires
            q == (n + step / 2) / step as int,
            step > 0,
    ;
    q * step
}

/// Format a speed in bytes per second: bytes by default, the same spelling as a size with a `/s` suffix, or
/// decimal bits per second. A raw count is a byte count, so `bits` does not apply to it.
pub fn fmt_speed(rate: u64, raw: bool, bits: bool) -> (s: String)
    ensures
        s@ == speed_text(rate, raw, bits),
{
    if raw || !bits {
        let mut s = fmt_size(rate, raw);
        s.append("/s");
        s
    } else {
        let mut s = bits_of(round_hundredths(8 * rate as u128));
        s.append("ps");
        s
    }
}

/// A compact `1h2m` / `3m4s` / `5s` duration.
pub open spec fn eta_text(seconds: u64) -> Seq<char> {
    if seconds >= 3600 {
        text::model::decimal((seconds / 3600) as nat) + seq!['h'] + text::model::decimal(
            (seconds % 3600 / 60) as nat,
        ) + seq!['m']
    } else if seconds >= 60 {
        text::model::decimal((seconds / 60) as nat) + seq!['m'] + text::model::decimal(
            (seconds % 60) as nat,
        ) + seq!['s']
    } else {
        text::model::decimal(seconds as nat) + seq!['s']
    }
}

/// A compact `1h2m` / `3m4s` / `5s` duration for the ETA readout.
pub fn format_eta(seconds: u64) -> (s: String)
    ensures
        s@ == eta_text(seconds),
{
    let mut s = String::new();
    if seconds >= 3600 {
        text::push_decimal(&mut s, seconds / 3600);
        s.push('h');
        text::push_decimal(&mut s, seconds % 3600 / 60);
        s.push('m');
    } else if seconds >= 60 {
        text::push_decimal(&mut s, seconds / 60);
        s.push('m');
        text::push_decimal(&mut s, seconds % 60);
        s.push('s');
    } else {
        text::push_decimal(&mut s, seconds);
        s.push('s');
    }
    assert(s@ =~= eta_text(seconds));
    s
}

/// Rounding moves a speed by no more than half a hundredth of its unit.
pub proof fn law_rounding_is_close(n: nat)
    requires
        decimal_unit(n, 1) > 1,
    ensures
        ({
            let step = decimal_unit(n, 1) / 100;
            &&& 2 * to_hundredths(n) <= 2 * n + step
            &&& 2 * n <= 2 * to_hundredths(n) + step
        }),
{
    lemma_unit_is_thousands(n, 1);
    let step = decimal_unit(n, 1) / 100;
    let m = (n + step / 2) as nat;
    let q = m / step;
    assert(q * step <= m && m < q * step + step) by (nonlinear_arith)
        requires
            q == m / step,
            step > 0,
    ;
}

proof fn lemma_unit_is_thousands(n: nat, unit: nat)
    requires
        unit == 1 || unit % 1000 == 0,
    ensures
        decimal_unit(n, unit) == 1 || decimal_unit(n, unit) % 1000 == 0,
    decreases n - unit,
{
    if unit > 0 && 1000 * unit <= n {
        lemma_unit_is_thousands(n, 1000 * unit);
    }
}

} // verus!
