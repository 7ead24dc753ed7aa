//! Text operations on characters: trimming, splitting, numbers, letter case.
//!
//! Each does what the operation of the same name on `str` does, and is proved against the meaning that
//! [`model`] gives it.

use vstd::prelude::*;
use vstd::slice::slice_subrange;
use vstd::slice::slice_to_vec;
use vstd::string::*;

pub mod laws;
pub mod model;

verus! {

/// `String::push` appends one character.
pub assume_specification[ String::push ](s: &mut String, c: char)
    ensures
        final(s)@ == old(s)@.push(c),
;

/// The characters of `s`.
pub fn chars_of(s: &str) -> (out: Vec<char>)
    ensures
        out@ == s@,
{
    let mut out: Vec<char> = Vec::new();
    for c in iter: s.chars()
        invariant
            out@ == s@.take(iter.index() as int),
            iter.seq() == s@,
    {
        out.push(c);
        assert(out@ =~= s@.take(iter.index() as int + 1));
    }
    assert(s@.take(s@.len() as int) =~= s@);
    out
}

/// Append `tail` to `out`.
pub fn push_chars(out: &mut String, tail: &[char])
    ensures
        final(out)@ == old(out)@ + tail@,
{
    let ghost before = out@;
    let mut i: usize = 0;
    while i < tail.len()
        invariant
            i <= tail.len(),
            out@ == before + tail@.take(i as int),
        decreases tail.len() - i,
    {
        out.push(tail[i]);
        i += 1;
        assert(tail@.take(i as int) =~= tail@.take(i - 1).push(tail@[i - 1]));
        assert(out@ =~= before + tail@.take(i as int));
    }
    assert(tail@.take(i as int) =~= tail@);
}

/// The text made of the characters `s`.
pub fn string_of(s: &[char]) -> (out: String)
    ensures
        out@ == s@,
{
    let mut out = String::new();
    push_chars(&mut out, s);
    assert(out@ =~= s@);
    out
}

/// A copy of the characters `s`.
pub fn copy_of(s: &[char]) -> (out: Vec<char>)
    ensures
        out@ == s@,
{
    let mut out: Vec<char> = Vec::new();
    let mut i: usize = 0;
    while i < s.len()
        invariant
            i <= s.len(),
            out@ == s@.take(i as int),
        decreases s.len() - i,
    {
        out.push(s[i]);
        i += 1;
        assert(out@ =~= s@.take(i as int));
    }
    assert(s@.take(i as int) =~= s@);
    out
}

/// Whether two runs of characters are the same.
pub fn same(a: &[char], b: &[char]) -> (r: bool)
    ensures
        r == (a@ == b@),
{
    if a.len() != b.len() {
        return false;
    }
    let mut i: usize = 0;
    while i < a.len()
        invariant
            i <= a.len(),
            a.len() == b.len(),
            a@.take(i as int) == b@.take(i as int),
        decreases a.len() - i,
    {
        if a[i] != b[i] {
            assert(a@[i as int] != b@[i as int]);
            return false;
        }
        i += 1;
        assert(a@.take(i as int) =~= a@.take(i - 1).push(a@[i - 1]));
        assert(b@.take(i as int) =~= b@.take(i - 1).push(b@[i - 1]));
    }
    assert(a@.take(i as int) =~= a@);
    assert(b@.take(i as int) =~= b@);
    true
}

/// Whether two texts are the same.
pub fn same_str(a: &str, b: &str) -> (r: bool)
    ensures
        r == (a@ == b@),
{
    let x = chars_of(a);
    let y = chars_of(b);
    same(&x, &y)
}

/// Whether `c` has the Unicode `White_Space` property.
pub fn is_whitespace(c: char) -> (r: bool)
    ensures
        r == model::is_whitespace(c),
{
    let u: u32 = c as u32;
    (0x9 <= u && u <= 0xd) || u == 0x20 || u == 0x85 || u == 0xa0 || u == 0x1680 || (0x2000 <= u && u
        <= 0x200a) || u == 0x2028 || u == 0x2029 || u == 0x202f || u == 0x205f || u == 0x3000
}

/// `s` without leading or trailing whitespace.
pub fn trim<'a>(s: &'a [char]) -> (out: &'a [char])
    ensures
        out@ == model::trim(s@),
{
    let mut i: usize = 0;
    assert(s@.skip(0) =~= s@);
    while i < s.len() && is_whitespace(s[i])
        invariant
            i <= s.len(),
            model::trim_start(s@) == model::trim_start(s@.skip(i as int)),
        decreases s.len() - i,
    {
        assert(s@.skip(i as int).skip(1) =~= s@.skip(i + 1));
        i += 1;
    }
    let mut j: usize = s.len();
    assert(s@.subrange(i as int, j as int) =~= s@.skip(i as int));
    while i < j && is_whitespace(s[j - 1])
        invariant
            i <= j <= s.len(),
            model::trim(s@) == model::trim_end(s@.subrange(i as int, j as int)),
        decreases j,
    {
        assert(s@.subrange(i as int, j as int).drop_last() =~= s@.subrange(i as int, j - 1));
        j -= 1;
    }
    slice_subrange(s, i, j)
}

/// `s` without the run of `c` at its end.
pub fn trim_end_of<'a>(s: &'a [char], c: char) -> (out: &'a [char])
    ensures
        out@ == model::trim_end_of(s@, c),
{
    let mut j: usize = s.len();
    assert(s@.take(j as int) =~= s@);
    while 0 < j && s[j - 1] == c
        invariant
            j <= s.len(),
            model::trim_end_of(s@, c) == model::trim_end_of(s@.take(j as int), c),
        decreases j,
    {
        assert(s@.take(j as int).drop_last() =~= s@.take(j - 1));
        j -= 1;
    }
    slice_subrange(s, 0, j)
}

/// `s` without the run of `c` at either end.
pub fn trim_of<'a>(s: &'a [char], c: char) -> (out: &'a [char])
    ensures
        out@ == model::trim_of(s@, c),
{
    let mut i: usize = 0;
    assert(s@.skip(0) =~= s@);
    while i < s.len() && s[i] == c
        invariant
            i <= s.len(),
            model::trim_start_of(s@, c) == model::trim_start_of(s@.skip(i as int), c),
        decreases s.len() - i,
    {
        assert(s@.skip(i as int).skip(1) =~= s@.skip(i + 1));
        i += 1;
    }
    let rest = slice_subrange(s, i, s.len());
    assert(rest@ =~= s@.skip(i as int));
    trim_end_of(rest, c)
}

/// The index of the first `c`, or the length of `s` when there is none.
pub fn position(s: &[char], c: char) -> (i: usize)
    ensures
        i == model::position(s@, c),
        i <= s.len(),
{
    let mut i: usize = 0;
    while i < s.len() && s[i] != c
        invariant
            i <= s.len(),
            forall|j: int| 0 <= j < i ==> #[trigger] s@[j] != c,
        decreases s.len() - i,
    {
        i += 1;
    }
    proof {
        model::lemma_position_is(s@, c, i as int);
    }
    i
}

/// What stands before the first `c`: all of `s` when there is none.
pub fn before<'a>(s: &'a [char], c: char) -> (out: &'a [char])
    ensures
        out@ == model::before(s@, c),
{
    let p = position(s, c);
    slice_subrange(s, 0, p)
}

/// The two sides of the first `c`, if there is one.
pub fn split_once<'a>(s: &'a [char], c: char) -> (out: Option<(&'a [char], &'a [char])>)
    ensures
        match out {
            Some((a, b)) => model::split_once(s@, c) == Some((a@, b@)),
            None => model::split_once(s@, c) is None,
        },
{
    let p = position(s, c);
    if p < s.len() {
        let a = slice_subrange(s, 0, p);
        let b = slice_subrange(s, p + 1, s.len());
        assert(b@ =~= s@.skip(p + 1));
        Some((a, b))
    } else {
        None
    }
}

/// What stands after the last `c`: all of `s` when there is none.
pub fn after_last<'a>(s: &'a [char], c: char) -> (out: &'a [char])
    ensures
        out@ == model::after_last(s@, c),
{
    let mut i: usize = s.len();
    while 0 < i && s[i - 1] != c
        invariant
            i <= s.len(),
            forall|j: int| i <= j < s.len() ==> #[trigger] s@[j] != c,
        decreases i,
    {
        i -= 1;
    }
    proof {
        model::lemma_after_last_is(s@, c, i as int);
    }
    let out = slice_subrange(s, i, s.len());
    assert(out@ =~= s@.skip(i as int));
    out
}

proof fn lemma_views_push(v: Seq<Vec<char>>, x: Vec<char>)
    ensures
        model::views(v.push(x)) == model::views(v).push(x@),
{
    assert(model::views(v.push(x)) =~= model::views(v).push(x@));
}

/// The pieces of `s` between the occurrences of `c`.
pub fn split(s: &[char], c: char) -> (out: Vec<Vec<char>>)
    ensures
        model::views(out@) == model::split(s@, c),
{
    let mut out: Vec<Vec<char>> = Vec::new();
    let mut rest = s;
    assert(model::views(out@) + model::split(rest@, c) =~= model::split(s@, c));
    loop
        invariant
            model::split(s@, c) == model::views(out@) + model::split(rest@, c),
        decreases rest.len(),
    {
        let ghost old_out = out@;
        let p = position(rest, c);
        let piece = copy_of(slice_subrange(rest, 0, p));
        proof {
            lemma_views_push(out@, piece);
        }
        if p < rest.len() {
            let tail = slice_subrange(rest, p + 1, rest.len());
            assert(tail@ =~= rest@.skip(p + 1));
            out.push(piece);
            assert(model::views(old_out) + (seq![piece@] + model::split(tail@, c))
                =~= model::views(out@) + model::split(tail@, c));
            rest = tail;
        } else {
            assert(piece@ =~= rest@);
            out.push(piece);
            assert(model::views(old_out) + seq![rest@] =~= model::views(out@));
            return out;
        }
    }
}

/// The lines of `s`.
pub fn lines(s: &[char]) -> (out: Vec<Vec<char>>)
    ensures
        model::views(out@) == model::lines(s@),
{
    let mut out: Vec<Vec<char>> = Vec::new();
    let mut rest = s;
    assert(model::views(out@) + model::lines(rest@) =~= model::lines(s@));
    while rest.len() > 0
        invariant
            model::lines(s@) == model::views(out@) + model::lines(rest@),
        decreases rest.len(),
    {
        let ghost old_out = out@;
        let p = position(rest, '\n');
        if p < rest.len() {
            let end: usize = if p > 0 && rest[p - 1] == '\r' {
                p - 1
            } else {
                p
            };
            let piece = copy_of(slice_subrange(rest, 0, end));
            assert(piece@ =~= model::without_return(rest@.take(p as int)));
            let tail = slice_subrange(rest, p + 1, rest.len());
            assert(tail@ =~= rest@.skip(p + 1));
            proof {
                lemma_views_push(out@, piece);
            }
            out.push(piece);
            assert(model::views(old_out) + (seq![piece@] + model::lines(tail@))
                =~= model::views(out@) + model::lines(tail@));
            rest = tail;
        } else {
            let piece = copy_of(rest);
            proof {
                lemma_views_push(out@, piece);
            }
            out.push(piece);
            assert(model::views(old_out) + seq![rest@] =~= model::views(out@));
            return out;
        }
    }
    assert(model::views(out@) + model::lines(rest@) =~= model::views(out@));
    out
}

/// The words of `s`.
pub fn words(s: &[char]) -> (out: Vec<Vec<char>>)
    ensures
        model::views(out@) == model::words(s@),
{
    let mut out: Vec<Vec<char>> = Vec::new();
    let mut rest = s;
    assert(model::views(out@) + model::words(rest@) =~= model::words(s@));
    while rest.len() > 0
        invariant
            model::words(s@) == model::views(out@) + model::words(rest@),
        decreases rest.len(),
    {
        if is_whitespace(rest[0]) {
            let tail = slice_subrange(rest, 1, rest.len());
            assert(tail@ =~= rest@.skip(1));
            rest = tail;
        } else {
            let ghost old_out = out@;
            let mut n: usize = 0;
            while n < rest.len() && !is_whitespace(rest[n])
                invariant
                    n <= rest.len(),
                    forall|j: int| 0 <= j < n ==> !model::is_whitespace(#[trigger] rest@[j]),
                decreases rest.len() - n,
            {
                n += 1;
            }
            proof {
                model::lemma_word_len_is(rest@, n as int);
            }
            assert(n > 0) by {
                if n == 0 {
                    assert(!model::is_whitespace(rest@[0]));
                }
            }
            let piece = copy_of(slice_subrange(rest, 0, n));
            let tail = slice_subrange(rest, n, rest.len());
            assert(tail@ =~= rest@.skip(n as int));
            proof {
                lemma_views_push(out@, piece);
            }
            out.push(piece);
            assert(piece@ == rest@.take(n as int));
            assert(model::views(old_out) + (seq![piece@] + model::words(tail@))
                =~= model::views(out@) + model::words(tail@));
            rest = tail;
        }
    }
    assert(model::views(out@) + model::words(rest@) =~= model::views(out@));
    out
}

/// What follows `prefix`, if `s` starts with it.
pub fn strip_prefix<'a>(s: &'a [char], prefix: &str) -> (out: Option<&'a [char]>)
    ensures
        match out {
            Some(rest) => model::strip_prefix(s@, prefix@) == Some(rest@),
            None => model::strip_prefix(s@, prefix@) is None,
        },
{
    let p = chars_of(prefix);
    if p.len() > s.len() {
        return None;
    }
    let head = slice_subrange(s, 0, p.len());
    if same(head, &p) {
        assert(p@.is_prefix_of(s@));
        let rest = slice_subrange(s, p.len(), s.len());
        assert(rest@ =~= s@.skip(p@.len() as int));
        Some(rest)
    } else {
        assert(!p@.is_prefix_of(s@));
        None
    }
}

/// What stands before `suffix`, if `s` ends with it.
pub fn strip_suffix<'a>(s: &'a [char], suffix: &str) -> (out: Option<&'a [char]>)
    ensures
        match out {
            Some(rest) => model::strip_suffix(s@, suffix@) == Some(rest@),
            None => model::strip_suffix(s@, suffix@) is None,
        },
{
    let p = chars_of(suffix);
    if p.len() > s.len() {
        return None;
    }
    let cut = s.len() - p.len();
    let tail = slice_subrange(s, cut, s.len());
    assert(tail@ =~= s@.subrange(s@.len() - p@.len(), s@.len() as int));
    if same(tail, &p) {
        Some(slice_subrange(s, 0, cut))
    } else {
        None
    }
}

/// Whether `needle` stands somewhere in `s`.
pub fn contains(s: &[char], needle: &str) -> (r: bool)
    ensures
        r == model::contains(s@, needle@),
{
    let n = chars_of(needle);
    if n.len() > s.len() {
        return false;
    }
    let last: usize = s.len() - n.len();
    let mut i: usize = 0;
    while i <= last
        invariant
            n@ == needle@,
            last + n.len() == s.len(),
            i <= last + 1,
            forall|j: int| 0 <= j < i ==> !#[trigger] model::occurs_at(s@, needle@, j),
        decreases last + 1 - i,
    {
        if same(slice_subrange(s, i, i + n.len()), &n) {
            assert(model::occurs_at(s@, needle@, i as int));
            return true;
        }
        assert(!model::occurs_at(s@, needle@, i as int));
        if i == last {
            return false;
        }
        i += 1;
    }
    false
}

/// `c` with the letters `A` to `Z` turned to lower case.
pub fn lower_char(c: char) -> (r: char)
    ensures
        r == model::lower_char(c),
{
    if 'A' <= c && c <= 'Z' {
        ((c as u8) + 32) as char
    } else {
        c
    }
}

/// `c` with the letters `a` to `z` turned to upper case.
pub fn upper_char(c: char) -> (r: char)
    ensures
        r == model::upper_char(c),
{
    if 'a' <= c && c <= 'z' {
        ((c as u8) - 32) as char
    } else {
        c
    }
}

/// `s` with the letters `A` to `Z` turned to lower case.
pub fn lower(s: &[char]) -> (out: Vec<char>)
    ensures
        out@ == model::lower(s@),
{
    let mut out: Vec<char> = Vec::new();
    let mut i: usize = 0;
    while i < s.len()
        invariant
            i <= s.len(),
            out@ == model::lower(s@.take(i as int)),
        decreases s.len() - i,
    {
        out.push(lower_char(s[i]));
        i += 1;
        assert(out@ =~= model::lower(s@.take(i as int)));
    }
    assert(s@.take(i as int) =~= s@);
    out
}

/// `s` with the letters `a` to `z` turned to upper case.
pub fn upper(s: &[char]) -> (out: Vec<char>)
    ensures
        out@ == model::upper(s@),
{
    let mut out: Vec<char> = Vec::new();
    let mut i: usize = 0;
    while i < s.len()
        invariant
            i <= s.len(),
            out@ == model::upper(s@.take(i as int)),
        decreases s.len() - i,
    {
        out.push(upper_char(s[i]));
        i += 1;
        assert(out@ =~= model::upper(s@.take(i as int)));
    }
    assert(s@.take(i as int) =~= s@);
    out
}

/// The decimal digit that stands for `d`.
fn digit(d: u64) -> (c: char)
    requires
        d < 10,
    ensures
        c == model::digit(d as nat),
{
    (0x30u8 + d as u8) as char
}

/// Append `n` in decimal to `out`.
pub fn push_decimal(out: &mut String, n: u64)
    ensures
        final(out)@ == old(out)@ + model::decimal(n as nat),
    decreases n,
{
    let ghost before = out@;
    if n >= 10 {
        push_decimal(out, n / 10);
    }
    out.push(digit(n % 10));
    assert(out@ =~= before + model::decimal(n as nat));
}

/// Append `n` in decimal to `out`, in at least two digits.
pub fn push_two_digits(out: &mut String, n: u64)
    ensures
        final(out)@ == old(out)@ + model::two_digits(n as nat),
{
    let ghost before = out@;
    if n < 10 {
        out.push('0');
        out.push(digit(n));
        assert(out@ =~= before + model::two_digits(n as nat));
    } else {
        push_decimal(out, n);
    }
}

/// `n` in decimal.
pub fn decimal(n: u64) -> (out: String)
    ensures
        out@ == model::decimal(n as nat),
{
    let mut out = String::new();
    push_decimal(&mut out, n);
    assert(out@ =~= model::decimal(n as nat));
    out
}

/// The number that `s` writes in decimal, if it is one and fits.
pub fn parse_u64(s: &[char]) -> (out: Option<u64>)
    ensures
        match out {
            Some(n) => model::parse_uint(s@, u64::MAX as nat) == Some(n as nat),
            None => model::parse_uint(s@, u64::MAX as nat) is None,
        },
{
    let d = if s.len() > 1 && s[0] == '+' {
        slice_subrange(s, 1, s.len())
    } else {
        s
    };
    assert(d@ =~= model::unsigned_part(s@));
    if d.len() == 0 {
        return None;
    }
    let mut n: u64 = 0;
    let mut i: usize = 0;
    while i < d.len()
        invariant
            i <= d.len(),
            d@ == model::unsigned_part(s@),
            model::all_digits(d@.take(i as int)),
            n == model::value(d@.take(i as int)),
        decreases d.len() - i,
    {
        let c = d[i];
        if !('0' <= c && c <= '9') {
            assert(!model::is_digit(d@[i as int]));
            return None;
        }
        let add: u64 = (c as u8 - 0x30) as u64;
        proof {
            assert(d@.take(i + 1).drop_last() =~= d@.take(i as int));
            assert(d@.take(i + 1).last() == c);
            assert(model::value(d@.take(i + 1)) == n * 10 + add);
            model::lemma_value_grows(d@, i + 1);
        }
        if n > (u64::MAX - add) / 10 {
            assert(n * 10 + add > u64::MAX);
            return None;
        }
        n = n * 10 + add;
        i += 1;
        assert forall|j: int| 0 <= j < i implies model::is_digit(#[trigger] d@.take(i as int)[j]) by {
            if j < i - 1 {
                assert(model::is_digit(d@.take(i - 1)[j]));
            }
        }
    }
    assert(d@.take(i as int) =~= d@);
    Some(n)
}

/// The number that `s` writes in decimal, if it is one and fits.
pub fn parse_u32(s: &[char]) -> (out: Option<u32>)
    ensures
        match out {
            Some(n) => model::parse_uint(s@, u32::MAX as nat) == Some(n as nat),
            None => model::parse_uint(s@, u32::MAX as nat) is None,
        },
{
    match parse_u64(s) {
        Some(n) => if n <= u32::MAX as u64 {
            Some(n as u32)
        } else {
            None
        },
        None => None,
    }
}

/// Whether `needle` stands in `s` from index `i` on.
fn occurs_at(s: &[char], needle: &[char], i: usize) -> (r: bool)
    ensures
        r == model::occurs_at(s@, needle@, i as int),
{
    if i > s.len() || needle.len() > s.len() - i {
        return false;
    }
    let end = i + needle.len();
    same(slice_subrange(s, i, end), needle)
}

/// What stands after the last `needle` in `s`: all of `s` when there is none.
pub fn after_last_str<'a>(s: &'a [char], needle: &str) -> (out: &'a [char])
    ensures
        out@ == model::after_last_str(s@, needle@, s@.len() as int),
{
    let pattern = chars_of(needle);
    let mut i: usize = s.len();
    while i > 0
        invariant
            i <= s.len(),
            pattern@ == needle@,
            model::after_last_str(s@, needle@, s@.len() as int) == model::after_last_str(
                s@,
                needle@,
                i as int,
            ),
        decreases i,
    {
        if occurs_at(s, &pattern, i) {
            let out = slice_subrange(s, i + pattern.len(), s.len());
            assert(out@ =~= s@.skip(i + pattern.len()));
            return out;
        }
        i -= 1;
    }
    if occurs_at(s, &pattern, 0) {
        let out = slice_subrange(s, pattern.len(), s.len());
        assert(out@ =~= s@.skip(0 + pattern.len()));
        return out;
    }
    assert(model::after_last_str(s@, needle@, -1) == s@);
    s
}

/// The decoding of `bytes`, if they are valid UTF-8.
///
/// `String::from_utf8`: it accepts exactly the valid UTF-8 sequences and yields the characters they
/// encode.
#[verifier::external_body]
pub(crate) fn from_utf8(bytes: Vec<u8>) -> (out: Option<String>)
    ensures
        out is Some <==> vstd::utf8::valid_utf8(bytes@),
        out matches Some(s) ==> s@ == vstd::utf8::decode_utf8(bytes@),
{
    String::from_utf8(bytes).ok()
}

/// The UTF-8 encoding of `s`.
pub fn encode(s: &str) -> (bytes: Vec<u8>)
    ensures
        bytes@ == vstd::utf8::encode_utf8(s@),
{
    slice_to_vec(s.as_bytes())
}

/// A copy of an optional text.
pub fn copy_opt(s: &Option<String>) -> (out: Option<String>)
    ensures
        out == *s,
{
    match s {
        Some(s) => Some(s.clone()),
        None => None,
    }
}

/// An optional text, borrowed.
pub fn borrow_opt(s: &Option<String>) -> (out: Option<&str>)
    ensures
        model::opt_str(out) == model::opt_view(*s),
{
    match s {
        Some(s) => Some(s.as_str()),
        None => None,
    }
}

} // verus!
