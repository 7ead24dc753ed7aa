//! What the text operations promise of every text.

use crate::text::model as text;
use vstd::prelude::*;

verus! {

/// Whether a text holds no `c`.
pub open spec fn free_of(s: Seq<char>, c: char) -> bool {
    forall|j: int| 0 <= j < s.len() ==> (#[trigger] s[j]) != c
}

/// Whether a text is whitespace all through.
pub open spec fn blank(s: Seq<char>) -> bool {
    forall|j: int| 0 <= j < s.len() ==> text::is_whitespace(#[trigger] s[j])
}

/// Whether a text holds no whitespace.
pub open spec fn solid(s: Seq<char>) -> bool {
    forall|j: int| 0 <= j < s.len() ==> !text::is_whitespace(#[trigger] s[j])
}

/// Whether a text neither begins nor ends with whitespace.
pub open spec fn tight(s: Seq<char>) -> bool {
    s.len() > 0 ==> !text::is_whitespace(s[0]) && !text::is_whitespace(s.last())
}

/// A text is cut at the first `c`, and the two sides are kept whole; where there is no `c` it is not cut.
pub proof fn law_split_once_cuts_at_the_first(a: Seq<char>, c: char, b: Seq<char>)
    requires
        free_of(a, c),
    ensures
        text::split_once(a + seq![c] + b, c) == Some((a, b)),
        text::before(a + seq![c] + b, c) == a,
        text::split_once(a, c) is None,
        text::before(a, c) == a,
{
    let s = a + seq![c] + b;
    assert forall|j: int| 0 <= j < a.len() implies (#[trigger] s[j]) != c by {
        assert(s[j] == a[j]);
    }
    assert(s[a.len() as int] == c);
    text::lemma_position_is(s, c, a.len() as int);
    assert(s.take(a.len() as int) =~= a);
    assert(s.skip(a.len() as int + 1) =~= b);
    text::lemma_position_is(a, c, a.len() as int);
    assert(a.take(a.len() as int) =~= a);
}

/// The first piece of a text is what stands before the first `c`, and the other pieces are those of what
/// stands behind it; a text without `c` is one piece.
pub proof fn law_split_takes_off_a_piece(a: Seq<char>, c: char, b: Seq<char>)
    requires
        free_of(a, c),
    ensures
        text::split(a + seq![c] + b, c) == seq![a] + text::split(b, c),
        text::split(a, c) == seq![a],
        text::after_last(a, c) == a,
{
    law_split_once_cuts_at_the_first(a, c, b);
    let s = a + seq![c] + b;
    assert forall|j: int| 0 <= j < a.len() implies (#[trigger] s[j]) != c by {
        assert(s[j] == a[j]);
    }
    assert(s[a.len() as int] == c);
    text::lemma_position_is(s, c, a.len() as int);
    text::lemma_position_is(a, c, a.len() as int);
    assert(s.take(a.len() as int) =~= a);
    assert(s.skip(a.len() as int + 1) =~= b);
}

/// The last piece of a text is what stands behind the last `c`.
pub proof fn law_after_last_is_behind_the_last(a: Seq<char>, c: char, b: Seq<char>)
    requires
        free_of(b, c),
    ensures
        text::after_last(a + seq![c] + b, c) == b,
{
    let s = a + seq![c] + b;
    let i = a.len() as int + 1;
    assert forall|j: int| i <= j < s.len() implies (#[trigger] s[j]) != c by {
        assert(s[j] == b[j - i]);
    }
    assert(s[i - 1] == c);
    text::lemma_after_last_is(s, c, i);
    assert(s.skip(i) =~= b);
}

/// Trimming takes off the whitespace at both ends, and nothing else.
pub proof fn law_trim_takes_off_whitespace(a: Seq<char>, s: Seq<char>, b: Seq<char>)
    requires
        blank(a),
        tight(s),
        blank(b),
    ensures
        text::trim(a + s + b) == s,
{
    lemma_trim_start(a, s + b);
    assert(a + (s + b) =~= a + s + b);
    if s.len() > 0 {
        assert((s + b)[0] == s[0]);
        assert(text::trim_start(s + b) == s + b);
        lemma_trim_end(s, b);
        assert(text::trim_end(s) == s);
    } else {
        assert(s + b =~= b);
        lemma_trim_start(b, Seq::empty());
        assert(b + Seq::<char>::empty() =~= b);
        assert(text::trim_start(Seq::<char>::empty()) =~= Seq::<char>::empty());
        assert(text::trim_end(Seq::<char>::empty()) =~= s);
    }
}

proof fn lemma_trim_start(a: Seq<char>, s: Seq<char>)
    requires
        blank(a),
    ensures
        text::trim_start(a + s) == text::trim_start(s),
    decreases a.len(),
{
    if a.len() > 0 {
        let t = a + s;
        assert(t[0] == a[0]);
        assert(t.skip(1) =~= a.skip(1) + s);
        lemma_trim_start(a.skip(1), s);
    } else {
        assert(a + s =~= s);
    }
}

proof fn lemma_trim_end(s: Seq<char>, b: Seq<char>)
    requires
        blank(b),
    ensures
        text::trim_end(s + b) == text::trim_end(s),
    decreases b.len(),
{
    if b.len() > 0 {
        let t = s + b;
        assert(t.last() == b.last());
        assert(text::is_whitespace(b[b.len() - 1]));
        assert(t.drop_last() =~= s + b.drop_last());
        lemma_trim_end(s, b.drop_last());
    } else {
        assert(s + b =~= s);
    }
}

/// Whether a text is made of `c` all through.
pub open spec fn run_of(s: Seq<char>, c: char) -> bool {
    forall|j: int| 0 <= j < s.len() ==> (#[trigger] s[j]) == c
}

/// Trimming a character takes off its runs at both ends, and nothing else.
pub proof fn law_trim_of_takes_off_runs(a: Seq<char>, s: Seq<char>, b: Seq<char>, c: char)
    requires
        run_of(a, c),
        s.len() > 0,
        s[0] != c,
        s.last() != c,
        run_of(b, c),
    ensures
        text::trim_of(a + s + b, c) == s,
        text::trim_end_of(s + b, c) == s,
{
    lemma_trim_start_of(a, s + b, c);
    assert(a + (s + b) =~= a + s + b);
    assert((s + b)[0] == s[0]);
    assert(text::trim_start_of(s + b, c) == s + b);
    lemma_trim_end_of(s, b, c);
    assert(text::trim_end_of(s, c) == s);
}

proof fn lemma_trim_start_of(a: Seq<char>, s: Seq<char>, c: char)
    requires
        run_of(a, c),
    ensures
        text::trim_start_of(a + s, c) == text::trim_start_of(s, c),
    decreases a.len(),
{
    if a.len() > 0 {
        let t = a + s;
        assert(t[0] == a[0]);
        assert(t.skip(1) =~= a.skip(1) + s);
        lemma_trim_start_of(a.skip(1), s, c);
    } else {
        assert(a + s =~= s);
    }
}

proof fn lemma_trim_end_of(s: Seq<char>, b: Seq<char>, c: char)
    requires
        run_of(b, c),
    ensures
        text::trim_end_of(s + b, c) == text::trim_end_of(s, c),
    decreases b.len(),
{
    if b.len() > 0 {
        let t = s + b;
        assert(t.last() == b.last());
        assert(b[b.len() - 1] == c);
        assert(t.drop_last() =~= s + b.drop_last());
        lemma_trim_end_of(s, b.drop_last(), c);
    } else {
        assert(s + b =~= s);
    }
}

/// A text that begins with a prefix is that prefix and the rest, and only such a text is.
pub proof fn law_prefix_and_rest(s: Seq<char>, prefix: Seq<char>, rest: Seq<char>)
    ensures
        text::strip_prefix(prefix + rest, prefix) == Some(rest),
        text::strip_prefix(s, prefix) == Some(rest) ==> s == prefix + rest,
        text::strip_suffix(rest + prefix, prefix) == Some(rest),
        text::strip_suffix(s, prefix) == Some(rest) ==> s == rest + prefix,
{
    let t = prefix + rest;
    assert(t.take(prefix.len() as int) =~= prefix);
    assert(t.subrange(0, prefix.len() as int) =~= prefix);
    assert(t.skip(prefix.len() as int) =~= rest);
    let u = rest + prefix;
    assert(u.subrange(u.len() - prefix.len(), u.len() as int) =~= prefix);
    assert(u.take(u.len() - prefix.len()) =~= rest);
    if text::strip_prefix(s, prefix) == Some(rest) {
        assert(s =~= prefix + rest);
    }
    if text::strip_suffix(s, prefix) == Some(rest) {
        assert(s =~= rest + prefix);
    }
}

/// The words of a text are those that whitespace separates, in order: a word comes first where it stands first,
/// and whitespace before it is no part of it.
pub proof fn law_words_are_what_whitespace_separates(
    a: Seq<char>,
    word: Seq<char>,
    b: Seq<char>,
    rest: Seq<char>,
)
    requires
        blank(a),
        word.len() > 0,
        solid(word),
        blank(b),
        b.len() > 0 || rest.len() == 0,
    ensures
        text::words(a + word + b + rest) == seq![word] + text::words(rest),
        text::words(a) == Seq::<Seq<char>>::empty(),
{
    lemma_words_blank(a, word + b + rest);
    lemma_words_blank(b, rest);
    assert(a + (word + b + rest) =~= a + word + b + rest);
    assert(word + (b + rest) =~= word + b + rest);
    if (b + rest).len() > 0 {
        assert((b + rest)[0] == b[0]);
    }
    text::lemma_first_word(word, b + rest);
    lemma_words_blank(a, Seq::empty());
    assert(a + Seq::<char>::empty() =~= a);
}

proof fn lemma_words_blank(a: Seq<char>, s: Seq<char>)
    requires
        blank(a),
    ensures
        text::words(a + s) == text::words(s),
    decreases a.len(),
{
    if a.len() > 0 {
        let t = a + s;
        assert(t[0] == a[0]);
        assert(t.skip(1) =~= a.skip(1) + s);
        lemma_words_blank(a.skip(1), s);
    } else {
        assert(a + s =~= s);
    }
}

/// The lines of a text are those that line feeds end, in order, and a carriage return before a line feed is no
/// part of a line.
pub proof fn law_lines_are_what_line_feeds_end(line: Seq<char>, rest: Seq<char>)
    requires
        free_of(line, '\n'),
    ensures
        line.len() == 0 || line.last() != '\r' ==> text::lines(line + seq!['\n'] + rest) == seq![line] + text::lines(
            rest,
        ),
        text::lines(line + seq!['\r', '\n'] + rest) == seq![line] + text::lines(rest),
        line.len() > 0 ==> text::lines(line) == seq![line],
        text::lines(Seq::empty()) == Seq::<Seq<char>>::empty(),
{
    law_split_once_cuts_at_the_first(line, '\n', rest);
    let s = line + seq!['\n'] + rest;
    lemma_line(line, rest);
    let longer = line.push('\r');
    assert(free_of(longer, '\n'));
    lemma_line(longer, rest);
    assert(longer + seq!['\n'] + rest =~= line + seq!['\r', '\n'] + rest);
    assert(longer.drop_last() =~= line);
    text::lemma_position_is(line, '\n', line.len() as int);
}

proof fn lemma_line(line: Seq<char>, rest: Seq<char>)
    requires
        free_of(line, '\n'),
    ensures
        text::lines(line + seq!['\n'] + rest) == seq![text::without_return(line)] + text::lines(rest),
{
    let s = line + seq!['\n'] + rest;
    assert forall|j: int| 0 <= j < line.len() implies (#[trigger] s[j]) != '\n' by {
        assert(s[j] == line[j]);
    }
    assert(s[line.len() as int] == '\n');
    text::lemma_position_is(s, '\n', line.len() as int);
    assert(s.take(line.len() as int) =~= line);
    assert(s.skip(line.len() as int + 1) =~= rest);
}

/// Letters from `A` to `Z` turn to lower case and those from `a` to `z` to upper case, one by one, and nothing
/// else changes.
pub proof fn law_letter_case(s: Seq<char>, i: int)
    requires
        0 <= i < s.len(),
    ensures
        text::lower(s).len() == s.len(),
        text::upper(s).len() == s.len(),
        'A' <= s[i] <= 'Z' ==> text::lower(s)[i] as int == s[i] as int + 32,
        !('A' <= s[i] <= 'Z') ==> text::lower(s)[i] == s[i],
        'a' <= s[i] <= 'z' ==> text::upper(s)[i] as int == s[i] as int - 32,
        !('a' <= s[i] <= 'z') ==> text::upper(s)[i] == s[i],
{
    lemma_letter_case(s[i]);
}

proof fn lemma_letter_case(c: char)
    ensures
        'A' <= c <= 'Z' ==> text::lower_char(c) as int == c as int + 32,
        'a' <= c <= 'z' ==> text::upper_char(c) as int == c as int - 32,
{
}

/// The value of a text of digits: that of all but the last digit, ten times, and the last one.
pub proof fn law_number_is_read_digit_by_digit(s: Seq<char>, d: nat, max: nat)
    requires
        text::all_digits(s),
        d < 10,
        text::value(s) * 10 + d <= max,
    ensures
        text::parse_uint(seq![text::digit(d)], max) == Some(d),
        s.len() > 0 ==> text::parse_uint(s.push(text::digit(d)), max) == Some((text::value(s) * 10 + d) as nat),
        s.len() > 0 ==> text::parse_uint(s, max) == Some(text::value(s)),
{
    let one = seq![text::digit(d)];
    assert(text::is_digit(text::digit(d)));
    assert(text::all_digits(one));
    assert(one.drop_last() =~= Seq::<char>::empty());
    assert(text::value(Seq::<char>::empty()) == 0);
    assert(text::value(one) == d);
    assert(text::unsigned_part(one) == one);
    if s.len() > 0 {
        let t = s.push(text::digit(d));
        assert(t.drop_last() =~= s);
        assert(text::is_digit(s[0]));
        assert(t[0] == s[0]);
        assert(text::all_digits(t));
        assert(text::unsigned_part(t) == t);
        assert(text::unsigned_part(s) == s);
    }
}

/// What is not a run of digits, a plus sign before it aside, is no number, and neither is one over the bound.
pub proof fn law_only_digits_are_a_number(s: Seq<char>, i: int, max: nat)
    requires
        0 <= i < s.len(),
        !text::is_digit(s[i]),
        i > 0 || s[i] != '+',
    ensures
        text::parse_uint(s, max) is None,
        text::parse_uint(Seq::empty(), max) is None,
{
    let d = text::unsigned_part(s);
    if i > 0 && d.len() < s.len() {
        assert(d[i - 1] == s[i]);
    } else {
        assert(d == s || i > 0);
    }
}

/// Numbers are written in decimal so that they read back.
pub proof fn law_decimal_reads_back(n: nat, max: nat)
    requires
        n <= max,
    ensures
        text::parse_uint(text::decimal(n), max) == Some(n),
        text::all_digits(text::decimal(n)),
        text::decimal(n).len() > 0,
        text::decimal(n).len() > 1 ==> text::decimal(n)[0] != '0',
{
    text::lemma_parse_decimal(n, max);
    text::lemma_decimal(n);
    lemma_no_leading_zero(n);
}

proof fn lemma_no_leading_zero(n: nat)
    ensures
        n > 0 ==> text::decimal(n)[0] != '0',
        text::decimal(n).len() > 0,
        text::decimal(n).len() > 1 ==> n > 0,
    decreases n,
{
    if n >= 10 {
        lemma_no_leading_zero(n / 10);
        assert(text::decimal(n)[0] == text::decimal(n / 10)[0]);
    }
}

/// A needle is found exactly where a text holds it.
pub proof fn law_contains_what_it_holds(a: Seq<char>, needle: Seq<char>, b: Seq<char>)
    ensures
        text::contains(a + needle + b, needle),
{
    let s = a + needle + b;
    let i = a.len() as int;
    assert(s.subrange(i, i + needle.len()) =~= needle);
    assert(text::occurs_at(s, needle, i));
}

/// What follows the last place where a needle stands.
pub proof fn law_after_last_str_is_behind_it(a: Seq<char>, needle: Seq<char>, b: Seq<char>)
    requires
        needle.len() > 0,
        forall|i: int| a.len() < i <= (a + needle + b).len() ==> !#[trigger] text::occurs_at(a + needle + b, needle, i),
    ensures
        text::after_last_str(a + needle + b, needle, (a + needle + b).len() as int) == b,
{
    let s = a + needle + b;
    lemma_after_last_str(s, needle, a.len() as int, s.len() as int);
    assert(s.subrange(a.len() as int, a.len() as int + needle.len()) =~= needle);
    assert(text::occurs_at(s, needle, a.len() as int));
    assert(s.skip(a.len() as int + needle.len()) =~= b);
}

proof fn lemma_after_last_str(s: Seq<char>, needle: Seq<char>, at: int, i: int)
    requires
        0 <= at <= i,
        forall|k: int| at < k <= i ==> !#[trigger] text::occurs_at(s, needle, k),
    ensures
        text::after_last_str(s, needle, i) == text::after_last_str(s, needle, at),
    decreases i - at,
{
    if i > at {
        lemma_after_last_str(s, needle, at, i - 1);
    }
}

} // verus!
