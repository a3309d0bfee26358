//! Text as sequences of characters: conversion between strings and character
//! vectors, searching, trimming, splitting into lines, and reading and writing
//! decimal numbers.

use vstd::prelude::*;

verus! {

/// Calls `String::push`, which appends one character to the end of the string
/// and leaves the characters before it as they were.
#[verifier::external_body]
fn push_char(s: &mut String, c: char)
    ensures
        final(s)@ == old(s)@.push(c),
{
    s.push(c)
}

/// The characters of `s`, in order.
pub fn chars_of(s: &str) -> (out: Vec<char>)
    ensures
        out@ == s@,
{
    let mut out: Vec<char> = Vec::new();
    for c in it: s.chars()
        invariant
            it.seq() == s@,
            out@ == s@.take(it.index() as int),
    {
        out.push(c);
        proof {
            assert(s@.take(it.index() + 1) =~= s@.take(it.index() as int).push(c));
        }
    }
    proof {
        assert(s@.take(s@.len() as int) =~= s@);
    }
    out
}

/// The string made of the characters of `v`, in order.
pub fn string_of(v: &Vec<char>) -> (out: String)
    ensures
        out@ == v@,
{
    let mut out = String::new();
    let mut i: usize = 0;
    while i < v.len()
        invariant
            i <= v@.len(),
            out@ == v@.take(i as int),
        decreases v@.len() - i,
    {
        push_char(&mut out, v[i]);
        proof {
            assert(v@.take(i + 1) =~= v@.take(i as int).push(v@[i as int]));
        }
        i += 1;
    }
    proof {
        assert(v@.take(v@.len() as int) =~= v@);
    }
    out
}

/// Where `needle` stands at position `at` of `hay`.
pub open spec fn occurs_at(hay: Seq<char>, needle: Seq<char>, at: int) -> bool {
    &&& 0 <= at
    &&& at + needle.len() <= hay.len()
    &&& hay.subrange(at, at + needle.len()) == needle
}

/// Whether `needle` stands somewhere in `hay`.
pub open spec fn occurs(hay: Seq<char>, needle: Seq<char>) -> bool {
    exists|at: int| occurs_at(hay, needle, at)
}

/// Whether `at` is the leftmost position of `hay` at which `needle` stands.
pub open spec fn is_first_occurrence(hay: Seq<char>, needle: Seq<char>, at: int) -> bool {
    &&& occurs_at(hay, needle, at)
    &&& forall|earlier: int| 0 <= earlier < at ==> !occurs_at(hay, needle, earlier)
}

/// The leftmost position of `hay` at which `needle` stands, if there is one.
pub open spec fn first_index(hay: Seq<char>, needle: Seq<char>) -> Option<int> {
    if exists|at: int| is_first_occurrence(hay, needle, at) {
        Some(choose|at: int| is_first_occurrence(hay, needle, at))
    } else {
        None
    }
}

/// A leftmost occurrence is the one that `first_index` names.
pub proof fn lemma_first_index_is(hay: Seq<char>, needle: Seq<char>, at: int)
    requires
        is_first_occurrence(hay, needle, at),
    ensures
        first_index(hay, needle) == Some(at),
{
    let chosen = choose|c: int| is_first_occurrence(hay, needle, c);
    assert(is_first_occurrence(hay, needle, chosen));
    if chosen < at {
        assert(!occurs_at(hay, needle, chosen));
    }
    if at < chosen {
        assert(!occurs_at(hay, needle, at));
    }
}

/// Where `needle` stands nowhere in `hay`, `first_index` names no position.
pub proof fn lemma_first_index_none(hay: Seq<char>, needle: Seq<char>)
    requires
        !occurs(hay, needle),
    ensures
        first_index(hay, needle) is None,
{
    if exists|at: int| is_first_occurrence(hay, needle, at) {
        let at = choose|at: int| is_first_occurrence(hay, needle, at);
        assert(occurs_at(hay, needle, at));
    }
}

/// Whether `needle` stands at position `at` of `hay`.
pub fn matches_at(hay: &Vec<char>, needle: &Vec<char>, at: usize) -> (found: bool)
    requires
        at + needle@.len() <= hay@.len(),
    ensures
        found == occurs_at(hay@, needle@, at as int),
{
    let n = needle.len();
    let total = hay.len();
    let mut k: usize = 0;
    while k < n
        invariant
            at + n <= total,
            n == needle@.len(),
            total == hay@.len(),
            k <= n,
            forall|j: int| 0 <= j < k ==> hay@[at + j] == needle@[j],
        decreases n - k,
    {
        if hay[at + k] != needle[k] {
            proof {
                let sub = hay@.subrange(at as int, at + n);
                assert(sub[k as int] == hay@[at + k]);
            }
            return false;
        }
        k += 1;
    }
    proof {
        assert(hay@.subrange(at as int, at + n) =~= needle@);
    }
    true
}

/// The leftmost position of `hay` at which `needle` stands.
pub fn find(hay: &Vec<char>, needle: &Vec<char>) -> (found: Option<usize>)
    ensures
        match found {
            Some(at) => first_index(hay@, needle@) == Some(at as int) && is_first_occurrence(
                hay@,
                needle@,
                at as int,
            ),
            None => first_index(hay@, needle@) is None,
        },
        found is Some <==> occurs(hay@, needle@),
{
    let n = needle.len();
    let total = hay.len();
    if n > total {
        proof {
            lemma_first_index_none(hay@, needle@);
        }
        return None;
    }
    let last = total - n;
    let mut at: usize = 0;
    while at < last
        invariant
            n == needle@.len(),
            total == hay@.len(),
            last == total - n,
            at <= last,
            forall|earlier: int| 0 <= earlier < at ==> !occurs_at(hay@, needle@, earlier),
        decreases last - at,
    {
        if matches_at(hay, needle, at) {
            proof {
                lemma_first_index_is(hay@, needle@, at as int);
            }
            return Some(at);
        }
        at += 1;
    }
    if matches_at(hay, needle, last) {
        proof {
            lemma_first_index_is(hay@, needle@, last as int);
        }
        return Some(last);
    }
    proof {
        lemma_first_index_none(hay@, needle@);
    }
    None
}

/// Appends the characters of `src` from `from` up to `to` to `out`.
pub fn append_range(out: &mut Vec<char>, src: &Vec<char>, from: usize, to: usize)
    requires
        from <= to <= src@.len(),
    ensures
        final(out)@ == old(out)@ + src@.subrange(from as int, to as int),
{
    let mut i: usize = from;
    while i < to
        invariant
            from <= i <= to,
            to <= src@.len(),
            out@ == old(out)@ + src@.subrange(from as int, i as int),
        decreases to - i,
    {
        out.push(src[i]);
        proof {
            assert(src@.subrange(from as int, i + 1) =~= src@.subrange(from as int, i as int).push(
                src@[i as int],
            ));
            assert(out@ =~= old(out)@ + src@.subrange(from as int, i + 1));
        }
        i += 1;
    }
}

/// Appends all the characters of `src` to `out`.
pub fn append_all(out: &mut Vec<char>, src: &Vec<char>)
    ensures
        final(out)@ == old(out)@ + src@,
{
    append_range(out, src, 0, src.len());
    proof {
        assert(src@.subrange(0, src@.len() as int) =~= src@);
    }
}

/// Appends the characters of the string `src` to `out`.
pub fn append_str(out: &mut Vec<char>, src: &str)
    ensures
        final(out)@ == old(out)@ + src@,
{
    let chars = chars_of(src);
    append_all(out, &chars);
}

/// Whether `c` is white space: the characters that `trimmed` strips.
pub open spec fn is_space(c: char) -> bool {
    let code = c as u32;
    ||| 0x09 <= code <= 0x0D
    ||| code == 0x20
    ||| code == 0x85
    ||| code == 0xA0
    ||| code == 0x1680
    ||| 0x2000 <= code <= 0x200A
    ||| code == 0x2028
    ||| code == 0x2029
    ||| code == 0x202F
    ||| code == 0x205F
    ||| code == 0x3000
}

/// `s` without its leading white space.
pub open spec fn trimmed_start(s: Seq<char>) -> Seq<char>
    decreases s.len(),
{
    if s.len() > 0 && is_space(s[0]) {
        trimmed_start(s.skip(1))
    } else {
        s
    }
}

/// `s` without its trailing white space.
pub open spec fn trimmed_end(s: Seq<char>) -> Seq<char>
    decreases s.len(),
{
    if s.len() > 0 && is_space(s.last()) {
        trimmed_end(s.drop_last())
    } else {
        s
    }
}

/// `s` without its leading and trailing white space.
pub open spec fn trimmed(s: Seq<char>) -> Seq<char> {
    trimmed_end(trimmed_start(s))
}

/// Whether `c` is white space.
pub fn is_whitespace(c: char) -> (space: bool)
    ensures
        space == is_space(c),
{
    let code: u32 = c as u32;
    (0x09 <= code && code <= 0x0D) || code == 0x20 || code == 0x85 || code == 0xA0 || code
        == 0x1680 || (0x2000 <= code && code <= 0x200A) || code == 0x2028 || code == 0x2029
        || code == 0x202F || code == 0x205F || code == 0x3000
}

/// `v` without its leading and trailing white space.
pub fn trim(v: &Vec<char>) -> (out: Vec<char>)
    ensures
        out@ == trimmed(v@),
{
    let total = v.len();
    let mut from: usize = 0;
    proof {
        assert(v@.skip(0) =~= v@);
    }
    while from < total && is_whitespace(v[from])
        invariant
            total == v@.len(),
            from <= total,
            trimmed_start(v@) == trimmed_start(v@.skip(from as int)),
        decreases total - from,
    {
        proof {
            assert(v@.skip(from as int).skip(1) =~= v@.skip(from + 1));
        }
        from += 1;
    }
    proof {
        assert(v@.skip(from as int).len() == total - from);
        if from < total {
            assert(v@.skip(from as int)[0] == v@[from as int]);
        }
        assert(trimmed_start(v@) == v@.skip(from as int));
        assert(v@.skip(from as int) =~= v@.subrange(from as int, total as int));
    }
    let mut to: usize = total;
    while to > from && is_whitespace(v[to - 1])
        invariant
            total == v@.len(),
            from <= to <= total,
            trimmed(v@) == trimmed_end(v@.subrange(from as int, to as int)),
        decreases to - from,
    {
        proof {
            assert(v@.subrange(from as int, to as int).drop_last() =~= v@.subrange(
                from as int,
                to - 1,
            ));
            assert(v@.subrange(from as int, to as int).last() == v@[to - 1]);
        }
        to -= 1;
    }
    proof {
        if to > from {
            assert(v@.subrange(from as int, to as int).last() == v@[to - 1]);
        }
    }
    let mut out: Vec<char> = Vec::new();
    append_range(&mut out, v, from, to);
    proof {
        assert(out@ =~= v@.subrange(from as int, to as int));
    }
    out
}

/// The value of the decimal digit `c`.
pub open spec fn digit_value(c: char) -> int {
    c as u32 - 0x30
}

/// Whether `c` is one of the decimal digits `0` to `9`.
pub open spec fn is_digit(c: char) -> bool {
    0x30 <= c as u32 <= 0x39
}

/// Whether `s` holds decimal digits only.
pub open spec fn all_digits(s: Seq<char>) -> bool {
    forall|i: int| 0 <= i < s.len() ==> is_digit(#[trigger] s[i])
}

/// The number that the decimal digits `s` write, leading zeros allowed.
pub open spec fn digits_value(s: Seq<char>) -> nat
    decreases s.len(),
{
    if s.len() == 0 {
        0
    } else {
        (digits_value(s.drop_last()) * 10 + digit_value(s.last())) as nat
    }
}

/// The non-negative number that `s` writes in decimal: one or more digits, with
/// an optional plus sign before them. Anything else writes no number.
pub open spec fn parsed_unsigned(s: Seq<char>) -> Option<nat> {
    let body = if s.len() > 0 && s[0] == '+' {
        s.skip(1)
    } else {
        s
    };
    if body.len() > 0 && all_digits(body) {
        Some(digits_value(body))
    } else {
        None
    }
}

/// The number that `s` writes in decimal: one or more digits, with an optional
/// plus or minus sign before them. Anything else writes no number.
pub open spec fn parsed_signed(s: Seq<char>) -> Option<int> {
    if s.len() > 0 && s[0] == '-' {
        if s.len() > 1 && all_digits(s.skip(1)) {
            Some(-(digits_value(s.skip(1)) as int))
        } else {
            None
        }
    } else {
        match parsed_unsigned(s) {
            Some(value) => Some(value as int),
            None => None,
        }
    }
}

/// The `i32` that `s` writes in decimal, if it writes one that fits.
pub open spec fn parsed_i32(s: Seq<char>) -> Option<i32> {
    match parsed_signed(s) {
        Some(value) => if i32::MIN <= value <= i32::MAX {
            Some(value as i32)
        } else {
            None
        },
        None => None,
    }
}

/// The `usize` that `s` writes in decimal, if it writes one that fits.
pub open spec fn parsed_usize(s: Seq<char>) -> Option<usize> {
    match parsed_unsigned(s) {
        Some(value) => if value <= usize::MAX {
            Some(value as usize)
        } else {
            None
        },
        None => None,
    }
}

/// The digits read so far never write more than the whole does.
proof fn lemma_digits_value_grows(s: Seq<char>, i: int)
    requires
        0 <= i <= s.len(),
        all_digits(s),
    ensures
        digits_value(s.take(i)) <= digits_value(s),
    decreases s.len() - i,
{
    if i == s.len() {
        assert(s.take(i) =~= s);
    } else {
        assert forall|j: int| 0 <= j < s.drop_last().len() implies is_digit(
            #[trigger] s.drop_last()[j],
        ) by {
            assert(s.drop_last()[j] == s[j]);
        }
        lemma_digits_value_grows(s.drop_last(), i);
        assert(s.drop_last().take(i) =~= s.take(i));
        assert(is_digit(s[s.len() - 1]));
    }
}

/// The number that the digits of `v` from `from` on write, where it is at most
/// `max`; `None` where there is no digit, another character, or a larger number.
fn parse_digits(v: &Vec<char>, from: usize, max: u64) -> (value: Option<u64>)
    requires
        from <= v@.len(),
    ensures
        value == if v@.len() > from && all_digits(v@.skip(from as int)) && digits_value(
            v@.skip(from as int),
        ) <= max {
            Some(digits_value(v@.skip(from as int)) as u64)
        } else {
            None
        },
{
    let total = v.len();
    if from == total {
        return None;
    }
    let ghost body = v@.skip(from as int);
    let mut acc: u128 = 0;
    let mut i: usize = from;
    while i < total
        invariant
            total == v@.len(),
            from <= i <= total,
            body == v@.skip(from as int),
            all_digits(body.take(i - from)),
            acc == digits_value(body.take(i - from)),
            acc <= max,
        decreases total - i,
    {
        let code: u32 = v[i] as u32;
        if code < 0x30 || code > 0x39 {
            proof {
                assert(body[i - from] == v@[i as int]);
                assert(!is_digit(body[i - from]));
            }
            return None;
        }
        let digit: u128 = (code - 0x30) as u128;
        let next: u128 = acc * 10 + digit;
        proof {
            assert(body.take(i - from + 1).drop_last() =~= body.take(i - from));
            assert(body.take(i - from + 1).last() == v@[i as int]);
            assert(next == digits_value(body.take(i - from + 1)));
            assert forall|j: int| 0 <= j < i - from + 1 implies is_digit(
                #[trigger] body.take(i - from + 1)[j],
            ) by {
                if j < i - from {
                    assert(body.take(i - from + 1)[j] == body.take(i - from)[j]);
                }
            }
        }
        if next > max as u128 {
            proof {
                if all_digits(body) {
                    lemma_digits_value_grows(body, i - from + 1);
                }
            }
            return None;
        }
        acc = next;
        i += 1;
    }
    proof {
        assert(body.take(total - from) =~= body);
    }
    Some(acc as u64)
}

/// Reads `v` as an `i32` written in decimal.
pub fn parse_i32(v: &Vec<char>) -> (value: Option<i32>)
    ensures
        value == parsed_i32(v@),
{
    if v.len() > 0 && v[0] == '-' {
        match parse_digits(v, 1, 0x8000_0000) {
            Some(magnitude) => {
                let wide: i64 = 0 - (magnitude as i64);
                Some(wide as i32)
            },
            None => None,
        }
    } else {
        let from: usize = if v.len() > 0 && v[0] == '+' {
            1
        } else {
            0
        };
        proof {
            assert(v@.skip(0) =~= v@);
        }
        match parse_digits(v, from, 0x7fff_ffff) {
            Some(magnitude) => Some(magnitude as i32),
            None => None,
        }
    }
}

/// The `u32` that `s` writes in decimal, if it writes one that fits.
pub open spec fn parsed_u32(s: Seq<char>) -> Option<u32> {
    match parsed_unsigned(s) {
        Some(value) => if value <= u32::MAX {
            Some(value as u32)
        } else {
            None
        },
        None => None,
    }
}

/// Reads `v` as a `u32` written in decimal.
pub fn parse_u32(v: &Vec<char>) -> (value: Option<u32>)
    ensures
        value == parsed_u32(v@),
{
    let from: usize = if v.len() > 0 && v[0] == '+' {
        1
    } else {
        0
    };
    proof {
        assert(v@.skip(0) =~= v@);
    }
    match parse_digits(v, from, 0xffff_ffff) {
        Some(magnitude) => Some(magnitude as u32),
        None => None,
    }
}

/// Reads `v` as a `usize` written in decimal.
pub fn parse_usize(v: &Vec<char>) -> (value: Option<usize>)
    ensures
        value == parsed_usize(v@),
{
    let from: usize = if v.len() > 0 && v[0] == '+' {
        1
    } else {
        0
    };
    proof {
        assert(v@.skip(0) =~= v@);
    }
    match parse_digits(v, from, usize::MAX as u64) {
        Some(magnitude) => Some(magnitude as usize),
        None => None,
    }
}

/// Whether `v` begins with `prefix`.
pub fn starts_with(v: &Vec<char>, prefix: &Vec<char>) -> (yes: bool)
    ensures
        yes == occurs_at(v@, prefix@, 0),
{
    if prefix.len() > v.len() {
        return false;
    }
    matches_at(v, prefix, 0)
}

/// Whether `v` ends with `suffix`.
pub fn ends_with(v: &Vec<char>, suffix: &Vec<char>) -> (yes: bool)
    ensures
        yes == occurs_at(v@, suffix@, v@.len() - suffix@.len()),
{
    if suffix.len() > v.len() {
        return false;
    }
    matches_at(v, suffix, v.len() - suffix.len())
}

/// Whether `v` and `w` hold the same characters.
pub fn same_chars(v: &Vec<char>, w: &Vec<char>) -> (same: bool)
    ensures
        same == (v@ == w@),
{
    if v.len() != w.len() {
        return false;
    }
    let same = matches_at(v, w, 0);
    proof {
        assert(v@.subrange(0, v@.len() as int) =~= v@);
    }
    same
}

/// The character of the decimal digit `d`.
pub open spec fn digit(d: int) -> char {
    seq!['0', '1', '2', '3', '4', '5', '6', '7', '8', '9'][d]
}

/// The decimal digits of `n`, most significant first, without leading zeros.
pub open spec fn digits(n: nat) -> Seq<char>
    decreases n,
{
    if n < 10 {
        seq![digit(n as int)]
    } else {
        digits(n / 10).push(digit((n % 10) as int))
    }
}

/// `n` written in decimal, with a minus sign where it is negative.
pub open spec fn decimal(n: int) -> Seq<char> {
    if n < 0 {
        seq!['-'] + digits((-n) as nat)
    } else {
        digits(n as nat)
    }
}

fn digit_of(d: u64) -> (c: char)
    requires
        d < 10,
    ensures
        c == digit(d as int),
{
    if d == 0 {
        '0'
    } else if d == 1 {
        '1'
    } else if d == 2 {
        '2'
    } else if d == 3 {
        '3'
    } else if d == 4 {
        '4'
    } else if d == 5 {
        '5'
    } else if d == 6 {
        '6'
    } else if d == 7 {
        '7'
    } else if d == 8 {
        '8'
    } else {
        '9'
    }
}

/// Appends the decimal digits of `n` to `out`.
pub fn push_digits(out: &mut Vec<char>, n: u64)
    ensures
        final(out)@ == old(out)@ + digits(n as nat),
    decreases n,
{
    if n < 10 {
        out.push(digit_of(n));
        proof {
            assert(out@ =~= old(out)@ + digits(n as nat));
        }
    } else {
        push_digits(out, n / 10);
        out.push(digit_of(n % 10));
        proof {
            assert(out@ =~= old(out)@ + digits(n as nat));
        }
    }
}

/// Appends `id` in decimal to `out`.
pub fn push_decimal(out: &mut Vec<char>, id: i32)
    ensures
        final(out)@ == old(out)@ + decimal(id as int),
{
    if id < 0 {
        out.push('-');
        let wide: i64 = id as i64;
        let magnitude: u64 = (0 - wide) as u64;
        push_digits(out, magnitude);
        proof {
            assert(out@ =~= old(out)@ + decimal(id as int));
        }
    } else {
        push_digits(out, id as u64);
    }
}

/// The line feed, as a needle to search for.
pub open spec fn line_feed() -> Seq<char> {
    seq!['\n']
}

/// The lines of `text`: the stretches between line feeds. A line feed at the very
/// end opens no further line, and the empty text has no line.
pub open spec fn lines_of(text: Seq<char>) -> Seq<Seq<char>>
    decreases text.len(),
{
    if text.len() == 0 {
        Seq::empty()
    } else {
        match first_index(text, line_feed()) {
            Some(at) => if 0 <= at < text.len() {
                seq![text.take(at)] + lines_of(text.skip(at + 1))
            } else {
                seq![text]
            },
            None => seq![text],
        }
    }
}

/// The character sequences that the vectors of `lines` hold.
pub open spec fn views_of(lines: Seq<Vec<char>>) -> Seq<Seq<char>> {
    Seq::new(lines.len(), |i: int| lines[i]@)
}

/// Splits `v` into its lines.
pub fn split_lines(v: &Vec<char>) -> (lines: Vec<Vec<char>>)
    ensures
        views_of(lines@) == lines_of(v@),
{
    let total = v.len();
    let mut lines: Vec<Vec<char>> = Vec::new();
    let mut start: usize = 0;
    proof {
        assert(v@.skip(0) =~= v@);
        assert(views_of(lines@) + lines_of(v@.skip(0)) =~= lines_of(v@));
    }
    while start < total
        invariant
            total == v@.len(),
            start <= total,
            views_of(lines@) + lines_of(v@.skip(start as int)) == lines_of(v@),
        decreases total - start,
    {
        let ghost rest = v@.skip(start as int);
        let ghost before = lines@;
        let mut end: usize = start;
        while end < total && v[end] != '\n'
            invariant
                total == v@.len(),
                start <= end <= total,
                forall|j: int| start <= j < end ==> v@[j] != '\n',
            decreases total - end,
        {
            end += 1;
        }
        let mut line: Vec<char> = Vec::new();
        append_range(&mut line, v, start, end);
        proof {
            assert(line@ =~= rest.take(end - start));
            assert forall|j: int| 0 <= j < end - start implies !occurs_at(rest, line_feed(), j) by {
                if occurs_at(rest, line_feed(), j) {
                    assert(rest.subrange(j, j + 1)[0] == rest[j]);
                    assert(line_feed()[0] == '\n');
                    assert(rest[j] == v@[start + j]);
                }
            }
            if end < total {
                assert(rest.subrange(end - start, end - start + 1) =~= line_feed());
                lemma_first_index_is(rest, line_feed(), end - start);
                assert(rest.skip(end - start + 1) =~= v@.skip(end + 1));
            } else {
                assert(rest.take(end - start) =~= rest);
                assert forall|j: int| !occurs_at(rest, line_feed(), j) by {
                    if occurs_at(rest, line_feed(), j) {
                        assert(line_feed().len() == 1);
                        assert(0 <= j < end - start);
                    }
                }
                lemma_first_index_none(rest, line_feed());
                assert(v@.skip(total as int).len() == 0);
            }
        }
        lines.push(line);
        proof {
            assert(views_of(lines@) =~= views_of(before) + seq![line@]);
        }
        if end < total {
            start = end + 1;
        } else {
            start = end;
        }
        proof {
            assert(views_of(lines@) + lines_of(v@.skip(start as int)) =~= views_of(before)
                + lines_of(rest));
        }
    }
    proof {
        assert(v@.skip(total as int).len() == 0);
        assert(views_of(lines@) + Seq::<Seq<char>>::empty() =~= views_of(lines@));
    }
    lines
}

/// Whether the strings `s` and `t` hold the same characters.
pub fn same_text(s: &str, t: &str) -> (same: bool)
    ensures
        same == (s@ == t@),
{
    let left = s.to_owned();
    let right = t.to_owned();
    left == right
}

} // verus!
