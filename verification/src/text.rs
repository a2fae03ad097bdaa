//! Text primitives: characters, lines, fields, numbers.
//!
//! Every function here works on the sequence of characters that a string shows (`s@`), and its
//! contract is a spec function on that sequence.

use vstd::prelude::*;
use vstd::std_specs::iter::IteratorSpec;

verus! {

/// `String::push` appends one character.
pub assume_specification[ std::string::String::push ](s: &mut std::string::String, c: char)
    ensures
        final(s)@ == old(s)@.push(c),
;

/// The texts that a list of strings shows.
pub open spec fn texts(list: Seq<String>) -> Seq<Seq<char>> {
    list.map_values(|s: String| s@)
}

/// The text of an optional string.
pub open spec fn text_opt(value: Option<String>) -> Option<Seq<char>> {
    match value {
        Some(s) => Some(s@),
        None => None,
    }
}

/// The characters with the Unicode property `White_Space`.
pub open spec fn is_space(c: char) -> bool {
    let n = c as u32;
    (0x9 <= n <= 0xd) || n == 0x20 || n == 0x85 || n == 0xa0 || n == 0x1680
        || (0x2000 <= n <= 0x200a) || n == 0x2028 || n == 0x2029 || n == 0x202f || n == 0x205f
        || n == 0x3000
}

/// Position of the first `c` in `s`, or `s.len()` where there is none.
pub open spec fn find_char(s: Seq<char>, c: char) -> int
    decreases s.len(),
{
    if s.len() == 0 {
        0
    } else if s[0] == c {
        0
    } else {
        1 + find_char(s.drop_first(), c)
    }
}

/// The fields of `s` between occurrences of `sep`; one more than there are separators.
pub open spec fn split_on(s: Seq<char>, sep: char) -> Seq<Seq<char>>
    decreases s.len(),
    via split_on_shrinks
{
    let i = find_char(s, sep);
    if i >= s.len() {
        seq![s]
    } else {
        seq![s.take(i)] + split_on(s.skip(i + 1), sep)
    }
}

#[via_fn]
proof fn split_on_shrinks(s: Seq<char>, sep: char) {
    find_char_bounds(s, sep);
}

/// A line without the carriage return that a line feed follows.
pub open spec fn without_carriage_return(line: Seq<char>) -> Seq<char> {
    if line.len() > 0 && line.last() == '\r' {
        line.drop_last()
    } else {
        line
    }
}

/// The lines of `s`. A line ends with a line feed, which may have a carriage return before it; the
/// last line may end without one.
pub open spec fn lines_of(s: Seq<char>) -> Seq<Seq<char>>
    decreases s.len(),
    via lines_of_shrinks
{
    let i = find_char(s, '\n');
    if s.len() == 0 {
        Seq::empty()
    } else if i >= s.len() {
        seq![s]
    } else {
        seq![without_carriage_return(s.take(i))] + lines_of(s.skip(i + 1))
    }
}

#[via_fn]
proof fn lines_of_shrinks(s: Seq<char>) {
    find_char_bounds(s, '\n');
}

/// `s` without the white space in front.
pub open spec fn trim_start(s: Seq<char>) -> Seq<char>
    decreases s.len(),
{
    if s.len() > 0 && is_space(s[0]) {
        trim_start(s.drop_first())
    } else {
        s
    }
}

/// `s` without the white space at its end.
pub open spec fn trim_end(s: Seq<char>) -> Seq<char>
    decreases s.len(),
{
    if s.len() > 0 && is_space(s.last()) {
        trim_end(s.drop_last())
    } else {
        s
    }
}

/// `s` without the white space around it.
pub open spec fn trim(s: Seq<char>) -> Seq<char> {
    trim_end(trim_start(s))
}

/// Whether `s` begins with `prefix`.
pub open spec fn starts_with(s: Seq<char>, prefix: Seq<char>) -> bool {
    prefix.len() <= s.len() && s.take(prefix.len() as int) == prefix
}

/// Whether `part` stands somewhere in `s`.
pub open spec fn contains(s: Seq<char>, part: Seq<char>) -> bool {
    exists|i: int| #[trigger] occurs_at(s, part, i)
}

/// Whether `part` stands in `s` from position `i` on.
pub open spec fn occurs_at(s: Seq<char>, part: Seq<char>, i: int) -> bool {
    0 <= i && i + part.len() <= s.len() && s.subrange(i, i + part.len()) == part
}

/// The lower case of an ASCII letter; every other character itself.
pub open spec fn lower(c: char) -> char {
    if 'A' <= c && c <= 'Z' {
        ((c as u8 + 32) as u8) as char
    } else {
        c
    }
}

/// `s` with its ASCII letters in lower case.
pub open spec fn ascii_lowercase(s: Seq<char>) -> Seq<char> {
    s.map_values(|c: char| lower(c))
}

pub open spec fn is_digit(c: char) -> bool {
    '0' <= c && c <= '9'
}

/// Whether every character of `s` is a decimal digit.
pub open spec fn all_digits(s: Seq<char>) -> bool {
    forall|i: int| 0 <= i < s.len() ==> is_digit(#[trigger] s[i])
}

/// The number that a run of decimal digits writes.
pub open spec fn digits_value(s: Seq<char>) -> nat
    decreases s.len(),
{
    if s.len() == 0 {
        0
    } else {
        digits_value(s.drop_last()) * 10 + (s.last() as nat - '0' as nat) as nat
    }
}

/// The number that `s` writes: at least one decimal digit, with at most one `+` before, and no more
/// than `max`.
pub open spec fn number(s: Seq<char>, max: nat) -> Option<nat> {
    let digits = if s.len() > 0 && s[0] == '+' { s.drop_first() } else { s };
    if digits.len() > 0 && all_digits(digits) && digits_value(digits) <= max {
        Some(digits_value(digits))
    } else {
        None
    }
}

/// The decimal digits of `n`, without leading zeros.
pub open spec fn decimal(n: nat) -> Seq<char>
    decreases n,
{
    if n < 10 {
        seq![(48 + n) as u8 as char]
    } else {
        decimal(n / 10).push((48 + n % 10) as u8 as char)
    }
}

/// The value of a hexadecimal digit, in either case.
pub open spec fn hex_value(c: char) -> Option<nat> {
    if '0' <= c && c <= '9' {
        Some((c as nat - '0' as nat) as nat)
    } else if 'a' <= c && c <= 'f' {
        Some((c as nat - 'a' as nat + 10) as nat)
    } else if 'A' <= c && c <= 'F' {
        Some((c as nat - 'A' as nat + 10) as nat)
    } else {
        None
    }
}

/// The number that a run of hexadecimal digits writes; `None` where another character is among them.
pub open spec fn hex_digits_value(s: Seq<char>) -> Option<nat>
    decreases s.len(),
{
    if s.len() == 0 {
        Some(0)
    } else {
        match (hex_digits_value(s.drop_last()), hex_value(s.last())) {
            (Some(high), Some(low)) => Some(high * 16 + low),
            _ => None,
        }
    }
}

/// The number that `s` writes in hexadecimal: at least one digit, with at most one `+` before, and no
/// more than `max`.
pub open spec fn hex_number(s: Seq<char>, max: nat) -> Option<nat> {
    let digits = if s.len() > 0 && s[0] == '+' { s.drop_first() } else { s };
    match hex_digits_value(digits) {
        Some(n) => if digits.len() > 0 && n <= max {
            Some(n)
        } else {
            None
        },
        None => None,
    }
}

/// A hexadecimal digit, in lower case.
pub open spec fn hex_digit(n: nat) -> char {
    if n < 10 {
        (48 + n) as u8 as char
    } else {
        (87 + n) as u8 as char
    }
}

/// The last `width` hexadecimal digits of `n`.
pub open spec fn hexadecimal(n: nat, width: nat) -> Seq<char>
    decreases width,
{
    if width == 0 {
        Seq::empty()
    } else {
        hexadecimal(n / 16, (width - 1) as nat).push(hex_digit(n % 16))
    }
}

pub proof fn find_char_bounds(s: Seq<char>, c: char)
    ensures
        0 <= find_char(s, c) <= s.len(),
        find_char(s, c) < s.len() ==> s[find_char(s, c)] == c,
        forall|j: int| 0 <= j < find_char(s, c) ==> s[j] != c,
    decreases s.len(),
{
    if s.len() > 0 && s[0] != c {
        find_char_bounds(s.drop_first(), c);
        let rest = s.drop_first();
        assert forall|j: int| 0 <= j < find_char(s, c) implies s[j] != c by {
            if j > 0 {
                assert(rest[j - 1] == s[j]);
            }
        }
    }
}

/// A position with `c` there and none before it is the first.
pub proof fn find_char_is(s: Seq<char>, c: char, i: int)
    requires
        0 <= i <= s.len(),
        i < s.len() ==> s[i] == c,
        forall|j: int| 0 <= j < i ==> s[j] != c,
    ensures
        find_char(s, c) == i,
{
    find_char_bounds(s, c);
    let f = find_char(s, c);
    if f < i {
        assert(s[f] != c);
    } else if i < f {
        assert(s[i] != c);
    }
}

/// The characters of a text.
pub fn chars_of(s: &str) -> (out: Vec<char>)
    ensures
        out@ == s@,
{
    let mut out: Vec<char> = Vec::new();
    let count = s.unicode_len();
    let mut iter = s.chars();
    let mut i: usize = 0;
    assert(s@.skip(0) =~= s@);
    broadcast use vstd::string::next_postcondition;
    while i < count
        invariant
            i <= count,
            count == s@.len(),
            out@ == s@.take(i as int),
            iter.remaining() == s@.skip(i as int),
        decreases count - i,
    {
        let c = iter.next();
        match c {
            Some(c) => {
                out.push(c);
                assert(s@.take(i + 1) =~= s@.take(i as int).push(s@[i as int]));
            }
            None => {
                assert(s@.skip(i as int).len() > 0);
            }
        }
        assert(s@.skip(i as int).drop_first() =~= s@.skip(i + 1));
        i = i + 1;
    }
    assert(s@.take(s@.len() as int) =~= s@);
    out
}

/// The text that the characters from `from` up to `to` make.
pub fn text_of(chars: &[char], from: usize, to: usize) -> (out: String)
    requires
        from <= to <= chars@.len(),
    ensures
        out@ == chars@.subrange(from as int, to as int),
{
    let mut out = String::new();
    let mut i: usize = from;
    while i < to
        invariant
            from <= i <= to <= chars@.len(),
            out@ == chars@.subrange(from as int, i as int),
        decreases to - i,
    {
        out.push(chars[i]);
        i = i + 1;
        assert(chars@.subrange(from as int, i as int) =~= chars@.subrange(
            from as int,
            i - 1,
        ).push(chars@[i - 1]));
    }
    out
}

/// Whether two texts hold the same characters.
pub fn same_text(a: &str, b: &str) -> (out: bool)
    ensures
        out == (a@ == b@),
{
    let left = a.to_owned();
    let right = b.to_owned();
    left == right
}

/// Joins two texts.
pub fn join(a: &str, b: &str) -> (out: String)
    ensures
        out@ == a@ + b@,
{
    let mut out = a.to_owned();
    out.append(b);
    out
}

/// Whether a character is white space.
pub fn char_is_space(c: char) -> (out: bool)
    ensures
        out == is_space(c),
{
    let n: u32 = c as u32;
    (0x9 <= n && n <= 0xd) || n == 0x20 || n == 0x85 || n == 0xa0 || n == 0x1680 || (0x2000 <= n
        && n <= 0x200a) || n == 0x2028 || n == 0x2029 || n == 0x202f || n == 0x205f || n == 0x3000
}

/// Position of the first `c` at or after `from`, or the length where there is none.
pub fn position_from(chars: &[char], c: char, from: usize) -> (out: usize)
    requires
        from <= chars@.len(),
    ensures
        from <= out <= chars@.len(),
        out - from == find_char(chars@.skip(from as int), c),
        out < chars@.len() ==> chars@[out as int] == c,
{
    let mut i: usize = from;
    while i < chars.len() && chars[i] != c
        invariant
            from <= i <= chars@.len(),
            forall|j: int| from <= j < i ==> chars@[j] != c,
        decreases chars@.len() - i,
    {
        i = i + 1;
    }
    proof {
        find_char_is(chars@.skip(from as int), c, i - from);
    }
    i
}

/// The fields between separators.
pub fn split(s: &str, sep: char) -> (out: Vec<String>)
    ensures
        texts(out@) == split_on(s@, sep),
        out@.len() >= 1,
{
    let chars = chars_of(s);
    let mut out: Vec<String> = Vec::new();
    let mut start: usize = 0;
    assert(chars@.skip(0) =~= s@);
    assert(texts(out@) + split_on(s@, sep) =~= split_on(s@, sep));
    loop
        invariant
            start <= chars@.len(),
            texts(out@) + split_on(chars@.skip(start as int), sep) == split_on(s@, sep),
        decreases chars@.len() - start,
    {
        let end = position_from(&chars, sep, start);
        let field = text_of(&chars, start, end);
        let ghost rest = chars@.skip(start as int);
        let ghost before = out@;
        assert(rest.take(end - start) =~= field@);
        out.push(field);
        assert(texts(out@) =~= texts(before).push(field@));
        if end >= chars.len() {
            assert(rest =~= field@);
            assert(texts(out@) =~= texts(before) + split_on(rest, sep));
            return out;
        }
        assert(rest.skip(end - start + 1) =~= chars@.skip(end + 1));
        assert(texts(out@) + split_on(chars@.skip(end + 1), sep) =~= texts(before) + split_on(
            rest,
            sep,
        ));
        start = end + 1;
    }
}

/// The lines of a text.
pub fn lines(s: &str) -> (out: Vec<String>)
    ensures
        texts(out@) == lines_of(s@),
{
    let chars = chars_of(s);
    let mut out: Vec<String> = Vec::new();
    let mut start: usize = 0;
    assert(chars@.skip(0) =~= s@);
    assert(texts(out@) + lines_of(s@) =~= lines_of(s@));
    while start < chars.len()
        invariant
            start <= chars@.len(),
            texts(out@) + lines_of(chars@.skip(start as int)) == lines_of(s@),
        decreases chars@.len() - start,
    {
        let end = position_from(&chars, '\n', start);
        let ghost rest = chars@.skip(start as int);
        let ghost before = out@;
        if end >= chars.len() {
            let line = text_of(&chars, start, end);
            out.push(line);
            assert(rest =~= line@);
            assert(texts(out@) =~= texts(before).push(line@));
            assert(texts(out@) =~= texts(before) + lines_of(rest));
            return out;
        }
        let stop = if end > start && chars[end - 1] == '\r' {
            end - 1
        } else {
            end
        };
        let line = text_of(&chars, start, stop);
        assert(without_carriage_return(rest.take(end - start)) =~= line@);
        out.push(line);
        assert(texts(out@) =~= texts(before).push(line@));
        assert(rest.skip(end - start + 1) =~= chars@.skip(end + 1));
        assert(texts(out@) + lines_of(chars@.skip(end + 1)) =~= texts(before) + lines_of(rest));
        start = end + 1;
    }
    assert(chars@.skip(start as int).len() == 0);
    assert(texts(out@) =~= lines_of(s@));
    out
}

/// The text without the white space around it.
pub fn trimmed(s: &str) -> (out: String)
    ensures
        out@ == trim(s@),
{
    let chars = chars_of(s);
    let mut from: usize = 0;
    assert(chars@.skip(0) =~= s@);
    while from < chars.len() && char_is_space(chars[from])
        invariant
            from <= chars@.len(),
            trim_start(chars@.skip(from as int)) == trim_start(s@),
        decreases chars@.len() - from,
    {
        assert(chars@.skip(from as int).drop_first() =~= chars@.skip(from + 1));
        from = from + 1;
    }
    assert(trim_start(s@) == chars@.skip(from as int));
    let mut to: usize = chars.len();
    assert(chars@.subrange(from as int, to as int) =~= chars@.skip(from as int));
    while to > from && char_is_space(chars[to - 1])
        invariant
            from <= to <= chars@.len(),
            trim_end(chars@.subrange(from as int, to as int)) == trim(s@),
        decreases to,
    {
        assert(chars@.subrange(from as int, to as int).drop_last() =~= chars@.subrange(
            from as int,
            to - 1,
        ));
        to = to - 1;
    }
    text_of(&chars, from, to)
}

/// Whether `part` stands in `chars` from `at` on.
pub fn part_at(chars: &[char], part: &[char], at: usize) -> (out: bool)
    ensures
        out == occurs_at(chars@, part@, at as int),
{
    if part.len() > chars.len() || at > chars.len() - part.len() {
        return false;
    }
    let count = chars.len();
    let mut i: usize = 0;
    while i < part.len()
        invariant
            i <= part@.len(),
            count == chars@.len(),
            at + part@.len() <= count,
            forall|j: int| 0 <= j < i ==> chars@[at + j] == part@[j],
        decreases part@.len() - i,
    {
        if chars[at + i] != part[i] {
            proof {
                let window = chars@.subrange(at as int, at + part@.len());
                assert(window[i as int] != part@[i as int]);
            }
            return false;
        }
        i = i + 1;
    }
    assert(chars@.subrange(at as int, at + part@.len()) =~= part@);
    true
}

/// Whether one text begins with another.
pub fn has_prefix(s: &str, prefix: &str) -> (out: bool)
    ensures
        out == starts_with(s@, prefix@),
{
    let chars = chars_of(s);
    let part = chars_of(prefix);
    let out = part_at(&chars, &part, 0);
    proof {
        if part@.len() <= chars@.len() {
            assert(chars@.subrange(0, part@.len() as int) =~= chars@.take(part@.len() as int));
        }
    }
    out
}

/// Whether one text holds another.
pub fn has_part(s: &str, part: &str) -> (out: bool)
    ensures
        out == contains(s@, part@),
{
    let chars = chars_of(s);
    let wanted = chars_of(part);
    if wanted.len() > chars.len() {
        return false;
    }
    let last = chars.len() - wanted.len();
    let mut at: usize = 0;
    while at <= last
        invariant
            last == chars@.len() - wanted@.len(),
            chars@ == s@,
            wanted@ == part@,
            wanted@.len() <= chars@.len(),
            at <= last + 1,
            forall|i: int| 0 <= i < at ==> !#[trigger] occurs_at(s@, part@, i),
        decreases chars@.len() - wanted@.len() + 1 - at,
    {
        if part_at(&chars, &wanted, at) {
            return true;
        }
        if at == last {
            return false;
        }
        at = at + 1;
    }
    false
}

/// Whether a text holds a character.
pub fn has_char(s: &str, c: char) -> (out: bool)
    ensures
        out == s@.contains(c),
{
    let chars = chars_of(s);
    let at = position_from(&chars, c, 0);
    assert(chars@.skip(0) =~= s@);
    proof {
        find_char_bounds(s@, c);
    }
    at < chars.len()
}

/// The text with its ASCII letters in lower case.
pub fn to_lower(s: &str) -> (out: String)
    ensures
        out@ == ascii_lowercase(s@),
{
    let chars = chars_of(s);
    let mut out = String::new();
    let mut i: usize = 0;
    while i < chars.len()
        invariant
            i <= chars@.len(),
            chars@ == s@,
            out@ == ascii_lowercase(s@.take(i as int)),
        decreases chars@.len() - i,
    {
        let c = chars[i];
        let low = if 'A' <= c && c <= 'Z' {
            (c as u8 + 32) as char
        } else {
            c
        };
        out.push(low);
        i = i + 1;
        assert(s@.take(i as int) =~= s@.take(i - 1).push(c));
        assert(out@ =~= ascii_lowercase(s@.take(i as int)));
    }
    assert(s@.take(i as int) =~= s@);
    out
}

proof fn digits_value_grows(s: Seq<char>, n: int)
    requires
        0 <= n <= s.len(),
        all_digits(s),
    ensures
        digits_value(s.take(n)) <= digits_value(s),
    decreases s.len() - n,
{
    if n < s.len() {
        digits_value_grows(s, n + 1);
        assert(s.take(n + 1).drop_last() =~= s.take(n));
        assert(is_digit(s[n]));
    } else {
        assert(s.take(n) =~= s);
    }
}

/// The number that a text writes, where it is at most `max`.
pub fn parse_number(s: &str, max: u64) -> (out: Option<u64>)
    ensures
        out matches Some(n) ==> number(s@, max as nat) == Some(n as nat),
        out is None ==> number(s@, max as nat) is None,
{
    let chars = chars_of(s);
    let from: usize = if chars.len() > 0 && chars[0] == '+' {
        1
    } else {
        0
    };
    let ghost digits = chars@.skip(from as int);
    proof {
        if from == 1 {
            assert(digits =~= s@.drop_first());
        } else {
            assert(digits =~= s@);
        }
    }
    if from >= chars.len() {
        return None;
    }
    let mut value: u64 = 0;
    let mut i: usize = from;
    while i < chars.len()
        invariant
            from <= i <= chars@.len(),
            digits == chars@.skip(from as int),
            value <= max,
            value as nat == digits_value(digits.take(i - from)),
            forall|j: int| 0 <= j < i - from ==> is_digit(#[trigger] digits[j]),
            chars@ == s@,
            from == if s@.len() > 0 && s@[0] == '+' { 1int } else { 0int },
            digits == (if s@.len() > 0 && s@[0] == '+' { s@.drop_first() } else { s@ }),
        decreases chars@.len() - i,
    {
        let c = chars[i];
        assert(c == digits[i - from]);
        if !('0' <= c && c <= '9') {
            assert(!all_digits(digits)) by {
                assert(!is_digit(digits[i - from]));
            }
            return None;
        }
        let digit: u64 = (c as u8 - '0' as u8) as u64;
        proof {
            assert(digits.take(i - from + 1).drop_last() =~= digits.take(i - from));
            if all_digits(digits) {
                digits_value_grows(digits, i - from + 1);
            }
        }
        if value > (u64::MAX - digit) / 10 || value * 10 + digit > max {
            return None;
        }
        value = value * 10 + digit;
        i = i + 1;
    }
    assert(digits.take(i - from) =~= digits);
    assert(all_digits(digits));
    Some(value)
}

/// The decimal digits of a number.
pub fn decimal_text(n: u64) -> (out: String)
    ensures
        out@ == decimal(n as nat),
    decreases n,
{
    let mut out = if n < 10 {
        String::new()
    } else {
        decimal_text(n / 10)
    };
    out.push((48 + (n % 10) as u8) as char);
    assert(out@ =~= decimal(n as nat));
    out
}

/// The last `width` hexadecimal digits of a number.
pub fn hexadecimal_text(n: u64, width: u8) -> (out: String)
    ensures
        out@ == hexadecimal(n as nat, width as nat),
    decreases width,
{
    if width == 0 {
        return String::new();
    }
    let mut out = hexadecimal_text(n / 16, width - 1);
    let digit: u8 = (n % 16) as u8;
    let c = if digit < 10 {
        (48 + digit) as char
    } else {
        (87 + digit) as char
    };
    out.push(c);
    out
}

/// What is written in hexadecimal is read back.
pub proof fn hexadecimal_reads_back(n: nat, width: nat, max: nat)
    requires
        width > 0,
        n < vstd::arithmetic::power::pow(16, width),
        n <= max,
    ensures
        hex_number(hexadecimal(n, width), max) == Some(n),
{
    hexadecimal_length(n, width);
    hexadecimal_is_digits(n, width);
    hexadecimal_value(n, width);
    assert(hexadecimal(n, width)[0] != '+') by {
        assert(hex_value(hexadecimal(n, width)[0]) is Some);
    }
}

proof fn hexadecimal_value(n: nat, width: nat)
    requires
        n < vstd::arithmetic::power::pow(16, width),
    ensures
        hex_digits_value(hexadecimal(n, width)) == Some(n),
    decreases width,
{
    vstd::arithmetic::power::lemma_pow0(16);
    if width > 0 {
        let less = (width - 1) as nat;
        let head = hexadecimal(n / 16, less);
        let most = vstd::arithmetic::power::pow(16, less);
        vstd::arithmetic::power::lemma_pow_adds(16, less, 1);
        vstd::arithmetic::power::lemma_pow1(16);
        assert(vstd::arithmetic::power::pow(16, width) == most * 16);
        assert(n / 16 < most);
        hexadecimal_value(n / 16, less);
        assert(head.push(hex_digit(n % 16)).drop_last() =~= head);
        assert(hex_value(hex_digit(n % 16)) == Some((n % 16) as nat));
        assert((n / 16) * 16 + n % 16 == n);
    }
}

/// A number in hexadecimal is made of digits.
pub proof fn hexadecimal_is_digits(n: nat, width: nat)
    ensures
        forall|i: int|
            0 <= i < hexadecimal(n, width).len() ==> hex_value(#[trigger] hexadecimal(n, width)[i])
                is Some,
    decreases width,
{
    if width > 0 {
        let head = hexadecimal(n / 16, (width - 1) as nat);
        hexadecimal_is_digits(n / 16, (width - 1) as nat);
        assert forall|i: int| 0 <= i < hexadecimal(n, width).len() implies hex_value(
            #[trigger] hexadecimal(n, width)[i],
        ) is Some by {
            if i < head.len() {
                assert(hexadecimal(n, width)[i] == head[i]);
            }
        }
    }
}

/// Position of the first white space in `s`, or `s.len()` where there is none.
pub open spec fn word_end(s: Seq<char>) -> int
    decreases s.len(),
{
    if s.len() == 0 || is_space(s[0]) {
        0
    } else {
        1 + word_end(s.drop_first())
    }
}

pub proof fn word_end_bounds(s: Seq<char>)
    ensures
        0 <= word_end(s) <= s.len(),
    decreases s.len(),
{
    if s.len() > 0 && !is_space(s[0]) {
        word_end_bounds(s.drop_first());
    }
}

/// The words of `s`: what stands between white space.
pub open spec fn words(s: Seq<char>) -> Seq<Seq<char>>
    decreases s.len(),
    via words_shrinks
{
    if s.len() == 0 {
        Seq::empty()
    } else if is_space(s[0]) {
        words(s.drop_first())
    } else {
        seq![s.take(word_end(s))] + words(s.skip(word_end(s)))
    }
}

#[via_fn]
proof fn words_shrinks(s: Seq<char>) {
    word_end_bounds(s);
    if s.len() > 0 {
        word_end_bounds(s.drop_first());
    }
}

/// The words of a text.
pub fn split_words(s: &str) -> (out: Vec<String>)
    ensures
        texts(out@) == words(s@),
{
    let chars = chars_of(s);
    let mut out: Vec<String> = Vec::new();
    let mut at: usize = 0;
    assert(chars@.skip(0) =~= s@);
    assert(texts(out@) + words(s@) =~= words(s@));
    while at < chars.len()
        invariant
            at <= chars@.len(),
            texts(out@) + words(chars@.skip(at as int)) == words(s@),
        decreases chars@.len() - at,
    {
        let ghost rest = chars@.skip(at as int);
        assert(rest[0] == chars@[at as int]);
        if char_is_space(chars[at]) {
            assert(rest.drop_first() =~= chars@.skip(at + 1));
            at = at + 1;
        } else {
            let mut end: usize = at;
            assert(chars@.skip(at as int) =~= rest);
            while end < chars.len() && !char_is_space(chars[end])
                invariant
                    at <= end <= chars@.len(),
                    word_end(rest) == end - at + word_end(chars@.skip(end as int)),
                decreases chars@.len() - end,
            {
                assert(chars@.skip(end as int).drop_first() =~= chars@.skip(end + 1));
                end = end + 1;
            }
            let ghost before = out@;
            let word = text_of(&chars, at, end);
            proof {
                assert(word_end(rest) == end - at);
                if end == at {
                    assert(is_space(rest[0]));
                }
                assert(rest.take(end - at) =~= chars@.subrange(at as int, end as int));
                assert(rest.skip(end - at) =~= chars@.skip(end as int));
            }
            out.push(word);
            proof {
                assert(texts(out@) =~= texts(before).push(word@));
                let tail = words(chars@.skip(end as int));
                assert(texts(before) + (seq![word@] + tail) =~= texts(out@) + tail);
            }
            at = end;
        }
    }
    assert(chars@.skip(at as int).len() == 0);
    assert(texts(out@) + words(chars@.skip(at as int)) =~= texts(out@));
    out
}

/// `s` without the occurrences of `c` at its end.
pub open spec fn without_trailing(s: Seq<char>, c: char) -> Seq<char>
    decreases s.len(),
{
    if s.len() > 0 && s.last() == c {
        without_trailing(s.drop_last(), c)
    } else {
        s
    }
}

/// The text without the occurrences of a character at its end.
pub fn strip_trailing(s: &str, c: char) -> (out: String)
    ensures
        out@ == without_trailing(s@, c),
{
    let chars = chars_of(s);
    let mut to: usize = chars.len();
    assert(chars@.take(to as int) =~= s@);
    while to > 0 && chars[to - 1] == c
        invariant
            to <= chars@.len(),
            without_trailing(chars@.take(to as int), c) == without_trailing(s@, c),
        decreases to,
    {
        assert(chars@.take(to as int).drop_last() =~= chars@.take(to - 1));
        to = to - 1;
    }
    assert(chars@.subrange(0, to as int) =~= chars@.take(to as int));
    text_of(&chars, 0, to)
}

/// Texts one after the other, with `separator` between them.
pub open spec fn joined(list: Seq<Seq<char>>, separator: Seq<char>) -> Seq<char>
    decreases list.len(),
{
    if list.len() == 0 {
        Seq::empty()
    } else if list.len() == 1 {
        list[0]
    } else {
        joined(list.drop_last(), separator) + separator + list.last()
    }
}

/// Joins texts, with a separator between them.
pub fn join_all(list: &[String], separator: &str) -> (out: String)
    ensures
        out@ == joined(texts(list@), separator@),
{
    let mut out = String::new();
    let mut i: usize = 0;
    let ghost all = texts(list@);
    assert(all.take(0) =~= Seq::<Seq<char>>::empty());
    assert(out@ =~= Seq::<char>::empty());
    while i < list.len()
        invariant
            i <= list@.len(),
            all == texts(list@),
            out@ == joined(all.take(i as int), separator@),
        decreases list@.len() - i,
    {
        proof {
            assert(all.take(i + 1).drop_last() =~= all.take(i as int));
            assert(all.take(i + 1).last() == list@[i as int]@);
        }
        if i > 0 {
            out.append(separator);
        }
        out.append(&list[i]);
        assert(i == 0 ==> out@ =~= list@[0]@);
        i = i + 1;
    }
    assert(all.take(i as int) =~= all);
    out
}

/// What stands behind a beginning, where `s` has it.
pub open spec fn stripped(s: Seq<char>, prefix: Seq<char>) -> Option<Seq<char>> {
    if starts_with(s, prefix) {
        Some(s.skip(prefix.len() as int))
    } else {
        None
    }
}

/// What stands behind a beginning.
pub fn strip_prefix(s: &str, prefix: &str) -> (out: Option<String>)
    ensures
        text_opt(out) == stripped(s@, prefix@),
{
    if !has_prefix(s, prefix) {
        return None;
    }
    let chars = chars_of(s);
    let from = prefix.unicode_len();
    let out = text_of(&chars, from, chars.len());
    assert(out@ =~= s@.skip(from as int));
    Some(out)
}

/// Decimal digits are digits.
pub proof fn decimal_text_is_digits(n: nat)
    ensures
        forall|i: int| 0 <= i < decimal(n).len() ==> is_digit(#[trigger] decimal(n)[i]),
        forall|i: int| 0 <= i < decimal(n).len() ==> #[trigger] decimal(n)[i] != '-',
        decimal(n).len() > 0,
    decreases n,
{
    if n >= 10 {
        decimal_text_is_digits(n / 10);
        let head = decimal(n / 10);
        assert forall|i: int| 0 <= i < decimal(n).len() implies is_digit(#[trigger] decimal(n)[i])
            && decimal(n)[i] != '-' by {
            if i < head.len() {
                assert(decimal(n)[i] == head[i]);
            }
        }
    }
}

proof fn digit_is_injective(a: nat, b: nat)
    requires
        a < 10,
        b < 10,
        (48 + a) as u8 as char == (48 + b) as u8 as char,
    ensures
        a == b,
{
    let x = (48 + a) as u8;
    let y = (48 + b) as u8;
    assert((x as char) as u32 == x as u32);
    assert((y as char) as u32 == y as u32);
}

/// Two numbers of at most `width` hexadecimal digits that are written the same are the same.
pub proof fn hexadecimal_is_injective(a: nat, b: nat, width: nat)
    requires
        hexadecimal(a, width) == hexadecimal(b, width),
        a < vstd::arithmetic::power::pow(16, width),
        b < vstd::arithmetic::power::pow(16, width),
    ensures
        a == b,
    decreases width,
{
    vstd::arithmetic::power::lemma_pow0(16);
    if width > 0 {
        let less = (width - 1) as nat;
        let head_a = hexadecimal(a / 16, less);
        let head_b = hexadecimal(b / 16, less);
        let last_a = hex_digit(a % 16);
        let last_b = hex_digit(b % 16);
        assert(head_a.push(last_a).drop_last() =~= head_a);
        assert(head_b.push(last_b).drop_last() =~= head_b);
        assert(head_a.push(last_a).last() == last_a);
        assert(head_b.push(last_b).last() == last_b);
        assert(a % 16 == b % 16);
        let most = vstd::arithmetic::power::pow(16, less);
        vstd::arithmetic::power::lemma_pow_adds(16, less, 1);
        vstd::arithmetic::power::lemma_pow1(16);
        assert(vstd::arithmetic::power::pow(16, width) == most * 16);
        assert(a / 16 < most);
        assert(b / 16 < most);
        hexadecimal_is_injective(a / 16, b / 16, less);
    }
}

/// A number in hexadecimal has the digits that were asked for.
pub proof fn hexadecimal_length(n: nat, width: nat)
    ensures
        hexadecimal(n, width).len() == width,
    decreases width,
{
    if width > 0 {
        hexadecimal_length(n / 16, (width - 1) as nat);
    }
}

/// Different numbers have different digits.
pub proof fn decimal_is_injective(a: nat, b: nat)
    requires
        decimal(a) == decimal(b),
    ensures
        a == b,
    decreases a,
{
    decimal_text_is_digits(a / 10);
    decimal_text_is_digits(b / 10);
    if a >= 10 && b >= 10 {
        assert(decimal(a).last() == decimal(b).last());
        assert(decimal(a).drop_last() =~= decimal(a / 10));
        assert(decimal(b).drop_last() =~= decimal(b / 10));
        decimal_is_injective(a / 10, b / 10);
        assert(decimal(a).last() == (48 + a % 10) as u8 as char);
        assert(decimal(b).last() == (48 + b % 10) as u8 as char);
        digit_is_injective(a % 10, b % 10);
    } else if a < 10 && b < 10 {
        assert(decimal(a)[0] == decimal(b)[0]);
        assert(decimal(a)[0] == (48 + a) as u8 as char);
        assert(decimal(b)[0] == (48 + b) as u8 as char);
        digit_is_injective(a, b);
    } else if a >= 10 {
        assert(decimal(a).len() >= 2);
        assert(decimal(b).len() == 1);
    } else {
        assert(decimal(b).len() >= 2);
        assert(decimal(a).len() == 1);
    }
}

proof fn decimal_value(n: nat)
    ensures
        decimal(n).len() > 0,
        all_digits(decimal(n)),
        digits_value(decimal(n)) == n,
        n > 0 ==> decimal(n)[0] != '0',
    decreases n,
{
    if n < 10 {
        let c = (48 + n) as u8 as char;
        assert(decimal(n) =~= seq![c]);
        assert(decimal(n).drop_last() =~= Seq::empty());
        assert(digits_value(Seq::empty()) == 0);
        assert(decimal(n).last() == c);
        assert(c as nat == 48 + n);
    } else {
        decimal_value(n / 10);
        let c = (48 + n % 10) as u8 as char;
        assert(decimal(n).drop_last() =~= decimal(n / 10));
        assert(decimal(n).last() == c);
        assert(c as nat == 48 + n % 10);
        assert forall|i: int| 0 <= i < decimal(n).len() implies is_digit(#[trigger] decimal(n)[i]) by {
            if i < decimal(n / 10).len() {
                assert(decimal(n)[i] == decimal(n / 10)[i]);
            }
        }
        assert(decimal(n)[0] == decimal(n / 10)[0]);
    }
}

/// A number that is written in decimal reads back as itself, with and without a sign before it, where
/// the limit allows it; it is written in digits, without a zero before them.
pub proof fn decimal_reads_back(n: nat, max: nat)
    ensures
        n <= max ==> number(decimal(n), max) == Some(n),
        n <= max ==> number("+"@ + decimal(n), max) == Some(n),
        n > max ==> number(decimal(n), max) is None,
        forall|i: int|
            0 <= i < decimal(n).len() ==> '0' <= #[trigger] decimal(n)[i] && decimal(n)[i] <= '9',
        n > 0 ==> decimal(n)[0] != '0',
        decimal(0) == "0"@,
{
    decimal_value(n);
    reveal_strlit("+");
    reveal_strlit("0");
    let signed = "+"@ + decimal(n);
    assert(signed.drop_first() =~= decimal(n));
    assert(is_digit(decimal(n)[0]));
    assert(decimal(0) =~= "0"@);
    assert forall|i: int| 0 <= i < decimal(n).len() implies '0' <= #[trigger] decimal(n)[i]
        && decimal(n)[i] <= '9' by {
        assert(is_digit(decimal(n)[i]));
    }
}

/// A text that holds anything but digits, or nothing, is no number; one sign may stand before the
/// digits.
pub proof fn numbers_are_digits(s: Seq<char>, max: nat, i: int)
    requires
        0 <= i < s.len(),
        !('0' <= s[i] && s[i] <= '9'),
        i > 0 || s[0] != '+',
    ensures
        number(s, max) is None,
        number(Seq::empty(), max) is None,
        number("+"@, max) is None,
{
    reveal_strlit("+");
    assert("+"@.drop_first().len() == 0);
    if s[0] == '+' {
        assert(s.drop_first()[i - 1] == s[i]);
        assert(!is_digit(s.drop_first()[i - 1]));
    } else {
        assert(!is_digit(s[i]));
    }
}

/// Each digit of a hexadecimal number counts as much in upper case as in lower case.
pub proof fn hexadecimal_digits_count(n: nat)
    requires
        n < 16,
    ensures
        hex_value(hex_digit(n)) == Some(n),
        n >= 10 ==> hex_value((55 + n) as u8 as char) == Some(n),
        n >= 10 ==> hex_digit(n) as nat == 'a' as nat + n - 10,
        n < 10 ==> hex_digit(n) as nat == '0' as nat + n,
        hex_value('g') is None,
        hex_value('G') is None,
        hex_value(' ') is None,
{
}

/// Blanks, tabs and line ends are white space; what is seen in ASCII is not.
pub proof fn white_space_is_unseen(c: char)
    ensures
        c == ' ' || c == '\t' || c == '\n' || c == '\r' ==> is_space(c),
        '!' <= c && c <= '~' ==> !is_space(c),
{
}

spec fn blank(s: Seq<char>) -> bool {
    forall|i: int| 0 <= i < s.len() ==> is_space(#[trigger] s[i])
}

proof fn start_is_trimmed(before: Seq<char>, s: Seq<char>)
    requires
        blank(before),
    ensures
        trim_start(before + s) == trim_start(s),
    decreases before.len(),
{
    if before.len() > 0 {
        assert(is_space(before[0]));
        let all = before + s;
        assert(all.drop_first() =~= before.drop_first() + s);
        assert forall|i: int| 0 <= i < before.drop_first().len() implies is_space(
            #[trigger] before.drop_first()[i],
        ) by {
            assert(is_space(before[i + 1]));
        }
        start_is_trimmed(before.drop_first(), s);
    } else {
        assert(before + s =~= s);
    }
}

proof fn end_is_trimmed(s: Seq<char>, after: Seq<char>)
    requires
        blank(after),
    ensures
        trim_end(s + after) == trim_end(s),
    decreases after.len(),
{
    if after.len() > 0 {
        assert(is_space(after[after.len() - 1]));
        let all = s + after;
        assert(all.last() == after.last());
        assert(all.drop_last() =~= s + after.drop_last());
        assert forall|i: int| 0 <= i < after.drop_last().len() implies is_space(
            #[trigger] after.drop_last()[i],
        ) by {
            assert(is_space(after[i]));
        }
        end_is_trimmed(s, after.drop_last());
    } else {
        assert(s + after =~= s);
    }
}

/// What is trimmed is white space before and after a text, all of it and nothing else.
pub proof fn trimming_takes_the_white_space(before: Seq<char>, s: Seq<char>, after: Seq<char>)
    requires
        forall|i: int| 0 <= i < before.len() ==> is_space(#[trigger] before[i]),
        forall|i: int| 0 <= i < after.len() ==> is_space(#[trigger] after[i]),
        s.len() > 0 ==> !is_space(s[0]) && !is_space(s.last()),
    ensures
        trim(before + s + after) == s,
{
    assert(before + s + after =~= before + (s + after));
    start_is_trimmed(before, s + after);
    if s.len() > 0 {
        assert((s + after)[0] == s[0]);
        assert(trim_start(s + after) == s + after);
        end_is_trimmed(s, after);
    } else {
        start_is_trimmed(after, Seq::empty());
        assert(s + after =~= after + Seq::empty());
        assert(trim_start(s + after) =~= Seq::empty());
        assert(s =~= Seq::empty());
    }
}

/// A line ends at its line feed, and a carriage return before that is no part of it; what follows the
/// last line feed is a line where it is not empty.
pub proof fn lines_end_at_line_feeds(line: Seq<char>, rest: Seq<char>)
    requires
        !line.contains('\n'),
    ensures
        lines_of(Seq::empty()).len() == 0,
        line.len() > 0 ==> lines_of(line) == seq![line],
        line.len() > 0 && line.last() == '\r' ==> lines_of(line + "\n"@ + rest) == seq![
            line.drop_last(),
        ] + lines_of(rest),
        line.len() == 0 || line.last() != '\r' ==> lines_of(line + "\n"@ + rest) == seq![line]
            + lines_of(rest),
{
    reveal_strlit("\n");
    let all = line + "\n"@ + rest;
    let n = line.len() as int;
    find_char_bounds(all, '\n');
    find_char_bounds(line, '\n');
    let at = find_char(all, '\n');
    assert(all[n] == '\n');
    if at < n {
        assert(line[at] == '\n');
    }
    assert(at == n);
    assert(all.take(n) =~= line);
    assert(all.skip(n + 1) =~= rest);
    let own = find_char(line, '\n');
    if own < line.len() {
        assert(line.contains(line[own]));
    }
}

/// A text is split at every separator: a part that holds none, a separator and more is that part and
/// then the parts of the rest.
pub proof fn parts_end_at_separators(part: Seq<char>, rest: Seq<char>, sep: char)
    requires
        !part.contains(sep),
    ensures
        split_on(part, sep) == seq![part],
        split_on(part + seq![sep] + rest, sep) == seq![part] + split_on(rest, sep),
{
    let all = part + seq![sep] + rest;
    let n = part.len() as int;
    find_char_bounds(all, sep);
    find_char_bounds(part, sep);
    let at = find_char(all, sep);
    assert(all[n] == sep);
    if at < n {
        assert(part[at] == sep);
    }
    assert(at == n);
    assert(all.take(n) =~= part);
    assert(all.skip(n + 1) =~= rest);
    let own = find_char(part, sep);
    if own < part.len() {
        assert(part.contains(part[own]));
    }
}

/// A word ends at white space, and white space before it is no part of it.
pub proof fn words_end_at_white_space(space: Seq<char>, word: Seq<char>, rest: Seq<char>)
    requires
        forall|i: int| 0 <= i < space.len() ==> is_space(#[trigger] space[i]),
        word.len() > 0,
        forall|i: int| 0 <= i < word.len() ==> !is_space(#[trigger] word[i]),
        rest.len() > 0 ==> is_space(rest[0]),
    ensures
        words(space + word + rest) == seq![word] + words(rest),
        words(space).len() == 0,
    decreases space.len(),
{
    let all = space + word + rest;
    if space.len() > 0 {
        assert(is_space(space[0]));
        assert(all.drop_first() =~= space.drop_first() + word + rest);
        assert forall|i: int| 0 <= i < space.drop_first().len() implies is_space(
            #[trigger] space.drop_first()[i],
        ) by {
            assert(is_space(space[i + 1]));
        }
        words_end_at_white_space(space.drop_first(), word, rest);
    } else {
        assert(all =~= word + rest);
        assert(!is_space(word[0]));
        word_end_is(word, rest);
        assert(all.take(word.len() as int) =~= word);
        assert(all.skip(word.len() as int) =~= rest);
    }
}

proof fn word_end_is(word: Seq<char>, rest: Seq<char>)
    requires
        forall|i: int| 0 <= i < word.len() ==> !is_space(#[trigger] word[i]),
        rest.len() > 0 ==> is_space(rest[0]),
    ensures
        word_end(word + rest) == word.len(),
    decreases word.len(),
{
    let all = word + rest;
    if word.len() > 0 {
        assert(!is_space(word[0]));
        assert(all.drop_first() =~= word.drop_first() + rest);
        assert forall|i: int| 0 <= i < word.drop_first().len() implies !is_space(
            #[trigger] word.drop_first()[i],
        ) by {
            assert(!is_space(word[i + 1]));
        }
        word_end_is(word.drop_first(), rest);
    } else {
        assert(all =~= rest);
    }
}

/// A text in lower case has a small letter in place of each capital of ASCII, and is otherwise the same.
pub proof fn lower_case_has_no_capitals(s: Seq<char>, i: int)
    requires
        0 <= i < s.len(),
    ensures
        ascii_lowercase(s).len() == s.len(),
        'A' <= s[i] && s[i] <= 'Z' ==> ascii_lowercase(s)[i] as nat - 'a' as nat == s[i] as nat
            - 'A' as nat,
        !('A' <= s[i] && s[i] <= 'Z') ==> ascii_lowercase(s)[i] == s[i],
{
}

/// Joined texts stand one after another, with the separator between each two of them.
pub proof fn joined_in_order(first: Seq<char>, rest: Seq<Seq<char>>, separator: Seq<char>)
    ensures
        joined(Seq::empty(), separator).len() == 0,
        joined(seq![first], separator) == first,
        rest.len() > 0 ==> joined(seq![first] + rest, separator) == first + separator + joined(
            rest,
            separator,
        ),
    decreases rest.len(),
{
    if rest.len() > 0 {
        let all = seq![first] + rest;
        assert(all.last() == rest.last());
        assert(all.drop_last() =~= seq![first] + rest.drop_last());
        if rest.len() == 1 {
            assert(all.drop_last() =~= seq![first]);
            assert(joined(rest, separator) == rest[0]);
            assert(joined(all, separator) == joined(all.drop_last(), separator) + separator
                + rest[0]);
        } else {
            joined_in_order(first, rest.drop_last(), separator);
            assert(joined(all, separator) =~= first + separator + joined(rest, separator));
        }
    }
}

/// A text begins with another exactly where it is that and something more, and without it that more is
/// left.
pub proof fn beginnings_are_taken_off(prefix: Seq<char>, rest: Seq<char>, s: Seq<char>)
    ensures
        starts_with(prefix + rest, prefix),
        stripped(prefix + rest, prefix) == Some(rest),
        starts_with(s, prefix) ==> s == prefix + s.skip(prefix.len() as int),
        stripped(s, prefix) matches Some(more) ==> s == prefix + more,
        contains(rest + prefix + s, prefix),
{
    let all = prefix + rest;
    assert(all.take(prefix.len() as int) =~= prefix);
    assert(all.skip(prefix.len() as int) =~= rest);
    if starts_with(s, prefix) {
        assert(s =~= s.take(prefix.len() as int) + s.skip(prefix.len() as int));
    }
    let n = rest.len() as int;
    let whole = rest + prefix + s;
    assert(whole.subrange(n, n + prefix.len()) =~= prefix);
    assert(occurs_at(whole, prefix, n));
}

/// Without the characters at its end a text does not end in them, and is otherwise the same.
pub proof fn endings_are_taken_off(s: Seq<char>, c: char)
    ensures
        ({
            let left = without_trailing(s, c);
            &&& left.len() <= s.len()
            &&& left == s.take(left.len() as int)
            &&& left.len() > 0 ==> left.last() != c
            &&& forall|i: int| left.len() <= i < s.len() ==> #[trigger] s[i] == c
        }),
    decreases s.len(),
{
    if s.len() > 0 && s.last() == c {
        endings_are_taken_off(s.drop_last(), c);
        let left = without_trailing(s, c);
        assert(left =~= s.take(left.len() as int));
        assert forall|i: int| left.len() <= i < s.len() implies #[trigger] s[i] == c by {
            if i < s.len() - 1 {
                assert(s[i] == s.drop_last()[i]);
            }
        }
    } else {
        assert(s =~= s.take(s.len() as int));
    }
}

}
