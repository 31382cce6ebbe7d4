//! Searching, splitting and reading text, on sequences of characters.
//!
//! The handshake and the endpoint string are plain text. Their grammars are
//! written here from a few operations: the first occurrence of a pattern,
//! the split around it, lines, words, ASCII lower case and decimal numbers.

use crate::primitives::push_char;
use vstd::prelude::*;
use vstd::slice::{slice_subrange, slice_to_vec};

verus! {

/// Where `pat` first occurs in `s` at or after position `from`.
pub open spec fn find_from(s: Seq<char>, pat: Seq<char>, from: int) -> Option<int>
    decreases s.len() - from,
{
    if from < 0 || from + pat.len() > s.len() {
        None
    } else if pat.len() == 0 || s.subrange(from, from + pat.len()) == pat {
        Some(from)
    } else {
        find_from(s, pat, from + 1)
    }
}

/// Where `pat` first occurs in `s`.
pub open spec fn find(s: Seq<char>, pat: Seq<char>) -> Option<int> {
    find_from(s, pat, 0)
}

/// The text before and the text after the first occurrence of `pat`.
pub open spec fn split_once(s: Seq<char>, pat: Seq<char>) -> Option<(Seq<char>, Seq<char>)> {
    match find(s, pat) {
        Some(at) => Some((s.take(at), s.skip(at + pat.len()))),
        None => None,
    }
}

/// A letter `A` to `Z` as its lower-case letter; every other character as
/// it is.
pub open spec fn lower_char(c: char) -> char {
    if 'A' <= c && c <= 'Z' {
        ((c as u8) + 32) as char
    } else {
        c
    }
}

/// The text with its ASCII letters in lower case.
pub open spec fn ascii_lowercase(s: Seq<char>) -> Seq<char> {
    Seq::new(s.len(), |i: int| lower_char(s[i]))
}

/// Whether a character is one of the decimal digits `0` to `9`.
pub open spec fn is_digit(c: char) -> bool {
    '0' <= c && c <= '9'
}

/// Whether a text is made of decimal digits alone.
pub open spec fn all_digits(s: Seq<char>) -> bool {
    forall|i: int| 0 <= i < s.len() ==> is_digit(#[trigger] s[i])
}

/// The number that a string of decimal digits writes.
pub open spec fn decimal_value(s: Seq<char>) -> nat
    decreases s.len(),
{
    if s.len() == 0 {
        0
    } else {
        decimal_value(s.drop_last()) * 10 + (s.last() as int - '0' as int) as nat
    }
}

/// The number that `s` writes, as the standard parser of unsigned integers
/// reads it: an optional `+`, then one or more decimal digits and nothing
/// else, and a value of at most `max`.
pub open spec fn parse_unsigned(s: Seq<char>, max: nat) -> Option<nat> {
    let digits = if s.len() > 0 && s[0] == '+' {
        s.skip(1)
    } else {
        s
    };
    if digits.len() > 0 && all_digits(digits) && decimal_value(digits) <= max {
        Some(decimal_value(digits))
    } else {
        None
    }
}

/// A line without the carriage return that may end it.
pub open spec fn strip_cr(line: Seq<char>) -> Seq<char> {
    if line.len() > 0 && line.last() == '\r' {
        line.drop_last()
    } else {
        line
    }
}

/// What a search finds lies at or after its start and inside the text.
pub proof fn lemma_find_from_bounds(s: Seq<char>, pat: Seq<char>, from: int)
    ensures
        find_from(s, pat, from) matches Some(at) ==> 0 <= from <= at && at + pat.len() <= s.len(),
    decreases s.len() - from,
{
    if from < 0 || from + pat.len() > s.len() {
    } else if pat.len() == 0 || s.subrange(from, from + pat.len()) == pat {
    } else {
        lemma_find_from_bounds(s, pat, from + 1);
    }
}

/// The lines of `s` from position `from` on. A line ends at a line feed; the
/// line feed, and a carriage return just before it, are not part of the
/// line. Text after the last line feed is a line of its own, kept whole.
pub open spec fn lines_from(s: Seq<char>, from: int) -> Seq<Seq<char>>
    decreases s.len() - from,
{
    if from < 0 || from >= s.len() {
        Seq::empty()
    } else {
        match find_from(s, seq!['\n'], from) {
            None => seq![s.subrange(from, s.len() as int)],
            Some(end) => {
                proof {
                    lemma_find_from_bounds(s, seq!['\n'], from);
                }
                seq![strip_cr(s.subrange(from, end))] + lines_from(s, end + 1)
            },
        }
    }
}

/// The lines of `s`.
pub open spec fn lines(s: Seq<char>) -> Seq<Seq<char>> {
    lines_from(s, 0)
}

/// The characters with the Unicode property `White_Space`.
pub open spec fn is_whitespace(c: char) -> bool {
    let code = c as u32;
    ||| 0x09 <= code <= 0x0d
    ||| code == 0x20
    ||| code == 0x85
    ||| code == 0xa0
    ||| code == 0x1680
    ||| 0x2000 <= code <= 0x200a
    ||| code == 0x2028
    ||| code == 0x2029
    ||| code == 0x202f
    ||| code == 0x205f
    ||| code == 0x3000
}

/// Where the run of characters that are not white space, starting at
/// `from`, ends.
pub open spec fn word_end(s: Seq<char>, from: int) -> int
    decreases s.len() - from,
{
    if from < 0 || from >= s.len() || is_whitespace(s[from]) {
        from
    } else {
        word_end(s, from + 1)
    }
}

/// A word ends at or after its start and inside the text, and after its
/// start where it starts with a character that is no white space.
pub proof fn lemma_word_end_bounds(s: Seq<char>, from: int)
    requires
        0 <= from <= s.len(),
    ensures
        from <= word_end(s, from) <= s.len(),
        from < s.len() && !is_whitespace(s[from]) ==> from < word_end(s, from),
    decreases s.len() - from,
{
    if from >= s.len() || is_whitespace(s[from]) {
    } else {
        lemma_word_end_bounds(s, from + 1);
    }
}

/// The words of `s` from position `from` on: the longest runs of characters
/// that are not white space.
pub open spec fn words_from(s: Seq<char>, from: int) -> Seq<Seq<char>>
    decreases s.len() - from,
{
    if from < 0 || from >= s.len() {
        Seq::empty()
    } else if is_whitespace(s[from]) {
        words_from(s, from + 1)
    } else {
        proof {
            lemma_word_end_bounds(s, from);
        }
        seq![s.subrange(from, word_end(s, from))] + words_from(s, word_end(s, from))
    }
}

/// The words of `s`.
pub open spec fn words(s: Seq<char>) -> Seq<Seq<char>> {
    words_from(s, 0)
}

/// The texts that a vector of character vectors holds.
pub open spec fn texts(parts: Seq<Vec<char>>) -> Seq<Seq<char>> {
    Seq::new(parts.len(), |i: int| parts[i]@)
}

/// Whether `pat` stands in `s` at position `at`.
pub open spec fn occurs(s: Seq<char>, pat: Seq<char>, at: int) -> bool {
    0 <= at && at + pat.len() <= s.len() && s.subrange(at, at + pat.len()) == pat
}

/// Where nothing is found, the pattern stands nowhere.
pub proof fn lemma_find_none(s: Seq<char>, pat: Seq<char>, from: int, at: int)
    requires
        find_from(s, pat, from) is None,
        0 <= from <= at,
    ensures
        !occurs(s, pat, at),
    decreases s.len() - from,
{
    if from + pat.len() > s.len() {
    } else if from < at {
        lemma_find_none(s, pat, from + 1, at);
    }
}

/// The search gives the first position at which the pattern stands.
pub proof fn lemma_find_first(s: Seq<char>, pat: Seq<char>, from: int, at: int)
    requires
        0 <= from <= at,
        pat.len() > 0,
        occurs(s, pat, at),
        forall|j: int| from <= j < at ==> !occurs(s, pat, j),
    ensures
        find_from(s, pat, from) == Some(at),
    decreases at - from,
{
    if from < at {
        assert(!occurs(s, pat, from));
        lemma_find_first(s, pat, from + 1, at);
    }
}

/// A text put together from a beginning, a pattern and an end splits into
/// that beginning and that end, where the pattern does not stand earlier.
pub proof fn lemma_split_once_joined(a: Seq<char>, pat: Seq<char>, b: Seq<char>)
    requires
        pat.len() > 0,
        forall|j: int| 0 <= j < a.len() ==> !occurs(a + pat + b, pat, j),
    ensures
        split_once(a + pat + b, pat) == Some((a, b)),
{
    let s = a + pat + b;
    assert(s.subrange(a.len() as int, (a.len() + pat.len()) as int) =~= pat);
    lemma_find_first(s, pat, 0, a.len() as int);
    assert(s.take(a.len() as int) =~= a);
    assert(s.skip((a.len() + pat.len()) as int) =~= b);
}

/// A text put together from a beginning without the character `c`, then
/// `c`, then an end, splits at `c` into that beginning and that end.
pub proof fn lemma_split_once_char(a: Seq<char>, c: char, b: Seq<char>)
    requires
        find(a, seq![c]) is None,
    ensures
        split_once(a + seq![c] + b, seq![c]) == Some((a, b)),
{
    let s = a + seq![c] + b;
    assert forall|j: int| 0 <= j < a.len() implies !occurs(s, seq![c], j) by {
        if occurs(s, seq![c], j) {
            assert(s.subrange(j, j + 1)[0] == c);
            assert(a.subrange(j, j + 1) =~= seq![c]);
            lemma_find_none(a, seq![c], 0, j);
        }
    }
    lemma_split_once_joined(a, seq![c], b);
}

/// The characters of a string.
pub fn chars_of(text: &str) -> (chars: Vec<char>)
    ensures
        chars@ == text@,
{
    let mut chars: Vec<char> = Vec::new();
    for c in it: text.chars()
        invariant
            chars@ == it.seq().take(it.index() as int),
            it.seq() == text@,
    {
        chars.push(c);
    }
    chars
}

/// The string made of the given characters.
pub fn string_of(chars: &[char]) -> (text: String)
    ensures
        text@ == chars@,
{
    let mut text = String::new();
    let mut i: usize = 0;
    while i < chars.len()
        invariant
            i <= chars@.len(),
            text@ == chars@.take(i as int),
        decreases chars@.len() - i,
    {
        push_char(&mut text, chars[i]);
        assert(chars@.take(i as int).push(chars@[i as int]) =~= chars@.take(i + 1));
        i += 1;
    }
    assert(chars@.take(i as int) =~= chars@);
    text
}

/// Whether two texts are the same.
pub fn equal(a: &[char], b: &[char]) -> (same: bool)
    ensures
        same == (a@ == b@),
{
    if a.len() != b.len() {
        return false;
    }
    let mut i: usize = 0;
    while i < a.len()
        invariant
            i <= a@.len(),
            a@.len() == b@.len(),
            forall|j: int| 0 <= j < i ==> a@[j] == b@[j],
        decreases a@.len() - i,
    {
        if a[i] != b[i] {
            return false;
        }
        i += 1;
    }
    assert(a@ =~= b@);
    true
}

/// Whether `pat` stands in `s` at position `at`.
fn occurs_at(s: &[char], pat: &[char], at: usize) -> (occurs: bool)
    requires
        at + pat@.len() <= s@.len(),
    ensures
        occurs == (s@.subrange(at as int, at + pat@.len()) == pat@),
{
    let ghost window = s@.subrange(at as int, at + pat@.len());
    let length = s.len();
    let mut i: usize = 0;
    while i < pat.len()
        invariant
            i <= pat@.len(),
            length == s@.len(),
            at + pat@.len() <= s@.len(),
            window == s@.subrange(at as int, at + pat@.len()),
            forall|j: int| 0 <= j < i ==> window[j] == pat@[j],
        decreases pat@.len() - i,
    {
        if s[at + i] != pat[i] {
            assert(window[i as int] != pat@[i as int]);
            return false;
        }
        i += 1;
    }
    assert(window =~= pat@);
    true
}

/// Where `pat` first occurs in `s` at or after position `from`.
pub fn find_in(s: &[char], pat: &[char], from: usize) -> (found: Option<usize>)
    ensures
        match found {
            Some(at) => find_from(s@, pat@, from as int) == Some(at as int) && from <= at && at
                + pat@.len() <= s@.len(),
            None => find_from(s@, pat@, from as int) is None,
        },
{
    if pat.len() > s.len() || from > s.len() - pat.len() {
        return None;
    }
    if pat.len() == 0 {
        return Some(from);
    }
    let last = s.len() - pat.len();
    let mut at = from;
    while at <= last
        invariant
            from <= at <= last + 1,
            0 < pat@.len() <= s@.len(),
            last < usize::MAX,
            last == s@.len() - pat@.len(),
            find_from(s@, pat@, from as int) == find_from(s@, pat@, at as int),
        decreases last + 1 - at,
    {
        if occurs_at(s, pat, at) {
            return Some(at);
        }
        at += 1;
    }
    None
}

/// The text before and the text after the first occurrence of `pat`.
pub fn split_around<'a>(s: &'a [char], pat: &[char]) -> (parts: Option<(&'a [char], &'a [char])>)
    ensures
        match parts {
            Some((before, after)) => split_once(s@, pat@) == Some((before@, after@)),
            None => split_once(s@, pat@) is None,
        },
{
    let length = s.len();
    match find_in(s, pat, 0) {
        Some(at) => {
            let before = slice_subrange(s, 0, at);
            let after = slice_subrange(s, at + pat.len(), length);
            assert(before@ =~= s@.take(at as int));
            assert(after@ =~= s@.skip(at + pat@.len()));
            Some((before, after))
        },
        None => None,
    }
}

/// The text with its ASCII letters in lower case.
pub fn lowercase(s: &[char]) -> (lower: Vec<char>)
    ensures
        lower@ == ascii_lowercase(s@),
{
    let mut lower: Vec<char> = Vec::new();
    let mut i: usize = 0;
    while i < s.len()
        invariant
            i <= s@.len(),
            lower@.len() == i,
            forall|j: int| 0 <= j < i ==> lower@[j] == lower_char(s@[j]),
        decreases s@.len() - i,
    {
        let c = s[i];
        if c >= 'A' && c <= 'Z' {
            let code: u8 = c as u8;
            lower.push((code + 32) as char);
        } else {
            lower.push(c);
        }
        i += 1;
    }
    assert(lower@ =~= ascii_lowercase(s@));
    lower
}

/// A string of digits writes at least what any of its beginnings writes.
pub proof fn lemma_decimal_value_grows(s: Seq<char>, n: int)
    requires
        0 <= n <= s.len(),
    ensures
        decimal_value(s.take(n)) <= decimal_value(s),
    decreases s.len(),
{
    if n == s.len() {
        assert(s.take(n) =~= s);
    } else {
        assert(s.drop_last().take(n) =~= s.take(n));
        lemma_decimal_value_grows(s.drop_last(), n);
    }
}

/// The number that `s` writes, if it writes one of at most `max`.
pub fn parse_number(s: &[char], max: u32) -> (number: Option<u32>)
    ensures
        match number {
            Some(n) => parse_unsigned(s@, max as nat) == Some(n as nat),
            None => parse_unsigned(s@, max as nat) is None,
        },
{
    let start: usize = if s.len() > 0 && s[0] == '+' {
        1
    } else {
        0
    };
    let ghost digits = s@.skip(start as int);
    assert(s@.skip(0) =~= s@);
    if start == s.len() {
        return None;
    }
    let mut value: u64 = 0;
    let mut i: usize = start;
    while i < s.len()
        invariant
            start <= i <= s@.len(),
            digits == s@.skip(start as int),
            digits == (if s@.len() > 0 && s@[0] == '+' {
                s@.skip(1)
            } else {
                s@
            }),
            all_digits(digits.take(i - start)),
            value == decimal_value(digits.take(i - start)),
            value <= max,
        decreases s@.len() - i,
    {
        let c = s[i];
        let ghost longer = digits.take(i - start + 1);
        assert(longer.drop_last() =~= digits.take(i - start));
        assert(longer.last() == c);
        if !(c >= '0' && c <= '9') {
            assert(!is_digit(digits[i - start]));
            return None;
        }
        let next: u64 = value * 10 + ((c as u8 - 48) as u64);
        assert(next == decimal_value(longer));
        if next > max as u64 {
            proof {
                if all_digits(digits) {
                    lemma_decimal_value_grows(digits, i - start + 1);
                }
            }
            return None;
        }
        value = next;
        i += 1;
    }
    assert(digits.take(i - start) =~= digits);
    Some(value as u32)
}

/// The characters of `s` from `from` up to `to`, copied.
pub fn copy_range(s: &[char], from: usize, to: usize) -> (part: Vec<char>)
    requires
        from <= to <= s@.len(),
    ensures
        part@ == s@.subrange(from as int, to as int),
{
    slice_to_vec(slice_subrange(s, from, to))
}

/// The lines of `s`.
pub fn split_lines(s: &[char]) -> (parts: Vec<Vec<char>>)
    ensures
        texts(parts@) == lines(s@),
{
    let mut parts: Vec<Vec<char>> = Vec::new();
    let mut from: usize = 0;
    let line_feed = ['\n'];
    assert(line_feed@ =~= seq!['\n']);
    assert(texts(parts@) =~= Seq::<Seq<char>>::empty());
    while from < s.len()
        invariant
            from <= s@.len(),
            line_feed@ == seq!['\n'],
            lines(s@) == texts(parts@) + lines_from(s@, from as int),
        decreases s@.len() - from,
    {
        let ghost before = texts(parts@);
        match find_in(s, line_feed.as_slice(), from) {
            None => {
                let line = copy_range(s, from, s.len());
                parts.push(line);
                assert(texts(parts@) =~= before + seq![s@.subrange(from as int, s@.len() as int)]);
                from = s.len();
            },
            Some(end) => {
                let stop = if end > from && s[end - 1] == '\r' {
                    end - 1
                } else {
                    end
                };
                let line = copy_range(s, from, stop);
                assert(line@ =~= strip_cr(s@.subrange(from as int, end as int)));
                parts.push(line);
                assert(texts(parts@) =~= before + seq![
                    strip_cr(s@.subrange(from as int, end as int)),
                ]);
                from = end + 1;
            },
        }
    }
    parts
}

/// Whether a character is white space.
pub fn whitespace(c: char) -> (white: bool)
    ensures
        white == is_whitespace(c),
{
    let code = c as u32;
    (0x09 <= code && code <= 0x0d) || code == 0x20 || code == 0x85 || code == 0xa0 || code
        == 0x1680 || (0x2000 <= code && code <= 0x200a) || code == 0x2028 || code == 0x2029
        || code == 0x202f || code == 0x205f || code == 0x3000
}

/// The words of `s`.
pub fn split_words(s: &[char]) -> (parts: Vec<Vec<char>>)
    ensures
        texts(parts@) == words(s@),
{
    let mut parts: Vec<Vec<char>> = Vec::new();
    let mut from: usize = 0;
    assert(texts(parts@) =~= Seq::<Seq<char>>::empty());
    while from < s.len()
        invariant
            from <= s@.len(),
            words(s@) == texts(parts@) + words_from(s@, from as int),
        decreases s@.len() - from,
    {
        if whitespace(s[from]) {
            from += 1;
        } else {
            let mut end: usize = from + 1;
            while end < s.len() && !whitespace(s[end])
                invariant
                    from < end <= s@.len(),
                    word_end(s@, from as int) == word_end(s@, end as int),
                decreases s@.len() - end,
            {
                end += 1;
            }
            let ghost before = texts(parts@);
            let word = copy_range(s, from, end);
            parts.push(word);
            assert(texts(parts@) =~= before + seq![s@.subrange(from as int, end as int)]);
            from = end;
        }
    }
    parts
}

/// The character that writes a digit.
pub open spec fn digit_char(digit: nat) -> char {
    (('0' as u8) + digit) as char
}

/// A number written in decimal digits, without leading zeros.
pub open spec fn decimal_text(number: nat) -> Seq<char>
    decreases number,
{
    if number < 10 {
        seq![digit_char(number)]
    } else {
        decimal_text(number / 10).push(digit_char(number % 10))
    }
}

/// A number written in decimal digits reads back as that number.
pub proof fn lemma_decimal_text_reads_back(number: nat, max: nat)
    requires
        number <= max,
    ensures
        decimal_text(number).len() > 0,
        all_digits(decimal_text(number)),
        decimal_value(decimal_text(number)) == number,
        parse_unsigned(decimal_text(number), max) == Some(number),
    decreases number,
{
    let text = decimal_text(number);
    if number < 10 {
        assert(text.drop_last() =~= Seq::<char>::empty());
        assert(decimal_value(text.drop_last()) == 0);
    } else {
        lemma_decimal_text_reads_back(number / 10, max);
        assert(text.drop_last() =~= decimal_text(number / 10));
    }
    assert(text.last() == digit_char(number % 10));
    assert(text[0] != '+');
    assert(text.skip(0) =~= text);
}

/// Appends a number in decimal digits.
pub fn push_decimal(out: &mut Vec<char>, number: u64)
    ensures
        final(out)@ == old(out)@ + decimal_text(number as nat),
    decreases number,
{
    if number >= 10 {
        push_decimal(out, number / 10);
    }
    let digit: u8 = (number % 10) as u8;
    out.push((48 + digit) as char);
    proof {
        if number < 10 {
            assert(out@ =~= old(out)@ + decimal_text(number as nat));
        } else {
            assert(out@ =~= old(out)@ + decimal_text(number as nat));
        }
    }
}

/// Appends the characters of a text.
pub fn push_text(out: &mut Vec<char>, text: &str)
    ensures
        final(out)@ == old(out)@ + text@,
{
    let mut chars = chars_of(text);
    out.append(&mut chars);
}

/// The character that writes a hexadecimal digit, in lower case.
pub open spec fn hex_digit_char(digit: nat) -> char {
    if digit < 10 {
        (('0' as u8) + digit) as char
    } else {
        (('a' as u8) + digit - 10) as char
    }
}

/// A byte as `0x`, its two hexadecimal digits and a space.
pub open spec fn hex_byte_text(byte: u8) -> Seq<char> {
    seq!['0', 'x', hex_digit_char(byte as nat / 16), hex_digit_char(byte as nat % 16), ' ']
}

/// Bytes written one after the other, each as `hex_byte_text` writes it.
pub open spec fn hex_text(bytes: Seq<u8>) -> Seq<char>
    decreases bytes.len(),
{
    if bytes.len() == 0 {
        Seq::empty()
    } else {
        hex_text(bytes.drop_last()) + hex_byte_text(bytes.last())
    }
}

/// The character that writes a hexadecimal digit.
fn hex_digit(digit: u8) -> (c: char)
    requires
        digit < 16,
    ensures
        c == hex_digit_char(digit as nat),
{
    if digit < 10 {
        (48 + digit) as char
    } else {
        (97 + digit - 10) as char
    }
}

/// Appends bytes in hexadecimal.
pub fn push_hex(out: &mut Vec<char>, bytes: &[u8])
    ensures
        final(out)@ == old(out)@ + hex_text(bytes@),
{
    let mut at: usize = 0;
    assert(bytes@.take(0) =~= Seq::<u8>::empty());
    assert(out@ =~= old(out)@ + hex_text(bytes@.take(0)));
    while at < bytes.len()
        invariant
            at <= bytes@.len(),
            out@ == old(out)@ + hex_text(bytes@.take(at as int)),
        decreases bytes@.len() - at,
    {
        let ghost before = out@;
        let ghost longer = bytes@.take(at + 1);
        assert(longer.drop_last() =~= bytes@.take(at as int));
        assert(longer.last() == bytes@[at as int]);
        let byte = bytes[at];
        out.push('0');
        out.push('x');
        out.push(hex_digit(byte / 16));
        out.push(hex_digit(byte % 16));
        out.push(' ');
        assert(out@ =~= before + hex_byte_text(byte));
        at += 1;
    }
    assert(bytes@.take(at as int) =~= bytes@);
}

/// The end of a line in a handshake: carriage return and line feed.
pub open spec fn line_end() -> Seq<char> {
    seq!['\r', '\n']
}

/// Lines written one after the other, each with its line end.
pub open spec fn joined_lines(parts: Seq<Seq<char>>) -> Seq<char>
    decreases parts.len(),
{
    if parts.len() == 0 {
        Seq::empty()
    } else {
        joined_lines(parts.drop_last()) + parts.last() + line_end()
    }
}

/// A search in the text behind position `skipped` finds what the search in
/// the whole text finds from there on.
pub proof fn lemma_find_from_skipped(s: Seq<char>, pat: Seq<char>, skipped: int, from: int)
    requires
        0 <= skipped <= s.len(),
        0 <= from,
    ensures
        find_from(s, pat, skipped + from) == match find_from(s.skip(skipped), pat, from) {
            Some(at) => Some(at + skipped),
            None => None,
        },
    decreases s.len() - skipped - from,
{
    let tail = s.skip(skipped);
    if from + pat.len() > tail.len() {
    } else {
        assert(tail.subrange(from, from + pat.len()) =~= s.subrange(
            skipped + from,
            skipped + from + pat.len(),
        ));
        if pat.len() == 0 || tail.subrange(from, from + pat.len()) == pat {
        } else {
            lemma_find_from_skipped(s, pat, skipped, from + 1);
        }
    }
}

/// The lines of the text behind position `skipped` are the lines of the
/// whole text from there on.
pub proof fn lemma_lines_from_skipped(s: Seq<char>, skipped: int, from: int)
    requires
        0 <= skipped <= s.len(),
        0 <= from,
    ensures
        lines_from(s, skipped + from) == lines_from(s.skip(skipped), from),
    decreases s.len() - skipped - from,
{
    let tail = s.skip(skipped);
    if from >= tail.len() {
    } else {
        lemma_find_from_skipped(s, seq!['\n'], skipped, from);
        lemma_find_from_bounds(s, seq!['\n'], skipped + from);
        match find_from(tail, seq!['\n'], from) {
            None => {
                assert(tail.subrange(from, tail.len() as int) =~= s.subrange(
                    skipped + from,
                    s.len() as int,
                ));
            },
            Some(end) => {
                assert(tail.subrange(from, end) =~= s.subrange(skipped + from, skipped + end));
                lemma_lines_from_skipped(s, skipped, end + 1);
            },
        }
    }
}

/// Joined lines begin with their first line and its line end.
pub proof fn lemma_joined_lines_first(parts: Seq<Seq<char>>)
    requires
        parts.len() > 0,
    ensures
        joined_lines(parts) == parts[0] + line_end() + joined_lines(parts.skip(1)),
    decreases parts.len(),
{
    if parts.len() == 1 {
        assert(parts.drop_last() =~= Seq::<Seq<char>>::empty());
        assert(parts.skip(1) =~= Seq::<Seq<char>>::empty());
        assert(joined_lines(parts.drop_last()) =~= Seq::<char>::empty());
        assert(joined_lines(parts) =~= parts[0] + line_end() + Seq::<char>::empty());
    } else {
        lemma_joined_lines_first(parts.drop_last());
        assert(parts.drop_last().skip(1) =~= parts.skip(1).drop_last());
        assert(parts.skip(1).last() == parts.last());
        assert(joined_lines(parts) =~= parts[0] + line_end() + joined_lines(parts.skip(1)));
    }
}

/// Reading the lines of joined lines gives the lines back, where none of
/// them holds a line feed.
pub proof fn lemma_lines_of_joined(parts: Seq<Seq<char>>)
    requires
        forall|i: int| 0 <= i < parts.len() ==> find(#[trigger] parts[i], seq!['\n']) is None,
    ensures
        lines(joined_lines(parts)) == parts,
    decreases parts.len(),
{
    if parts.len() == 0 {
        assert(lines(joined_lines(parts)) =~= parts);
    } else {
        let first = parts[0];
        let rest = joined_lines(parts.skip(1));
        let s = first + line_end() + rest;
        let feed = seq!['\n'];
        let at: int = first.len() as int + 1;
        lemma_joined_lines_first(parts);
        assert(s.subrange(at, at + 1) =~= feed);
        assert forall|j: int| 0 <= j < at implies !occurs(s, feed, j) by {
            if occurs(s, feed, j) {
                assert(s.subrange(j, j + 1)[0] == '\n');
                if j < first.len() {
                    assert(first.subrange(j, j + 1) =~= feed);
                    lemma_find_none(first, feed, 0, j);
                }
            }
        }
        lemma_find_first(s, feed, 0, at);
        assert(strip_cr(s.subrange(0, at)) =~= first);
        lemma_lines_from_skipped(s, at + 1, 0);
        assert(s.skip(at + 1) =~= rest);
        assert forall|i: int| 0 <= i < parts.skip(1).len() implies find(
            #[trigger] parts.skip(1)[i],
            feed,
        ) is None by {
            assert(parts.skip(1)[i] == parts[i + 1]);
        }
        lemma_lines_of_joined(parts.skip(1));
        assert(seq![first] + parts.skip(1) =~= parts);
    }
}

/// Appends a line and its line end.
pub fn push_line(out: &mut Vec<char>, line: &[char])
    ensures
        final(out)@ == old(out)@ + line@ + line_end(),
{
    let mut copy = slice_to_vec(line);
    out.append(&mut copy);
    out.push('\r');
    out.push('\n');
    assert(out@ =~= old(out)@ + line@ + line_end());
}

/// A text without the character `c` has no occurrence of it.
pub proof fn lemma_find_absent_char(s: Seq<char>, c: char)
    requires
        !s.contains(c),
    ensures
        find(s, seq![c]) is None,
{
    if find(s, seq![c]) is Some {
        lemma_find_from_bounds(s, seq![c], 0);
        let at = find(s, seq![c])->0;
        lemma_find_found(s, seq![c], 0);
        assert(s.subrange(at, at + 1)[0] == c);
        assert(s[at] == c);
    }
}

/// What a search finds is an occurrence of the pattern.
pub proof fn lemma_find_found(s: Seq<char>, pat: Seq<char>, from: int)
    requires
        pat.len() > 0,
    ensures
        find_from(s, pat, from) matches Some(at) ==> occurs(s, pat, at),
    decreases s.len() - from,
{
    if from < 0 || from + pat.len() > s.len() {
    } else if s.subrange(from, from + pat.len()) == pat {
    } else {
        lemma_find_found(s, pat, from + 1);
    }
}

/// A run of characters that are no white space, ended by white space or by
/// the end of the text, is a word.
pub proof fn lemma_word_end_of_run(s: Seq<char>, from: int, to: int)
    requires
        0 <= from <= to <= s.len(),
        forall|j: int| from <= j < to ==> !is_whitespace(#[trigger] s[j]),
        to == s.len() || is_whitespace(s[to]),
    ensures
        word_end(s, from) == to,
    decreases to - from,
{
    if from < to {
        lemma_word_end_of_run(s, from + 1, to);
    }
}

/// Three texts without white space, parted by single spaces, are three
/// words.
pub proof fn lemma_three_words(a: Seq<char>, b: Seq<char>, c: Seq<char>)
    requires
        a.len() > 0,
        b.len() > 0,
        c.len() > 0,
        forall|j: int| 0 <= j < a.len() ==> !is_whitespace(#[trigger] a[j]),
        forall|j: int| 0 <= j < b.len() ==> !is_whitespace(#[trigger] b[j]),
        forall|j: int| 0 <= j < c.len() ==> !is_whitespace(#[trigger] c[j]),
    ensures
        words(a + seq![' '] + b + seq![' '] + c) == seq![a, b, c],
{
    let s = a + seq![' '] + b + seq![' '] + c;
    let a_end = a.len() as int;
    let b_start = a_end + 1;
    let b_end = b_start + b.len();
    let c_start = b_end + 1;
    let c_end = c_start + c.len();
    assert(s.len() == c_end);
    assert(s[a_end] == ' ');
    assert(s[b_end] == ' ');
    assert(is_whitespace(' '));
    assert forall|j: int| 0 <= j < a_end implies !is_whitespace(#[trigger] s[j]) by {
        assert(s[j] == a[j]);
    }
    assert forall|j: int| b_start <= j < b_end implies !is_whitespace(#[trigger] s[j]) by {
        assert(s[j] == b[j - b_start]);
    }
    assert forall|j: int| c_start <= j < c_end implies !is_whitespace(#[trigger] s[j]) by {
        assert(s[j] == c[j - c_start]);
    }
    lemma_word_end_of_run(s, 0, a_end);
    lemma_word_end_of_run(s, b_start, b_end);
    lemma_word_end_of_run(s, c_start, c_end);
    assert(s.subrange(0, a_end) =~= a);
    assert(s.subrange(b_start, b_end) =~= b);
    assert(s.subrange(c_start, c_end) =~= c);
    assert(words_from(s, c_end) =~= Seq::<Seq<char>>::empty());
    assert(words_from(s, c_start) =~= seq![c]);
    assert(words_from(s, b_end) == words_from(s, c_start));
    assert(words_from(s, b_start) =~= seq![b, c]);
    assert(words_from(s, a_end) == words_from(s, b_start));
    assert(words_from(s, 0) =~= seq![a, b, c]);
}

} // verus!
