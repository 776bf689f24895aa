//! Strings as sequences of characters.
//!
//! The rest of the library speaks of a string by its view, a `Seq<char>`.
//! This module holds what the standard library offers on strings and the
//! verifier does not know, and the scans that several modules share.

use vstd::prelude::*;
use vstd::utf8::{decode_utf8, encode_utf8, valid_utf8};

verus! {

/// `str::eq`: two string slices are equal when they hold the same characters.
pub assume_specification[ <str as PartialEq>::eq ](a: &str, b: &str) -> (r: bool)
    ensures
        r == (a@ == b@),
;

/// `String::push`: appends one character.
pub assume_specification[ String::push ](s: &mut String, c: char)
    ensures
        final(s)@ == old(s)@.push(c),
;

/// `String::push_str`: appends a string slice.
pub assume_specification[ String::push_str ](s: &mut String, other: &str)
    ensures
        final(s)@ == old(s)@ + other@,
;

/// `std::str::from_utf8`: the string that the bytes encode, or nothing where
/// they are not UTF-8.
#[verifier::external_body]
pub(crate) fn from_utf8(bytes: &[u8]) -> (r: Option<&str>)
    ensures
        match r {
            Some(s) => valid_utf8(bytes@) && s@ == decode_utf8(bytes@),
            None => !valid_utf8(bytes@),
        },
{
    std::str::from_utf8(bytes).ok()
}

/// What `String::from_utf8_lossy` makes of some bytes.
pub uninterp spec fn utf8_lossy(bytes: Seq<u8>) -> Seq<char>;

/// `String::from_utf8_lossy`: the string that the bytes encode. Bytes that are
/// not UTF-8 are replaced; of what replaces them nothing is claimed but that
/// the same bytes give the same string.
#[verifier::external_body]
pub(crate) fn from_utf8_lossy(bytes: &[u8]) -> (r: String)
    ensures
        r@ == utf8_lossy(bytes@),
        valid_utf8(bytes@) ==> r@ == decode_utf8(bytes@),
{
    String::from_utf8_lossy(bytes).into_owned()
}

/// The views of a sequence of strings.
pub open spec fn views(s: Seq<String>) -> Seq<Seq<char>> {
    s.map_values(|x: String| x@)
}

/// The view of a string that may be absent.
pub open spec fn opt_view(s: Option<String>) -> Option<Seq<char>> {
    match s {
        Some(x) => Some(x@),
        None => None,
    }
}

/// Whether two strings hold the same characters.
pub fn same(a: &str, b: &str) -> (r: bool)
    ensures
        r == (a@ == b@),
{
    *a == *b
}

/// The characters of a string.
pub fn chars_of(s: &str) -> (r: Vec<char>)
    ensures
        r@ == s@,
{
    let mut out: Vec<char> = Vec::new();
    for c in it: s.chars()
        invariant
            out@ == s@.subrange(0, it.index() as int),
            it.seq() == s@,
    {
        out.push(c);
    }
    out
}

/// The string made of the given characters.
pub fn string_of(chars: &[char]) -> (r: String)
    ensures
        r@ == chars@,
{
    let mut out = String::new();
    let mut i: usize = 0;
    while i < chars.len()
        invariant
            i <= chars@.len(),
            out@ == chars@.subrange(0, i as int),
        decreases chars@.len() - i,
    {
        out.push(chars[i]);
        i += 1;
    }
    assert(chars@.subrange(0, i as int) == chars@);
    out
}

/// A copy of a vector of strings.
pub fn clone_names(names: &Vec<String>) -> (r: Vec<String>)
    ensures
        r@ == names@,
{
    let r = names.clone();
    assert(r@ =~= names@);
    r
}

/// Whether `name` is one of `names`.
pub fn contains_name(names: &Vec<String>, name: &str) -> (r: bool)
    ensures
        r == views(names@).contains(name@),
{
    let ghost all = views(names@);
    let mut i: usize = 0;
    while i < names.len()
        invariant
            i <= names@.len(),
            all == views(names@),
            forall|k: int| 0 <= k < i ==> #[trigger] all[k] != name@,
        decreases names@.len() - i,
    {
        assert(all[i as int] == names@[i as int]@);
        if same(names[i].as_str(), name) {
            return true;
        }
        i += 1;
    }
    false
}

/// The first position of `c` in `s`, or the length of `s`.
pub open spec fn find<T>(s: Seq<T>, c: T) -> int
    decreases s.len(),
{
    if s.len() == 0 {
        0
    } else if s[0] == c {
        0
    } else {
        1 + find(s.drop_first(), c)
    }
}

/// What `find` returns.
pub proof fn lemma_find<T>(s: Seq<T>, c: T)
    ensures
        0 <= find(s, c) <= s.len(),
        forall|i: int| 0 <= i < find(s, c) ==> #[trigger] s[i] != c,
        find(s, c) < s.len() ==> s[find(s, c)] == c,
        find(s, c) < s.len() <==> s.contains(c),
    decreases s.len(),
{
    if s.len() > 0 && s[0] != c {
        let rest = s.drop_first();
        lemma_find(rest, c);
        assert forall|i: int| 0 <= i < find(s, c) implies #[trigger] s[i] != c by {
            if i > 0 {
                assert(rest[i - 1] == s[i]);
            }
        }
        if s.contains(c) {
            let k = choose|k: int| 0 <= k < s.len() && s[k] == c;
            assert(rest[k - 1] == c);
        }
    }
}

/// A position is the first one where nothing before it matches.
pub proof fn lemma_find_is<T>(s: Seq<T>, c: T, k: int)
    requires
        0 <= k <= s.len(),
        forall|i: int| 0 <= i < k ==> #[trigger] s[i] != c,
        k < s.len() ==> s[k] == c,
    ensures
        find(s, c) == k,
{
    lemma_find(s, c);
    let f = find(s, c);
    if f < k {
        assert(s[f] != c);
    } else if k < f {
        assert(s[k] != c);
    }
}

/// The first position of `c` at or after `from`, or the length.
pub fn find_from(chars: &[char], from: usize, c: char) -> (r: usize)
    requires
        from <= chars@.len(),
    ensures
        from <= r <= chars@.len(),
        r == from + find(chars@.skip(from as int), c),
{
    let mut i: usize = from;
    while i < chars.len() && chars[i] != c
        invariant
            from <= i <= chars@.len(),
            forall|k: int| from <= k < i ==> #[trigger] chars@[k] != c,
        decreases chars@.len() - i,
    {
        i += 1;
    }
    proof {
        let tail = chars@.skip(from as int);
        assert forall|k: int| 0 <= k < i - from implies #[trigger] tail[k] != c by {
            assert(tail[k] == chars@[from + k]);
        }
        lemma_find_is(tail, c, i - from);
    }
    i
}

/// The first position of byte `c` at or after `from`, or the length.
pub fn find_byte(bytes: &[u8], from: usize, c: u8) -> (r: usize)
    requires
        from <= bytes@.len(),
    ensures
        from <= r <= bytes@.len(),
        r == from + find(bytes@.skip(from as int), c),
{
    let mut i: usize = from;
    while i < bytes.len() && bytes[i] != c
        invariant
            from <= i <= bytes@.len(),
            forall|k: int| from <= k < i ==> #[trigger] bytes@[k] != c,
        decreases bytes@.len() - i,
    {
        i += 1;
    }
    proof {
        let tail = bytes@.skip(from as int);
        assert forall|k: int| 0 <= k < i - from implies #[trigger] tail[k] != c by {
            assert(tail[k] == bytes@[from + k]);
        }
        lemma_find_is(tail, c, i - from);
    }
    i
}

/// The characters from `from` up to `to` as a string.
pub fn substring(chars: &[char], from: usize, to: usize) -> (r: String)
    requires
        from <= to <= chars@.len(),
    ensures
        r@ == chars@.subrange(from as int, to as int),
{
    let mut out = String::new();
    let mut i: usize = from;
    while i < to
        invariant
            from <= i <= to <= chars@.len(),
            out@ == chars@.subrange(from as int, i as int),
        decreases to - i,
    {
        out.push(chars[i]);
        assert(chars@.subrange(from as int, i + 1) =~= chars@.subrange(from as int, i as int).push(chars@[i as int]));
        i += 1;
    }
    out
}

/// Whether `prefix` stands at position `at`.
pub fn prefix_at(chars: &[char], at: usize, prefix: &str) -> (r: bool)
    requires
        at <= chars@.len(),
    ensures
        r == prefix@.is_prefix_of(chars@.skip(at as int)),
{
    let wanted = chars_of(prefix);
    let ghost tail = chars@.skip(at as int);
    if wanted.len() > chars.len() - at {
        return false;
    }
    let mut i: usize = 0;
    while i < wanted.len()
        invariant
            at <= chars@.len(),
            wanted@ == prefix@,
            tail == chars@.skip(at as int),
            i <= wanted@.len(),
            at + wanted@.len() <= chars.len(),
            forall|k: int| 0 <= k < i ==> #[trigger] wanted@[k] == tail[k],
        decreases wanted@.len() - i,
    {
        if wanted[i] != chars[at + i] {
            assert(wanted@[i as int] != tail[i as int]);
            assert(!prefix@.is_prefix_of(tail)) by {
                if prefix@.is_prefix_of(tail) {
                    assert(prefix@ == tail.subrange(0, prefix@.len() as int));
                    assert(tail.subrange(0, prefix@.len() as int)[i as int] == tail[i as int]);
                }
            }
            return false;
        }
        i += 1;
    }
    assert(prefix@ =~= tail.subrange(0, prefix@.len() as int));
    true
}

/// Whether `s` begins with `prefix`.
pub fn starts_with(s: &str, prefix: &str) -> (r: bool)
    ensures
        r == prefix@.is_prefix_of(s@),
{
    let chars = chars_of(s);
    assert(chars@.skip(0) =~= s@);
    prefix_at(&chars, 0, prefix)
}

/// Whether `s` ends with `suffix`.
pub fn ends_with(s: &str, suffix: &str) -> (r: bool)
    ensures
        r == suffix@.is_suffix_of(s@),
{
    let chars = chars_of(s);
    let wanted = chars_of(suffix);
    if wanted.len() > chars.len() {
        return false;
    }
    let at: usize = chars.len() - wanted.len();
    let r = prefix_at(&chars, at, suffix);
    proof {
        let tail = s@.skip(at as int);
        assert(tail =~= s@.subrange((s@.len() - suffix@.len()) as int, s@.len() as int));
        assert(tail.subrange(0, suffix@.len() as int) =~= tail);
    }
    r
}

/// Length of a string's UTF-8 form.
pub fn byte_len(s: &str) -> (r: usize)
    ensures
        r == encode_utf8(s@).len(),
{
    s.as_bytes().len()
}

/// `s` without one carriage return at its end.
pub open spec fn strip_cr(s: Seq<char>) -> Seq<char> {
    if s.len() > 0 && s.last() == '\r' {
        s.drop_last()
    } else {
        s
    }
}

/// The lines of a text: parts that end in a line feed, or in a carriage return
/// and a line feed, both left out; and what follows the last line feed, if
/// anything does.
pub open spec fn lines(s: Seq<char>) -> Seq<Seq<char>>
    decreases s.len(),
{
    proof {
        lemma_find(s, '\n');
    }
    if s.len() == 0 {
        seq![]
    } else if find(s, '\n') >= s.len() {
        seq![s]
    } else {
        seq![strip_cr(s.take(find(s, '\n')))] + lines(s.skip(find(s, '\n') + 1))
    }
}

/// The lines of a text.
pub fn lines_of(s: &str) -> (r: Vec<String>)
    ensures
        views(r@) == lines(s@),
{
    let chars = chars_of(s);
    let mut out: Vec<String> = Vec::new();
    let mut at: usize = 0;
    proof {
        assert(s@.skip(0) =~= s@);
        assert(views(out@) =~= Seq::<Seq<char>>::empty());
        assert(views(out@) + lines(s@) =~= lines(s@));
    }
    while at < chars.len()
        invariant
            chars@ == s@,
            at <= chars@.len(),
            views(out@) + lines(s@.skip(at as int)) == lines(s@),
        decreases chars@.len() - at,
    {
        let ghost rest = s@.skip(at as int);
        let ghost done = views(out@);
        let end = find_from(&chars, at, '\n');
        proof {
            lemma_find(rest, '\n');
        }
        if end >= chars.len() {
            out.push(substring(&chars, at, end));
            proof {
                assert(s@.subrange(at as int, end as int) =~= rest);
                assert(views(out@) =~= done.push(rest));
                assert(done.push(rest) =~= done + seq![rest]);
                assert(s@.skip(end as int) =~= Seq::<char>::empty());
                assert(views(out@) + lines(s@.skip(end as int)) =~= views(out@));
            }
            at = end;
        } else {
            let stop = if end > at && chars[end - 1] == '\r' {
                end - 1
            } else {
                end
            };
            out.push(substring(&chars, at, stop));
            proof {
                let line = strip_cr(rest.take(end - at));
                assert(s@.subrange(at as int, stop as int) =~= line);
                assert(views(out@) =~= done.push(line));
                assert(rest.skip(end - at + 1) =~= s@.skip(end + 1));
                let tail = lines(s@.skip(end + 1));
                assert(done.push(line) + tail =~= done + (seq![line] + tail));
            }
            at = end + 1;
        }
    }
    proof {
        assert(s@.skip(at as int) =~= Seq::<char>::empty());
        assert(views(out@) + Seq::<Seq<char>>::empty() =~= views(out@));
    }
    out
}

/// Characters with the Unicode property `White_Space`.
pub open spec fn is_white_space(c: char) -> bool {
    ('\u{9}' <= c <= '\u{d}') || c == ' ' || c == '\u{85}' || c == '\u{a0}' || c == '\u{1680}' || ('\u{2000}' <= c <= '\u{200a}') || c == '\u{2028}'
        || c == '\u{2029}' || c == '\u{202f}' || c == '\u{205f}' || c == '\u{3000}'
}

/// Whether a character has the Unicode property `White_Space`.
pub fn white_space(c: char) -> (r: bool)
    ensures
        r == is_white_space(c),
{
    ('\u{9}' <= c && c <= '\u{d}') || c == ' ' || c == '\u{85}' || c == '\u{a0}' || c == '\u{1680}' || ('\u{2000}' <= c && c <= '\u{200a}') || c == '\u{2028}'
        || c == '\u{2029}' || c == '\u{202f}' || c == '\u{205f}' || c == '\u{3000}'
}

/// `s` without the white space at its beginning.
pub open spec fn trim_start(s: Seq<char>) -> Seq<char>
    decreases s.len(),
{
    if s.len() > 0 && is_white_space(s[0]) {
        trim_start(s.drop_first())
    } else {
        s
    }
}

/// `s` without the white space at its end.
pub open spec fn trim_end(s: Seq<char>) -> Seq<char>
    decreases s.len(),
{
    if s.len() > 0 && is_white_space(s.last()) {
        trim_end(s.drop_last())
    } else {
        s
    }
}

/// `s` without the white space at both ends.
pub open spec fn trimmed(s: Seq<char>) -> Seq<char> {
    trim_end(trim_start(s))
}

/// `s` without the white space at both ends.
pub fn trim(s: &str) -> (r: String)
    ensures
        r@ == trimmed(s@),
{
    let chars = chars_of(s);
    let mut from: usize = 0;
    assert(s@.skip(0) =~= s@);
    while from < chars.len() && white_space(chars[from])
        invariant
            chars@ == s@,
            from <= chars@.len(),
            trim_start(s@.skip(from as int)) == trim_start(s@),
        decreases chars@.len() - from,
    {
        assert(s@.skip(from as int).drop_first() =~= s@.skip(from + 1));
        from += 1;
    }
    let ghost rest = s@.skip(from as int);
    assert(trim_start(s@) == rest);
    let mut to: usize = chars.len();
    assert(s@.subrange(from as int, to as int) =~= rest);
    while to > from && white_space(chars[to - 1])
        invariant
            chars@ == s@,
            from <= to <= chars@.len(),
            trim_end(s@.subrange(from as int, to as int)) == trim_end(rest),
        decreases to,
    {
        assert(s@.subrange(from as int, to as int).drop_last() =~= s@.subrange(from as int, to - 1));
        to -= 1;
    }
    substring(&chars, from, to)
}

/// The upper-case form of an ASCII letter; other characters as they are.
pub open spec fn ascii_upper(c: char) -> char {
    if 'a' <= c <= 'z' {
        (c as int - 32) as char
    } else {
        c
    }
}

/// The upper-case form of an ASCII letter; other characters as they are.
pub fn upper(c: char) -> (r: char)
    ensures
        r == ascii_upper(c),
{
    if 'a' <= c && c <= 'z' {
        (c as u8 - 32) as char
    } else {
        c
    }
}

/// The lower-case form of an ASCII letter; other characters as they are.
pub open spec fn ascii_lower(c: char) -> char {
    if 'A' <= c <= 'Z' {
        (c as int + 32) as char
    } else {
        c
    }
}

/// The lower-case form of an ASCII letter; other characters as they are.
pub fn lower(c: char) -> (r: char)
    ensures
        r == ascii_lower(c),
{
    if 'A' <= c && c <= 'Z' {
        (c as u8 + 32) as char
    } else {
        c
    }
}

/// A string with its ASCII letters in upper case.
pub open spec fn upper_case(s: Seq<char>) -> Seq<char> {
    s.map_values(|c: char| ascii_upper(c))
}

/// A string with its ASCII letters in upper case.
pub fn to_upper_case(s: &str) -> (r: String)
    ensures
        r@ == upper_case(s@),
{
    let chars = chars_of(s);
    let mut out = String::new();
    let mut i: usize = 0;
    assert(out@ =~= upper_case(s@.take(0)));
    while i < chars.len()
        invariant
            chars@ == s@,
            i <= chars@.len(),
            out@ == upper_case(s@.take(i as int)),
        decreases chars@.len() - i,
    {
        out.push(upper(chars[i]));
        assert(upper_case(s@.take(i + 1)) =~= upper_case(s@.take(i as int)).push(ascii_upper(s@[i as int])));
        i += 1;
    }
    assert(s@.take(i as int) =~= s@);
    out
}

/// The lower-case form of the ASCII letters of a text.
pub open spec fn lower_case(s: Seq<char>) -> Seq<char> {
    s.map_values(|c: char| ascii_lower(c))
}

/// The characters of a text, its ASCII letters in lower case.
pub fn lowered(s: &str) -> (r: Vec<char>)
    ensures
        r@ == lower_case(s@),
{
    let chars = chars_of(s);
    let mut out: Vec<char> = Vec::new();
    let mut i: usize = 0;
    while i < chars.len()
        invariant
            i <= chars@.len(),
            chars@ == s@,
            out@ == lower_case(chars@.take(i as int)),
        decreases chars@.len() - i,
    {
        out.push(lower(chars[i]));
        assert(out@ =~= lower_case(chars@.take(i + 1)));
        i += 1;
    }
    assert(chars@.take(i as int) =~= chars@);
    out
}

/// Whether `word` stands somewhere in `s`.
pub open spec fn holds(s: Seq<char>, word: Seq<char>) -> bool {
    exists|i: int| 0 <= i <= s.len() && word.is_prefix_of(#[trigger] s.skip(i))
}

/// Whether `word` stands somewhere in a text.
pub fn mentions(chars: &[char], word: &str) -> (r: bool)
    ensures
        r == holds(chars@, word@),
{
    let mut at: usize = 0;
    while at < chars.len()
        invariant
            at <= chars@.len(),
            forall|k: int| 0 <= k < at ==> !word@.is_prefix_of(#[trigger] chars@.skip(k)),
        decreases chars@.len() - at,
    {
        if prefix_at(chars, at, word) {
            return true;
        }
        at += 1;
    }
    prefix_at(chars, at, word)
}

/// Whether a character is an ASCII decimal digit.
pub open spec fn is_digit(c: char) -> bool {
    '0' <= c <= '9'
}

/// The decimal digit of a value below ten.
pub open spec fn digit_char(v: int) -> char {
    ('0' as int + v) as char
}

/// A number in decimal.
pub open spec fn decimal(n: nat) -> Seq<char>
    decreases n,
{
    if n < 10 {
        seq![digit_char(n as int)]
    } else {
        decimal(n / 10).push(digit_char((n % 10) as int))
    }
}

/// An integer in decimal, with a sign where it is negative.
pub open spec fn signed_decimal(n: int) -> Seq<char> {
    if n < 0 {
        seq!['-'] + decimal((-n) as nat)
    } else {
        decimal(n as nat)
    }
}

/// A number in decimal.
pub fn decimal_of(n: u128) -> (r: String)
    ensures
        r@ == decimal(n as nat),
    decreases n,
{
    let digit = (48u8 + (n % 10) as u8) as char;
    if n < 10 {
        let mut out = String::new();
        out.push(digit);
        assert(out@ =~= seq![digit_char(n as int)]);
        out
    } else {
        let mut out = decimal_of(n / 10);
        out.push(digit);
        out
    }
}

/// An integer in decimal.
pub fn signed_decimal_of(n: i64) -> (r: String)
    ensures
        r@ == signed_decimal(n as int),
{
    if n < 0 {
        let magnitude: i128 = -(n as i128);
        let digits = decimal_of(magnitude as u128);
        let mut out = String::new();
        out.push('-');
        out.push_str(digits.as_str());
        assert(out@ =~= seq!['-'] + decimal((-n) as nat));
        out
    } else {
        decimal_of(n as u128)
    }
}

/// The value of a string of decimal digits.
pub open spec fn digits_value(s: Seq<char>) -> nat
    decreases s.len(),
{
    if s.len() == 0 {
        0
    } else {
        digits_value(s.drop_last()) * 10 + (s.last() as int - '0' as int) as nat
    }
}

/// Whether a string is one or more decimal digits.
pub open spec fn is_digits(s: Seq<char>) -> bool {
    s.len() > 0 && forall|i: int| 0 <= i < s.len() ==> is_digit(#[trigger] s[i])
}

/// The number that a string denotes: decimal digits, perhaps after a plus
/// sign.
pub open spec fn number(s: Seq<char>) -> Option<nat> {
    let digits = if s.len() > 0 && s[0] == '+' {
        s.drop_first()
    } else {
        s
    };
    if is_digits(digits) {
        Some(digits_value(digits))
    } else {
        None
    }
}

/// The number that a string denotes, where it is not above `max`.
pub open spec fn number_upto(s: Seq<char>, max: nat) -> Option<nat> {
    match number(s) {
        Some(n) if n <= max => Some(n),
        _ => None,
    }
}

/// Parse a number that is not above `max`.
pub fn parse_number(s: &str, max: u64) -> (r: Option<u64>)
    ensures
        match r {
            Some(n) => number_upto(s@, max as nat) == Some(n as nat),
            None => number_upto(s@, max as nat) is None,
        },
{
    let chars = chars_of(s);
    let from: usize = if chars.len() > 0 && chars[0] == '+' {
        1
    } else {
        0
    };
    let ghost digits = if s@.len() > 0 && s@[0] == '+' {
        s@.drop_first()
    } else {
        s@
    };
    assert(digits =~= s@.skip(from as int));
    if from == chars.len() {
        return None;
    }
    let mut value: u64 = 0;
    let mut too_large = false;
    let mut i: usize = from;
    assert(digits.take(0) =~= Seq::<char>::empty());
    while i < chars.len()
        invariant
            chars@ == s@,
            from <= i <= chars@.len(),
            digits == s@.skip(from as int),
            number(s@) == (if is_digits(digits) {
                Some(digits_value(digits))
            } else {
                None
            }),
            forall|k: int| 0 <= k < i - from ==> is_digit(#[trigger] digits[k]),
            !too_large ==> value == digits_value(digits.take(i - from)) && value <= max,
            too_large ==> digits_value(digits.take(i - from)) > max,
        decreases chars@.len() - i,
    {
        let c = chars[i];
        assert(digits[i - from] == c);
        if !('0' <= c && c <= '9') {
            return None;
        }
        let d: u64 = (c as u32 - '0' as u32) as u64;
        let ghost before = digits.take(i - from);
        let ghost after = digits.take(i + 1 - from);
        assert(after.drop_last() =~= before);
        if !too_large {
            if value > (u64::MAX - d) / 10 {
                too_large = true;
            } else {
                value = value * 10 + d;
                if value > max {
                    too_large = true;
                }
            }
        }
        i += 1;
    }
    assert(digits.take(i - from) =~= digits);
    if too_large {
        None
    } else {
        Some(value)
    }
}

/// The bytes of a string.
pub fn bytes_of(s: &str) -> (r: Vec<u8>)
    ensures
        r@ == encode_utf8(s@),
{
    vstd::slice::slice_to_vec(s.as_bytes())
}

/// A number written in decimal reads back as that number.
pub proof fn lemma_decimal_reads_back(n: nat)
    ensures
        is_digits(decimal(n)),
        digits_value(decimal(n)) == n,
        number(decimal(n)) == Some(n),
    decreases n,
{
    let text = decimal(n);
    if n < 10 {
        assert(text.drop_last() =~= Seq::<char>::empty());
        assert(digits_value(text.drop_last()) == 0);
        assert(text.last() as int == 48 + n);
    } else {
        assert(text.last() as int == 48 + n % 10);
        lemma_decimal_reads_back(n / 10);
        assert(text.drop_last() =~= decimal(n / 10));
        assert forall|i: int| 0 <= i < text.len() implies is_digit(#[trigger] text[i]) by {
            if i < text.len() - 1 {
                assert(is_digit(decimal(n / 10)[i]));
            }
        }
    }
    assert(is_digit(text[0]));
}

/// Whether a string can be handed to the kernel: it has no NUL.
pub fn is_c_string(s: &str) -> (r: bool)
    ensures
        r == !s@.contains('\0'),
{
    let chars = chars_of(s);
    let at = find_from(&chars, 0, '\0');
    proof {
        assert(chars@.skip(0) =~= chars@);
        lemma_find(chars@, '\0');
    }
    at == chars.len()
}

/// The pieces of a string between occurrences of a character.
pub open spec fn pieces(s: Seq<char>, c: char) -> Seq<Seq<char>>
    decreases s.len(),
{
    let at = find(s, c);
    proof {
        lemma_find(s, c);
    }
    if at < s.len() {
        seq![s.take(at)] + pieces(s.skip(at + 1), c)
    } else {
        seq![s]
    }
}

/// The pieces of a string between occurrences of a character.
pub fn split(s: &str, c: char) -> (r: Vec<String>)
    ensures
        views(r@) == pieces(s@, c),
{
    let chars = chars_of(s);
    let count: usize = chars.len();
    let mut out: Vec<String> = Vec::new();
    let mut from: usize = 0;
    assert(chars@.skip(0) =~= chars@);
    assert(views(out@) + pieces(s@, c) =~= pieces(s@, c));
    loop
        invariant
            count == chars@.len(),
            chars@ == s@,
            from <= count,
            pieces(s@, c) == views(out@) + pieces(chars@.skip(from as int), c),
        decreases count - from,
    {
        let at = find_from(&chars, from, c);
        let ghost left = chars@.skip(from as int);
        proof {
            lemma_find(left, c);
        }
        let piece = substring(&chars, from, at);
        assert(piece@ =~= left.take(at - from));
        let ghost before = views(out@);
        out.push(piece);
        assert(views(out@) =~= before.push(piece@));
        if at == count {
            assert(piece@ =~= left);
            assert(before + seq![left] =~= views(out@));
            return out;
        }
        assert(left.skip(at - from + 1) =~= chars@.skip(at + 1));
        assert(before + (seq![left.take(at - from)] + pieces(left.skip(at - from + 1), c)) =~= views(out@) + pieces(
            chars@.skip(at + 1),
            c,
        ));
        from = at + 1;
    }
}

/// Strings with a separator between each two.
pub open spec fn joined_by(parts: Seq<Seq<char>>, separator: Seq<char>) -> Seq<char>
    decreases parts.len(),
{
    if parts.len() == 0 {
        Seq::empty()
    } else if parts.len() == 1 {
        parts[0]
    } else {
        joined_by(parts.drop_last(), separator) + separator + parts.last()
    }
}

/// Strings with a separator between each two.
pub fn join_by(parts: &Vec<String>, separator: &str) -> (r: String)
    ensures
        r@ == joined_by(views(parts@), separator@),
{
    let mut out = String::new();
    let mut i: usize = 0;
    let ghost all = views(parts@);
    assert(out@ =~= Seq::empty());
    while i < parts.len()
        invariant
            all == views(parts@),
            i <= parts@.len(),
            out@ == joined_by(all.take(i as int), separator@),
        decreases parts@.len() - i,
    {
        let ghost before = out@;
        if i > 0 {
            out.push_str(separator);
        }
        out.push_str(parts[i].as_str());
        proof {
            let next = all.take(i + 1);
            assert(next.drop_last() =~= all.take(i as int));
            assert(next.last() == parts@[i as int]@);
            if i == 0 {
                assert(before =~= Seq::empty());
                assert(out@ =~= next[0]);
            } else {
                assert(out@ =~= before + separator@ + parts@[i as int]@);
            }
        }
        i += 1;
    }
    assert(all.take(i as int) =~= all);
    out
}

/// How many characters of `s` come before its first white space.
pub open spec fn word_len(s: Seq<char>) -> int
    decreases s.len(),
{
    if s.len() == 0 || is_white_space(s[0]) {
        0
    } else {
        1 + word_len(s.drop_first())
    }
}

/// A word ends at the end of the text or before white space.
pub proof fn lemma_word_len(s: Seq<char>)
    ensures
        0 <= word_len(s) <= s.len(),
        word_len(s) < s.len() ==> is_white_space(s[word_len(s)]),
        forall|i: int| 0 <= i < word_len(s) ==> !is_white_space(#[trigger] s[i]),
    decreases s.len(),
{
    if s.len() > 0 && !is_white_space(s[0]) {
        let rest = s.drop_first();
        lemma_word_len(rest);
        assert forall|i: int| 0 <= i < word_len(s) implies !is_white_space(#[trigger] s[i]) by {
            if i > 0 {
                assert(s[i] == rest[i - 1]);
            }
        }
    }
}

/// The length of a word is where it ends.
pub proof fn lemma_word_len_is(s: Seq<char>, n: int)
    requires
        0 <= n <= s.len(),
        n < s.len() ==> is_white_space(s[n]),
        forall|i: int| 0 <= i < n ==> !is_white_space(#[trigger] s[i]),
    ensures
        word_len(s) == n,
{
    lemma_word_len(s);
    let m = word_len(s);
    if m < n {
        assert(!is_white_space(s[m]));
    }
    if n < m {
        assert(!is_white_space(s[n]));
    }
}

/// The words of a text: the parts between white space.
pub open spec fn words(s: Seq<char>) -> Seq<Seq<char>>
    decreases s.len(),
{
    proof {
        lemma_word_len(s);
    }
    if s.len() == 0 {
        Seq::empty()
    } else if is_white_space(s[0]) {
        words(s.drop_first())
    } else {
        seq![s.take(word_len(s))] + words(s.skip(word_len(s)))
    }
}

/// The words of a text.
pub fn words_of(s: &str) -> (r: Vec<String>)
    ensures
        views(r@) == words(s@),
{
    let chars = chars_of(s);
    let mut out: Vec<String> = Vec::new();
    let mut at: usize = 0;
    proof {
        assert(s@.skip(0) =~= s@);
        assert(views(out@) + words(s@) =~= words(s@));
    }
    while at < chars.len()
        invariant
            chars@ == s@,
            at <= chars@.len(),
            views(out@) + words(s@.skip(at as int)) == words(s@),
        decreases chars@.len() - at,
    {
        let ghost rest = s@.skip(at as int);
        let ghost done = views(out@);
        if white_space(chars[at]) {
            assert(rest.drop_first() =~= s@.skip(at + 1));
            at += 1;
        } else {
            let mut end: usize = at;
            while end < chars.len() && !white_space(chars[end])
                invariant
                    chars@ == s@,
                    at <= end <= chars@.len(),
                    forall|i: int| at <= i < end ==> !is_white_space(#[trigger] s@[i]),
                decreases chars@.len() - end,
            {
                end += 1;
            }
            proof {
                assert forall|i: int| 0 <= i < end - at implies !is_white_space(#[trigger] rest[i]) by {
                    assert(rest[i] == s@[at + i]);
                }
                lemma_word_len_is(rest, end - at);
                assert(!is_white_space(rest[0]));
            }
            out.push(substring(&chars, at, end));
            proof {
                let word = rest.take(end - at);
                assert(s@.subrange(at as int, end as int) =~= word);
                assert(views(out@) =~= done.push(word));
                assert(rest.skip(end - at) =~= s@.skip(end as int));
                let tail = words(s@.skip(end as int));
                assert(done.push(word) + tail =~= done + (seq![word] + tail));
            }
            at = end;
        }
    }
    proof {
        assert(s@.skip(at as int) =~= Seq::<char>::empty());
        assert(views(out@) + Seq::<Seq<char>>::empty() =~= views(out@));
    }
    out
}

/// Whether a text is one word.
pub open spec fn is_word(s: Seq<char>) -> bool {
    s.len() > 0 && forall|i: int| 0 <= i < s.len() ==> !is_white_space(#[trigger] s[i])
}

proof fn lemma_one_word(t: Seq<char>)
    requires
        is_word(t),
    ensures
        words(t) == seq![t],
{
    reveal_with_fuel(words, 2);
    lemma_word_len_is(t, t.len() as int);
    assert(!is_white_space(t[0]));
    assert(t.take(t.len() as int) =~= t);
    assert(t.skip(t.len() as int) =~= Seq::<char>::empty());
    assert(seq![t] + Seq::<Seq<char>>::empty() =~= seq![t]);
}

proof fn lemma_word_added(a: Seq<char>, t: Seq<char>)
    requires
        is_word(t),
    ensures
        words(a + " "@ + t) == words(a).push(t),
    decreases a.len(),
{
    reveal_strlit(" ");
    let all = a + " "@ + t;
    if a.len() == 0 {
        assert(all[0] == ' ');
        assert(all.drop_first() =~= t);
        lemma_one_word(t);
        assert(Seq::<Seq<char>>::empty().push(t) =~= seq![t]);
    } else if is_white_space(a[0]) {
        assert(all[0] == a[0]);
        assert(all.drop_first() =~= a.drop_first() + " "@ + t);
        lemma_word_added(a.drop_first(), t);
    } else {
        let n = word_len(a);
        lemma_word_len(a);
        assert(all[0] == a[0]);
        assert forall|i: int| 0 <= i < n implies !is_white_space(#[trigger] all[i]) by {
            assert(all[i] == a[i]);
        }
        if n < a.len() {
            assert(all[n] == a[n]);
        } else {
            assert(all[n] == ' ');
        }
        lemma_word_len_is(all, n);
        assert(all.take(n) =~= a.take(n));
        assert(all.skip(n) =~= a.skip(n) + " "@ + t);
        lemma_word_added(a.skip(n), t);
        assert(seq![a.take(n)] + words(a.skip(n)).push(t) =~= (seq![a.take(n)] + words(a.skip(n))).push(t));
    }
}

/// Words with a space between each two read back as those words.
pub proof fn lemma_words_read_back(parts: Seq<Seq<char>>)
    requires
        forall|i: int| 0 <= i < parts.len() ==> is_word(#[trigger] parts[i]),
    ensures
        words(joined_by(parts, " "@)) == parts,
    decreases parts.len(),
{
    if parts.len() == 0 {
        assert(words(Seq::<char>::empty()) =~= parts);
    } else if parts.len() == 1 {
        lemma_one_word(parts[0]);
        assert(parts =~= seq![parts[0]]);
    } else {
        let rest = parts.drop_last();
        assert forall|i: int| 0 <= i < rest.len() implies is_word(#[trigger] rest[i]) by {
            assert(rest[i] == parts[i]);
        }
        lemma_words_read_back(rest);
        lemma_word_added(joined_by(rest, " "@), parts.last());
        assert(rest.push(parts.last()) =~= parts);
    }
}

/// Words with a space between each two make one line.
pub proof fn lemma_joined_is_a_line(parts: Seq<Seq<char>>)
    requires
        parts.len() > 0,
        forall|i: int| 0 <= i < parts.len() ==> is_word(#[trigger] parts[i]),
    ensures
        !joined_by(parts, " "@).contains('\n'),
        joined_by(parts, " "@).len() > 0,
        !is_white_space(joined_by(parts, " "@).last()),
    decreases parts.len(),
{
    reveal_strlit(" ");
    let all = joined_by(parts, " "@);
    let last = parts.last();
    assert(is_word(last));
    if parts.len() > 1 {
        let rest = parts.drop_last();
        assert forall|i: int| 0 <= i < rest.len() implies is_word(#[trigger] rest[i]) by {
            assert(rest[i] == parts[i]);
        }
        lemma_joined_is_a_line(rest);
        let before = joined_by(rest, " "@);
        assert forall|i: int| 0 <= i < all.len() implies #[trigger] all[i] != '\n' by {
            if i < before.len() {
                assert(all[i] == before[i]);
                assert(before.contains(before[i]));
            } else if i > before.len() {
                assert(all[i] == last[i - before.len() - 1]);
            }
        }
        assert(all.last() == last.last());
    }
    assert(!is_white_space(last[last.len() - 1]));
}

/// A line that ends in a line feed is read off the front of a text.
pub proof fn lemma_first_line(line: Seq<char>, rest: Seq<char>)
    requires
        !line.contains('\n'),
        line.len() > 0 ==> line.last() != '\r',
    ensures
        lines(line + "\n"@ + rest) == seq![line] + lines(rest),
{
    reveal_strlit("\n");
    let all = line + "\n"@ + rest;
    let end = line.len() as int;
    assert(all[end] == '\n');
    assert forall|i: int| 0 <= i < end implies #[trigger] all[i] != '\n' by {
        assert(all[i] == line[i]);
        assert(line.contains(line[i]));
    }
    lemma_find_is(all, '\n', end);
    assert(all.take(end) =~= line);
    assert(all.skip(end + 1) =~= rest);
}

/// A number written in decimal is one word.
pub proof fn lemma_decimal_is_a_word(n: nat)
    ensures
        is_word(decimal(n)),
{
    lemma_decimal_reads_back(n);
    let s = decimal(n);
    assert forall|i: int| 0 <= i < s.len() implies !is_white_space(#[trigger] s[i]) by {
        assert(is_digit(s[i]));
    }
}

/// A number in decimal is its digits, the most significant first: below ten
/// one digit, and else that of the tens and the last digit behind it.
pub proof fn law_decimal_is_by_digits(tens: nat, ones: nat)
    requires
        ones < 10,
    ensures
        decimal(ones) == seq![(48 + ones) as char],
        tens > 0 ==> decimal(tens * 10 + ones) == decimal(tens).push((48 + ones) as char),
        tens > 0 ==> signed_decimal(-(tens as int)) == seq!['-'] + decimal(tens),
        signed_decimal(tens as int) == decimal(tens),
{
}

/// What digits denote: a further digit counts once and makes those before it
/// count ten times. A plus sign before the first changes nothing.
pub proof fn law_digits_denote_their_number(s: Seq<char>, n: nat, digit: nat)
    requires
        digit < 10,
    ensures
        number(seq![(48 + digit) as char]) == Some(digit),
        number(s) == Some(n) ==> number(s.push((48 + digit) as char)) == Some(n * 10 + digit),
        number(s) == Some(n) && s[0] != '+' ==> number(seq!['+'] + s) == Some(n),
{
    let c = (48 + digit) as char;
    assert(is_digit(c));
    assert(c as int == 48 + digit);
    let one = seq![c];
    assert(one.drop_last() =~= Seq::empty());
    assert(is_digits(one));
    assert(digits_value(one) == digit) by {
        assert(digits_value(one.drop_last()) == 0);
    }
    if number(s) == Some(n) {
        let digits = if s.len() > 0 && s[0] == '+' {
            s.drop_first()
        } else {
            s
        };
        let more = s.push(c);
        let longer = digits.push(c);
        assert(more[0] == s[0]);
        assert(s[0] == '+' ==> more.drop_first() =~= longer);
        assert forall|i: int| 0 <= i < longer.len() implies is_digit(#[trigger] longer[i]) by {
            if i < digits.len() {
                assert(is_digit(digits[i]));
            }
        }
        assert(longer.drop_last() =~= digits);
        if s[0] != '+' {
            let plus = seq!['+'] + s;
            assert(plus.drop_first() =~= s);
        }
    }
}

/// A text denotes a number exactly when it has a digit and, apart from a plus
/// sign at its start, nothing else; and no number above a bound is taken.
pub proof fn law_only_digits_denote_numbers(s: Seq<char>, max: nat)
    ensures
        ({
            let from: int = if s.len() > 0 && s[0] == '+' { 1 } else { 0 };
            number(s) is Some <==> s.len() > from && forall|i: int| from <= i < s.len() ==> '0' <= #[trigger] s[i] <= '9'
        }),
        number_upto(s, max) is Some <==> number(s) is Some && number(s)->0 <= max,
        number_upto(s, max) is Some ==> number_upto(s, max) == number(s),
{
    let from: int = if s.len() > 0 && s[0] == '+' { 1 } else { 0 };
    let digits = if from == 1 { s.drop_first() } else { s };
    if number(s) is Some {
        assert forall|i: int| from <= i < s.len() implies '0' <= #[trigger] s[i] <= '9' by {
            assert(is_digit(digits[i - from]));
        }
    }
    if s.len() > from && (forall|i: int| from <= i < s.len() ==> '0' <= #[trigger] s[i] <= '9') {
        assert forall|i: int| 0 <= i < digits.len() implies is_digit(#[trigger] digits[i]) by {
            assert(digits[i] == s[i + from]);
        }
    }
}

/// The white space of Unicode, by its code points.
pub proof fn law_what_is_white_space(c: char)
    ensures
        is_white_space(c) <==> {
            let n = c as int;
            ||| 9 <= n <= 13 || n == 32 || n == 0x85 || n == 0xa0
            ||| n == 0x1680 || 0x2000 <= n <= 0x200a || n == 0x2028 || n == 0x2029
            ||| n == 0x202f || n == 0x205f || n == 0x3000
        },
{
}

proof fn lemma_trim_start(s: Seq<char>) -> (n: int)
    ensures
        0 <= n <= s.len(),
        trim_start(s) == s.skip(n),
        forall|i: int| 0 <= i < n ==> is_white_space(#[trigger] s[i]),
        n < s.len() ==> !is_white_space(s[n]),
    decreases s.len(),
{
    if s.len() > 0 && is_white_space(s[0]) {
        let rest = s.drop_first();
        let k = lemma_trim_start(rest);
        assert(rest.skip(k) =~= s.skip(k + 1));
        assert forall|i: int| 0 <= i < k + 1 implies is_white_space(#[trigger] s[i]) by {
            if i > 0 {
                assert(s[i] == rest[i - 1]);
            }
        }
        k + 1
    } else {
        assert(s.skip(0) =~= s);
        0
    }
}

proof fn lemma_trim_end(s: Seq<char>) -> (n: int)
    ensures
        0 <= n <= s.len(),
        trim_end(s) == s.take(n),
        forall|i: int| n <= i < s.len() ==> is_white_space(#[trigger] s[i]),
        n > 0 ==> !is_white_space(s[n - 1]),
    decreases s.len(),
{
    if s.len() > 0 && is_white_space(s.last()) {
        let front = s.drop_last();
        let k = lemma_trim_end(front);
        assert(front.take(k) =~= s.take(k));
        assert forall|i: int| k <= i < s.len() implies is_white_space(#[trigger] s[i]) by {
            if i < front.len() {
                assert(s[i] == front[i]);
            }
        }
        k
    } else {
        assert(s.take(s.len() as int) =~= s);
        s.len() as int
    }
}

/// Trimming takes away white space at both ends, all of it and nothing else.
pub proof fn law_trimming_takes_white_space_at_the_ends(s: Seq<char>)
    ensures
        exists|from: int, to: int| {
            &&& 0 <= from <= to <= s.len()
            &&& trimmed(s) == #[trigger] s.subrange(from, to)
            &&& forall|i: int| 0 <= i < from || to <= i < s.len() ==> is_white_space(#[trigger] s[i])
        },
        trimmed(s).len() > 0 ==> !is_white_space(trimmed(s)[0]) && !is_white_space(trimmed(s).last()),
{
    let from = lemma_trim_start(s);
    let mid = s.skip(from);
    let n = lemma_trim_end(mid);
    let to = from + n;
    assert(mid.take(n) =~= s.subrange(from, to));
    assert forall|i: int| 0 <= i < from || to <= i < s.len() implies is_white_space(#[trigger] s[i]) by {
        if to <= i {
            assert(s[i] == mid[i - from]);
        }
    }
}

/// Letters of ASCII in upper and in lower case, each at its place; every other
/// character stays.
pub proof fn law_case_changes_letters_only(s: Seq<char>, i: int)
    requires
        0 <= i < s.len(),
    ensures
        upper_case(s).len() == s.len(),
        lower_case(s).len() == s.len(),
        97 <= s[i] as int <= 122 ==> upper_case(s)[i] as int == s[i] as int - 32 && lower_case(s)[i] == s[i],
        65 <= s[i] as int <= 90 ==> lower_case(s)[i] as int == s[i] as int + 32 && upper_case(s)[i] == s[i],
        !(97 <= s[i] as int <= 122) && !(65 <= s[i] as int <= 90) ==> upper_case(s)[i] == s[i] && lower_case(s)[i] == s[i],
{
}

/// A text stands in another exactly when it is a part of it.
pub proof fn law_a_text_holds_its_parts(s: Seq<char>, word: Seq<char>)
    ensures
        holds(s, word) <==> exists|from: int, to: int| 0 <= from <= to <= s.len() && #[trigger] s.subrange(from, to) == word,
{
    if holds(s, word) {
        let i = choose|i: int| 0 <= i <= s.len() && word.is_prefix_of(#[trigger] s.skip(i));
        assert(s.subrange(i, i + word.len()) =~= word);
    }
    if exists|from: int, to: int| 0 <= from <= to <= s.len() && #[trigger] s.subrange(from, to) == word {
        let (from, to) = choose|from: int, to: int| 0 <= from <= to <= s.len() && #[trigger] s.subrange(from, to) == word;
        assert(word =~= s.skip(from).subrange(0, word.len() as int));
        assert(word.is_prefix_of(s.skip(from)));
    }
}

proof fn lemma_joined_first(first: Seq<char>, rest: Seq<Seq<char>>, separator: Seq<char>)
    requires
        rest.len() > 0,
    ensures
        joined_by(seq![first] + rest, separator) == first + separator + joined_by(rest, separator),
    decreases rest.len(),
{
    let all = seq![first] + rest;
    if rest.len() == 1 {
        assert(all.drop_last() =~= seq![first]);
        assert(joined_by(seq![first], separator) == first);
        assert(all.last() == rest[0]);
    } else {
        lemma_joined_first(first, rest.drop_last(), separator);
        assert(all.drop_last() =~= seq![first] + rest.drop_last());
        assert(joined_by(all, separator) =~= first + separator + joined_by(rest, separator));
    }
}

/// Splitting a text at a character and joining the pieces by it gives the text
/// back, and no piece holds the character.
pub proof fn law_pieces_join_to_the_text(s: Seq<char>, c: char)
    ensures
        pieces(s, c).len() > 0,
        joined_by(pieces(s, c), seq![c]) == s,
        forall|i: int| 0 <= i < pieces(s, c).len() ==> !(#[trigger] pieces(s, c)[i]).contains(c),
    decreases s.len(),
{
    let at = find(s, c);
    lemma_find(s, c);
    if at < s.len() {
        let first = s.take(at);
        let behind = s.skip(at + 1);
        law_pieces_join_to_the_text(behind, c);
        lemma_joined_first(first, pieces(behind, c), seq![c]);
        assert(first + seq![c] + behind =~= s);
        assert forall|i: int| 0 <= i < pieces(s, c).len() implies !(#[trigger] pieces(s, c)[i]).contains(c) by {
            if i > 0 {
                assert(pieces(s, c)[i] == pieces(behind, c)[i - 1]);
            } else {
                assert forall|k: int| 0 <= k < first.len() implies first[k] != c by {
                    assert(s[k] != c);
                }
            }
        }
    } else {
        assert(pieces(s, c) == seq![s]);
    }
}

/// Joining puts the separator between each two, and nothing else.
pub proof fn law_joining_puts_the_separator_between(parts: Seq<Seq<char>>, last: Seq<char>, separator: Seq<char>)
    ensures
        joined_by(Seq::empty(), separator) == Seq::<char>::empty(),
        joined_by(seq![last], separator) == last,
        parts.len() > 0 ==> joined_by(parts.push(last), separator) == joined_by(parts, separator) + separator + last,
{
    assert(parts.push(last).drop_last() =~= parts);
}

/// A line ends in a line feed, or in a carriage return and a line feed; what
/// follows the last line feed is a line as it stands, if it is anything.
pub proof fn law_how_lines_end(line: Seq<char>, rest: Seq<char>)
    requires
        !line.contains('\n'),
    ensures
        lines(Seq::empty()) == Seq::<Seq<char>>::empty(),
        line.len() > 0 ==> lines(line) == seq![line],
        line.len() == 0 || line.last() != '\r' ==> lines(line.push('\n') + rest) == seq![line] + lines(rest),
        lines(line.push('\r').push('\n') + rest) == seq![line] + lines(rest),
{
    assert forall|i: int| 0 <= i < line.len() implies #[trigger] line[i] != '\n' by {
        assert(line.contains(line[i]));
    }
    lemma_find_is(line, '\n', line.len() as int);
    let a = line.push('\n') + rest;
    let n = line.len() as int;
    assert forall|i: int| 0 <= i < n implies #[trigger] a[i] != '\n' by {
        assert(a[i] == line[i]);
    }
    lemma_find_is(a, '\n', n);
    assert(a.take(n) =~= line);
    assert(a.skip(n + 1) =~= rest);
    let b = line.push('\r').push('\n') + rest;
    assert forall|i: int| 0 <= i < n + 1 implies #[trigger] b[i] != '\n' by {
        if i < n {
            assert(b[i] == line[i]);
        }
    }
    lemma_find_is(b, '\n', n + 1);
    assert(b.take(n + 1) =~= line.push('\r'));
    assert(line.push('\r').drop_last() =~= line);
    assert(b.skip(n + 2) =~= rest);
}

/// Words are what stands between white space.
pub proof fn law_words_stand_between_white_space(word: Seq<char>, space: char, rest: Seq<char>)
    requires
        word.len() > 0,
        forall|i: int| 0 <= i < word.len() ==> !is_white_space(#[trigger] word[i]),
        is_white_space(space),
    ensures
        words(Seq::empty()) == Seq::<Seq<char>>::empty(),
        words(word) == seq![word],
        words(word.push(space) + rest) == seq![word] + words(rest),
        words(seq![space] + rest) == words(rest),
{
    lemma_one_word(word);
    let n = word.len() as int;
    let a = word.push(space) + rest;
    assert forall|i: int| 0 <= i < n implies !is_white_space(#[trigger] a[i]) by {
        assert(a[i] == word[i]);
    }
    assert(a[n] == space);
    lemma_word_len_is(a, n);
    assert(!is_white_space(a[0]));
    assert(a.take(n) =~= word);
    let b = a.skip(n);
    assert(b[0] == space);
    assert(b.drop_first() =~= rest);
    assert(words(b) == words(rest));
    assert(words(a) == seq![a.take(word_len(a))] + words(a.skip(word_len(a))));
    let c = seq![space] + rest;
    assert(c[0] == space);
    assert(c.drop_first() =~= rest);
}

/// A text without white space at its ends stays as it is; so trimming twice is
/// trimming once.
pub proof fn law_what_is_trimmed_stays(s: Seq<char>)
    ensures
        s.len() == 0 || (!is_white_space(s[0]) && !is_white_space(s.last())) ==> trimmed(s) == s,
        trimmed(trimmed(s)) == trimmed(s),
{
    law_trimming_takes_white_space_at_the_ends(s);
    let t = trimmed(s);
    if t.len() > 0 {
        assert(trim_start(t) == t);
        assert(trim_end(t) == t);
    }
    if s.len() > 0 && !is_white_space(s[0]) && !is_white_space(s.last()) {
        assert(trim_start(s) == s);
    }
}

} // verus!
