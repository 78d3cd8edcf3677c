//! Byte and string helpers shared by the rest of the library.

use vstd::prelude::*;
use vstd::slice::slice_subrange;
use vstd::string::StringExecFns;
use vstd::utf8::{decode_utf8, encode_utf8, encode_utf8_decode_utf8, valid_utf8};

verus! {

/// The error of `String::from_utf8`, carried through as it is.
#[verifier::external_type_specification]
#[verifier::external_body]
pub struct ExFromUtf8Error(std::string::FromUtf8Error);

/// `String::from_utf8` on a copy of `bytes`.
///
/// The contract restates the standard library's documentation: the call
/// succeeds exactly on well-formed UTF-8, and the string it returns is the
/// decoding of the bytes.
#[verifier::external_body]
pub(crate) fn string_from_utf8(bytes: &[u8]) -> (r: Result<String, std::string::FromUtf8Error>)
    ensures
        r is Ok <==> valid_utf8(bytes@),
        r matches Ok(s) ==> s@ == decode_utf8(bytes@),
{
    String::from_utf8(bytes.to_vec())
}

/// Whether two byte strings are equal.
pub fn bytes_eq(a: &[u8], b: &[u8]) -> (r: bool)
    ensures
        r == (a@ == b@),
{
    if a.len() != b.len() {
        return false;
    }
    let mut i: usize = 0;
    while i < a.len()
        invariant
            a.len() == b.len(),
            i <= a.len(),
            forall|j: int| 0 <= j < i ==> a@[j] == b@[j],
        decreases a.len() - i,
    {
        if a[i] != b[i] {
            return false;
        }
        i += 1;
    }
    assert(a@ =~= b@);
    true
}

/// The bytes of `content` from `start` up to `end`, or the empty slice when
/// the span does not lie inside `content`.
pub open spec fn span(content: Seq<u8>, start: int, end: int) -> Seq<u8> {
    if 0 <= start <= end <= content.len() {
        content.subrange(start, end)
    } else {
        Seq::empty()
    }
}

/// The bytes of `content` from `start` up to `end`; none where the span does
/// not lie inside `content`.
pub fn slice_span(content: &[u8], start: usize, end: usize) -> (r: &[u8])
    ensures
        r@ == span(content@, start as int, end as int),
{
    if start <= end && end <= content.len() {
        slice_subrange(content, start, end)
    } else {
        slice_subrange(content, 0, 0)
    }
}

/// Whether `s` reads exactly as the text `lit`.
pub fn str_is(s: &str, lit: &str) -> (b: bool)
    ensures
        b == (s@ == lit@),
{
    proof {
        // Two texts with the same bytes are the same text.
        encode_utf8_decode_utf8(s@);
        encode_utf8_decode_utf8(lit@);
    }
    bytes_eq(s.as_bytes(), lit.as_bytes())
}

/// Whether the text `s`, encoded as UTF-8, is exactly `bytes`.
pub fn str_is_bytes(s: &str, bytes: &[u8]) -> (r: bool)
    ensures
        r == (encode_utf8(s@) == bytes@),
{
    bytes_eq(s.as_bytes(), bytes)
}

/// The digit `d` as text.
pub open spec fn digit_text(d: int) -> Seq<char> {
    if d == 0 {
        "0"@
    } else if d == 1 {
        "1"@
    } else if d == 2 {
        "2"@
    } else if d == 3 {
        "3"@
    } else if d == 4 {
        "4"@
    } else if d == 5 {
        "5"@
    } else if d == 6 {
        "6"@
    } else if d == 7 {
        "7"@
    } else if d == 8 {
        "8"@
    } else {
        "9"@
    }
}

/// The number `n` written in decimal, without leading zeros.
pub open spec fn decimal(n: nat) -> Seq<char>
    decreases n,
{
    if n < 10 {
        digit_text(n as int)
    } else {
        decimal(n / 10) + digit_text((n % 10) as int)
    }
}

fn digit_str(d: usize) -> (s: &'static str)
    requires
        d < 10,
    ensures
        s@ == digit_text(d as int),
{
    if d == 0 {
        "0"
    } else if d == 1 {
        "1"
    } else if d == 2 {
        "2"
    } else if d == 3 {
        "3"
    } else if d == 4 {
        "4"
    } else if d == 5 {
        "5"
    } else if d == 6 {
        "6"
    } else if d == 7 {
        "7"
    } else if d == 8 {
        "8"
    } else {
        "9"
    }
}

/// Writes a number in decimal.
pub fn to_decimal(n: usize) -> (s: String)
    ensures
        s@ == decimal(n as nat),
    decreases n,
{
    if n < 10 {
        digit_str(n).to_owned()
    } else {
        let mut s = to_decimal(n / 10);
        s.append(digit_str(n % 10));
        s
    }
}

/// `String::push`: appends one character to the string.
#[verifier::external_body]
pub(crate) fn push_char(s: &mut String, c: char)
    ensures
        final(s)@ == old(s)@.push(c),
{
    s.push(c);
}

/// The text of a list of strings, line by line.
pub open spec fn line_views(lines: Seq<String>) -> Seq<Seq<char>> {
    lines.map_values(|l: String| l@)
}

/// The two texts, one after the other.
pub fn concat2(a: &str, b: &str) -> (s: String)
    ensures
        s@ == a@ + b@,
{
    let mut s = a.to_owned();
    s.append(b);
    s
}

/// The three texts, one after the other.
pub fn concat3(a: &str, b: &str, c: &str) -> (s: String)
    ensures
        s@ == a@ + b@ + c@,
{
    let mut s = a.to_owned();
    s.append(b);
    s.append(c);
    s
}

/// The index just after the last `c` among the first `upto` characters, or 0
/// where there is none.
pub open spec fn after_last(s: Seq<char>, c: char, upto: int) -> int
    decreases upto,
{
    if upto <= 0 || upto > s.len() {
        0
    } else if s[upto - 1] == c {
        upto
    } else {
        after_last(s, c, upto - 1)
    }
}

/// What follows the last `c` in the text; the whole text where there is
/// none.
pub open spec fn last_segment(s: Seq<char>, c: char) -> Seq<char> {
    s.subrange(after_last(s, c, s.len() as int), s.len() as int)
}

/// What follows the last `c` in the text.
pub fn last_segment_of(s: &str, c: char) -> (r: String)
    ensures
        r@ == last_segment(s@, c),
{
    let n = s.unicode_len();
    let mut start: usize = 0;
    let mut k: usize = 0;
    while k < n
        invariant
            n == s@.len(),
            k <= n,
            start <= k,
            start == after_last(s@, c, k as int),
        decreases n - k,
    {
        if s.get_char(k) == c {
            start = k + 1;
        }
        k += 1;
    }
    s.substring_char(start, n).to_owned()
}

/// The text without the prefix, if it starts with it.
pub open spec fn without_prefix(s: Seq<char>, prefix: Seq<char>) -> Option<Seq<char>> {
    if s.len() >= prefix.len() && s.subrange(0, prefix.len() as int) == prefix {
        Some(s.subrange(prefix.len() as int, s.len() as int))
    } else {
        None
    }
}

/// The text without the prefix, if it starts with it.
pub fn strip_prefix_of(s: &str, prefix: &str) -> (r: Option<String>)
    ensures
        crate::syntax::opt_text(r) == without_prefix(s@, prefix@),
{
    let n = s.unicode_len();
    let m = prefix.unicode_len();
    if n < m {
        return None;
    }
    if !str_is(s.substring_char(0, m), prefix) {
        return None;
    }
    Some(s.substring_char(m, n).to_owned())
}

/// The text as a line of a log: with a line feed at its end, added where it
/// has none.
pub open spec fn log_line(text: Seq<char>) -> Seq<char> {
    if text.len() > 0 && text[text.len() - 1] == '\n' {
        text
    } else {
        text + "\n"@
    }
}

/// The text as a line of a log.
pub fn log_str(text: &str) -> (s: String)
    ensures
        s@ == log_line(text@),
{
    let n = text.unicode_len();
    if n > 0 && text.get_char(n - 1) == '\n' {
        text.to_owned()
    } else {
        concat2(text, "\n")
    }
}

} // verus!
