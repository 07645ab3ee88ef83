//! Text on the wire: decimal numbers, line ends, and the conversions between
//! bytes and strings that frames and commands need.

use vstd::prelude::*;
use vstd::utf8::*;

verus! {

/// Carriage return.
pub const CR: u8 = 13;

/// Line feed.
pub const LF: u8 = 10;

/// The digit `0`.
pub const ZERO: u8 = 48;

/// The two bytes that end a line.
pub open spec fn crlf() -> Seq<u8> {
    seq![CR, LF]
}

/// Whether `b` is one of the ASCII digits `0` to `9`.
pub open spec fn is_digit(b: u8) -> bool {
    48 <= b <= 57
}

/// The first index at or after `from` that does not hold a digit.
pub open spec fn digits_end(s: Seq<u8>, from: int) -> int
    decreases s.len() - from,
{
    if 0 <= from < s.len() && is_digit(s[from]) {
        digits_end(s, from + 1)
    } else {
        from
    }
}

/// The number that a sequence of digits spells in base ten.
pub open spec fn digits_value(s: Seq<u8>) -> nat
    decreases s.len(),
{
    if s.len() == 0 {
        0
    } else {
        digits_value(s.drop_last()) * 10 + (s.last() - 48) as nat
    }
}

/// The number at the start of `text`, as `atoi::atoi::<u64>` reads it: an
/// optional sign, then the longest run of digits. Without a sign at least one
/// digit is needed. After `-` only zero can be read, whatever the number of
/// digits; a value above `u64::MAX` is none. What follows the digits is
/// ignored.
pub open spec fn leading_number(text: Seq<u8>) -> Option<u64> {
    let signed = text.len() > 0 && (text[0] == 43 || text[0] == 45);
    let start: int = if signed { 1 } else { 0 };
    let end = digits_end(text, start);
    let value = digits_value(text.subrange(start, end));
    if !signed && end == 0 {
        None
    } else if signed && text[0] == 45 {
        if value == 0 { Some(0u64) } else { None }
    } else if value <= u64::MAX {
        Some(value as u64)
    } else {
        None
    }
}

/// `atoi::atoi::<u64>`: reads a decimal number from the start of `text`.
#[verifier::external_body]
pub(crate) fn atoi_u64(text: &[u8]) -> (r: Option<u64>)
    ensures
        r == leading_number(text@),
{
    atoi::atoi::<u64>(text)
}

/// The digits of `n` in base ten, most significant first, without leading
/// zeros.
pub open spec fn decimal_bytes(n: nat) -> Seq<u8>
    decreases n,
{
    if n < 10 {
        seq![(48 + n) as u8]
    } else {
        decimal_bytes(n / 10).push((48 + n % 10) as u8)
    }
}

/// The digits of `n` as characters.
pub open spec fn decimal_chars(n: nat) -> Seq<char> {
    decimal_bytes(n).map_values(|b: u8| b as char)
}

/// `String::from_utf8`: the string that the bytes encode, where they are valid
/// UTF-8, and nothing otherwise.
#[verifier::external_body]
pub(crate) fn string_from_utf8(bytes: Vec<u8>) -> (r: Option<String>)
    ensures
        r is Some <==> valid_utf8(bytes@),
        r matches Some(s) ==> s@ == decode_utf8(bytes@),
{
    String::from_utf8(bytes).ok()
}

/// A character with the ASCII capitals `A` to `Z` made small.
pub open spec fn ascii_lower(c: char) -> char {
    if 'A' <= c <= 'Z' {
        ((c as u8) + 32) as char
    } else {
        c
    }
}

/// A character with the small ASCII letters `a` to `z` made capitals.
pub open spec fn ascii_upper(c: char) -> char {
    if 'a' <= c <= 'z' {
        ((c as u8) - 32) as char
    } else {
        c
    }
}

/// What `str::to_lowercase` gives for text that is not all ASCII.
pub uninterp spec fn unicode_lowercase(s: Seq<char>) -> Seq<char>;

/// What `str::to_uppercase` gives for text that is not all ASCII.
pub uninterp spec fn unicode_uppercase(s: Seq<char>) -> Seq<char>;

/// The text in lower case: ASCII text letter by letter, other text as
/// `str::to_lowercase` maps it.
pub open spec fn lowercase(s: Seq<char>) -> Seq<char> {
    if is_ascii_chars(s) {
        s.map_values(|c: char| ascii_lower(c))
    } else {
        unicode_lowercase(s)
    }
}

/// The text in upper case: ASCII text letter by letter, other text as
/// `str::to_uppercase` maps it.
pub open spec fn uppercase(s: Seq<char>) -> Seq<char> {
    if is_ascii_chars(s) {
        s.map_values(|c: char| ascii_upper(c))
    } else {
        unicode_uppercase(s)
    }
}

/// `str::to_lowercase`: in ASCII text the capitals `A` to `Z` become small
/// and nothing else changes.
#[verifier::external_body]
pub(crate) fn to_lowercase(s: &str) -> (r: String)
    ensures
        r@ == lowercase(s@),
        !is_ascii_chars(s@) ==> r@ == unicode_lowercase(s@),
{
    s.to_lowercase()
}

/// `str::to_uppercase`: in ASCII text the small letters `a` to `z` become
/// capitals and nothing else changes.
#[verifier::external_body]
pub(crate) fn to_uppercase(s: &str) -> (r: String)
    ensures
        r@ == uppercase(s@),
        !is_ascii_chars(s@) ==> r@ == unicode_uppercase(s@),
{
    s.to_uppercase()
}

/// Text as `{:?}` prints a string that holds it: between quotes, with
/// escapes.
pub uninterp spec fn quoted(s: Seq<char>) -> Seq<char>;

/// `Debug` of `str`, through `format!`: the text between quotes, with
/// escapes; it is settled by the text.
#[verifier::external_body]
pub(crate) fn str_debug(s: &str) -> (r: String)
    ensures
        r@ == quoted(s@),
{
    format!("{:?}", s)
}

/// `u64::to_string`: the number in base ten.
#[verifier::external_body]
pub(crate) fn u64_to_string(n: u64) -> (s: String)
    ensures
        s@ == decimal_chars(n as nat),
{
    n.to_string()
}

/// Every byte of `decimal_bytes(n)` is a digit, there is at least one, and
/// together they spell `n`.
pub proof fn lemma_decimal_bytes(n: nat)
    ensures
        decimal_bytes(n).len() >= 1,
        forall|i: int| 0 <= i < decimal_bytes(n).len() ==> is_digit(#[trigger] decimal_bytes(n)[i]),
        digits_value(decimal_bytes(n)) == n,
    decreases n,
{
    if n < 10 {
        let s = decimal_bytes(n);
        assert(s.drop_last() =~= Seq::<u8>::empty());
        assert(digits_value(s.drop_last()) == 0);
    } else {
        lemma_decimal_bytes(n / 10);
        let s = decimal_bytes(n);
        assert(s.drop_last() =~= decimal_bytes(n / 10));
    }
}

/// In a sequence of digits followed by anything that is no digit, the run of
/// digits that starts at `from` ends where the digits end.
pub proof fn lemma_digits_end(s: Seq<u8>, from: int, end: int)
    requires
        0 <= from <= end <= s.len(),
        forall|i: int| from <= i < end ==> is_digit(#[trigger] s[i]),
        end < s.len() ==> !is_digit(s[end]),
    ensures
        digits_end(s, from) == end,
    decreases end - from,
{
    if from < end {
        lemma_digits_end(s, from + 1, end);
    }
}

/// `atoi` reads back the number that `decimal_bytes` wrote.
pub proof fn lemma_leading_number_of_decimal(n: u64)
    ensures
        leading_number(decimal_bytes(n as nat)) == Some(n),
{
    let s = decimal_bytes(n as nat);
    lemma_decimal_bytes(n as nat);
    assert(is_digit(s[0]));
    lemma_digits_end(s, 0, s.len() as int);
    assert(s.subrange(0, s.len() as int) =~= s);
}

} // verus!
