//! Unsigned integers written in decimal, or in hexadecimal after `0x`.
use vstd::prelude::*;
use vstd::string::{StrSliceExecFns, StringExecFns};

verus! {

/// The value of `c` as a digit in base `radix`, if it is one: `0`-`9`, then
/// `a`-`z` or `A`-`Z` for ten to thirty-five.
pub open spec fn digit_value(c: char, radix: u32) -> Option<nat> {
    let v: int = if '0' <= c && c <= '9' {
        c as int - '0' as int
    } else if 'a' <= c && c <= 'z' {
        c as int - 'a' as int + 10
    } else if 'A' <= c && c <= 'Z' {
        c as int - 'A' as int + 10
    } else {
        36
    };
    if v < radix {
        Some(v as nat)
    } else {
        None
    }
}

/// Whether every character of `d` is a digit in base `radix`.
pub open spec fn all_digits(d: Seq<char>, radix: u32) -> bool {
    forall|i: int| 0 <= i < d.len() ==> (#[trigger] digit_value(d[i], radix)) is Some
}

/// The number that the digits `d` denote in base `radix`, most significant first.
pub open spec fn digits_value(d: Seq<char>, radix: u32) -> nat
    decreases d.len(),
{
    if d.len() == 0 {
        0
    } else {
        digits_value(d.drop_last(), radix) * (radix as nat) + digit_value(d.last(), radix).unwrap_or(0)
    }
}

/// The number that `s` denotes in base `radix`: an optional `+`, then one
/// or more digits, and nothing else.
pub open spec fn unsigned_value(s: Seq<char>, radix: u32) -> Option<nat> {
    let d = if s.len() > 0 && s[0] == '+' {
        s.drop_first()
    } else {
        s
    };
    if d.len() > 0 && all_digits(d, radix) {
        Some(digits_value(d, radix))
    } else {
        None
    }
}

/// Relies on std's `usize::from_str_radix`: an optional `+` followed by digits
/// of the radix, whose value fits in `usize`; any other text is an error. It
/// panics on a radix outside 2 to 36.
#[verifier::external_body]
fn from_str_radix(s: &str, radix: u32) -> (r: Option<usize>)
    requires
        2 <= radix <= 36,
    ensures
        r is Some <==> (unsigned_value(s@, radix) matches Some(v) && v <= usize::MAX),
        r matches Some(v) ==> unsigned_value(s@, radix) == Some(v as nat),
{
    usize::from_str_radix(s, radix).ok()
}

/// Whether `s` carries the hexadecimal prefix `0x`.
pub open spec fn has_hex_prefix(s: Seq<char>) -> bool {
    s.len() >= 2 && s[0] == '0' && s[1] == 'x'
}

/// The number that `s` denotes: hexadecimal digits after a `0x` prefix,
/// decimal digits otherwise, each with an optional `+`.
pub open spec fn int_value(s: Seq<char>) -> Option<nat> {
    if has_hex_prefix(s) {
        unsigned_value(s.subrange(2, s.len() as int), 16)
    } else {
        unsigned_value(s, 10)
    }
}

/// The message of a failed parse of `s`.
pub open spec fn parse_failure(s: Seq<char>) -> Seq<char> {
    "Failed to parse "@ + s
}

/// Parses a count or an offset: decimal, or hexadecimal after `0x`.
pub fn parse_int(s: &str) -> (r: Result<usize, String>)
    ensures
        r is Ok <==> (int_value(s@) matches Some(v) && v <= usize::MAX),
        r matches Ok(v) ==> int_value(s@) == Some(v as nat),
        r matches Err(e) ==> e@ == parse_failure(s@),
{
    let n = s.unicode_len();
    let parsed = if n >= 2 && s.get_char(0) == '0' && s.get_char(1) == 'x' {
        from_str_radix(s.substring_char(2, n), 16)
    } else {
        from_str_radix(s, 10)
    };
    match parsed {
        Some(v) => Ok(v),
        None => Err(String::from_str("Failed to parse ").concat(s)),
    }
}

} // verus!
