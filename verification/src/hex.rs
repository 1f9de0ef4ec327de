//! Single hexadecimal digits: their values, and the uppercase digit of a value.

use vstd::prelude::*;

verus! {

/// The value of `c` read as one hexadecimal digit in either case, if it is one.
pub open spec fn hex_value(c: char) -> Option<u8> {
    if '0' <= c <= '9' {
        Some((c as int - '0' as int) as u8)
    } else if 'a' <= c <= 'f' {
        Some((c as int - 'a' as int + 10) as u8)
    } else if 'A' <= c <= 'F' {
        Some((c as int - 'A' as int + 10) as u8)
    } else {
        None
    }
}

/// The uppercase hexadecimal digit that stands for `n`, for `n` below 16.
pub open spec fn upper_digit(n: int) -> char {
    if n < 10 {
        ('0' as int + n) as char
    } else {
        ('A' as int + n - 10) as char
    }
}

/// Reads one hexadecimal digit, in either case.
pub fn hex_digit(c: char) -> (r: Option<u8>)
    ensures
        r == hex_value(c),
        r matches Some(v) ==> v < 16,
{
    if '0' <= c && c <= '9' {
        Some((c as u32 - '0' as u32) as u8)
    } else if 'a' <= c && c <= 'f' {
        Some((c as u32 - 'a' as u32 + 10) as u8)
    } else if 'A' <= c && c <= 'F' {
        Some((c as u32 - 'A' as u32 + 10) as u8)
    } else {
        None
    }
}

/// Every value below 16 is read back from its uppercase digit, which is no
/// separator.
pub proof fn lemma_upper_digit_value(n: int)
    requires
        0 <= n < 16,
    ensures
        hex_value(upper_digit(n)) == Some(n as u8),
        upper_digit(n) != ' ',
        upper_digit(n) != ':',
{
}

/// The uppercase form of a lowercase ASCII letter; any other character
/// unchanged.
pub open spec fn ascii_upper(c: char) -> char {
    if 'a' <= c <= 'z' {
        (c as int - 'a' as int + 'A' as int) as char
    } else {
        c
    }
}

/// A letter stands for the same hexadecimal digit in either case, or for none
/// in both.
pub proof fn lemma_hex_value_ignores_case(c: char)
    ensures
        hex_value(ascii_upper(c)) == hex_value(c),
{
}

} // verus!
