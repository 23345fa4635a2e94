//! Character classes and single-character conversions used by the A1 grammar.

use vstd::prelude::*;

verus! {

/// ASCII decimal digit.
pub open spec fn is_digit_char(c: char) -> bool {
    '0' <= c && c <= '9'
}

/// ASCII letter of either case.
pub open spec fn is_alpha_char(c: char) -> bool {
    ('A' <= c && c <= 'Z') || ('a' <= c && c <= 'z')
}

/// Lowercase ASCII letters map to their uppercase partner; everything else is
/// unchanged.
pub open spec fn upper_char(c: char) -> char {
    if 'a' <= c && c <= 'z' {
        (c as int - 32) as char
    } else {
        c
    }
}

/// One-based value of a letter in the base-26 column numbering: `A` is 1,
/// `Z` is 26. Case-insensitive; meaningful only for ASCII letters.
pub open spec fn letter_val(c: char) -> nat {
    (upper_char(c) as int - 'A' as int + 1) as nat
}

/// Numeric value of an ASCII digit; meaningful only for digits.
pub open spec fn digit_val(c: char) -> nat {
    (c as int - '0' as int) as nat
}

/// The `i`-th uppercase letter, zero-based: `letter_of(0)` is `A`.
/// Meaningful only for `0 <= i < 26`.
pub open spec fn letter_of(i: int) -> char {
    ('A' as int + i) as char
}

/// The digit character for `i`; meaningful only for `0 <= i < 10`.
pub open spec fn digit_of(i: int) -> char {
    ('0' as int + i) as char
}

/// The characters with the Unicode `White_Space` property, as
/// `char::is_whitespace` recognises them.
pub open spec fn is_ws_char(c: char) -> bool {
    ||| c == ' '
    ||| c == '\t'
    ||| c == '\n'
    ||| c == '\u{b}'
    ||| c == '\u{c}'
    ||| c == '\r'
    ||| c == '\u{85}'
    ||| c == '\u{a0}'
    ||| c == '\u{1680}'
    ||| ('\u{2000}' <= c && c <= '\u{200a}')
    ||| c == '\u{2028}'
    ||| c == '\u{2029}'
    ||| c == '\u{202f}'
    ||| c == '\u{205f}'
    ||| c == '\u{3000}'
}

pub fn digit_char_test(c: char) -> (r: bool)
    ensures
        r == is_digit_char(c),
{
    '0' <= c && c <= '9'
}

pub fn alpha_char_test(c: char) -> (r: bool)
    ensures
        r == is_alpha_char(c),
{
    ('A' <= c && c <= 'Z') || ('a' <= c && c <= 'z')
}

pub fn ws_char_test(c: char) -> (r: bool)
    ensures
        r == is_ws_char(c),
{
    c == ' ' || c == '\t' || c == '\n' || c == '\u{b}' || c == '\u{c}' || c == '\r'
        || c == '\u{85}' || c == '\u{a0}' || c == '\u{1680}'
        || ('\u{2000}' <= c && c <= '\u{200a}') || c == '\u{2028}' || c == '\u{2029}'
        || c == '\u{202f}' || c == '\u{205f}' || c == '\u{3000}'
}

/// One-based value of a letter, as an index.
pub fn letter_num(c: char) -> (n: usize)
    requires
        is_alpha_char(c),
    ensures
        n == letter_val(c),
        1 <= n <= 26,
{
    if 'a' <= c && c <= 'z' {
        (c as u32 - 96) as usize
    } else {
        (c as u32 - 64) as usize
    }
}

/// Numeric value of a digit.
pub fn digit_num(c: char) -> (n: usize)
    requires
        is_digit_char(c),
    ensures
        n == digit_val(c),
        n <= 9,
{
    (c as u32 - 48) as usize
}

/// The `i`-th uppercase letter, zero-based.
pub fn letter_char(i: usize) -> (c: char)
    requires
        i < 26,
    ensures
        c == letter_of(i as int),
{
    ((65 + i as u32) as u8) as char
}

/// The digit character for `i`.
pub fn digit_char(i: usize) -> (c: char)
    requires
        i < 10,
    ensures
        c == digit_of(i as int),
{
    ((48 + i as u32) as u8) as char
}

} // verus!
