//! ASCII classification and case conversion for characters and bytes.
//!
//! Path translation only ever changes the case of ASCII drive letters; all
//! other characters and bytes pass through untouched.

use vstd::prelude::*;

verus! {

/// An ASCII uppercase letter.
pub open spec fn is_upper(c: char) -> bool {
    'A' <= c && c <= 'Z'
}

/// An ASCII lowercase letter.
pub open spec fn is_lower(c: char) -> bool {
    'a' <= c && c <= 'z'
}

/// An ASCII letter, the only characters accepted as drive letters.
pub open spec fn is_ascii_letter(c: char) -> bool {
    is_upper(c) || is_lower(c)
}

/// ASCII-lowercase a character; anything but `A`..`Z` is left alone.
pub open spec fn lower_char(c: char) -> char {
    if is_upper(c) {
        (((c as u32) + 32) as u8) as char
    } else {
        c
    }
}

pub fn char_is_ascii_letter(c: char) -> (r: bool)
    ensures
        r == is_ascii_letter(c),
{
    ('A' <= c && c <= 'Z') || ('a' <= c && c <= 'z')
}

pub fn char_to_lower(c: char) -> (r: char)
    ensures
        r == lower_char(c),
{
    if 'A' <= c && c <= 'Z' {
        (((c as u32) + 32) as u8) as char
    } else {
        c
    }
}

/// An ASCII letter as a byte (`A`..`Z` or `a`..`z`).
pub open spec fn is_letter_byte(b: u8) -> bool {
    (65 <= b && b <= 90) || (97 <= b && b <= 122)
}

/// ASCII-uppercase a byte; anything but `a`..`z` is left alone.
pub open spec fn upper_byte(b: u8) -> u8 {
    if 97 <= b && b <= 122 {
        (b - 32) as u8
    } else {
        b
    }
}

pub fn byte_is_letter(b: u8) -> (r: bool)
    ensures
        r == is_letter_byte(b),
{
    (65 <= b && b <= 90) || (97 <= b && b <= 122)
}

pub fn byte_to_upper(b: u8) -> (r: u8)
    ensures
        r == upper_byte(b),
{
    if 97 <= b && b <= 122 {
        b - 32
    } else {
        b
    }
}

} // verus!
