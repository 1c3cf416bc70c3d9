//! Character classes used by the boundary heuristics.

use vstd::prelude::*;

verus! {

/// A legal first character of a cookie name: ASCII letter, digit or underscore.
pub open spec fn name_start_byte(b: u8) -> bool {
    (0x30 <= b <= 0x39) || (0x41 <= b <= 0x5a) || (0x61 <= b <= 0x7a) || b == 0x5f
}

/// A legal character of a cookie name: a name-start character or a hyphen.
pub open spec fn name_byte(b: u8) -> bool {
    name_start_byte(b) || b == 0x2d
}

/// Character-level form of `name_start_byte`; any non-ASCII character is excluded.
pub open spec fn name_start_char(c: char) -> bool {
    (c as u32) < 0x80 && name_start_byte(c as u32 as u8)
}

/// Character-level form of `name_byte`; any non-ASCII character is excluded.
pub open spec fn name_char(c: char) -> bool {
    (c as u32) < 0x80 && name_byte(c as u32 as u8)
}

/// The characters that carry the Unicode `White_Space` property.
pub open spec fn whitespace(c: char) -> bool {
    let u = c as u32;
    (0x09 <= u <= 0x0d) || u == 0x20 || u == 0x85 || u == 0xa0 || u == 0x1680 || (0x2000 <= u
        <= 0x200a) || u == 0x2028 || u == 0x2029 || u == 0x202f || u == 0x205f || u == 0x3000
}

/// Whether `b` can start a cookie name (alphanumeric or underscore).
pub fn is_cookie_name_start(b: u8) -> (r: bool)
    ensures
        r == name_start_byte(b),
{
    (0x30 <= b && b <= 0x39) || (0x61 <= b && b <= 0x7a) || (0x41 <= b && b <= 0x5a) || b == 0x5f
}

/// Whether `b` can continue a cookie name (alphanumeric, underscore or hyphen).
pub fn is_cookie_name_byte(b: u8) -> (r: bool)
    ensures
        r == name_byte(b),
{
    is_cookie_name_start(b) || b == 0x2d
}

/// Whether `c` can start a cookie name.
pub fn is_name_start_char(c: char) -> (r: bool)
    ensures
        r == name_start_char(c),
{
    let u = c as u32;
    u < 0x80 && is_cookie_name_start(u as u8)
}

/// Whether `c` can continue a cookie name.
pub fn is_name_char(c: char) -> (r: bool)
    ensures
        r == name_char(c),
{
    let u = c as u32;
    u < 0x80 && is_cookie_name_byte(u as u8)
}

/// Whether `c` is white space in the Unicode sense, as `str::trim` uses it.
pub fn is_whitespace(c: char) -> (r: bool)
    ensures
        r == whitespace(c),
{
    let u = c as u32;
    (0x09 <= u && u <= 0x0d) || u == 0x20 || u == 0x85 || u == 0xa0 || u == 0x1680 || (0x2000 <= u
        && u <= 0x200a) || u == 0x2028 || u == 0x2029 || u == 0x202f || u == 0x205f || u == 0x3000
}

} // verus!
