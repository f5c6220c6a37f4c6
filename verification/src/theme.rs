//! Reading colors written as `#rrggbb`.

use vstd::prelude::*;

use crate::compose_view::byte_len;
use crate::text::{chars_of, trim, trimmed};

verus! {

/// The value of a hexadecimal digit, if `c` is one.
pub open spec fn hex_value(c: char) -> Option<int> {
    if '0' <= c && c <= '9' {
        Some(c as int - '0' as int)
    } else if 'a' <= c && c <= 'f' {
        Some(c as int - 'a' as int + 10)
    } else if 'A' <= c && c <= 'F' {
        Some(c as int - 'A' as int + 10)
    } else {
        None
    }
}

/// The byte written as the two characters `a, b` in base 16: two
/// hexadecimal digits, or a `+` sign and one digit.
pub open spec fn hex_byte(a: char, b: char) -> Option<int> {
    if a == '+' {
        hex_value(b)
    } else {
        match (hex_value(a), hex_value(b)) {
            (Some(x), Some(y)) => Some(x * 16 + y),
            _ => None,
        }
    }
}

/// A color written `#rrggbb` (surrounding white space allowed): its red,
/// green and blue bytes. Six bytes after `#` that are not six characters
/// hold a character that is no hexadecimal digit, and give nothing.
pub open spec fn hex_color(s: Seq<char>) -> Option<(int, int, int)> {
    let t = trim(s);
    if t.len() == 7 && t[0] == '#' {
        match (hex_byte(t[1], t[2]), hex_byte(t[3], t[4]), hex_byte(t[5], t[6])) {
            (Some(r), Some(g), Some(b)) => Some((r, g, b)),
            _ => None,
        }
    } else {
        None
    }
}

/// Byte offset `b` of the UTF-8 form of `s` falls between two characters.
pub open spec fn is_char_boundary(s: Seq<char>, b: int) -> bool {
    exists|k: int| 0 <= k <= s.len() && byte_len(#[trigger] s.take(k)) == b
}

/// The digits after `#` are six bytes that cannot be cut into byte pairs
/// at character boundaries.
pub open spec fn pairs_split_inside_char(s: Seq<char>) -> bool {
    let t = trim(s);
    &&& t.len() > 0
    &&& t[0] == '#'
    &&& byte_len(t.skip(1)) == 6
    &&& !(is_char_boundary(t.skip(1), 2) && is_char_boundary(t.skip(1), 4))
}

fn hex_digit(c: char) -> (r: Option<u8>)
    ensures
        match hex_value(c) {
            Some(v) => r == Some(v as u8),
            None => r is None,
        },
{
    if '0' <= c && c <= '9' {
        Some(((c as u32) - ('0' as u32)) as u8)
    } else if 'a' <= c && c <= 'f' {
        Some(((c as u32) - ('a' as u32) + 10) as u8)
    } else if 'A' <= c && c <= 'F' {
        Some(((c as u32) - ('A' as u32) + 10) as u8)
    } else {
        None
    }
}

fn hex_pair(a: char, b: char) -> (r: Option<u8>)
    ensures
        match hex_byte(a, b) {
            Some(v) => r == Some(v as u8) && v < 256,
            None => r is None,
        },
{
    if a == '+' {
        return hex_digit(b);
    }
    match (hex_digit(a), hex_digit(b)) {
        (Some(x), Some(y)) => Some(x * 16 + y),
        _ => None,
    }
}

/// Reads a `#rrggbb` color (see `hex_color`). Six bytes after `#` that
/// cannot be cut into pairs at character boundaries are left out.
pub fn parse_hex(s: &str) -> (r: Option<(u8, u8, u8)>)
    requires
        !pairs_split_inside_char(s@),
    ensures
        match hex_color(s@) {
            Some((red, green, blue)) => r == Some((red as u8, green as u8, blue as u8)),
            None => r is None,
        },
{
    let t = trimmed(s);
    let v = chars_of(t.as_str());
    if v.len() != 7 || v[0] != '#' {
        return None;
    }
    match (hex_pair(v[1], v[2]), hex_pair(v[3], v[4]), hex_pair(v[5], v[6])) {
        (Some(r), Some(g), Some(b)) => Some((r, g, b)),
        _ => None,
    }
}

} // verus!
