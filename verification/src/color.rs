//! Parsing a `#rrggbb` display color into its three channel bytes.

use vstd::prelude::*;

verus! {

/// The value of one hexadecimal digit, either case; `None` for any other
/// character.
pub open spec fn hex_val(c: char) -> Option<u8> {
    let u = c as u32;
    if 48 <= u <= 57 {
        Some((u - 48) as u8)
    } else if 97 <= u <= 102 {
        Some((u - 97 + 10) as u8)
    } else if 65 <= u <= 70 {
        Some((u - 65 + 10) as u8)
    } else {
        None
    }
}

/// The channel bytes encoded by a `#rrggbb` string: a leading `#`
/// followed by exactly six hexadecimal digits; anything else is refused.
pub open spec fn color_spec(s: Seq<char>) -> Option<(u8, u8, u8)> {
    if s.len() == 7 && s[0] == '#' && hex_val(s[1]) is Some && hex_val(s[2]) is Some && hex_val(
        s[3],
    ) is Some && hex_val(s[4]) is Some && hex_val(s[5]) is Some && hex_val(s[6]) is Some {
        Some(
            (
                (hex_val(s[1]).unwrap() * 16 + hex_val(s[2]).unwrap()) as u8,
                (hex_val(s[3]).unwrap() * 16 + hex_val(s[4]).unwrap()) as u8,
                (hex_val(s[5]).unwrap() * 16 + hex_val(s[6]).unwrap()) as u8,
            ),
        )
    } else {
        None
    }
}

fn hex_digit(c: char) -> (r: Option<u8>)
    ensures
        r == hex_val(c),
{
    let u = c as u32;
    if 48 <= u && u <= 57 {
        Some((u - 48) as u8)
    } else if 97 <= u && u <= 102 {
        Some((u - 97 + 10) as u8)
    } else if 65 <= u && u <= 70 {
        Some((u - 65 + 10) as u8)
    } else {
        None
    }
}

/// Decodes a `#rrggbb` display color into its red, green and blue bytes;
/// `None` when the string is not of that shape.
pub fn convert_color(color: &str) -> (r: Option<(u8, u8, u8)>)
    ensures
        r == color_spec(color@),
{
    if color.unicode_len() != 7 {
        return None;
    }
    if color.get_char(0) != '#' {
        return None;
    }
    let d1 = hex_digit(color.get_char(1));
    let d2 = hex_digit(color.get_char(2));
    let d3 = hex_digit(color.get_char(3));
    let d4 = hex_digit(color.get_char(4));
    let d5 = hex_digit(color.get_char(5));
    let d6 = hex_digit(color.get_char(6));
    match (d1, d2, d3, d4, d5, d6) {
        (Some(a), Some(b), Some(c), Some(d), Some(e), Some(f)) => Some(
            (a * 16 + b, c * 16 + d, e * 16 + f),
        ),
        _ => None,
    }
}

} // verus!
