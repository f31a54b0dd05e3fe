//! Colours for the rendering layer, and parsing of the hexadecimal colour
//! notations accepted at the shell: `f`, `fff`, `#fff`, `ffffff` and
//! `#ffffff`.
use vstd::prelude::*;

verus! {

/// An RGB colour with eight bits per channel.
#[derive(Debug, Clone, Copy, PartialEq, Eq, Structural)]
pub struct Colour {
    pub r: u8,
    pub g: u8,
    pub b: u8,
}

impl Colour {
    /// The colour with the given channel values.
    pub fn new(r: u8, g: u8, b: u8) -> (c: Self)
        ensures
            c == (Colour { r, g, b }),
    {
        Colour { r, g, b }
    }

    /// Parse a colour from its hexadecimal notation. A one-digit grey, three
    /// or six digits of RGB, each optionally preceded by one marker
    /// character (which is skipped without being inspected, as `#` usually
    /// stands there). Any other length, or any non-digit where a digit is
    /// expected, is rejected.
    pub fn from_str(s: &str) -> (r: Result<Colour, ()>)
        ensures
            match r {
                Ok(c) => spec_colour_from(s@) == Some(c),
                Err(_) => spec_colour_from(s@) is None,
            },
    {
        let n = s.unicode_len();
        if n == 1 {
            let v = hex_digit(s.get_char(0))?;
            Ok(Colour::new(v, v, v))
        } else if n == 3 {
            let r = hex_digit(s.get_char(0))?;
            let g = hex_digit(s.get_char(1))?;
            let b = hex_digit(s.get_char(2))?;
            Ok(Colour::new(r, g, b))
        } else if n == 4 {
            let r = hex_digit(s.get_char(1))?;
            let g = hex_digit(s.get_char(2))?;
            let b = hex_digit(s.get_char(3))?;
            Ok(Colour::new(r, g, b))
        } else if n == 6 {
            let r = hex_pair(s.get_char(0), s.get_char(1))?;
            let g = hex_pair(s.get_char(2), s.get_char(3))?;
            let b = hex_pair(s.get_char(4), s.get_char(5))?;
            Ok(Colour::new(r, g, b))
        } else if n == 7 {
            let r = hex_pair(s.get_char(1), s.get_char(2))?;
            let g = hex_pair(s.get_char(3), s.get_char(4))?;
            let b = hex_pair(s.get_char(5), s.get_char(6))?;
            Ok(Colour::new(r, g, b))
        } else {
            Err(())
        }
    }
}

/// A foreground colour on a background colour.
#[derive(Debug, Clone, Copy, PartialEq, Eq, Structural)]
pub struct TextColour {
    pub foreground: Colour,
    pub background: Colour,
}

impl TextColour {
    /// The text colour with the given foreground and background.
    pub fn new(foreground: Colour, background: Colour) -> (c: Self)
        ensures
            c == (TextColour { foreground, background }),
    {
        TextColour { foreground, background }
    }
}

/// The value of a hexadecimal digit: `0`-`9`, `a`-`f` or `A`-`F`.
pub open spec fn spec_hex_digit(c: char) -> Option<u8> {
    if '0' <= c && c <= '9' {
        Some(((c as int) - 48) as u8)
    } else if 'a' <= c && c <= 'f' {
        Some(((c as int) - 87) as u8)
    } else if 'A' <= c && c <= 'F' {
        Some(((c as int) - 55) as u8)
    } else {
        None
    }
}

/// The value of two hexadecimal digits.
pub open spec fn spec_hex_pair(hi: char, lo: char) -> Option<u8> {
    match (spec_hex_digit(hi), spec_hex_digit(lo)) {
        (Some(h), Some(l)) => Some((h * 16 + l) as u8),
        _ => None,
    }
}

/// What `Colour::from_str` accepts and returns.
pub open spec fn spec_colour_from(s: Seq<char>) -> Option<Colour> {
    if s.len() == 1 {
        match spec_hex_digit(s[0]) {
            Some(v) => Some(Colour { r: v, g: v, b: v }),
            None => None,
        }
    } else if s.len() == 3 {
        spec_colour_channels(spec_hex_digit(s[0]), spec_hex_digit(s[1]), spec_hex_digit(s[2]))
    } else if s.len() == 4 {
        spec_colour_channels(spec_hex_digit(s[1]), spec_hex_digit(s[2]), spec_hex_digit(s[3]))
    } else if s.len() == 6 {
        spec_colour_channels(
            spec_hex_pair(s[0], s[1]),
            spec_hex_pair(s[2], s[3]),
            spec_hex_pair(s[4], s[5]),
        )
    } else if s.len() == 7 {
        spec_colour_channels(
            spec_hex_pair(s[1], s[2]),
            spec_hex_pair(s[3], s[4]),
            spec_hex_pair(s[5], s[6]),
        )
    } else {
        None
    }
}

/// A colour from three parsed channels, if all three parsed.
pub open spec fn spec_colour_channels(r: Option<u8>, g: Option<u8>, b: Option<u8>) -> Option<
    Colour,
> {
    match (r, g, b) {
        (Some(r), Some(g), Some(b)) => Some(Colour { r, g, b }),
        _ => None,
    }
}

/// Parse one hexadecimal digit.
fn hex_digit(c: char) -> (r: Result<u8, ()>)
    ensures
        match r {
            Ok(v) => spec_hex_digit(c) == Some(v),
            Err(_) => spec_hex_digit(c) is None,
        },
{
    let v = c as u32;
    if 48 <= v && v <= 57 {
        Ok((v - 48) as u8)
    } else if 97 <= v && v <= 102 {
        Ok((v - 87) as u8)
    } else if 65 <= v && v <= 70 {
        Ok((v - 55) as u8)
    } else {
        Err(())
    }
}

/// Parse two hexadecimal digits as one byte.
fn hex_pair(hi: char, lo: char) -> (r: Result<u8, ()>)
    ensures
        match r {
            Ok(v) => spec_hex_pair(hi, lo) == Some(v),
            Err(_) => spec_hex_pair(hi, lo) is None,
        },
{
    let h = hex_digit(hi)?;
    let l = hex_digit(lo)?;
    Ok(h * 16 + l)
}

} // verus!
