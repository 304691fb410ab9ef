//! Colours, as chat users pick them for their names: read from the `#rrggbb`
//! or `#rgb` notation and written as a terminal escape sequence.

use vstd::prelude::*;
use crate::slices::{boundary, byte_count, byte_len, lemma_slice_whole, slice, slice_bytes};
use crate::text::{begins_with, chars_of, starts_with};

verus! {

/// Why a text is no colour.
#[derive(Debug, PartialEq)]
pub enum Error {
    /// The text, or the piece of it that holds one component, is not in
    /// the notation.
    ParseError(String),
}

/// What an `Error` is in specifications.
pub enum ErrorView {
    ParseError(Seq<char>),
}

impl View for Error {
    type V = ErrorView;

    open spec fn view(&self) -> ErrorView {
        match self {
            Error::ParseError(text) => ErrorView::ParseError(text@),
        }
    }
}

/// A colour of 24 bits.
#[derive(Debug, PartialEq)]
pub struct Color {
    red: u8,
    green: u8,
    blue: u8,
}

impl View for Color {
    type V = (u8, u8, u8);

    /// Red, green and blue.
    closed spec fn view(&self) -> (u8, u8, u8) {
        (self.red, self.green, self.blue)
    }
}

/// The value of a hexadecimal digit, in either case.
pub open spec fn hex_value(c: char) -> Option<u8> {
    if '0' <= c <= '9' {
        Some((c as u32 - '0' as u32) as u8)
    } else if 'a' <= c <= 'f' {
        Some((c as u32 - 'a' as u32 + 10) as u8)
    } else if 'A' <= c <= 'F' {
        Some((c as u32 - 'A' as u32 + 10) as u8)
    } else {
        None
    }
}

/// The component that one or two hexadecimal digits stand for. A single
/// digit stands for itself doubled, as `f` for `ff`.
pub open spec fn spec_hex_to_byte(hex: Seq<char>) -> Option<u8> {
    if hex.len() == 1 {
        match hex_value(hex[0]) {
            Some(d) => Some((d * 16 + d) as u8),
            None => None,
        }
    } else if hex.len() == 2 {
        match (hex_value(hex[0]), hex_value(hex[1])) {
            (Some(high), Some(low)) => Some((high * 16 + low) as u8),
            _ => None,
        }
    } else {
        None
    }
}

/// The text of a colour without its leading `#`, if it has one.
pub open spec fn digits_of(hex: Seq<char>) -> Seq<char> {
    if starts_with(hex, '#') {
        hex.skip(1)
    } else {
        hex
    }
}

/// The number of bytes that each component takes in `digits`: two in the
/// long notation, one in the short one, and zero where `digits` is in
/// neither or cannot be cut into three such pieces.
pub open spec fn component_width(digits: Seq<char>) -> int {
    let width: int = if byte_len(digits) == 6 {
        2
    } else if byte_len(digits) == 3 {
        1
    } else {
        0
    };
    if boundary(digits, width) && boundary(digits, 2 * width) {
        width
    } else {
        0
    }
}

/// The colour that a text stands for. A text that is not made of three
/// components is refused as a whole; otherwise the first component that is
/// not hexadecimal is refused.
pub open spec fn spec_from_str(hex: Seq<char>) -> Result<(u8, u8, u8), ErrorView> {
    let digits = digits_of(hex);
    let width = component_width(digits);
    if width == 0 {
        Err(ErrorView::ParseError(hex))
    } else {
        let r = slice(digits, 0, width);
        let g = slice(digits, width, 2 * width);
        let b = slice(digits, 2 * width, 3 * width);
        match spec_hex_to_byte(r) {
            None => Err(ErrorView::ParseError(r)),
            Some(red) => match spec_hex_to_byte(g) {
                None => Err(ErrorView::ParseError(g)),
                Some(green) => match spec_hex_to_byte(b) {
                    None => Err(ErrorView::ParseError(b)),
                    Some(blue) => Ok((red, green, blue)),
                },
            },
        }
    }
}

/// The character that stands for a digit below ten.
pub open spec fn digit_char(d: int) -> char {
    if d == 0 {
        '0'
    } else if d == 1 {
        '1'
    } else if d == 2 {
        '2'
    } else if d == 3 {
        '3'
    } else if d == 4 {
        '4'
    } else if d == 5 {
        '5'
    } else if d == 6 {
        '6'
    } else if d == 7 {
        '7'
    } else if d == 8 {
        '8'
    } else {
        '9'
    }
}

/// A number in decimal notation, without leading zeros.
pub open spec fn decimal(n: nat) -> Seq<char>
    decreases n,
{
    if n < 10 {
        seq![digit_char(n as int)]
    } else {
        decimal(n / 10).push(digit_char((n % 10) as int))
    }
}

/// The escape sequence that sets the foreground colour, then `text`, then
/// the sequence that resets it.
pub open spec fn spec_wrap_ansi(color: (u8, u8, u8), text: Seq<char>) -> Seq<char> {
    "\x1b[38;2;"@ + decimal(color.0 as nat) + ";"@ + decimal(color.1 as nat) + ";"@ + decimal(
        color.2 as nat,
    ) + "m"@ + text + "\x1b[0m"@
}

/// The value of a hexadecimal digit.
fn hex_digit(c: char) -> (value: Option<u8>)
    ensures
        value == hex_value(c),
        value matches Some(d) ==> d < 16,
{
    let code = c as u32;
    if 48 <= code && code <= 57 {
        Some((code - 48) as u8)
    } else if 97 <= code && code <= 102 {
        Some((code - 97 + 10) as u8)
    } else if 65 <= code && code <= 70 {
        Some((code - 65 + 10) as u8)
    } else {
        None
    }
}

/// Reads one colour component of one or two hexadecimal digits. Any other
/// text is refused.
pub fn hex_to_byte(hex: &str) -> (r: Result<u8, Error>)
    ensures
        match spec_hex_to_byte(hex@) {
            Some(byte) => r == Ok::<u8, Error>(byte),
            None => r matches Err(e) && e@ == ErrorView::ParseError(hex@),
        },
{
    let chars = chars_of(hex);
    if chars.len() == 1 {
        if let Some(d) = hex_digit(chars[0]) {
            return Ok(d * 16 + d);
        }
    } else if chars.len() == 2 {
        if let Some(high) = hex_digit(chars[0]) {
            if let Some(low) = hex_digit(chars[1]) {
                return Ok(high * 16 + low);
            }
        }
    }
    Err(Error::ParseError(String::from_str(hex)))
}

/// The text of one digit.
fn digit_text(d: u8) -> (text: &'static str)
    requires
        d < 10,
    ensures
        text@ == seq![digit_char(d as int)],
{
    proof {
        reveal_strlit("0");
        reveal_strlit("1");
        reveal_strlit("2");
        reveal_strlit("3");
        reveal_strlit("4");
        reveal_strlit("5");
        reveal_strlit("6");
        reveal_strlit("7");
        reveal_strlit("8");
        reveal_strlit("9");
    }
    let text = if d == 0 {
        "0"
    } else if d == 1 {
        "1"
    } else if d == 2 {
        "2"
    } else if d == 3 {
        "3"
    } else if d == 4 {
        "4"
    } else if d == 5 {
        "5"
    } else if d == 6 {
        "6"
    } else if d == 7 {
        "7"
    } else if d == 8 {
        "8"
    } else {
        "9"
    };
    assert(text@ =~= seq![digit_char(d as int)]);
    text
}

/// Appends a component in decimal notation.
fn push_decimal(out: &mut String, n: u8)
    ensures
        final(out)@ == old(out)@ + decimal(n as nat),
{
    let ghost before = out@;
    if n >= 100 {
        out.append(digit_text(n / 100));
    }
    if n >= 10 {
        out.append(digit_text((n / 10) % 10));
    }
    out.append(digit_text(n % 10));
    proof {
        let v = n as nat;
        if v >= 100 {
            assert(decimal(v / 10 / 10) == seq![digit_char((v / 100) as int)]);
            assert(decimal(v / 10) == decimal(v / 10 / 10).push(digit_char((v / 10 % 10) as int)));
        } else if v >= 10 {
            assert(decimal(v / 10) == seq![digit_char((v / 10) as int)]);
        }
        assert(out@ =~= before + decimal(v));
    }
}

impl Color {
    /// The colour with the given components.
    pub fn new(r: u8, g: u8, b: u8) -> (color: Color)
        ensures
            color@ == (r, g, b),
    {
        Color { red: r, green: g, blue: b }
    }

    /// The red component.
    pub fn red(&self) -> (r: u8)
        ensures
            r == self@.0,
    {
        self.red
    }

    /// The green component.
    pub fn green(&self) -> (g: u8)
        ensures
            g == self@.1,
    {
        self.green
    }

    /// The blue component.
    pub fn blue(&self) -> (b: u8)
        ensures
            b == self@.2,
    {
        self.blue
    }

    /// Reads a colour in the notation `#rrggbb` or `#rgb`; the `#` may be
    /// left out.
    pub fn from_str(hex: &str) -> (r: Result<Color, Error>)
        ensures
            match spec_from_str(hex@) {
                Ok(rgb) => r matches Ok(color) && color@ == rgb,
                Err(e) => r matches Err(x) && x@ == e,
            },
    {
        let digits = if begins_with(hex, '#') {
            hex.substring_char(1, hex.unicode_len())
        } else {
            hex
        };
        assert(digits@ == digits_of(hex@));
        let len = byte_count(digits);
        let width: usize = if len == 6 {
            2
        } else if len == 3 {
            1
        } else {
            return Err(Error::ParseError(String::from_str(hex)));
        };
        let r = slice_bytes(digits, 0, width);
        let g = slice_bytes(digits, width, 2 * width);
        let b = slice_bytes(digits, 2 * width, 3 * width);
        proof {
            lemma_slice_whole(digits@);
        }
        match (r, g, b) {
            (Some(r), Some(g), Some(b)) => {
                let red = match hex_to_byte(r) {
                    Ok(byte) => byte,
                    Err(e) => { return Err(e); },
                };
                let green = match hex_to_byte(g) {
                    Ok(byte) => byte,
                    Err(e) => { return Err(e); },
                };
                let blue = match hex_to_byte(b) {
                    Ok(byte) => byte,
                    Err(e) => { return Err(e); },
                };
                Ok(Color::new(red, green, blue))
            },
            _ => Err(Error::ParseError(String::from_str(hex))),
        }
    }

    /// Reads a colour from an owned string, as `from_str` does.
    pub fn from_string(hex: &String) -> (r: Result<Color, Error>)
        ensures
            match spec_from_str(hex@) {
                Ok(rgb) => r matches Ok(color) && color@ == rgb,
                Err(e) => r matches Err(x) && x@ == e,
            },
    {
        Color::from_str(hex.as_str())
    }

    /// Wraps `text` in the escape sequences that show it in this colour on
    /// a terminal.
    pub fn wrap_ansi(&self, text: &str) -> (wrapped: String)
        ensures
            wrapped@ == spec_wrap_ansi(self@, text@),
    {
        let mut s = String::new();
        s.append("\x1b[38;2;");
        push_decimal(&mut s, self.red);
        s.append(";");
        push_decimal(&mut s, self.green);
        s.append(";");
        push_decimal(&mut s, self.blue);
        s.append("m");
        s.append(text);
        s.append("\x1b[0m");
        assert(s@ =~= spec_wrap_ansi(self@, text@));
        s
    }
}

} // verus!
