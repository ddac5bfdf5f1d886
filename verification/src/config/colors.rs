//! The launcher's color scheme and its hexadecimal notation.

use vstd::prelude::*;

verus! {

/// An opaque color given by its red, green and blue components.
#[derive(PartialEq, Eq, Structural, Clone, Copy, Debug)]
pub struct Rgb {
    pub red: u8,
    pub green: u8,
    pub blue: u8,
}

/// The value of a hexadecimal digit (either case).
pub open spec fn hex_value(c: char) -> Option<u8> {
    if '0' <= c && c <= '9' {
        Some((c as u32 - 48) as u8)
    } else if 'a' <= c && c <= 'f' {
        Some((c as u32 - 87) as u8)
    } else if 'A' <= c && c <= 'F' {
        Some((c as u32 - 55) as u8)
    } else {
        None
    }
}

/// `u8::from_str_radix` of two characters in base 16: two digits, or a
/// `+` sign and one digit.
pub open spec fn pair_value(a: char, b: char) -> Option<u8> {
    if a == '+' {
        hex_value(b)
    } else {
        match (hex_value(a), hex_value(b)) {
            (Some(x), Some(y)) => Some((16 * x + y) as u8),
            _ => None,
        }
    }
}

/// `HexColor::parse_rgb`: `#RGB` (each digit repeated) or `#RRGGBB`, in
/// either case; anything else is refused.
pub open spec fn parse_rgb_spec(s: Seq<char>) -> Option<Rgb> {
    if s.len() == 4 && s[0] == '#' {
        match (hex_value(s[1]), hex_value(s[2]), hex_value(s[3])) {
            (Some(r), Some(g), Some(b)) => Some(
                Rgb { red: (17 * r) as u8, green: (17 * g) as u8, blue: (17 * b) as u8 },
            ),
            _ => None,
        }
    } else if s.len() == 7 && s[0] == '#' {
        match (pair_value(s[1], s[2]), pair_value(s[3], s[4]), pair_value(s[5], s[6])) {
            (Some(r), Some(g), Some(b)) => Some(Rgb { red: r, green: g, blue: b }),
            _ => None,
        }
    } else {
        None
    }
}

/// An upper-case hexadecimal digit.
pub open spec fn hex_digit(n: u8) -> char {
    seq!['0', '1', '2', '3', '4', '5', '6', '7', '8', '9', 'A', 'B', 'C', 'D', 'E', 'F'][n as int]
}

/// A byte as two upper-case hexadecimal digits.
pub open spec fn hex_byte(b: u8) -> Seq<char> {
    seq![hex_digit(b / 16), hex_digit(b % 16)]
}

/// `HexColor::display_rgb`: `#RRGGBB` in upper case.
pub open spec fn format_rgb_spec(c: Rgb) -> Seq<char> {
    seq!['#'] + hex_byte(c.red) + hex_byte(c.green) + hex_byte(c.blue)
}

/// `hex_color::HexColor::parse_rgb`, as `hex_color::rgb::deserialize` calls
/// it. Claimed: the result is `parse_rgb_spec`, read off the crate's
/// source (shorthand digits, and `u8::from_str_radix` on digit pairs).
#[verifier::external_body]
fn hex_parse_rgb(s: &str) -> (r: Option<Rgb>)
    ensures
        r == parse_rgb_spec(s@),
{
    match hex_color::HexColor::parse_rgb(s) {
        Ok(c) => Some(Rgb { red: c.r, green: c.g, blue: c.b }),
        Err(_) => None,
    }
}

/// `hex_color::HexColor::display_rgb`, as `hex_color::rgb::serialize`
/// writes it. Claimed: `#` and the three components as two upper-case
/// hexadecimal digits each.
#[verifier::external_body]
fn hex_display_rgb(c: Rgb) -> (r: String)
    ensures
        r@ == format_rgb_spec(c),
{
    format!("{}", hex_color::HexColor::rgb(c.red, c.green, c.blue).display_rgb())
}

/// Reads a color from its `#RGB` or `#RRGGBB` notation.
pub fn parse_color(s: &str) -> (r: Option<Rgb>)
    ensures
        r == parse_rgb_spec(s@),
{
    hex_parse_rgb(s)
}

/// Writes a color in `#RRGGBB` notation.
pub fn format_color(c: Rgb) -> (r: String)
    ensures
        r@ == format_rgb_spec(c),
{
    hex_display_rgb(c)
}

proof fn lemma_hex_digit_value(n: u8)
    requires
        n < 16,
    ensures
        hex_value(hex_digit(n)) == Some(n),
        hex_digit(n) != '+',
{
    let d = seq!['0', '1', '2', '3', '4', '5', '6', '7', '8', '9', 'A', 'B', 'C', 'D', 'E', 'F'];
    assert(d[0] == '0' && d[1] == '1' && d[2] == '2' && d[3] == '3' && d[4] == '4');
    assert(d[5] == '5' && d[6] == '6' && d[7] == '7' && d[8] == '8' && d[9] == '9');
    assert(d[10] == 'A' && d[11] == 'B' && d[12] == 'C' && d[13] == 'D' && d[14] == 'E');
    assert(d[15] == 'F');
}

proof fn lemma_hex_byte_value(b: u8)
    ensures
        pair_value(hex_byte(b)[0], hex_byte(b)[1]) == Some(b),
{
    lemma_hex_digit_value(b / 16);
    lemma_hex_digit_value(b % 16);
}

/// A color written in hexadecimal notation reads back as the same color.
pub proof fn lemma_color_roundtrip(c: Rgb)
    ensures
        parse_rgb_spec(format_rgb_spec(c)) == Some(c),
{
    let s = format_rgb_spec(c);
    lemma_hex_byte_value(c.red);
    lemma_hex_byte_value(c.green);
    lemma_hex_byte_value(c.blue);
    assert(s.len() == 7);
    assert(s[1] == hex_byte(c.red)[0] && s[2] == hex_byte(c.red)[1]);
    assert(s[3] == hex_byte(c.green)[0] && s[4] == hex_byte(c.green)[1]);
    assert(s[5] == hex_byte(c.blue)[0] && s[6] == hex_byte(c.blue)[1]);
}

/// App color scheme.
pub struct Colors {
    pub background: Rgb,
    pub text: Rgb,
    pub border: Rgb,
    pub accent: Rgb,
    pub highlight: Rgb,
}

/// Default background color (Catppuccin Mocha base).
pub fn default_background() -> (r: Rgb)
    ensures
        r == (Rgb { red: 30, green: 30, blue: 46 }),
{
    Rgb { red: 30, green: 30, blue: 46 }
}

/// Default text color (Catppuccin Mocha text).
pub fn default_text() -> (r: Rgb)
    ensures
        r == (Rgb { red: 205, green: 214, blue: 244 }),
{
    Rgb { red: 205, green: 214, blue: 244 }
}

/// Default border color (Catppuccin Mocha surface1).
pub fn default_border() -> (r: Rgb)
    ensures
        r == (Rgb { red: 69, green: 71, blue: 90 }),
{
    Rgb { red: 69, green: 71, blue: 90 }
}

/// Default accent color (Catppuccin Mocha mauve).
pub fn default_accent() -> (r: Rgb)
    ensures
        r == (Rgb { red: 203, green: 166, blue: 247 }),
{
    Rgb { red: 203, green: 166, blue: 247 }
}

/// Default highlight color (Catppuccin Mocha surface2).
pub fn default_highlight() -> (r: Rgb)
    ensures
        r == (Rgb { red: 147, green: 153, blue: 178 }),
{
    Rgb { red: 147, green: 153, blue: 178 }
}

/// The default color scheme.
pub open spec fn default_colors_spec() -> Colors {
    Colors {
        background: Rgb { red: 30, green: 30, blue: 46 },
        text: Rgb { red: 205, green: 214, blue: 244 },
        border: Rgb { red: 69, green: 71, blue: 90 },
        accent: Rgb { red: 203, green: 166, blue: 247 },
        highlight: Rgb { red: 147, green: 153, blue: 178 },
    }
}

/// When the color configuration file is missing, the default colors apply.
impl Default for Colors {
    fn default() -> (r: Self)
        ensures
            r == default_colors_spec(),
    {
        Colors {
            background: default_background(),
            text: default_text(),
            border: default_border(),
            accent: default_accent(),
            highlight: default_highlight(),
        }
    }
}

} // verus!
