//! Launcher configuration values and their defaults.

use vstd::prelude::*;
use crate::text::str_eq;

verus! {

/// Launcher display mode.
#[derive(PartialEq, Eq, Structural, Clone, Copy, Debug)]
pub enum Mode {
    Full,
    Compact,
    Lines,
    Icons,
}

/// The name of a mode in configuration files.
pub open spec fn mode_name_spec(m: Mode) -> Seq<char> {
    match m {
        Mode::Full => "full"@,
        Mode::Compact => "compact"@,
        Mode::Lines => "lines"@,
        Mode::Icons => "icons"@,
    }
}

/// The mode of a name in configuration files; other names are unknown.
pub open spec fn parse_mode_spec(s: Seq<char>) -> Option<Mode> {
    if s == "full"@ {
        Some(Mode::Full)
    } else if s == "compact"@ {
        Some(Mode::Compact)
    } else if s == "lines"@ {
        Some(Mode::Lines)
    } else if s == "icons"@ {
        Some(Mode::Icons)
    } else {
        None
    }
}

/// Reads a mode from its name.
pub fn parse_mode(s: &str) -> (r: Option<Mode>)
    ensures
        r == parse_mode_spec(s@),
{
    if str_eq(s, "full") {
        Some(Mode::Full)
    } else if str_eq(s, "compact") {
        Some(Mode::Compact)
    } else if str_eq(s, "lines") {
        Some(Mode::Lines)
    } else if str_eq(s, "icons") {
        Some(Mode::Icons)
    } else {
        None
    }
}

/// The name of a mode.
pub fn mode_name(m: Mode) -> (r: String)
    ensures
        r@ == mode_name_spec(m),
{
    match m {
        Mode::Full => String::from_str("full"),
        Mode::Compact => String::from_str("compact"),
        Mode::Lines => String::from_str("lines"),
        Mode::Icons => String::from_str("icons"),
    }
}

/// Writing a mode's name and reading it back gives the mode.
pub proof fn lemma_mode_name_roundtrip(m: Mode)
    ensures
        parse_mode_spec(mode_name_spec(m)) == Some(m),
{
    reveal_strlit("full");
    reveal_strlit("compact");
    reveal_strlit("lines");
    reveal_strlit("icons");
    assert("full"@.len() == 4 && "compact"@.len() == 7 && "lines"@.len() == 5);
    assert("icons"@[0] != "lines"@[0]);
}

/// A name that reads as a mode is that mode's name.
pub proof fn lemma_parse_mode_name(s: Seq<char>)
    ensures
        parse_mode_spec(s) matches Some(m) ==> mode_name_spec(m) == s,
{
}

/// Default animation duration in milliseconds.
pub fn default_animation_duration() -> (r: u64)
    ensures
        r == 200,
{
    200
}

/// Default border thickness in pixels.
pub fn default_border_width() -> (r: u32)
    ensures
        r == 2,
{
    2
}

/// Default border radius in pixels.
pub fn default_border_radius() -> (r: u32)
    ensures
        r == 8,
{
    8
}

/// Default launcher mode.
pub fn default_mode() -> (r: Mode)
    ensures
        r == Mode::Full,
{
    Mode::Full
}

/// Default maximum number of entries shown.
pub fn default_max_entries() -> (r: u32)
    ensures
        r == 5,
{
    5
}

/// Default font family: none, the toolkit's own.
pub fn default_font_family() -> (r: Option<String>)
    ensures
        r is None,
{
    None
}

/// Default font size.
pub fn default_font_size() -> (r: u32)
    ensures
        r == 11,
{
    11
}

} // verus!
