//! Launcher entries.

use vstd::prelude::*;
use crate::path::{path_extension, has_extension};
use crate::text::string_views;

pub mod freedesktop;

verus! {

/// The view of an optional string.
pub open spec fn opt_view(o: Option<String>) -> Option<Seq<char>> {
    match o {
        Some(s) => Some(s@),
        None => None,
    }
}

/// An entry in the app launcher.
pub struct Entry {
    /// Entry name.
    pub name: String,
    /// Entry command (ran if the entry is selected).
    pub command: String,
    /// Optional entry picture (a path).
    pub icon: Option<String>,
    /// Optional entry description.
    pub comment: Option<String>,
    /// Keywords for filtering.
    pub keywords: Option<Vec<String>>,
    /// Whether this entry should be executed within a new shell window (TUI).
    pub terminal: bool,
}

/// The model of an entry: its strings as character sequences.
pub struct EntryModel {
    pub name: Seq<char>,
    pub command: Seq<char>,
    pub icon: Option<Seq<char>>,
    pub comment: Option<Seq<char>>,
    pub keywords: Option<Seq<Seq<char>>>,
    pub terminal: bool,
}

impl View for Entry {
    type V = EntryModel;

    open spec fn view(&self) -> EntryModel {
        EntryModel {
            name: self.name@,
            command: self.command@,
            icon: opt_view(self.icon),
            comment: opt_view(self.comment),
            keywords: match self.keywords {
                Some(k) => Some(string_views(k@)),
                None => None,
            },
            terminal: self.terminal,
        }
    }
}

/// The formats that an entries file can be read in.
#[derive(PartialEq, Eq, Structural, Clone, Copy, Debug)]
pub enum EntriesFormat {
    Toml,
    Json,
}

/// The format of an entries file, by the extension of its name: `toml` or
/// `json`; any other file is not supported.
pub open spec fn entries_format_spec(path: Seq<char>) -> Option<EntriesFormat> {
    if path_extension(path) == Some("toml"@) {
        Some(EntriesFormat::Toml)
    } else if path_extension(path) == Some("json"@) {
        Some(EntriesFormat::Json)
    } else {
        None
    }
}

/// The format to read an entries file in.
pub fn entries_format(path: &str) -> (r: Option<EntriesFormat>)
    ensures
        r == entries_format_spec(path@),
{
    if has_extension(path, "toml") {
        Some(EntriesFormat::Toml)
    } else if has_extension(path, "json") {
        Some(EntriesFormat::Json)
    } else {
        None
    }
}

/// The result of `strip_ansi_escapes::strip`: the input without its ANSI
/// escape sequences.
pub uninterp spec fn spec_strip_ansi(data: Seq<u8>) -> Seq<u8>;

/// `strip_ansi_escapes::strip`. Claimed: the result is the named stripping
/// of the input bytes; which bytes it drops is not stated.
#[verifier::external_body]
fn strip_ansi(data: &[u8]) -> (r: Vec<u8>)
    ensures
        r@ == spec_strip_ansi(data@),
{
    strip_ansi_escapes::strip(data)
}

/// Entries read from standard input may be colored: their escape sequences
/// are removed before the JSON text is read.
pub fn strip_input(data: &[u8]) -> (r: Vec<u8>)
    ensures
        r@ == spec_strip_ansi(data@),
{
    strip_ansi(data)
}

} // verus!
