//! Loading of the configuration, and the filtering of file-system events in
//! the configuration directory.

use vstd::prelude::*;
use crate::config::colors::{Colors, default_colors_spec};
use crate::path::{file_name, is_plain_name, lemma_file_name_of_join, path_file_name};
use crate::paths::{colors_file_spec, config_dir_spec};
use crate::text::str_eq;

verus! {

/// The launcher's configuration directory; `None` when the user's
/// configuration directory cannot be determined.
pub fn config_dir() -> (r: Option<String>)
    ensures
        r matches Some(d) ==> exists|b: Seq<char>| d@ == config_dir_spec(b),
{
    crate::paths::config_dir()
}

/// The launcher's colors file; `None` when the user's configuration
/// directory cannot be determined.
pub fn colors_file() -> (r: Option<String>)
    ensures
        r matches Some(f) ==> exists|b: Seq<char>| f@ == colors_file_spec(b),
{
    crate::paths::colors_file()
}

/// The colors to apply at startup: those read from the colors file, or the
/// defaults when it is missing or does not parse.
pub fn load_config(loaded: Option<Colors>) -> (r: Colors)
    ensures
        r == match loaded {
            Some(c) => c,
            None => default_colors_spec(),
        },
{
    match loaded {
        Some(c) => c,
        None => Colors::default(),
    }
}

/// The kinds of file-system events.
#[derive(PartialEq, Eq, Structural, Clone, Copy, Debug)]
pub enum FileEventKind {
    Create,
    Modify,
    Remove,
    /// Access and other events, which change nothing.
    Other,
}

/// A file-system event: its kind and the paths it concerns.
pub struct FileEvent {
    pub kind: FileEventKind,
    pub paths: Vec<String>,
}

/// Whether an event may change the color configuration: it creates,
/// modifies or removes a file named `colors.toml`.
pub open spec fn touches_colors(kind: FileEventKind, paths: Seq<Seq<char>>) -> bool {
    kind != FileEventKind::Other && exists|j: int|
        0 <= j < paths.len() && file_name(#[trigger] paths[j]) == Some("colors.toml"@)
}

/// The paths of an event, as character sequences.
pub open spec fn event_paths(e: FileEvent) -> Seq<Seq<char>> {
    e.paths@.map_values(|p: String| p@)
}

/// Whether a batch of events changes the color configuration.
pub open spec fn colors_changed_spec(events: Seq<FileEvent>) -> bool {
    exists|i: int|
        0 <= i < events.len() && touches_colors(events[i].kind, event_paths(#[trigger] events[i]))
}

fn names_colors_file(p: &String) -> (r: bool)
    ensures
        r == (file_name(p@) == Some("colors.toml"@)),
{
    match path_file_name(p.as_str()) {
        Some(n) => str_eq(n.as_str(), "colors.toml"),
        None => false,
    }
}

/// Whether a batch of file-system events in the configuration directory
/// calls for reloading the colors.
pub fn colors_changed(events: &Vec<FileEvent>) -> (r: bool)
    ensures
        r == colors_changed_spec(events@),
{
    let mut i: usize = 0;
    while i < events.len()
        invariant
            i <= events.len(),
            forall|k: int|
                0 <= k < i ==> !touches_colors(events@[k].kind, event_paths(#[trigger] events@[k])),
        decreases events.len() - i,
    {
        let e = &events[i];
        if e.kind != FileEventKind::Other {
            let mut j: usize = 0;
            while j < e.paths.len()
                invariant
                    j <= e.paths.len(),
                    i < events.len(),
                    e == events@[i as int],
                    e.kind != FileEventKind::Other,
                    forall|k: int|
                        0 <= k < j ==> file_name(#[trigger] event_paths(*e)[k]) != Some(
                            "colors.toml"@,
                        ),
                decreases e.paths.len() - j,
            {
                if names_colors_file(&e.paths[j]) {
                    assert(event_paths(*e)[j as int] == e.paths@[j as int]@);
                    assert(touches_colors(e.kind, event_paths(*e)));
                    return true;
                }
                assert(event_paths(*e)[j as int] == e.paths@[j as int]@);
                j = j + 1;
            }
        }
        i = i + 1;
    }
    false
}

/// The file name of the launcher's colors file is `colors.toml`, whatever
/// the user's configuration directory.
pub proof fn lemma_colors_file_name(base: Seq<char>)
    ensures
        file_name(colors_file_spec(base)) == Some("colors.toml"@),
{
    reveal_strlit("colors.toml");
    assert(is_plain_name("colors.toml"@));
    lemma_file_name_of_join(config_dir_spec(base), "colors.toml"@);
}

/// A creation, modification or removal of the launcher's colors file (the
/// path that `colors_file` gives) in a batch of events makes the watcher
/// reload the colors.
pub proof fn lemma_colors_file_event_reloads(
    base: Seq<char>,
    events: Seq<FileEvent>,
    i: int,
    j: int,
)
    requires
        0 <= i < events.len(),
        events[i].kind != FileEventKind::Other,
        0 <= j < event_paths(events[i]).len(),
        event_paths(events[i])[j] == colors_file_spec(base),
    ensures
        colors_changed_spec(events),
{
    lemma_colors_file_name(base);
    assert(touches_colors(events[i].kind, event_paths(events[i])));
}

} // verus!
