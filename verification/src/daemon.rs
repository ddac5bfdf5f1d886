//! Decisions of the background daemon.

use vstd::prelude::*;
use crate::entries::Entry;
use crate::state::{AppState, LauncherEntry, display_view_fn, entry_views, first_entries};

verus! {

/// A run request: when the launcher is already visible the request is
/// ignored and nothing changes; otherwise the custom entries are set (or
/// cleared) and the entries to show first are returned.
pub fn run_launcher_with_custom(
    state: &mut AppState,
    visible: bool,
    custom: Option<Vec<Entry>>,
    limit: usize,
) -> (r: Option<Vec<LauncherEntry>>)
    ensures
        visible ==> r is None,
        visible ==> final(state).apps() == old(state).apps(),
        visible ==> final(state).custom() == old(state).custom(),
        !visible ==> {
            &&& final(state).apps() == old(state).apps()
            &&& match custom {
                Some(es) => final(state).custom() matches Some(c) && c.processes(
                    entry_views(es@),
                ),
                None => final(state).custom() is None,
            }
            &&& r matches Some(v) && v@.map_values(display_view_fn()) == first_entries(
                final(state).active().keywords_model(),
                limit as nat,
            )
        },
{
    if visible {
        return None;
    }
    state.set_custom_entries(custom);
    Some(state.set_launcher_entries(limit))
}

} // verus!
