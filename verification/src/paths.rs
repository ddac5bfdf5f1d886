//! Application configuration paths.

use vstd::prelude::*;
use crate::path::{join_path, path_join};

verus! {

/// `dirs_next::config_dir`: the user's configuration directory
/// (`$XDG_CONFIG_HOME` or `$HOME/.config` on Linux), converted to a string
/// (lossily where it is not valid Unicode). It depends on the environment;
/// nothing is claimed of it.
#[verifier::external_body]
fn system_config_dir() -> (r: Option<String>) {
    match dirs_next::config_dir() {
        Some(p) => Some(p.to_string_lossy().into_owned()),
        None => None,
    }
}

/// The configuration directory of the launcher under a base configuration
/// directory.
pub open spec fn config_dir_spec(base: Seq<char>) -> Seq<char> {
    join_path(base, "minilauncher"@)
}

/// The colors file of the launcher under a base configuration directory.
pub open spec fn colors_file_spec(base: Seq<char>) -> Seq<char> {
    join_path(config_dir_spec(base), "colors.toml"@)
}

/// The launcher's configuration directory under `base`.
pub fn config_dir_in(base: &str) -> (r: String)
    ensures
        r@ == config_dir_spec(base@),
{
    path_join(base, "minilauncher")
}

/// The launcher's colors file under `base`.
pub fn colors_file_in(base: &str) -> (r: String)
    ensures
        r@ == colors_file_spec(base@),
{
    let dir = config_dir_in(base);
    path_join(dir.as_str(), "colors.toml")
}

/// The launcher's configuration directory; `None` when the user's
/// configuration directory cannot be determined.
pub fn config_dir() -> (r: Option<String>)
    ensures
        r matches Some(d) ==> exists|b: Seq<char>| d@ == config_dir_spec(b),
{
    match system_config_dir() {
        Some(base) => Some(config_dir_in(base.as_str())),
        None => None,
    }
}

/// The launcher's colors file; `None` when the user's configuration
/// directory cannot be determined.
pub fn colors_file() -> (r: Option<String>)
    ensures
        r matches Some(f) ==> exists|b: Seq<char>| f@ == colors_file_spec(b),
{
    match system_config_dir() {
        Some(base) => Some(colors_file_in(base.as_str())),
        None => None,
    }
}

} // verus!
