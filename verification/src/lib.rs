//! Core logic of a small application launcher: launcher entries, the
//! freedesktop entry parser, the keyword index and fuzzy search, command
//! line building, configuration values and file-system event filtering.

pub mod text;
pub mod path;
pub mod string_map;
pub mod commands;
pub mod entries;
pub mod ipc;
pub mod paths;
pub mod config;
pub mod state;
pub mod daemon;
