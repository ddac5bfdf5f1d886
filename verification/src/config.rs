//! Configuration options: values, defaults, colors and the watching of the
//! configuration directory.

pub mod colors;
pub mod config;
pub mod watch;
