//! A minimal `find`: walk directory trees and keep the entries whose base
//! name matches one of a set of regular expressions and whose kind
//! (directory, file, symbolic link) is one of a set of requested kinds.
//!
//! The library holds the configuration and every decision of the walk. The
//! walk itself and the metadata queries are done by the caller, who hands
//! each visited entry to [`traverse::process_item`] and writes out the lines
//! it returns.
pub mod config;
pub mod laws;
pub mod traverse;

pub use config::{Config, ConfigError, ConfigView, EntryType, Pattern};
pub use traverse::{
    entry_lines, filter_types, filter_walk, name_passes, process_item, run, Entry, Line, LineView,
    WalkItem,
};
