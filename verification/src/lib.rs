//! Switch between several installed versions of a command-line tool.
//!
//! The crate holds the resolution and dispatch core: a durable registry
//! mapping each command and version name to a binary path, directory-scoped
//! override files that pick the active version for a subtree, the search of
//! the inherited binary path that finds a system binary while avoiding the
//! shim layer, and the decision of whether a process was started as a shim.
//! All file and process handling stays with the caller; the functions here
//! work on plain values and carry contracts for what they compute.

pub mod codec;
pub mod command;
pub mod command_version;
pub mod doctor;
pub mod pathname;
pub mod scan;
pub mod shim;
pub mod text;
pub mod use_file;
