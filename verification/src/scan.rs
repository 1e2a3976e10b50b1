//! Discovering candidate versions from the names the file system shows.

pub mod homebrew;
pub mod path_suffix;
