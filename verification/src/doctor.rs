//! Decisions of the registry health check.
//!
//! The health check walks the registry, judges each stored binary from
//! what the file system reports about it, and applies or withholds the
//! fix. The judgement and the fix policy are decided here; the caller
//! does the file inspection, the prompting and the printing.

use vstd::prelude::*;

verus! {

/// How the health check applies fixes.
#[derive(Debug)]
pub enum FixMode {
    /// Apply every fix without asking.
    Auto,
    /// Apply no fix.
    Never,
    /// Ask before each fix.
    Prompt,
}

/// What is wrong with a stored binary.
#[derive(Debug, PartialEq, Eq)]
pub enum BinProblem {
    /// Nothing exists at the stored path.
    Missing,
    /// The stored path is not a regular file.
    NotAFile,
    /// No execute permission bit is set.
    NotExecutable,
}

/// Judge a stored binary from what the file system reports: whether the
/// path exists, whether it is a regular file, and its permission bits.
pub fn classify_bin(exists: bool, is_file: bool, mode: u32) -> (r: Option<BinProblem>)
    ensures
        r == (if !exists {
            Some(BinProblem::Missing)
        } else if !is_file {
            Some(BinProblem::NotAFile)
        } else if mode & 0o111 == 0 {
            Some(BinProblem::NotExecutable)
        } else {
            None::<BinProblem>
        }),
{
    if !exists {
        Some(BinProblem::Missing)
    } else if !is_file {
        Some(BinProblem::NotAFile)
    } else if mode & 0o111 == 0 {
        Some(BinProblem::NotExecutable)
    } else {
        None
    }
}

/// What a fix mode decides on its own: apply, withhold, or, for the
/// prompting mode, nothing: the user is to be asked.
pub fn fix_decision(mode: &FixMode) -> (r: Option<bool>)
    ensures
        r == (match mode {
            FixMode::Auto => Some(true),
            FixMode::Never => Some(false),
            FixMode::Prompt => None::<bool>,
        }),
{
    match mode {
        FixMode::Auto => Some(true),
        FixMode::Never => Some(false),
        FixMode::Prompt => None,
    }
}

} // verus!
