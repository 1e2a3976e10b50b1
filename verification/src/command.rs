//! The resolution engine and the system search.
//!
//! Resolution turns a command name into a decision: run a managed binary,
//! fall through to the system binary, or report that the active override
//! names a version the registry does not hold. The system search picks the
//! first usable entry of the inherited search path, skipping the shim
//! directory and the running executable so that a shim can never resolve
//! to itself.

use vstd::prelude::*;

use crate::command_version::{lookup_pair, lookup_sections, CommandVersionRegistry};
use crate::text::str_eq;
use crate::use_file::UseFile;

verus! {

/// The reserved version label that stands for the system binary. It is
/// never stored in the registry; an override naming it means "no override".
pub open spec fn system_sentinel() -> Seq<char> {
    seq!['s', 'y', 's', 't', 'e', 'm']
}

/// The reserved version label, as a string.
pub fn system_sentinel_str() -> (r: &'static str)
    ensures
        r@ == system_sentinel(),
{
    let s = "system";
    proof {
        reveal_strlit("system");
        assert(s@ =~= system_sentinel());
    }
    s
}

/// The outcome of resolving a command.
#[derive(Debug)]
pub enum Resolution {
    /// The path of the managed binary for the selected version.
    Managed(String),
    /// No version is selected here, or the sentinel is: the system binary
    /// applies.
    UseSystem,
    /// The override selects this version, but the registry does not hold
    /// it: a configuration inconsistency, to be reported, never silently
    /// turned into a system fallback.
    Inconsistent(String),
}

/// The version the active override file selects for `command`: a lookup
/// in the nearest file's mapping, None when no file was found at all.
pub fn find_selected_version(use_file: Option<&UseFile>, command: &str) -> (r: Option<String>)
    ensures
        match use_file {
            Some(u) => match r {
                Some(v) => lookup_pair(u.pairs(), command@) == Some(v@),
                None => lookup_pair(u.pairs(), command@) is None,
            },
            None => r is None,
        },
{
    match use_file {
        Some(u) => u.get(command),
        None => None,
    }
}

/// Resolve `command_name` against the registry, given the version that
/// the scope resolver selected. No selection, or the sentinel, delegates
/// to the system search; a selected version must be in the registry, and
/// a miss is reported as an inconsistency.
pub fn find_selected_binary(
    registry: &CommandVersionRegistry,
    command_name: &str,
    selected_version: Option<&String>,
) -> (r: Resolution)
    ensures
        match r {
            Resolution::Managed(bin) => {
                &&& selected_version matches Some(v) && v@ != system_sentinel()
                    && lookup_sections(registry.sections(), command_name@, v@) == Some(bin@)
            },
            Resolution::UseSystem => {
                ||| selected_version is None
                ||| selected_version matches Some(v) && v@ == system_sentinel()
            },
            Resolution::Inconsistent(named) => {
                &&& selected_version matches Some(v) && v@ == named@ && v@ != system_sentinel()
                    && lookup_sections(registry.sections(), command_name@, v@) is None
            },
        },
{
    match selected_version {
        None => Resolution::UseSystem,
        Some(v) => {
            if str_eq(v.as_str(), system_sentinel_str()) {
                Resolution::UseSystem
            } else {
                match registry.get(command_name, v.as_str()) {
                    Some(cv) => Resolution::Managed(cv.path),
                    None => Resolution::Inconsistent(v.clone()),
                }
            }
        },
    }
}

/// One directory of the inherited search path, together with what the
/// caller learned from the file system: the canonical path of the
/// candidate `dir/command`, when that candidate exists.
#[derive(Debug)]
pub struct SearchEntry {
    pub dir: String,
    pub canonical: Option<String>,
}

/// Whether a search-path entry yields a usable system binary: its
/// directory is not the shim directory, its candidate exists, and the
/// candidate is not the running executable itself.
pub open spec fn search_hit(e: SearchEntry, shim_dir: Seq<char>, current_exe: Seq<char>) -> bool {
    &&& e.dir@ != shim_dir
    &&& e.canonical matches Some(c) && c@ != current_exe
}

/// The first search-path entry with a usable system binary, in search
/// order. Entries for the shim directory are skipped, and so is any
/// candidate that is the running executable, whatever its directory: the
/// search never yields the shim layer itself.
pub fn find_system_bin(entries: &Vec<SearchEntry>, shim_dir: &str, current_exe: &str) -> (r:
    Option<String>)
    ensures
        match r {
            Some(p) => {
                &&& p@ != current_exe@
                &&& exists|i: int|
                    {
                        &&& 0 <= i < entries@.len()
                        &&& search_hit(#[trigger] entries@[i], shim_dir@, current_exe@)
                        &&& entries@[i].canonical matches Some(c) && c@ == p@
                        &&& forall|j: int|
                            0 <= j < i ==> !search_hit(
                                #[trigger] entries@[j],
                                shim_dir@,
                                current_exe@,
                            )
                    }
            },
            None => forall|i: int|
                0 <= i < entries@.len() ==> !search_hit(
                    #[trigger] entries@[i],
                    shim_dir@,
                    current_exe@,
                ),
        },
{
    let mut i: usize = 0;
    while i < entries.len()
        invariant
            i <= entries@.len(),
            forall|j: int|
                0 <= j < i ==> !search_hit(#[trigger] entries@[j], shim_dir@, current_exe@),
        decreases entries@.len() - i,
    {
        if !str_eq(entries[i].dir.as_str(), shim_dir) {
            match &entries[i].canonical {
                Some(c) => {
                    if !str_eq(c.as_str(), current_exe) {
                        proof {
                            assert(search_hit(entries@[i as int], shim_dir@, current_exe@));
                        }
                        return Some(c.clone());
                    }
                },
                None => {},
            }
        }
        proof {
            assert(!search_hit(entries@[i as int], shim_dir@, current_exe@));
        }
        i = i + 1;
    }
    None
}

} // verus!
