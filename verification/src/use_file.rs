//! Directory-scoped override files.
//!
//! An override file maps command names to version names and applies to the
//! directory holding it and everything beneath. At most one file is active
//! for a working directory: the nearest one on the walk from that directory
//! up to the root. The walk itself only decides which paths to try; whether
//! a file exists at a path is the caller's to find out, so `find` takes the
//! set of candidate paths that do exist.

use vstd::prelude::*;

use crate::codec::{distinct_keys, encode_pairs, parse_pairs, pairs_view, push_pairs,
    parse_pairs_exec};
use crate::command_version::{add_pair, remove_pair, lookup_pair, find_pair,
    lemma_lookup_pair_at, lemma_lookup_pair_none, lemma_add_pair_found, lemma_add_pair_absent,
    lemma_add_pair_wf, lemma_remove_pair_found, lemma_remove_pair_absent, lemma_remove_pair_wf};
use crate::pathname::{join_seq, parent_of, lemma_parent_shorter, join_under, parent_dir};
use crate::text::{chars_to_string, contains_str, str_to_chars};

verus! {

/// The reserved name of an override file.
pub open spec fn scope_file_name() -> Seq<char> {
    seq!['.', 'a', 'l', 't', '.', 't', 'o', 'm', 'l']
}

/// The reserved name of an override file, as a string.
pub fn scope_file_name_str() -> (r: &'static str)
    ensures
        r@ == scope_file_name(),
{
    let s = ".alt.toml";
    proof {
        reveal_strlit(".alt.toml");
        assert(s@ =~= scope_file_name());
    }
    s
}

/// The mapping an override file stores: command names to version names.
#[derive(Debug)]
pub struct UseFile {
    entries: Vec<(String, String)>,
}

impl UseFile {
    /// The (command, version) pairs, in storage order.
    pub closed spec fn pairs(self) -> Seq<(Seq<char>, Seq<char>)> {
        pairs_view(self.entries@)
    }

    /// No command is named twice.
    pub open spec fn wf(self) -> bool {
        distinct_keys(self.pairs())
    }

    /// An empty mapping.
    pub fn new() -> (r: UseFile)
        ensures
            r.pairs() == Seq::<(Seq<char>, Seq<char>)>::empty(),
            r.wf(),
    {
        let r = UseFile { entries: Vec::new() };
        proof {
            assert(r.pairs() =~= Seq::<(Seq<char>, Seq<char>)>::empty());
        }
        r
    }

    /// The version the file selects for `command`, if it names one.
    pub fn get(&self, command: &str) -> (r: Option<String>)
        ensures
            match r {
                Some(version) => lookup_pair(self.pairs(), command@) == Some(version@),
                None => lookup_pair(self.pairs(), command@) is None,
            },
    {
        match find_pair(&self.entries, command) {
            Some(i) => {
                proof {
                    lemma_lookup_pair_at(self.pairs(), command@, i as int);
                }
                Some(self.entries[i].1.clone())
            },
            None => {
                proof {
                    lemma_lookup_pair_none(self.pairs(), command@);
                }
                None
            },
        }
    }

    /// Select `version` for `command`, replacing any earlier selection.
    pub fn insert(&mut self, command: &str, version: &str)
        ensures
            final(self).pairs() == add_pair(old(self).pairs(), command@, version@),
            old(self).wf() ==> final(self).wf(),
    {
        let ghost ps0 = self.pairs();
        match find_pair(&self.entries, command) {
            Some(i) => {
                proof {
                    lemma_add_pair_found(ps0, command@, version@, i as int);
                }
                self.entries.remove(i);
                self.entries.insert(i, (command.to_owned(), version.to_owned()));
                proof {
                    assert(self.pairs() =~= add_pair(ps0, command@, version@));
                }
            },
            None => {
                proof {
                    lemma_add_pair_absent(ps0, command@, version@);
                }
                self.entries.push((command.to_owned(), version.to_owned()));
                proof {
                    assert(self.pairs() =~= add_pair(ps0, command@, version@));
                }
            },
        }
        proof {
            if distinct_keys(ps0) {
                lemma_add_pair_wf(ps0, command@, version@);
            }
        }
    }

    /// Drop any selection for `command`; selecting the system version is
    /// stored as no selection at all.
    pub fn remove(&mut self, command: &str)
        ensures
            final(self).pairs() == remove_pair(old(self).pairs(), command@),
            old(self).wf() ==> final(self).wf(),
    {
        let ghost ps0 = self.pairs();
        match find_pair(&self.entries, command) {
            Some(i) => {
                proof {
                    lemma_remove_pair_found(ps0, command@, i as int);
                }
                self.entries.remove(i);
                proof {
                    assert(self.pairs() =~= remove_pair(ps0, command@));
                }
            },
            None => {
                proof {
                    lemma_remove_pair_absent(ps0, command@);
                    assert(self.pairs() =~= remove_pair(ps0, command@));
                }
            },
        }
        proof {
            if distinct_keys(ps0) {
                lemma_remove_pair_wf(ps0, command@);
            }
        }
    }
}

impl Default for UseFile {
    fn default() -> (r: UseFile)
        ensures
            r.pairs() == Seq::<(Seq<char>, Seq<char>)>::empty(),
            r.wf(),
    {
        UseFile::new()
    }
}

/// The pairs stored in override file text, when the text is well formed:
/// it must parse whole and name no command twice.
pub open spec fn use_doc(text: Seq<char>) -> Option<Seq<(Seq<char>, Seq<char>)>> {
    match parse_pairs(text, 0) {
        Some(d) => if d.1 == text.len() && distinct_keys(d.0) {
            Some(d.0)
        } else {
            None
        },
        None => None,
    }
}

/// Read a mapping from override file text; None if the text does not
/// follow the format.
pub fn load(text: &str) -> (r: Option<UseFile>)
    ensures
        match r {
            Some(u) => {
                &&& use_doc(text@) == Some(u.pairs())
                &&& u.wf()
            },
            None => use_doc(text@) is None,
        },
{
    let chars = str_to_chars(text);
    match parse_pairs_exec(&chars, 0) {
        Some((entries, end)) => {
            if end == chars.len() && check_use_pairs(&entries) {
                Some(UseFile { entries })
            } else {
                None
            }
        },
        None => None,
    }
}

/// The file text for a mapping.
pub fn save(use_def: &UseFile) -> (r: String)
    ensures
        r@ == encode_pairs(use_def.pairs()),
{
    let mut out: Vec<char> = Vec::new();
    push_pairs(&mut out, &use_def.entries);
    chars_to_string(&out)
}

/// Whether the keys of a parsed pair list are all distinct.
fn check_use_pairs(ps: &Vec<(String, String)>) -> (r: bool)
    ensures
        r == distinct_keys(pairs_view(ps@)),
{
    let ghost pv = pairs_view(ps@);
    let mut i: usize = 0;
    while i < ps.len()
        invariant
            i <= ps@.len(),
            pv == pairs_view(ps@),
            forall|a: int, b: int| 0 <= a < b < pv.len() && a < i ==> pv[a].0 != pv[b].0,
        decreases ps@.len() - i,
    {
        let mut j: usize = i + 1;
        while j < ps.len()
            invariant
                i < j <= ps@.len(),
                pv == pairs_view(ps@),
                forall|b: int| i < b < j ==> pv[i as int].0 != pv[b].0,
            decreases ps@.len() - j,
        {
            if crate::text::str_eq(ps[i].0.as_str(), ps[j].0.as_str()) {
                proof {
                    assert(pv[i as int] == (ps@[i as int].0@, ps@[i as int].1@));
                    assert(pv[j as int] == (ps@[j as int].0@, ps@[j as int].1@));
                    assert(pv[i as int].0 == pv[j as int].0);
                }
                return false;
            }
            j = j + 1;
        }
        i = i + 1;
    }
    true
}

// ---------------------------------------------------------------------------
// The upward walk for the nearest override file.
// ---------------------------------------------------------------------------
/// The override file that applies in `dir`: the candidate of `dir` itself
/// when it exists, else whatever applies in the parent directory. Nearer
/// directories always win.
pub open spec fn scope_find(dir: Seq<char>, files: Seq<Seq<char>>) -> Option<Seq<char>>
    decreases dir.len(),
    via scope_find_decreases
{
    let cand = join_seq(dir, scope_file_name());
    if files.contains(cand) {
        Some(cand)
    } else {
        match parent_of(dir) {
            Some(par) => scope_find(par, files),
            None => None,
        }
    }
}

#[via_fn]
proof fn scope_find_decreases(dir: Seq<char>, files: Seq<Seq<char>>) {
    lemma_parent_shorter(dir);
}

/// The character sequences of a list of path strings.
pub open spec fn files_view(files: Seq<String>) -> Seq<Seq<char>> {
    files.map_values(|f: String| f@)
}

/// The walk prefers the nearest directory: when the starting directory has
/// an override file of its own, that file is the one that applies.
pub proof fn lemma_scope_prefers_nearest(dir: Seq<char>, files: Seq<Seq<char>>)
    requires
        files.contains(join_seq(dir, scope_file_name())),
    ensures
        scope_find(dir, files) == Some(join_seq(dir, scope_file_name())),
{
}

/// Walk from `start` upward and return the nearest override file.
/// `existing_files` holds the candidate paths that exist as files; the
/// caller checks the file system, this function decides.
pub fn find(start: &str, existing_files: &Vec<String>) -> (r: Option<String>)
    ensures
        match r {
            Some(f) => scope_find(start@, files_view(existing_files@)) == Some(f@),
            None => scope_find(start@, files_view(existing_files@)) is None,
        },
{
    let ghost fv = files_view(existing_files@);
    let mut dir = start.to_owned();
    loop
        invariant
            scope_find(start@, fv) == scope_find(dir@, fv),
            fv == files_view(existing_files@),
        decreases dir@.len(),
    {
        let cand = join_under(dir.as_str(), scope_file_name_str());
        let hit = contains_str(existing_files, cand.as_str());
        proof {
            if hit {
                let i = choose|i: int|
                    0 <= i < existing_files@.len() && (#[trigger] existing_files@[i])@ == cand@;
                assert(fv[i] == cand@);
                assert(fv.contains(cand@));
            } else {
                assert(!fv.contains(cand@)) by {
                    if fv.contains(cand@) {
                        let i = choose|i: int| 0 <= i < fv.len() && fv[i] == cand@;
                        assert(existing_files@[i]@ == cand@);
                    }
                }
            }
        }
        if hit {
            return Some(cand);
        }
        match parent_dir(dir.as_str()) {
            Some(p) => {
                proof {
                    lemma_parent_shorter(dir@);
                }
                dir = p;
            },
            None => {
                return None;
            },
        }
    }
}

/// The nearest override file, or the default location for a new one: the
/// reserved name in `start` itself.
pub fn find_or_dir(start: &str, existing_files: &Vec<String>) -> (r: String)
    ensures
        match scope_find(start@, files_view(existing_files@)) {
            Some(f) => r@ == f,
            None => r@ == join_seq(start@, scope_file_name()),
        },
{
    match find(start, existing_files) {
        Some(f) => f,
        None => join_under(start, scope_file_name_str()),
    }
}

} // verus!
