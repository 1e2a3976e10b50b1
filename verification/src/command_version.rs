//! The durable registry of command versions.
//!
//! A registry maps a command name to a set of named versions, each with the
//! absolute path of its binary. Removing the last version of a command
//! removes the command itself, so no command is ever left with an empty
//! version table. The registry is kept as a list of sections, one per
//! command, in the order the file stores them; the order carries no
//! meaning, and callers sort for presentation.

use vstd::prelude::*;

use crate::codec::{
    distinct_keys, encode_sections, parse_sections, pairs_view, sections_view,
    encode_sections_exec, parse_sections_exec, lemma_parse_encode_sections,
};
use crate::pathname::is_absolute;
use crate::text::{chars_to_string, str_eq, str_to_chars};

verus! {

/// One version of one command: the binary at `path` is version
/// `version_name` of the command `command_name`.
#[derive(Debug, Clone)]
pub struct CommandVersion {
    pub command_name: String,
    pub version_name: String,
    pub path: String,
}

impl CommandVersion {
    pub fn new(command_name: &str, version_name: &str, path: &str) -> (r: CommandVersion)
        ensures
            r.command_name@ == command_name@,
            r.version_name@ == version_name@,
            r.path@ == path@,
    {
        CommandVersion {
            command_name: command_name.to_owned(),
            version_name: version_name.to_owned(),
            path: path.to_owned(),
        }
    }
}

impl PartialEq for CommandVersion {
    fn eq(&self, other: &Self) -> (r: bool) {
        self.command_name == other.command_name && self.version_name == other.version_name
            && self.path == other.path
    }
}

impl vstd::std_specs::cmp::PartialEqSpecImpl for CommandVersion {
    open spec fn obeys_eq_spec() -> bool {
        true
    }

    open spec fn eq_spec(&self, other: &Self) -> bool {
        self.command_name@ == other.command_name@ && self.version_name@ == other.version_name@
            && self.path@ == other.path@
    }
}

/// The triple of character sequences a `CommandVersion` stands for.
pub open spec fn cv_view(cv: CommandVersion) -> (Seq<char>, Seq<char>, Seq<char>) {
    (cv.command_name@, cv.version_name@, cv.path@)
}

/// Why an entry was refused.
#[derive(Debug)]
pub enum AddError {
    /// The path of the refused entry is not absolute. Carries the entry.
    InvalidPathNotAbsolute(CommandVersion),
}

impl PartialEq for AddError {
    fn eq(&self, other: &Self) -> (r: bool) {
        match (self, other) {
            (
                AddError::InvalidPathNotAbsolute(a),
                AddError::InvalidPathNotAbsolute(b),
            ) => a == b,
        }
    }
}

impl vstd::std_specs::cmp::PartialEqSpecImpl for AddError {
    open spec fn obeys_eq_spec() -> bool {
        true
    }

    open spec fn eq_spec(&self, other: &Self) -> bool {
        match (self, other) {
            (
                AddError::InvalidPathNotAbsolute(a),
                AddError::InvalidPathNotAbsolute(b),
            ) => a.command_name@ == b.command_name@ && a.version_name@ == b.version_name@
                && a.path@ == b.path@,
        }
    }
}

/// Why stored registry text was refused.
#[derive(Debug, PartialEq, Eq)]
pub enum LoadError {
    /// The text does not follow the registry file format.
    Malformed,
}

/// The abstract shape of a registry: sections of (command, versions),
/// where the versions are (version, path) pairs.
pub open spec fn wf_sections(ss: Seq<(Seq<char>, Seq<(Seq<char>, Seq<char>)>)>) -> bool {
    &&& forall|i: int, j: int| 0 <= i < j < ss.len() ==> ss[i].0 != ss[j].0
    &&& forall|i: int|
        0 <= i < ss.len() ==> (#[trigger] ss[i]).1.len() > 0 && distinct_keys(ss[i].1)
}

/// Look a key up in a pair list: the value beside the first matching key.
pub open spec fn lookup_pair(ps: Seq<(Seq<char>, Seq<char>)>, k: Seq<char>) -> Option<Seq<char>>
    decreases ps.len(),
{
    if ps.len() == 0 {
        None
    } else if ps[0].0 == k {
        Some(ps[0].1)
    } else {
        lookup_pair(ps.drop_first(), k)
    }
}

/// Look a command and version up across sections.
pub open spec fn lookup_sections(
    ss: Seq<(Seq<char>, Seq<(Seq<char>, Seq<char>)>)>,
    c: Seq<char>,
    v: Seq<char>,
) -> Option<Seq<char>>
    decreases ss.len(),
{
    if ss.len() == 0 {
        None
    } else if ss[0].0 == c {
        lookup_pair(ss[0].1, v)
    } else {
        lookup_sections(ss.drop_first(), c, v)
    }
}

/// The durable registry: its storage path and its sections.
#[derive(Debug)]
pub struct CommandVersionRegistry {
    path: String,
    commands: Vec<(String, Vec<(String, String)>)>,
}

impl CommandVersionRegistry {
    /// The sections of the registry, in storage order.
    pub closed spec fn sections(self) -> Seq<(Seq<char>, Seq<(Seq<char>, Seq<char>)>)> {
        sections_view(self.commands@)
    }

    /// Where the registry is stored.
    pub closed spec fn storage_path(self) -> Seq<char> {
        self.path@
    }

    /// Commands are named once and no command is without versions.
    pub open spec fn wf(self) -> bool {
        wf_sections(self.sections())
    }

    /// An empty registry that would be stored at `path`.
    pub fn new(path: &str) -> (r: CommandVersionRegistry)
        ensures
            r.sections() == Seq::<(Seq<char>, Seq<(Seq<char>, Seq<char>)>)>::empty(),
            r.storage_path() == path@,
            r.wf(),
    {
        let r = CommandVersionRegistry { path: path.to_owned(), commands: Vec::new() };
        proof {
            assert(r.sections() =~= Seq::<(Seq<char>, Seq<(Seq<char>, Seq<char>)>)>::empty());
        }
        r
    }

    /// The path this registry is stored at.
    pub fn path(&self) -> (r: &String)
        ensures
            r@ == self.storage_path(),
    {
        &self.path
    }

    /// Whether the registry holds no command at all.
    pub fn is_empty(&self) -> (r: bool)
        ensures
            r == (self.sections().len() == 0),
    {
        self.commands.len() == 0
    }

    /// The names of all commands, in storage order.
    pub fn command_names(&self) -> (r: Vec<String>)
        ensures
            r@.len() == self.sections().len(),
            forall|i: int| 0 <= i < r@.len() ==> (#[trigger] r@[i])@ == self.sections()[i].0,
    {
        let mut r: Vec<String> = Vec::new();
        let mut i: usize = 0;
        while i < self.commands.len()
            invariant
                i <= self.commands@.len(),
                r@.len() == i,
                forall|k: int| 0 <= k < i ==> (#[trigger] r@[k])@ == self.sections()[k].0,
            decreases self.commands@.len() - i,
        {
            r.push(self.commands[i].0.clone());
            i = i + 1;
        }
        r
    }

    /// The stored path of `version` of `command`, if the pair is known.
    pub fn get(&self, command: &str, version: &str) -> (r: Option<CommandVersion>)
        ensures
            match r {
                Some(cv) => {
                    &&& lookup_sections(self.sections(), command@, version@) == Some(cv.path@)
                    &&& cv.command_name@ == command@
                    &&& cv.version_name@ == version@
                },
                None => lookup_sections(self.sections(), command@, version@) is None,
            },
    {
        match find_section(&self.commands, command) {
            Some(ci) => {
                proof {
                    lemma_lookup_sections_at(self.sections(), command@, version@, ci as int);
                }
                match find_pair(&self.commands[ci].1, version) {
                    Some(vi) => {
                        proof {
                            lemma_lookup_pair_at(
                                pairs_view(self.commands@[ci as int].1@),
                                version@,
                                vi as int,
                            );
                        }
                        Some(
                            CommandVersion::new(
                                command,
                                version,
                                self.commands[ci].1[vi].1.as_str(),
                            ),
                        )
                    },
                    None => {
                        proof {
                            lemma_lookup_pair_none(
                                pairs_view(self.commands@[ci as int].1@),
                                version@,
                            );
                        }
                        None
                    },
                }
            },
            None => {
                proof {
                    lemma_lookup_sections_none(self.sections(), command@, version@);
                }
                None
            },
        }
    }
}

/// Index of the first section named `name`, with nothing matching before it.
fn find_section(commands: &Vec<(String, Vec<(String, String)>)>, name: &str) -> (r: Option<
    usize,
>)
    ensures
        match r {
            Some(i) => {
                &&& i < commands@.len()
                &&& commands@[i as int].0@ == name@
                &&& forall|j: int| 0 <= j < i ==> commands@[j].0@ != name@
            },
            None => forall|j: int| 0 <= j < commands@.len() ==> commands@[j].0@ != name@,
        },
{
    let mut i: usize = 0;
    while i < commands.len()
        invariant
            i <= commands@.len(),
            forall|j: int| 0 <= j < i ==> commands@[j].0@ != name@,
        decreases commands@.len() - i,
    {
        if str_eq(commands[i].0.as_str(), name) {
            return Some(i);
        }
        i = i + 1;
    }
    None
}

/// Index of the first pair keyed `k`, with nothing matching before it.
pub(crate) fn find_pair(ps: &Vec<(String, String)>, k: &str) -> (r: Option<usize>)
    ensures
        match r {
            Some(i) => {
                &&& i < ps@.len()
                &&& ps@[i as int].0@ == k@
                &&& forall|j: int| 0 <= j < i ==> ps@[j].0@ != k@
            },
            None => forall|j: int| 0 <= j < ps@.len() ==> ps@[j].0@ != k@,
        },
{
    let mut i: usize = 0;
    while i < ps.len()
        invariant
            i <= ps@.len(),
            forall|j: int| 0 <= j < i ==> ps@[j].0@ != k@,
        decreases ps@.len() - i,
    {
        if str_eq(ps[i].0.as_str(), k) {
            return Some(i);
        }
        i = i + 1;
    }
    None
}

/// A first key match at `i` decides `lookup_pair`.
pub(crate) proof fn lemma_lookup_pair_at(ps: Seq<(Seq<char>, Seq<char>)>, k: Seq<char>, i: int)
    requires
        0 <= i < ps.len(),
        ps[i].0 == k,
        forall|j: int| 0 <= j < i ==> ps[j].0 != k,
    ensures
        lookup_pair(ps, k) == Some(ps[i].1),
    decreases i,
{
    if i > 0 {
        lemma_lookup_pair_at(ps.drop_first(), k, i - 1);
    }
}

/// With no key match at all, `lookup_pair` finds nothing.
pub(crate) proof fn lemma_lookup_pair_none(ps: Seq<(Seq<char>, Seq<char>)>, k: Seq<char>)
    requires
        forall|j: int| 0 <= j < ps.len() ==> ps[j].0 != k,
    ensures
        lookup_pair(ps, k) is None,
    decreases ps.len(),
{
    if ps.len() > 0 {
        lemma_lookup_pair_none(ps.drop_first(), k);
    }
}

/// A first name match at `i` reduces `lookup_sections` to that section.
proof fn lemma_lookup_sections_at(
    ss: Seq<(Seq<char>, Seq<(Seq<char>, Seq<char>)>)>,
    c: Seq<char>,
    v: Seq<char>,
    i: int,
)
    requires
        0 <= i < ss.len(),
        ss[i].0 == c,
        forall|j: int| 0 <= j < i ==> ss[j].0 != c,
    ensures
        lookup_sections(ss, c, v) == lookup_pair(ss[i].1, v),
    decreases i,
{
    if i > 0 {
        lemma_lookup_sections_at(ss.drop_first(), c, v, i - 1);
    }
}

/// With no section named `c`, `lookup_sections` finds nothing.
proof fn lemma_lookup_sections_none(
    ss: Seq<(Seq<char>, Seq<(Seq<char>, Seq<char>)>)>,
    c: Seq<char>,
    v: Seq<char>,
)
    requires
        forall|j: int| 0 <= j < ss.len() ==> ss[j].0 != c,
    ensures
        lookup_sections(ss, c, v) is None,
    decreases ss.len(),
{
    if ss.len() > 0 {
        lemma_lookup_sections_none(ss.drop_first(), c, v);
    }
}

// ---------------------------------------------------------------------------
// Adding and removing entries, modelled on the section lists.
// ---------------------------------------------------------------------------
/// `ps` with `(v, p)` set: the first pair keyed `v` replaced, or the new
/// pair appended when no pair has that key.
pub open spec fn add_pair(ps: Seq<(Seq<char>, Seq<char>)>, v: Seq<char>, p: Seq<char>) -> Seq<
    (Seq<char>, Seq<char>),
>
    decreases ps.len(),
{
    if ps.len() == 0 {
        seq![(v, p)]
    } else if ps[0].0 == v {
        seq![(v, p)] + ps.drop_first()
    } else {
        seq![ps[0]] + add_pair(ps.drop_first(), v, p)
    }
}

/// `ss` with the entry `(c, v, p)` set: the section named `c` gains or
/// replaces the version, or a new section is appended.
pub open spec fn add_section(
    ss: Seq<(Seq<char>, Seq<(Seq<char>, Seq<char>)>)>,
    c: Seq<char>,
    v: Seq<char>,
    p: Seq<char>,
) -> Seq<(Seq<char>, Seq<(Seq<char>, Seq<char>)>)>
    decreases ss.len(),
{
    if ss.len() == 0 {
        seq![(c, seq![(v, p)])]
    } else if ss[0].0 == c {
        seq![(c, add_pair(ss[0].1, v, p))] + ss.drop_first()
    } else {
        seq![ss[0]] + add_section(ss.drop_first(), c, v, p)
    }
}

/// `ps` without its first pair keyed `v`; unchanged if no key matches.
pub open spec fn remove_pair(ps: Seq<(Seq<char>, Seq<char>)>, v: Seq<char>) -> Seq<
    (Seq<char>, Seq<char>),
>
    decreases ps.len(),
{
    if ps.len() == 0 {
        ps
    } else if ps[0].0 == v {
        ps.drop_first()
    } else {
        seq![ps[0]] + remove_pair(ps.drop_first(), v)
    }
}

/// `ss` without the entry `(c, v)`. Removing the last version of a
/// command removes the whole section, so no empty section is left.
pub open spec fn remove_section(
    ss: Seq<(Seq<char>, Seq<(Seq<char>, Seq<char>)>)>,
    c: Seq<char>,
    v: Seq<char>,
) -> Seq<(Seq<char>, Seq<(Seq<char>, Seq<char>)>)>
    decreases ss.len(),
{
    if ss.len() == 0 {
        ss
    } else if ss[0].0 == c {
        if remove_pair(ss[0].1, v).len() == 0 {
            ss.drop_first()
        } else {
            seq![(c, remove_pair(ss[0].1, v))] + ss.drop_first()
        }
    } else {
        seq![ss[0]] + remove_section(ss.drop_first(), c, v)
    }
}

// What the spec operations do in terms of positions, for relating them to
// the loops below: a first match at `i` makes them an update, a remove or
// an unchanged list, and no match makes them a push.
pub(crate) proof fn lemma_add_pair_found(ps: Seq<(Seq<char>, Seq<char>)>, v: Seq<char>, p: Seq<char>, i: int)
    requires
        0 <= i < ps.len(),
        ps[i].0 == v,
        forall|j: int| 0 <= j < i ==> ps[j].0 != v,
    ensures
        add_pair(ps, v, p) == ps.update(i, (v, p)),
    decreases i,
{
    if i == 0 {
        assert(add_pair(ps, v, p) =~= ps.update(0, (v, p)));
    } else {
        lemma_add_pair_found(ps.drop_first(), v, p, i - 1);
        assert(add_pair(ps, v, p) =~= ps.update(i, (v, p)));
    }
}

pub(crate) proof fn lemma_add_pair_absent(ps: Seq<(Seq<char>, Seq<char>)>, v: Seq<char>, p: Seq<char>)
    requires
        forall|j: int| 0 <= j < ps.len() ==> ps[j].0 != v,
    ensures
        add_pair(ps, v, p) == ps.push((v, p)),
    decreases ps.len(),
{
    if ps.len() == 0 {
        assert(add_pair(ps, v, p) =~= ps.push((v, p)));
    } else {
        lemma_add_pair_absent(ps.drop_first(), v, p);
        assert(add_pair(ps, v, p) =~= ps.push((v, p)));
    }
}

proof fn lemma_add_section_found(
    ss: Seq<(Seq<char>, Seq<(Seq<char>, Seq<char>)>)>,
    c: Seq<char>,
    v: Seq<char>,
    p: Seq<char>,
    i: int,
)
    requires
        0 <= i < ss.len(),
        ss[i].0 == c,
        forall|j: int| 0 <= j < i ==> ss[j].0 != c,
    ensures
        add_section(ss, c, v, p) == ss.update(i, (c, add_pair(ss[i].1, v, p))),
    decreases i,
{
    if i == 0 {
        assert(add_section(ss, c, v, p) =~= ss.update(0, (c, add_pair(ss[0].1, v, p))));
    } else {
        lemma_add_section_found(ss.drop_first(), c, v, p, i - 1);
        assert(add_section(ss, c, v, p) =~= ss.update(i, (c, add_pair(ss[i].1, v, p))));
    }
}

proof fn lemma_add_section_absent(
    ss: Seq<(Seq<char>, Seq<(Seq<char>, Seq<char>)>)>,
    c: Seq<char>,
    v: Seq<char>,
    p: Seq<char>,
)
    requires
        forall|j: int| 0 <= j < ss.len() ==> ss[j].0 != c,
    ensures
        add_section(ss, c, v, p) == ss.push((c, seq![(v, p)])),
    decreases ss.len(),
{
    if ss.len() == 0 {
        assert(add_section(ss, c, v, p) =~= ss.push((c, seq![(v, p)])));
    } else {
        lemma_add_section_absent(ss.drop_first(), c, v, p);
        assert(add_section(ss, c, v, p) =~= ss.push((c, seq![(v, p)])));
    }
}

pub(crate) proof fn lemma_remove_pair_found(ps: Seq<(Seq<char>, Seq<char>)>, v: Seq<char>, i: int)
    requires
        0 <= i < ps.len(),
        ps[i].0 == v,
        forall|j: int| 0 <= j < i ==> ps[j].0 != v,
    ensures
        remove_pair(ps, v) == ps.remove(i),
    decreases i,
{
    if i == 0 {
        assert(remove_pair(ps, v) =~= ps.remove(0));
    } else {
        lemma_remove_pair_found(ps.drop_first(), v, i - 1);
        assert(ps.drop_first().remove(i - 1) =~= ps.remove(i).drop_first());
        assert(remove_pair(ps, v) =~= ps.remove(i));
    }
}

pub(crate) proof fn lemma_remove_pair_absent(ps: Seq<(Seq<char>, Seq<char>)>, v: Seq<char>)
    requires
        forall|j: int| 0 <= j < ps.len() ==> ps[j].0 != v,
    ensures
        remove_pair(ps, v) == ps,
    decreases ps.len(),
{
    if ps.len() > 0 {
        lemma_remove_pair_absent(ps.drop_first(), v);
        assert(remove_pair(ps, v) =~= ps);
    }
}

proof fn lemma_remove_section_found(
    ss: Seq<(Seq<char>, Seq<(Seq<char>, Seq<char>)>)>,
    c: Seq<char>,
    v: Seq<char>,
    i: int,
)
    requires
        0 <= i < ss.len(),
        ss[i].0 == c,
        forall|j: int| 0 <= j < i ==> ss[j].0 != c,
    ensures
        remove_section(ss, c, v) == if remove_pair(ss[i].1, v).len() == 0 {
            ss.remove(i)
        } else {
            ss.update(i, (c, remove_pair(ss[i].1, v)))
        },
    decreases i,
{
    if i == 0 {
        if remove_pair(ss[0].1, v).len() == 0 {
            assert(remove_section(ss, c, v) =~= ss.remove(0));
        } else {
            assert(remove_section(ss, c, v) =~= ss.update(0, (c, remove_pair(ss[0].1, v))));
        }
    } else {
        lemma_remove_section_found(ss.drop_first(), c, v, i - 1);
        if remove_pair(ss[i].1, v).len() == 0 {
            assert(ss.drop_first().remove(i - 1) =~= ss.remove(i).drop_first());
            assert(remove_section(ss, c, v) =~= ss.remove(i));
        } else {
            assert(remove_section(ss, c, v) =~= ss.update(i, (c, remove_pair(ss[i].1, v))));
        }
    }
}

proof fn lemma_remove_section_absent(
    ss: Seq<(Seq<char>, Seq<(Seq<char>, Seq<char>)>)>,
    c: Seq<char>,
    v: Seq<char>,
)
    requires
        forall|j: int| 0 <= j < ss.len() ==> ss[j].0 != c,
    ensures
        remove_section(ss, c, v) == ss,
    decreases ss.len(),
{
    if ss.len() > 0 {
        lemma_remove_section_absent(ss.drop_first(), c, v);
        assert(remove_section(ss, c, v) =~= ss);
    }
}


impl CommandVersionRegistry {
    /// Record a version of a command: the pair replaces any stored path
    /// for the same command and version. Refused, with the registry left
    /// unchanged, when the binary path is not absolute.
    pub fn add(&mut self, command_version: CommandVersion) -> (r: Result<(), AddError>)
        ensures
            match r {
                Ok(()) => {
                    &&& is_absolute(command_version.path@)
                    &&& final(self).sections() == add_section(
                        old(self).sections(),
                        command_version.command_name@,
                        command_version.version_name@,
                        command_version.path@,
                    )
                    &&& final(self).storage_path() == old(self).storage_path()
                    &&& old(self).wf() ==> final(self).wf()
                },
                Err(e) => {
                    &&& !is_absolute(command_version.path@)
                    &&& e == AddError::InvalidPathNotAbsolute(command_version)
                    &&& *final(self) == *old(self)
                },
            },
    {
        let absolute = command_version.path.unicode_len() > 0 && command_version.path.as_str()
            .get_char(0) == '/';
        if !absolute {
            return Err(AddError::InvalidPathNotAbsolute(command_version));
        }
        let CommandVersion { command_name, version_name, path } = command_version;
        let ghost ss0 = self.sections();
        let ghost c = command_name@;
        let ghost v = version_name@;
        let ghost p = path@;
        match find_section(&self.commands, command_name.as_str()) {
            Some(ci) => {
                proof {
                    assert(ss0[ci as int].0 == c);
                    assert(forall|j: int| 0 <= j < ci ==> ss0[j].0 != c);
                    lemma_add_section_found(ss0, c, v, p, ci as int);
                }
                let (name, versions) = self.commands.remove(ci);
                let mut versions = versions;
                let ghost ps0 = pairs_view(versions@);
                match find_pair(&versions, version_name.as_str()) {
                    Some(vi) => {
                        proof {
                            lemma_add_pair_found(ps0, v, p, vi as int);
                        }
                        versions.remove(vi);
                        versions.insert(vi, (version_name, path));
                        proof {
                            assert(pairs_view(versions@) =~= add_pair(ps0, v, p));
                        }
                    },
                    None => {
                        proof {
                            lemma_add_pair_absent(ps0, v, p);
                        }
                        versions.push((version_name, path));
                        proof {
                            assert(pairs_view(versions@) =~= add_pair(ps0, v, p));
                        }
                    },
                }
                self.commands.insert(ci, (name, versions));
                proof {
                    assert(self.sections() =~= add_section(ss0, c, v, p));
                    if wf_sections(ss0) {
                        assert forall|i: int, j: int|
                            0 <= i < j < self.sections().len() implies self.sections()[i].0
                            != self.sections()[j].0 by {
                            assert(self.sections()[i].0 == ss0[i].0);
                            assert(self.sections()[j].0 == ss0[j].0);
                        }
                        assert forall|i: int|
                            0 <= i < self.sections().len() implies (#[trigger] self.sections()[i]).1.len()
                            > 0 && distinct_keys(self.sections()[i].1) by {
                            if i != ci {
                                assert(self.sections()[i] == ss0[i]);
                            } else {
                                assert(self.sections()[i].1 == add_pair(ps0, v, p));
                                lemma_add_pair_wf(ps0, v, p);
                            }
                        }
                    }
                }
            },
            None => {
                proof {
                    assert(forall|j: int| 0 <= j < ss0.len() ==> ss0[j].0 != c);
                    lemma_add_section_absent(ss0, c, v, p);
                }
                let mut versions: Vec<(String, String)> = Vec::new();
                versions.push((version_name, path));
                self.commands.push((command_name, versions));
                proof {
                    assert(pairs_view(versions@) =~= seq![(v, p)]);
                    assert(self.sections() =~= add_section(ss0, c, v, p));
                    if wf_sections(ss0) {
                        assert forall|i: int, j: int|
                            0 <= i < j < self.sections().len() implies self.sections()[i].0
                            != self.sections()[j].0 by {
                            if j < ss0.len() {
                                assert(self.sections()[i].0 == ss0[i].0);
                                assert(self.sections()[j].0 == ss0[j].0);
                            } else {
                                assert(self.sections()[i].0 == ss0[i].0);
                                assert(self.sections()[j].0 == c);
                            }
                        }
                        assert forall|i: int|
                            0 <= i < self.sections().len() implies (#[trigger] self.sections()[i]).1.len()
                            > 0 && distinct_keys(self.sections()[i].1) by {
                            if i < ss0.len() {
                                assert(self.sections()[i] == ss0[i]);
                            } else {
                                assert(self.sections()[i].1 =~= seq![(v, p)]);
                            }
                        }
                    }
                }
            },
        }
        Ok(())
    }

    /// Forget `version` of `command`. Nothing changes when the pair is
    /// not stored; removing the last version removes the command.
    pub fn remove(&mut self, command: &str, version: &str)
        ensures
            final(self).sections() == remove_section(old(self).sections(), command@, version@),
            final(self).storage_path() == old(self).storage_path(),
            old(self).wf() ==> final(self).wf(),
    {
        let ghost ss0 = self.sections();
        let ghost c = command@;
        let ghost v = version@;
        match find_section(&self.commands, command) {
            Some(ci) => {
                proof {
                    lemma_remove_section_found(ss0, c, v, ci as int);
                }
                let (name, versions) = self.commands.remove(ci);
                let mut versions = versions;
                let ghost ps0 = pairs_view(versions@);
                match find_pair(&versions, version) {
                    Some(vi) => {
                        proof {
                            lemma_remove_pair_found(ps0, v, vi as int);
                        }
                        versions.remove(vi);
                        proof {
                            assert(pairs_view(versions@) =~= remove_pair(ps0, v));
                        }
                    },
                    None => {
                        proof {
                            lemma_remove_pair_absent(ps0, v);
                            assert(pairs_view(versions@) =~= remove_pair(ps0, v));
                        }
                    },
                }
                if versions.len() == 0 {
                    proof {
                        assert(self.sections() =~= remove_section(ss0, c, v));
                        if wf_sections(ss0) {
                            assert forall|i: int, j: int|
                                0 <= i < j < self.sections().len() implies self.sections()[i].0
                                != self.sections()[j].0 by {
                                assert(self.sections()[i] == ss0.remove(ci as int)[i]);
                                assert(self.sections()[j] == ss0.remove(ci as int)[j]);
                            }
                            assert forall|i: int|
                                0 <= i < self.sections().len() implies (
                                #[trigger] self.sections()[i]).1.len() > 0 && distinct_keys(
                                self.sections()[i].1,
                            ) by {
                                assert(self.sections()[i] == ss0.remove(ci as int)[i]);
                            }
                        }
                    }
                } else {
                    self.commands.insert(ci, (name, versions));
                    proof {
                        assert(self.sections() =~= remove_section(ss0, c, v));
                        if wf_sections(ss0) {
                            assert forall|i: int, j: int|
                                0 <= i < j < self.sections().len() implies self.sections()[i].0
                                != self.sections()[j].0 by {
                                assert(self.sections()[i].0 == ss0[i].0);
                                assert(self.sections()[j].0 == ss0[j].0);
                            }
                            assert forall|i: int|
                                0 <= i < self.sections().len() implies (
                                #[trigger] self.sections()[i]).1.len() > 0 && distinct_keys(
                                self.sections()[i].1,
                            ) by {
                                if i != ci {
                                    assert(self.sections()[i] == ss0[i]);
                                } else {
                                    lemma_remove_pair_wf(ps0, v);
                                }
                            }
                        }
                    }
                }
            },
            None => {
                proof {
                    lemma_remove_section_absent(ss0, c, v);
                    assert(self.sections() =~= remove_section(ss0, c, v));
                }
            },
        }
    }
}

/// Setting a pair keeps keys distinct and the list filled.
pub(crate) proof fn lemma_add_pair_wf(ps: Seq<(Seq<char>, Seq<char>)>, v: Seq<char>, p: Seq<char>)
    requires
        distinct_keys(ps),
    ensures
        distinct_keys(add_pair(ps, v, p)),
        add_pair(ps, v, p).len() > 0,
    decreases ps.len(),
{
    if ps.len() == 0 {
    } else if ps[0].0 == v {
        assert(add_pair(ps, v, p) =~= ps.update(0, (v, p)));
    } else {
        assert(distinct_keys(ps.drop_first()));
        lemma_add_pair_wf(ps.drop_first(), v, p);
        let r = add_pair(ps, v, p);
        let rr = add_pair(ps.drop_first(), v, p);
        assert forall|i: int, j: int| 0 <= i < j < r.len() implies r[i].0 != r[j].0 by {
            if i > 0 {
                assert(r[i] == rr[i - 1] && r[j] == rr[j - 1]);
            } else {
                assert(r[j] == rr[j - 1]);
                lemma_add_pair_keys(ps.drop_first(), v, p, j - 1);
            }
        }
    }
}

/// Every key of `add_pair(ps, v, p)` is `v` or a key of `ps`.
proof fn lemma_add_pair_keys(ps: Seq<(Seq<char>, Seq<char>)>, v: Seq<char>, p: Seq<char>, i: int)
    requires
        0 <= i < add_pair(ps, v, p).len(),
    ensures
        add_pair(ps, v, p)[i].0 == v || exists|l: int|
            0 <= l < ps.len() && ps[l].0 == add_pair(ps, v, p)[i].0,
    decreases ps.len(),
{
    if ps.len() == 0 {
    } else if ps[0].0 == v {
        if i > 0 {
            assert(ps[i] == add_pair(ps, v, p)[i]);
        }
    } else {
        if i > 0 {
            lemma_add_pair_keys(ps.drop_first(), v, p, i - 1);
            if add_pair(ps, v, p)[i].0 != v {
                let l = choose|l: int|
                    0 <= l < ps.drop_first().len() && ps.drop_first()[l].0 == add_pair(
                        ps,
                        v,
                        p,
                    )[i].0;
                assert(ps[l + 1].0 == add_pair(ps, v, p)[i].0);
            }
        }
    }
}

/// Removing a pair keeps the remaining keys distinct.
pub(crate) proof fn lemma_remove_pair_wf(ps: Seq<(Seq<char>, Seq<char>)>, v: Seq<char>)
    requires
        distinct_keys(ps),
    ensures
        distinct_keys(remove_pair(ps, v)),
    decreases ps.len(),
{
    if ps.len() == 0 {
    } else if ps[0].0 == v {
        assert forall|i: int, j: int|
            0 <= i < j < remove_pair(ps, v).len() implies remove_pair(ps, v)[i].0 != remove_pair(
            ps,
            v,
        )[j].0 by {
            assert(remove_pair(ps, v)[i] == ps[i + 1]);
            assert(remove_pair(ps, v)[j] == ps[j + 1]);
        }
    } else {
        assert(distinct_keys(ps.drop_first()));
        lemma_remove_pair_wf(ps.drop_first(), v);
        let r = remove_pair(ps, v);
        let rr = remove_pair(ps.drop_first(), v);
        assert forall|i: int, j: int| 0 <= i < j < r.len() implies r[i].0 != r[j].0 by {
            if i > 0 {
                assert(r[i] == rr[i - 1] && r[j] == rr[j - 1]);
            } else {
                assert(r[j] == rr[j - 1]);
                lemma_remove_pair_keys(ps.drop_first(), v, j - 1);
            }
        }
    }
}

/// Every key of `remove_pair(ps, v)` is a key of `ps`.
proof fn lemma_remove_pair_keys(ps: Seq<(Seq<char>, Seq<char>)>, v: Seq<char>, i: int)
    requires
        0 <= i < remove_pair(ps, v).len(),
    ensures
        exists|l: int| 0 <= l < ps.len() && ps[l].0 == remove_pair(ps, v)[i].0,
    decreases ps.len(),
{
    if ps.len() == 0 {
    } else if ps[0].0 == v {
        assert(ps[i + 1].0 == remove_pair(ps, v)[i].0);
    } else {
        if i == 0 {
            assert(ps[0].0 == remove_pair(ps, v)[0].0);
        } else {
            lemma_remove_pair_keys(ps.drop_first(), v, i - 1);
            let l = choose|l: int|
                0 <= l < ps.drop_first().len() && ps.drop_first()[l].0 == remove_pair(
                    ps.drop_first(),
                    v,
                )[i - 1].0;
            assert(ps[l + 1].0 == remove_pair(ps, v)[i].0);
        }
    }
}


/// The name of the registry file inside the configuration directory.
pub open spec fn defs_file_name() -> Seq<char> {
    seq!['d', 'e', 'f', 's', '.', 't', 'o', 'm', 'l']
}

/// The registry file path under the configuration directory `home_dir`.
pub fn definitions_file(home_dir: &str) -> (r: String)
    ensures
        r@ == crate::pathname::join_seq(home_dir@, defs_file_name()),
{
    let name = "defs.toml";
    proof {
        reveal_strlit("defs.toml");
        assert(name@ =~= defs_file_name());
    }
    crate::pathname::join_under(home_dir, name)
}

/// The sections stored in registry text, when the text is well formed:
/// it must parse whole and name no command twice, no version twice within
/// a command, and no command without versions.
pub open spec fn registry_doc(text: Seq<char>) -> Option<
    Seq<(Seq<char>, Seq<(Seq<char>, Seq<char>)>)>,
> {
    match parse_sections(text, 0) {
        Some(d) => if d.1 == text.len() && wf_sections(d.0) {
            Some(d.0)
        } else {
            None
        },
        None => None,
    }
}

impl CommandVersionRegistry {
    /// The registry serialized as its file text.
    pub fn save(&self) -> (r: String)
        ensures
            r@ == encode_sections(self.sections()),
    {
        let chars = encode_sections_exec(&self.commands);
        chars_to_string(&chars)
    }

    /// Read a registry from the text stored at `path`.
    pub fn load(path: &str, text: &str) -> (r: Result<CommandVersionRegistry, LoadError>)
        ensures
            match r {
                Ok(reg) => {
                    &&& registry_doc(text@) == Some(reg.sections())
                    &&& reg.storage_path() == path@
                    &&& reg.wf()
                },
                Err(e) => {
                    &&& registry_doc(text@) is None
                    &&& e == LoadError::Malformed
                },
            },
    {
        let chars = str_to_chars(text);
        match parse_sections_exec(&chars, 0) {
            Some((commands, end)) => {
                if end == chars.len() && check_wf(&commands) {
                    Ok(CommandVersionRegistry { path: path.to_owned(), commands })
                } else {
                    Err(LoadError::Malformed)
                }
            },
            None => Err(LoadError::Malformed),
        }
    }

    /// Read a registry from the stored text, or start empty when the file
    /// does not exist (`text` is None).
    pub fn load_or_new(path: &str, text: Option<&str>) -> (r: Result<
        CommandVersionRegistry,
        LoadError,
    >)
        ensures
            match text {
                Some(t) => match r {
                    Ok(reg) => {
                        &&& registry_doc(t@) == Some(reg.sections())
                        &&& reg.storage_path() == path@
                        &&& reg.wf()
                    },
                    Err(e) => {
                        &&& registry_doc(t@) is None
                        &&& e == LoadError::Malformed
                    },
                },
                None => match r {
                    Ok(reg) => {
                        &&& reg.sections() == Seq::<
                            (Seq<char>, Seq<(Seq<char>, Seq<char>)>),
                        >::empty()
                        &&& reg.storage_path() == path@
                        &&& reg.wf()
                    },
                    Err(_) => false,
                },
            },
    {
        match text {
            Some(t) => Self::load(path, t),
            None => Ok(Self::new(path)),
        }
    }
}

/// Whether a parsed document has the registry shape.
fn check_wf(commands: &Vec<(String, Vec<(String, String)>)>) -> (r: bool)
    ensures
        r == wf_sections(sections_view(commands@)),
{
    let ghost ss = sections_view(commands@);
    let mut i: usize = 0;
    while i < commands.len()
        invariant
            i <= commands@.len(),
            ss == sections_view(commands@),
            forall|a: int, b: int| 0 <= a < b < ss.len() && a < i ==> ss[a].0 != ss[b].0,
            forall|a: int| 0 <= a < i ==> (#[trigger] ss[a]).1.len() > 0 && distinct_keys(
                ss[a].1,
            ),
        decreases commands@.len() - i,
    {
        proof {
            assert(ss[i as int] == (commands@[i as int].0@, pairs_view(
                commands@[i as int].1@,
            )));
            assert(ss[i as int].1.len() == commands@[i as int].1@.len());
        }
        if commands[i].1.len() == 0 {
            proof {
                assert(!((ss[i as int]).1.len() > 0 && distinct_keys(ss[i as int].1)));
            }
            return false;
        }
        if !check_pairs(&commands[i].1) {
            proof {
                assert(!((ss[i as int]).1.len() > 0 && distinct_keys(ss[i as int].1)));
            }
            return false;
        }
        let mut j: usize = i + 1;
        while j < commands.len()
            invariant
                i < j <= commands@.len(),
                ss == sections_view(commands@),
                forall|b: int| i < b < j ==> ss[i as int].0 != ss[b].0,
            decreases commands@.len() - j,
        {
            if str_eq(commands[i].0.as_str(), commands[j].0.as_str()) {
                proof {
                    assert(ss[i as int].0 == commands@[i as int].0@);
                    assert(ss[j as int].0 == commands@[j as int].0@);
                    assert(ss[i as int].0 == ss[j as int].0);
                }
                return false;
            }
            j = j + 1;
        }
        i = i + 1;
    }
    true
}

/// Whether the keys of a pair list are all distinct.
fn check_pairs(ps: &Vec<(String, String)>) -> (r: bool)
    ensures
        r == distinct_keys(pairs_view(ps@)),
{
    let ghost pv = pairs_view(ps@);
    let mut i: usize = 0;
    while i < ps.len()
        invariant
            i <= ps@.len(),
            pv == pairs_view(ps@),
            forall|a: int, b: int| 0 <= a < b < pv.len() && a < i ==> pv[a].0 != pv[b].0,
        decreases ps@.len() - i,
    {
        let mut j: usize = i + 1;
        while j < ps.len()
            invariant
                i < j <= ps@.len(),
                pv == pairs_view(ps@),
                forall|b: int| i < b < j ==> pv[i as int].0 != pv[b].0,
            decreases ps@.len() - j,
        {
            if str_eq(ps[i].0.as_str(), ps[j].0.as_str()) {
                proof {
                    assert(pv[i as int] == (ps@[i as int].0@, ps@[i as int].1@));
                    assert(pv[j as int] == (ps@[j as int].0@, ps@[j as int].1@));
                    assert(pv[i as int].0 == pv[j as int].0);
                }
                return false;
            }
            j = j + 1;
        }
        i = i + 1;
    }
    true
}


// ---------------------------------------------------------------------------
// Listing every stored entry.
// ---------------------------------------------------------------------------
/// The entries of one section, each carrying its command name.
pub open spec fn section_entries(sec: (Seq<char>, Seq<(Seq<char>, Seq<char>)>)) -> Seq<
    (Seq<char>, Seq<char>, Seq<char>),
> {
    sec.1.map_values(|p: (Seq<char>, Seq<char>)| (sec.0, p.0, p.1))
}

/// Every stored entry, section by section, in storage order.
pub open spec fn flat_entries(ss: Seq<(Seq<char>, Seq<(Seq<char>, Seq<char>)>)>) -> Seq<
    (Seq<char>, Seq<char>, Seq<char>),
>
    decreases ss.len(),
{
    if ss.len() == 0 {
        Seq::empty()
    } else {
        section_entries(ss[0]) + flat_entries(ss.drop_first())
    }
}

proof fn lemma_flat_entries_snoc(
    ss: Seq<(Seq<char>, Seq<(Seq<char>, Seq<char>)>)>,
    sec: (Seq<char>, Seq<(Seq<char>, Seq<char>)>),
)
    ensures
        flat_entries(ss.push(sec)) == flat_entries(ss) + section_entries(sec),
    decreases ss.len(),
{
    if ss.len() == 0 {
        assert(ss.push(sec).drop_first() =~= Seq::<
            (Seq<char>, Seq<(Seq<char>, Seq<char>)>),
        >::empty());
        assert(flat_entries(Seq::<(Seq<char>, Seq<(Seq<char>, Seq<char>)>)>::empty()) =~= Seq::<
            (Seq<char>, Seq<char>, Seq<char>),
        >::empty());
        assert(flat_entries(ss.push(sec)) =~= flat_entries(ss) + section_entries(sec));
    } else {
        assert(ss.push(sec).drop_first() =~= ss.drop_first().push(sec));
        lemma_flat_entries_snoc(ss.drop_first(), sec);
        assert(ss.push(sec)[0] == ss[0]);
        assert(flat_entries(ss.push(sec)) == section_entries(ss[0]) + flat_entries(
            ss.drop_first().push(sec),
        ));
        assert(flat_entries(ss.push(sec)) =~= flat_entries(ss) + section_entries(sec));
    }
}

impl CommandVersionRegistry {
    /// Every stored entry as a `CommandVersion`, in storage order.
    pub fn iter(&self) -> (r: Vec<CommandVersion>)
        ensures
            r@.len() == flat_entries(self.sections()).len(),
            forall|i: int|
                0 <= i < r@.len() ==> cv_view(#[trigger] r@[i]) == flat_entries(
                    self.sections(),
                )[i],
    {
        let ghost ss = self.sections();
        let mut r: Vec<CommandVersion> = Vec::new();
        let mut i: usize = 0;
        proof {
            assert(ss.subrange(0, 0) =~= Seq::<(Seq<char>, Seq<(Seq<char>, Seq<char>)>)>::empty());
            assert(flat_entries(ss.subrange(0, 0)) =~= Seq::<
                (Seq<char>, Seq<char>, Seq<char>),
            >::empty());
        }
        while i < self.commands.len()
            invariant
                i <= self.commands@.len(),
                ss == self.sections(),
                r@.len() == flat_entries(ss.subrange(0, i as int)).len(),
                forall|k: int|
                    0 <= k < r@.len() ==> cv_view(#[trigger] r@[k]) == flat_entries(
                        ss.subrange(0, i as int),
                    )[k],
            decreases self.commands@.len() - i,
        {
            let ghost flat0 = flat_entries(ss.subrange(0, i as int));
            let ghost sec = ss[i as int];
            let name = &self.commands[i].0;
            let versions = &self.commands[i].1;
            proof {
                assert(sec == (self.commands@[i as int].0@, pairs_view(
                    self.commands@[i as int].1@,
                )));
            }
            let mut j: usize = 0;
            while j < versions.len()
                invariant
                    j <= versions@.len(),
                    sec == (name@, pairs_view(versions@)),
                    r@.len() == flat0.len() + j,
                    forall|k: int|
                        0 <= k < flat0.len() ==> cv_view(#[trigger] r@[k]) == flat0[k],
                    forall|k: int|
                        flat0.len() <= k < r@.len() ==> cv_view(#[trigger] r@[k])
                            == section_entries(sec)[k - flat0.len()],
                decreases versions@.len() - j,
            {
                proof {
                    assert(pairs_view(versions@)[j as int] == (versions@[j as int].0@,
                        versions@[j as int].1@));
                    assert(section_entries(sec)[j as int] == (sec.0, pairs_view(
                        versions@,
                    )[j as int].0, pairs_view(versions@)[j as int].1));
                }
                r.push(
                    CommandVersion::new(
                        name.as_str(),
                        versions[j].0.as_str(),
                        versions[j].1.as_str(),
                    ),
                );
                j = j + 1;
            }
            proof {
                assert(ss.subrange(0, i + 1 as int) =~= ss.subrange(0, i as int).push(sec));
                lemma_flat_entries_snoc(ss.subrange(0, i as int), sec);
                assert(section_entries(sec).len() == versions@.len());
            }
            i = i + 1;
        }
        proof {
            assert(ss.subrange(0, ss.len() as int) =~= ss);
        }
        r
    }
}


// ---------------------------------------------------------------------------
// Laws of the registry.
// ---------------------------------------------------------------------------
/// Setting an entry keeps the registry shape.
proof fn lemma_add_section_wf(
    ss: Seq<(Seq<char>, Seq<(Seq<char>, Seq<char>)>)>,
    c: Seq<char>,
    v: Seq<char>,
    p: Seq<char>,
)
    requires
        wf_sections(ss),
    ensures
        wf_sections(add_section(ss, c, v, p)),
{
    let r = add_section(ss, c, v, p);
    if exists|i: int| 0 <= i < ss.len() && (#[trigger] ss[i]).0 == c {
        let i = choose|i: int| 0 <= i < ss.len() && (#[trigger] ss[i]).0 == c;
        assert(forall|j: int| 0 <= j < i ==> ss[j].0 != c);
        lemma_add_section_found(ss, c, v, p, i);
        lemma_add_pair_wf(ss[i].1, v, p);
        assert forall|a: int, b: int| 0 <= a < b < r.len() implies r[a].0 != r[b].0 by {
            assert(r[a].0 == ss[a].0);
            assert(r[b].0 == ss[b].0);
        }
        assert forall|a: int|
            0 <= a < r.len() implies (#[trigger] r[a]).1.len() > 0 && distinct_keys(r[a].1) by {
            if a != i {
                assert(r[a] == ss[a]);
            }
        }
    } else {
        assert(forall|j: int| 0 <= j < ss.len() ==> ss[j].0 != c);
        lemma_add_section_absent(ss, c, v, p);
        assert forall|a: int, b: int| 0 <= a < b < r.len() implies r[a].0 != r[b].0 by {
            if b < ss.len() {
                assert(r[a].0 == ss[a].0);
                assert(r[b].0 == ss[b].0);
            } else {
                assert(r[a].0 == ss[a].0);
                assert(r[b].0 == c);
            }
        }
        assert forall|a: int|
            0 <= a < r.len() implies (#[trigger] r[a]).1.len() > 0 && distinct_keys(r[a].1) by {
            if a < ss.len() {
                assert(r[a] == ss[a]);
            } else {
                assert(r[a].1 =~= seq![(v, p)]);
            }
        }
    }
}

/// A freshly set pair is the one a lookup finds.
proof fn lemma_lookup_add_pair(ps: Seq<(Seq<char>, Seq<char>)>, v: Seq<char>, p: Seq<char>)
    ensures
        lookup_pair(add_pair(ps, v, p), v) == Some(p),
    decreases ps.len(),
{
    if ps.len() == 0 {
        assert(add_pair(ps, v, p)[0] == (v, p));
    } else if ps[0].0 == v {
        assert(add_pair(ps, v, p)[0] == (v, p));
    } else {
        let r = add_pair(ps, v, p);
        assert(r[0] == ps[0]);
        assert(r.drop_first() =~= add_pair(ps.drop_first(), v, p));
        lemma_lookup_add_pair(ps.drop_first(), v, p);
    }
}

/// A freshly set entry is the one a lookup finds.
proof fn lemma_lookup_add(
    ss: Seq<(Seq<char>, Seq<(Seq<char>, Seq<char>)>)>,
    c: Seq<char>,
    v: Seq<char>,
    p: Seq<char>,
)
    ensures
        lookup_sections(add_section(ss, c, v, p), c, v) == Some(p),
    decreases ss.len(),
{
    let r = add_section(ss, c, v, p);
    if ss.len() == 0 {
        assert(r[0] == (c, seq![(v, p)]));
        assert(lookup_pair(seq![(v, p)], v) == Some(p));
    } else if ss[0].0 == c {
        assert(r[0] == (c, add_pair(ss[0].1, v, p)));
        lemma_lookup_add_pair(ss[0].1, v, p);
    } else {
        assert(r[0] == ss[0]);
        assert(r.drop_first() =~= add_section(ss.drop_first(), c, v, p));
        lemma_lookup_add(ss.drop_first(), c, v, p);
    }
}

/// Registry text written by `save` always reads back as the same registry.
pub proof fn lemma_save_parses(r: CommandVersionRegistry)
    requires
        r.wf(),
    ensures
        registry_doc(encode_sections(r.sections())) == Some(r.sections()),
{
    lemma_parse_encode_sections(r.sections());
}

/// Saving a registry, loading the text back and saving the loaded registry
/// writes the very same text: the stored form is a fixed point of
/// save-then-load.
pub proof fn lemma_save_load_save(r1: CommandVersionRegistry, r2: CommandVersionRegistry)
    requires
        r1.wf(),
        registry_doc(encode_sections(r1.sections())) == Some(r2.sections()),
    ensures
        encode_sections(r2.sections()) == encode_sections(r1.sections()),
{
    lemma_save_parses(r1);
}

/// An absolute entry that is added and then carried through a save and a
/// load is found again: the reloaded registry maps the command and version
/// to the path that was added.
pub proof fn lemma_added_entry_survives_reload(
    ss: Seq<(Seq<char>, Seq<(Seq<char>, Seq<char>)>)>,
    c: Seq<char>,
    v: Seq<char>,
    p: Seq<char>,
)
    requires
        wf_sections(ss),
        is_absolute(p),
    ensures
        wf_sections(add_section(ss, c, v, p)),
        registry_doc(encode_sections(add_section(ss, c, v, p))) == Some(
            add_section(ss, c, v, p),
        ),
        lookup_sections(add_section(ss, c, v, p), c, v) == Some(p),
{
    lemma_add_section_wf(ss, c, v, p);
    lemma_parse_encode_sections(add_section(ss, c, v, p));
    lemma_lookup_add(ss, c, v, p);
}

/// A command no section carries never shows up in the flat listing.
proof fn lemma_flat_entries_names(ss: Seq<(Seq<char>, Seq<(Seq<char>, Seq<char>)>)>, c: Seq<char>)
    requires
        forall|i: int| 0 <= i < ss.len() ==> (#[trigger] ss[i]).0 != c,
    ensures
        forall|k: int|
            0 <= k < flat_entries(ss).len() ==> (#[trigger] flat_entries(ss)[k]).0 != c,
    decreases ss.len(),
{
    if ss.len() > 0 {
        assert(ss[0].0 != c);
        lemma_flat_entries_names(ss.drop_first(), c);
        let head = section_entries(ss[0]);
        let rest = flat_entries(ss.drop_first());
        assert(flat_entries(ss) == head + rest);
        assert forall|k: int|
            0 <= k < flat_entries(ss).len() implies (#[trigger] flat_entries(ss)[k]).0 != c by {
            if k < head.len() {
                assert(head[k] == (ss[0].0, ss[0].1[k].0, ss[0].1[k].1));
            } else {
                assert(flat_entries(ss)[k] == rest[k - head.len()]);
            }
        }
    }
}

/// Removing the last remaining version of a command removes the command
/// from the registry altogether: no section carries its name any more,
/// and no listed entry does either.
pub proof fn lemma_remove_last_version(
    ss: Seq<(Seq<char>, Seq<(Seq<char>, Seq<char>)>)>,
    c: Seq<char>,
    v: Seq<char>,
)
    requires
        wf_sections(ss),
        forall|i: int|
            0 <= i < ss.len() && (#[trigger] ss[i]).0 == c ==> ss[i].1.len() == 1 && ss[i].1[0].0
                == v,
    ensures
        forall|i: int|
            0 <= i < remove_section(ss, c, v).len() ==> (#[trigger] remove_section(
                ss,
                c,
                v,
            )[i]).0 != c,
        forall|k: int|
            0 <= k < flat_entries(remove_section(ss, c, v)).len() ==> (#[trigger] flat_entries(
                remove_section(ss, c, v),
            )[k]).0 != c,
{
    lemma_remove_last_version_sections(ss, c, v);
    lemma_flat_entries_names(remove_section(ss, c, v), c);
}

proof fn lemma_remove_last_version_sections(
    ss: Seq<(Seq<char>, Seq<(Seq<char>, Seq<char>)>)>,
    c: Seq<char>,
    v: Seq<char>,
)
    requires
        wf_sections(ss),
        forall|i: int|
            0 <= i < ss.len() && (#[trigger] ss[i]).0 == c ==> ss[i].1.len() == 1 && ss[i].1[0].0
                == v,
    ensures
        forall|i: int|
            0 <= i < remove_section(ss, c, v).len() ==> (#[trigger] remove_section(
                ss,
                c,
                v,
            )[i]).0 != c,
{
    let r = remove_section(ss, c, v);
    if exists|i: int| 0 <= i < ss.len() && (#[trigger] ss[i]).0 == c {
        let i = choose|i: int| 0 <= i < ss.len() && (#[trigger] ss[i]).0 == c;
        assert(forall|j: int| 0 <= j < i ==> ss[j].0 != c);
        lemma_remove_section_found(ss, c, v, i);
        assert(remove_pair(ss[i].1, v) =~= Seq::<(Seq<char>, Seq<char>)>::empty());
        assert(r == ss.remove(i));
        assert forall|k: int| 0 <= k < r.len() implies (#[trigger] r[k]).0 != c by {
            if k < i {
                assert(r[k] == ss[k]);
            } else {
                assert(r[k] == ss[k + 1]);
            }
        }
    } else {
        assert(forall|j: int| 0 <= j < ss.len() ==> ss[j].0 != c);
        lemma_remove_section_absent(ss, c, v);
    }
}


} // verus!
