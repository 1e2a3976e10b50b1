//! Discovering command versions from keg-style install paths.
//!
//! A path such as `/usr/local/opt/node@16/bin/node` names its command in
//! the final component and its version in the package component two
//! levels up, after the `@`. The caller lists such paths; this module
//! reads command and version out of each.

use vstd::prelude::*;

use crate::command_version::CommandVersion;
use crate::pathname::{
    after_last, basename_of, basename_chars, last_index_char, last_index_of,
    lemma_last_index_of, rstrip_char,
};
use crate::text::{chars_range_to_string, chars_to_string, str_to_chars};

verus! {

/// `s` up to and including the separator before its final component,
/// after trailing separators are dropped.
pub open spec fn strip_last_comp(s: Seq<char>) -> Seq<char> {
    let t = rstrip_char(s, '/');
    t.subrange(0, last_index_of(t, '/') + 1)
}

/// The final component of the path, ignoring trailing separators.
pub open spec fn comp_back(s: Seq<char>, back: nat) -> Seq<char>
    decreases back,
{
    if back == 0 {
        basename_of(rstrip_char(s, '/'))
    } else {
        comp_back(strip_last_comp(s), (back - 1) as nat)
    }
}

/// The command a keg path installs: its final component.
pub open spec fn keg_command(path: Seq<char>) -> Seq<char> {
    comp_back(path, 0)
}

/// The package component of a keg path: two levels above the binary.
pub open spec fn keg_package(path: Seq<char>) -> Seq<char> {
    comp_back(path, 2)
}

/// The version a keg path installs: what follows the last `@` of the
/// package component, or the whole component without an `@`.
pub open spec fn keg_version(path: Seq<char>) -> Seq<char> {
    after_last(keg_package(path), '@')
}

/// A dot component, as paths write the current or parent directory.
pub open spec fn is_dot_comp(s: Seq<char>) -> bool {
    s == seq!['.'] || s == seq!['.', '.']
}

/// Drop the trailing separators of `v`.
fn rstrip_slashes(v: &Vec<char>) -> (r: Vec<char>)
    ensures
        r@ == rstrip_char(v@, '/'),
{
    let mut r: Vec<char> = Vec::new();
    let mut end: usize = v.len();
    proof {
        assert(v@.subrange(0, end as int) =~= v@);
    }
    while end > 0 && v[end - 1] == '/'
        invariant
            end <= v@.len(),
            rstrip_char(v@, '/') == rstrip_char(v@.subrange(0, end as int), '/'),
        decreases end,
    {
        proof {
            assert(v@.subrange(0, end as int).drop_last() =~= v@.subrange(0, end - 1));
        }
        end = end - 1;
    }
    let mut i: usize = 0;
    while i < end
        invariant
            i <= end <= v@.len(),
            r@ == v@.subrange(0, i as int),
        decreases end - i,
    {
        r.push(v[i]);
        i = i + 1;
        proof {
            assert(r@ =~= v@.subrange(0, i as int));
        }
    }
    proof {
        assert(r@ =~= v@.subrange(0, end as int));
        if end == v@.len() {
            assert(v@.subrange(0, end as int) =~= v@);
        } else {
            assert(rstrip_char(v@.subrange(0, end as int), '/') =~= v@.subrange(
                0,
                end as int,
            ));
        }
    }
    r
}

/// Split the characters of a path into its final component and the rest.
fn split_comp(v: &Vec<char>) -> (r: (Vec<char>, Vec<char>))
    ensures
        r.0@ == basename_of(rstrip_char(v@, '/')),
        r.1@ == strip_last_comp(v@),
{
    let t = rstrip_slashes(v);
    let base = basename_chars(&t);
    let n = t.len();
    proof {
        lemma_last_index_of(t@, '/');
    }
    let bstart: usize = match last_index_char(&t, '/') {
        Some(j) => {
            proof {
                assert(j < n);
            }
            j + 1
        },
        None => 0,
    };
    let mut prefix: Vec<char> = Vec::new();
    let mut i: usize = 0;
    while i < bstart
        invariant
            i <= bstart <= t@.len(),
            prefix@ == t@.subrange(0, i as int),
        decreases bstart - i,
    {
        prefix.push(t[i]);
        i = i + 1;
        proof {
            assert(prefix@ =~= t@.subrange(0, i as int));
        }
    }
    proof {
        assert(prefix@ =~= strip_last_comp(v@));
    }
    (base, prefix)
}

/// Read a keg path into the command and version it installs. The path
/// must be deep enough that the command, the directory above it and the
/// package component are all real names.
pub fn parse_version_path(path: &str) -> (r: CommandVersion)
    requires
        keg_command(path@).len() > 0,
        !is_dot_comp(keg_command(path@)),
        comp_back(path@, 1).len() > 0,
        !is_dot_comp(comp_back(path@, 1)),
        keg_package(path@).len() > 0,
        !is_dot_comp(keg_package(path@)),
    ensures
        r.command_name@ == keg_command(path@),
        r.version_name@ == keg_version(path@),
        r.path@ == path@,
{
    let chars = str_to_chars(path);
    let (command, rest) = split_comp(&chars);
    let (_, rest2) = split_comp(&rest);
    let (package, _) = split_comp(&rest2);
    let plen = package.len();
    proof {
        lemma_last_index_of(package@, '@');
    }
    let vstart: usize = match last_index_char(&package, '@') {
        Some(j) => {
            proof {
                assert(j < plen);
            }
            j + 1
        },
        None => 0,
    };
    let version = chars_range_to_string(&package, vstart, package.len());
    proof {
        assert(keg_package(path@) == comp_back(strip_last_comp(path@), 1));
        assert(comp_back(strip_last_comp(path@), 1) == comp_back(
            strip_last_comp(strip_last_comp(path@)),
            0,
        ));
        assert(package@ == keg_package(path@));
        assert(version@ =~= keg_version(path@));
    }
    let command_str = chars_to_string(&command);
    CommandVersion::new(command_str.as_str(), version.as_str(), path)
}

} // verus!
