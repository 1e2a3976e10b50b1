//! Discovering command versions from file-name suffixes.
//!
//! A candidate binary such as `python2.7` or `ruby-2.5` names a command
//! and a version in one word: the command part, which holds no digit, dot
//! or dash, is followed by a version of dot-separated digit groups, with
//! an optional single dash between the two. `parse_command_version` reads
//! a path's final component against that grammar. Versions are written
//! with ASCII digits; a name whose digits come from another script is not
//! a version suffix here.

use vstd::prelude::*;

use crate::command_version::CommandVersion;
use crate::pathname::{basename_chars, basename_of};
use crate::text::{chars_range_to_string, str_to_chars};

verus! {

/// An ASCII decimal digit. Digits of other scripts do not open a
/// version suffix.
pub open spec fn is_digit(c: char) -> bool {
    '0' <= c && c <= '9'
}

/// A version name: groups of digits separated by single dots, as in
/// `2`, `2.7` or `10.0.1`.
pub open spec fn is_version_name(s: Seq<char>) -> bool {
    &&& s.len() > 0
    &&& is_digit(s[0])
    &&& is_digit(s[s.len() - 1])
    &&& forall|i: int| 0 <= i < s.len() ==> is_digit(#[trigger] s[i]) || s[i] == '.'
    &&& forall|i: int| 0 <= i < s.len() - 1 && #[trigger] s[i] == '.' ==> s[i + 1] != '.'
}

/// A character a command part may hold: anything but digits, dots and
/// dashes.
pub open spec fn is_name_char(c: char) -> bool {
    !is_digit(c) && c != '.' && c != '-'
}

/// `name` splits into a command part and a version suffix, with an
/// optional single dash between the two.
pub open spec fn suffix_match(name: Seq<char>, cmd: Seq<char>, ver: Seq<char>) -> bool {
    &&& cmd.len() > 0
    &&& forall|i: int| 0 <= i < cmd.len() ==> is_name_char(#[trigger] cmd[i])
    &&& is_version_name(ver)
    &&& (name == cmd + ver || name == cmd + seq!['-'] + ver)
}

/// The grammar is unambiguous: a name splits in at most one way.
pub proof fn lemma_suffix_match_unique(
    name: Seq<char>,
    c1: Seq<char>,
    v1: Seq<char>,
    c2: Seq<char>,
    v2: Seq<char>,
)
    requires
        suffix_match(name, c1, v1),
        suffix_match(name, c2, v2),
    ensures
        c1 == c2,
        v1 == v2,
{
    // The command part ends at the first character no command may hold.
    if c1.len() < c2.len() {
        assert(c2[c1.len() as int] == name[c1.len() as int]);
        if name == c1 + v1 {
            assert(name[c1.len() as int] == v1[0]);
        } else {
            assert(name[c1.len() as int] == '-');
        }
        assert(false);
    } else if c2.len() < c1.len() {
        assert(c1[c2.len() as int] == name[c2.len() as int]);
        if name == c2 + v2 {
            assert(name[c2.len() as int] == v2[0]);
        } else {
            assert(name[c2.len() as int] == '-');
        }
        assert(false);
    }
    assert forall|i: int| 0 <= i < c1.len() implies c1[i] == c2[i] by {
        if name == c1 + v1 {
            assert((c1 + v1)[i] == c1[i]);
        } else {
            assert((c1 + seq!['-'] + v1)[i] == c1[i]);
        }
        if name == c2 + v2 {
            assert((c2 + v2)[i] == c2[i]);
        } else {
            assert((c2 + seq!['-'] + v2)[i] == c2[i]);
        }
    }
    assert(c1 =~= c2);
    let l = c1.len() as int;
    if name == c1 + v1 && name == c2 + seq!['-'] + v2 {
        assert(name[l] == v1[0]);
        assert(name[l] == '-');
        assert(false);
    }
    if name == c1 + seq!['-'] + v1 && name == c2 + v2 {
        assert(name[l] == v2[0]);
        assert(name[l] == '-');
        assert(false);
    }
    if name == c1 + v1 && name == c2 + v2 {
        assert(name.len() == (c1 + v1).len());
        assert(name.len() == (c2 + v2).len());
        assert(v1.len() == v2.len());
        assert forall|i: int| 0 <= i < v1.len() implies v1[i] == v2[i] by {
            assert((c1 + v1)[l + i] == v1[i]);
            assert((c2 + v2)[l + i] == v2[i]);
        }
    } else {
        assert(name == c1 + seq!['-'] + v1 && name == c2 + seq!['-'] + v2);
        assert(name.len() == (c1 + seq!['-'] + v1).len());
        assert(name.len() == (c2 + seq!['-'] + v2).len());
        assert(v1.len() == v2.len());
        assert forall|i: int| 0 <= i < v1.len() implies v1[i] == v2[i] by {
            assert((c1 + seq!['-'] + v1)[l + 1 + i] == v1[i]);
            assert((c2 + seq!['-'] + v2)[l + 1 + i] == v2[i]);
        }
    }
    assert(v1 =~= v2);
}

fn is_digit_exec(c: char) -> (r: bool)
    ensures
        r == is_digit(c),
{
    '0' <= c && c <= '9'
}

fn is_name_char_exec(c: char) -> (r: bool)
    ensures
        r == is_name_char(c),
{
    !is_digit_exec(c) && c != '.' && c != '-'
}

/// Whether the characters of `v` from `start` on form a version name.
fn is_version_from(v: &Vec<char>, start: usize) -> (r: bool)
    requires
        start <= v@.len(),
    ensures
        r == is_version_name(v@.subrange(start as int, v@.len() as int)),
{
    let ghost s = v@.subrange(start as int, v@.len() as int);
    let n = v.len();
    if start == n {
        return false;
    }
    if !is_digit_exec(v[start]) {
        proof {
            assert(s[0] == v@[start as int]);
        }
        return false;
    }
    if !is_digit_exec(v[n - 1]) {
        proof {
            assert(s[s.len() - 1] == v@[n - 1]);
        }
        return false;
    }
    let mut i: usize = start;
    while i < n
        invariant
            start <= i <= n == v@.len(),
            s == v@.subrange(start as int, v@.len() as int),
            forall|j: int| 0 <= j < i - start ==> is_digit(#[trigger] s[j]) || s[j] == '.',
            forall|j: int| 0 <= j < i - start - 1 && #[trigger] s[j] == '.' ==> s[j + 1] != '.',
        decreases n - i,
    {
        let c = v[i];
        proof {
            assert(s[i - start] == v@[i as int]);
        }
        if !is_digit_exec(c) && c != '.' {
            return false;
        }
        if c == '.' && i > start {
            proof {
                assert(s[i - 1 - start] == v@[i - 1]);
            }
            if v[i - 1] == '.' {
                return false;
            }
        }
        i = i + 1;
    }
    true
}

/// Read a candidate binary path against the suffix grammar: the final
/// path component must be a command part followed by a version, and the
/// result carries the two with the path itself.
pub fn parse_command_version(path: &str) -> (r: Option<CommandVersion>)
    ensures
        match r {
            Some(cv) => {
                &&& suffix_match(basename_of(path@), cv.command_name@, cv.version_name@)
                &&& cv.path@ == path@
            },
            None => forall|c: Seq<char>, v: Seq<char>| !suffix_match(basename_of(path@), c, v),
        },
{
    let chars = str_to_chars(path);
    let base = basename_chars(&chars);
    let ghost name = base@;
    let n = base.len();
    let mut k: usize = 0;
    while k < n && is_name_char_exec(base[k])
        invariant
            k <= n == name.len(),
            base@ == name,
            forall|j: int| 0 <= j < k ==> is_name_char(#[trigger] name[j]),
        decreases n - k,
    {
        k = k + 1;
    }
    if k == n {
        // Only command characters: no version suffix can begin anywhere.
        proof {
            assert forall|c: Seq<char>, v: Seq<char>| !suffix_match(name, c, v) by {
                if suffix_match(name, c, v) {
                    let l = c.len() as int;
                    if name == c + v {
                        assert(name[l] == v[0]);
                        assert(is_name_char(name[l]));
                    } else {
                        assert(name[l] == '-');
                        assert(is_name_char(name[l]));
                    }
                }
            }
        }
        return None;
    }
    if k == 0 {
        // The name opens with a digit, dot or dash: no command part fits.
        proof {
            assert(!is_name_char(name[0]));
            assert forall|c: Seq<char>, v: Seq<char>| !suffix_match(name, c, v) by {
                if suffix_match(name, c, v) {
                    assert(c[0] == name[0]);
                }
            }
        }
        return None;
    }
    // The command part can only be name[..k]: position k bears the first
    // character no command may hold.
    proof {
        assert(!is_name_char(name[k as int]));
    }
    let dash = base[k] == '-';
    let vstart: usize = if dash {
        k + 1
    } else {
        k
    };
    let ok = is_version_from(&base, vstart);
    if !ok {
        proof {
            assert forall|c: Seq<char>, v: Seq<char>| !suffix_match(name, c, v) by {
                if suffix_match(name, c, v) {
                    let l = c.len() as int;
                    if l > k {
                        assert(c[k as int] == name[k as int]);
                        assert(is_name_char(name[k as int]));
                    } else if l < k {
                        assert(is_name_char(name[l]));
                        if name == c + v {
                            assert(name[l] == v[0]);
                        } else {
                            assert(name[l] == '-');
                        }
                    } else {
                        if name == c + v {
                            assert(v =~= name.subrange(k as int, name.len() as int));
                            if dash {
                                assert(name[k as int] == '-');
                                assert(is_digit(v[0]));
                                assert(v[0] == name[k as int]);
                            }
                        } else {
                            assert(name[k as int] == '-');
                            assert(dash);
                            assert(v =~= name.subrange(k + 1 as int, name.len() as int));
                        }
                    }
                }
            }
        }
        return None;
    }
    let command = chars_range_to_string(&base, 0, k);
    let version = chars_range_to_string(&base, vstart, base.len());
    let cv = CommandVersion::new(command.as_str(), version.as_str(), path);
    proof {
        if dash {
            assert(name =~= name.subrange(0, k as int) + seq!['-'] + name.subrange(
                k + 1 as int,
                name.len() as int,
            ));
        } else {
            assert(name =~= name.subrange(0, k as int) + name.subrange(
                k as int,
                name.len() as int,
            ));
        }
    }
    Some(cv)
}

} // verus!
