//! Path names as character sequences.
//!
//! Paths are handled as plain strings with `/` as the separator. The spec
//! functions here give the meaning of the few path operations the crate
//! needs: the final component of a path, its stem, the parent directory,
//! and joining a file name under a directory.

use vstd::prelude::*;

verus! {

/// An absolute path starts with the separator.
pub open spec fn is_absolute(s: Seq<char>) -> bool {
    s.len() > 0 && s[0] == '/'
}

/// Index of the last occurrence of `c` in `s`, or -1 if `c` does not occur.
pub open spec fn last_index_of(s: Seq<char>, c: char) -> int
    decreases s.len(),
{
    if s.len() == 0 {
        -1
    } else if s.last() == c {
        s.len() - 1
    } else {
        last_index_of(s.drop_last(), c)
    }
}

/// What `last_index_of` returns: the position of `c` with nothing but
/// other characters after it, or -1 when `c` does not occur at all.
pub proof fn lemma_last_index_of(s: Seq<char>, c: char)
    ensures
        -1 <= last_index_of(s, c) < s.len(),
        last_index_of(s, c) == -1 ==> forall|k: int| 0 <= k < s.len() ==> s[k] != c,
        last_index_of(s, c) >= 0 ==> {
            &&& last_index_of(s, c) < s.len()
            &&& s[last_index_of(s, c)] == c
            &&& forall|k: int| last_index_of(s, c) < k < s.len() ==> s[k] != c
        },
    decreases s.len(),
{
    if s.len() > 0 && s.last() != c {
        lemma_last_index_of(s.drop_last(), c);
        assert(forall|k: int| 0 <= k < s.len() - 1 ==> s[k] == s.drop_last()[k]);
    }
}

/// The converse direction: a position of `c` with no later occurrence
/// is the one `last_index_of` returns.
pub proof fn lemma_last_index_of_is(s: Seq<char>, c: char, j: int)
    requires
        0 <= j < s.len(),
        s[j] == c,
        forall|k: int| j < k < s.len() ==> s[k] != c,
    ensures
        last_index_of(s, c) == j,
    decreases s.len(),
{
    if s.last() != c {
        assert(j < s.len() - 1);
        lemma_last_index_of_is(s.drop_last(), c, j);
    }
}

/// The part of `s` after the last occurrence of `c`; all of `s` if `c`
/// does not occur.
pub open spec fn after_last(s: Seq<char>, c: char) -> Seq<char> {
    s.subrange(last_index_of(s, c) + 1, s.len() as int)
}

/// The final component of a path: everything after the last separator.
pub open spec fn basename_of(s: Seq<char>) -> Seq<char> {
    after_last(s, '/')
}

/// The stem of a file name: the part before the last dot, unless the dot
/// is missing or leads the name, in which case the whole name.
pub open spec fn stem_of(name: Seq<char>) -> Seq<char> {
    let d = last_index_of(name, '.');
    if d <= 0 {
        name
    } else {
        name.subrange(0, d)
    }
}

/// The parent directory of a path, or None for the root and the empty path.
pub open spec fn parent_of(p: Seq<char>) -> Option<Seq<char>> {
    let j = last_index_of(p, '/');
    if p.len() == 0 {
        None
    } else if j == -1 {
        Some(Seq::empty())
    } else if j == 0 {
        if p.len() == 1 {
            None
        } else {
            Some(seq!['/'])
        }
    } else {
        Some(p.subrange(0, j))
    }
}

/// Walking to the parent strictly shortens a path, so an upward walk ends.
pub proof fn lemma_parent_shorter(p: Seq<char>)
    ensures
        parent_of(p) matches Some(q) ==> q.len() < p.len(),
{
    lemma_last_index_of(p, '/');
}

/// `name` joined under the directory `dir`, inserting a separator unless
/// `dir` already ends with one.
pub open spec fn join_seq(dir: Seq<char>, name: Seq<char>) -> Seq<char> {
    if dir.len() > 0 && dir.last() == '/' {
        dir + name
    } else {
        dir + seq!['/'] + name
    }
}

/// `s` with every trailing occurrence of `c` removed.
pub open spec fn rstrip_char(s: Seq<char>, c: char) -> Seq<char>
    decreases s.len(),
{
    if s.len() == 0 {
        s
    } else if s.last() == c {
        rstrip_char(s.drop_last(), c)
    } else {
        s
    }
}

/// Position of the last occurrence of `c` in `v`, if any.
pub fn last_index_char(v: &Vec<char>, c: char) -> (r: Option<usize>)
    ensures
        match r {
            Some(j) => last_index_of(v@, c) == j,
            None => last_index_of(v@, c) == -1,
        },
{
    let mut i: usize = v.len();
    while i > 0
        invariant
            i <= v@.len(),
            forall|k: int| i <= k < v@.len() ==> v@[k] != c,
        decreases i,
    {
        if v[i - 1] == c {
            proof {
                lemma_last_index_of_is(v@, c, i - 1);
            }
            return Some(i - 1);
        }
        i = i - 1;
    }
    proof {
        lemma_last_index_of(v@, c);
    }
    None
}

/// `name` joined under `dir`.
pub fn join_under(dir: &str, name: &str) -> (r: String)
    ensures
        r@ == join_seq(dir@, name@),
{
    let dchars = crate::text::str_to_chars(dir);
    let mut out: Vec<char> = Vec::new();
    let mut i: usize = 0;
    while i < dchars.len()
        invariant
            i <= dchars@.len(),
            dchars@ == dir@,
            out@ == dir@.subrange(0, i as int),
        decreases dchars@.len() - i,
    {
        out.push(dchars[i]);
        i = i + 1;
        proof {
            assert(out@ =~= dir@.subrange(0, i as int));
        }
    }
    proof {
        assert(out@ =~= dir@);
    }
    if dchars.len() == 0 || dchars[dchars.len() - 1] != '/' {
        out.push('/');
    }
    let nchars = crate::text::str_to_chars(name);
    let ghost base = out@;
    let mut j: usize = 0;
    while j < nchars.len()
        invariant
            j <= nchars@.len(),
            nchars@ == name@,
            out@ == base + name@.subrange(0, j as int),
        decreases nchars@.len() - j,
    {
        out.push(nchars[j]);
        j = j + 1;
        proof {
            assert(out@ =~= base + name@.subrange(0, j as int));
        }
    }
    proof {
        assert(out@ =~= join_seq(dir@, name@));
    }
    crate::text::chars_to_string(&out)
}

/// The parent directory of `dir`, if it has one.
pub fn parent_dir(dir: &str) -> (r: Option<String>)
    ensures
        match r {
            Some(p) => parent_of(dir@) == Some(p@),
            None => parent_of(dir@) is None,
        },
{
    let chars = crate::text::str_to_chars(dir);
    proof {
        lemma_last_index_of(chars@, '/');
    }
    match last_index_char(&chars, '/') {
        None => {
            if chars.len() == 0 {
                None
            } else {
                let empty: Vec<char> = Vec::new();
                proof {
                    assert(empty@ =~= Seq::<char>::empty());
                }
                Some(crate::text::chars_to_string(&empty))
            }
        },
        Some(j) => {
            if j == 0 {
                if chars.len() == 1 {
                    None
                } else {
                    let mut root: Vec<char> = Vec::new();
                    root.push('/');
                    proof {
                        assert(root@ =~= seq!['/']);
                    }
                    Some(crate::text::chars_to_string(&root))
                }
            } else {
                let mut out: Vec<char> = Vec::new();
                let mut i: usize = 0;
                while i < j
                    invariant
                        i <= j < chars@.len(),
                        chars@ == dir@,
                        out@ == dir@.subrange(0, i as int),
                    decreases j - i,
                {
                    out.push(chars[i]);
                    i = i + 1;
                    proof {
                        assert(out@ =~= dir@.subrange(0, i as int));
                    }
                }
                Some(crate::text::chars_to_string(&out))
            }
        },
    }
}

/// The characters of the final path component of `chars`.
pub fn basename_chars(chars: &Vec<char>) -> (r: Vec<char>)
    ensures
        r@ == basename_of(chars@),
{
    let n = chars.len();
    proof {
        lemma_last_index_of(chars@, '/');
    }
    let bstart: usize = match last_index_char(chars, '/') {
        Some(j) => {
            proof {
                assert(j < n);
            }
            j + 1
        },
        None => 0,
    };
    let mut base: Vec<char> = Vec::new();
    let mut i: usize = bstart;
    while i < chars.len()
        invariant
            bstart <= i <= chars@.len(),
            base@ == chars@.subrange(bstart as int, i as int),
        decreases chars@.len() - i,
    {
        base.push(chars[i]);
        i = i + 1;
        proof {
            assert(base@ =~= chars@.subrange(bstart as int, i as int));
        }
    }
    proof {
        assert(base@ =~= basename_of(chars@));
    }
    base
}

} // verus!
