//! Deciding whether a process was started as a shim.
//!
//! A shim is a symlink named after a managed command that points at the
//! management tool. The tool tells the two apart by its zeroth argument:
//! the final path segment, stripped of any extension, either is the tool's
//! own name or names the command to dispatch.

use vstd::prelude::*;

use crate::pathname::{basename_of, last_index_char, lemma_last_index_of, stem_of};
use crate::text::{chars_to_string, str_eq, str_to_chars};

verus! {

/// The name the management tool itself is invoked by.
pub open spec fn tool_name() -> Seq<char> {
    seq!['a', 'l', 't']
}

/// The command a process was invoked as: the final path segment of its
/// zeroth argument, with any extension stripped.
pub fn get_command(arg0: &str) -> (r: String)
    ensures
        r@ == stem_of(basename_of(arg0@)),
{
    let chars = str_to_chars(arg0);
    proof {
        lemma_last_index_of(chars@, '/');
    }
    let bstart: usize = match last_index_char(&chars, '/') {
        Some(j) => j + 1,
        None => 0,
    };
    let mut base: Vec<char> = Vec::new();
    let mut i: usize = bstart;
    while i < chars.len()
        invariant
            bstart <= i <= chars@.len(),
            chars@ == arg0@,
            base@ == arg0@.subrange(bstart as int, i as int),
        decreases chars@.len() - i,
    {
        base.push(chars[i]);
        i = i + 1;
        proof {
            assert(base@ =~= arg0@.subrange(bstart as int, i as int));
        }
    }
    proof {
        assert(base@ =~= basename_of(arg0@));
        lemma_last_index_of(base@, '.');
    }
    match last_index_char(&base, '.') {
        Some(d) => {
            if d == 0 {
                chars_to_string(&base)
            } else {
                let mut stem: Vec<char> = Vec::new();
                let mut k: usize = 0;
                while k < d
                    invariant
                        k <= d < base@.len(),
                        stem@ == base@.subrange(0, k as int),
                    decreases d - k,
                {
                    stem.push(base[k]);
                    k = k + 1;
                    proof {
                        assert(stem@ =~= base@.subrange(0, k as int));
                    }
                }
                chars_to_string(&stem)
            }
        },
        None => chars_to_string(&base),
    }
}

/// Whether the invocation name is a shim: any name but the tool's own.
pub fn is_shim(arg0: &str) -> (r: bool)
    ensures
        r == (stem_of(basename_of(arg0@)) != tool_name()),
{
    let cmd = get_command(arg0);
    let t = "alt";
    proof {
        reveal_strlit("alt");
        assert(t@ =~= tool_name());
    }
    !str_eq(cmd.as_str(), t)
}

} // verus!
