//! The text format of the registry file and of the scope override file.
//!
//! Both files are tables of quoted strings. The registry file is a list of
//! sections, each a bracketed command name followed by one line per version;
//! the override file is a single list of such lines:
//!
//! ```text
//! ["node"]
//! "16" = "/opt/node16/bin/node"
//! ```
//!
//! Quotes, backslashes and line breaks inside a string are escaped with a
//! backslash, so any command, version or path round-trips exactly. Writing
//! always quotes; reading is wider, as stored files are: a section name or
//! key of plain letters, digits, dashes and underscores may stand bare,
//! and any run of spaces or tabs may surround the equals sign. The spec
//! functions here define the encoding and the parse of the format; the
//! proofs show that parsing an encoded document gives it back.

use vstd::prelude::*;

verus! {

// ---------------------------------------------------------------------------
// Escaping single characters.
// ---------------------------------------------------------------------------
/// A character that stands for itself inside a quoted string.
pub open spec fn plain_char(c: char) -> bool {
    c != '"' && c != '\\' && c != '\n' && c != '\r' && c != '\t'
}

/// How one character is written inside a quoted string.
pub open spec fn esc_char(c: char) -> Seq<char> {
    if c == '"' {
        seq!['\\', '"']
    } else if c == '\\' {
        seq!['\\', '\\']
    } else if c == '\n' {
        seq!['\\', 'n']
    } else if c == '\r' {
        seq!['\\', 'r']
    } else if c == '\t' {
        seq!['\\', 't']
    } else {
        seq![c]
    }
}

/// The character an escape code stands for, if the code is valid.
pub open spec fn unesc_char(c: char) -> Option<char> {
    if c == '"' {
        Some('"')
    } else if c == '\\' {
        Some('\\')
    } else if c == 'n' {
        Some('\n')
    } else if c == 'r' {
        Some('\r')
    } else if c == 't' {
        Some('\t')
    } else {
        None
    }
}

/// The body of a quoted string: each character escaped.
pub open spec fn encode_str(s: Seq<char>) -> Seq<char>
    decreases s.len(),
{
    if s.len() == 0 {
        Seq::empty()
    } else {
        esc_char(s[0]) + encode_str(s.drop_first())
    }
}

/// A string written in quotes.
pub open spec fn quoted(s: Seq<char>) -> Seq<char> {
    seq!['"'] + encode_str(s) + seq!['"']
}

// ---------------------------------------------------------------------------
// The document model: pairs and sections.
// ---------------------------------------------------------------------------
/// One `"key" = "value"` line.
pub open spec fn encode_pair(k: Seq<char>, v: Seq<char>) -> Seq<char> {
    quoted(k) + seq![' ', '=', ' '] + quoted(v) + seq!['\n']
}

/// A list of pair lines.
pub open spec fn encode_pairs(ps: Seq<(Seq<char>, Seq<char>)>) -> Seq<char>
    decreases ps.len(),
{
    if ps.len() == 0 {
        Seq::empty()
    } else {
        encode_pair(ps[0].0, ps[0].1) + encode_pairs(ps.drop_first())
    }
}

/// A section: a bracketed name line followed by its pair lines.
pub open spec fn encode_section(name: Seq<char>, ps: Seq<(Seq<char>, Seq<char>)>) -> Seq<char> {
    seq!['['] + quoted(name) + seq![']', '\n'] + encode_pairs(ps)
}

/// A whole document of sections.
pub open spec fn encode_sections(ss: Seq<(Seq<char>, Seq<(Seq<char>, Seq<char>)>)>) -> Seq<char>
    decreases ss.len(),
{
    if ss.len() == 0 {
        Seq::empty()
    } else {
        encode_section(ss[0].0, ss[0].1) + encode_sections(ss.drop_first())
    }
}

/// No two pairs share a key.
pub open spec fn distinct_keys(ps: Seq<(Seq<char>, Seq<char>)>) -> bool {
    forall|i: int, j: int| 0 <= i < j < ps.len() ==> ps[i].0 != ps[j].0
}

// ---------------------------------------------------------------------------
// Parsing. Each function reads from position `i` of `s` and returns the
// parsed value with the position after it, or None if the text does not
// follow the format.
// ---------------------------------------------------------------------------
/// Parse the rest of a quoted string, starting just after the opening
/// quote; ends at the closing quote.
pub open spec fn parse_qstr(s: Seq<char>, i: int) -> Option<(Seq<char>, int)>
    decreases s.len() - i,
{
    if i < 0 || i >= s.len() {
        None
    } else if s[i] == '"' {
        Some((Seq::empty(), i + 1))
    } else if s[i] == '\n' || s[i] == '\r' {
        None
    } else if s[i] == '\\' {
        if i + 1 >= s.len() {
            None
        } else {
            match unesc_char(s[i + 1]) {
                Some(c) => match parse_qstr(s, i + 2) {
                    Some(d) => Some((seq![c] + d.0, d.1)),
                    None => None,
                },
                None => None,
            }
        }
    } else {
        match parse_qstr(s, i + 1) {
            Some(d) => Some((seq![s[i]] + d.0, d.1)),
            None => None,
        }
    }
}

/// A successful parse of a quoted string moves forward and stays in bounds.
pub proof fn lemma_parse_qstr_pos(s: Seq<char>, i: int)
    ensures
        parse_qstr(s, i) matches Some(d) ==> i < d.1 <= s.len(),
    decreases s.len() - i,
{
    if 0 <= i < s.len() {
        if s[i] == '\\' {
            if i + 2 <= s.len() {
                lemma_parse_qstr_pos(s, i + 2);
            }
        } else {
            lemma_parse_qstr_pos(s, i + 1);
        }
    }
}

/// A character a bare (unquoted) key may hold: ASCII letters and
/// digits, dashes and underscores.
pub open spec fn bare_key_char(c: char) -> bool {
    ('a' <= c && c <= 'z') || ('A' <= c && c <= 'Z') || ('0' <= c && c <= '9') || c == '-' || c
        == '_'
}

/// Inline whitespace, as allowed around the equals sign of a pair line.
pub open spec fn ws_char(c: char) -> bool {
    c == ' ' || c == '\t'
}

/// Parse a bare key: the longest run of bare-key characters at `i`.
pub open spec fn parse_bare(s: Seq<char>, i: int) -> Option<(Seq<char>, int)>
    decreases s.len() - i,
{
    if i < 0 || i >= s.len() || !bare_key_char(s[i]) {
        None
    } else {
        match parse_bare(s, i + 1) {
            Some(w) => Some((seq![s[i]] + w.0, w.1)),
            None => Some((seq![s[i]], i + 1)),
        }
    }
}

pub proof fn lemma_parse_bare_pos(s: Seq<char>, i: int)
    ensures
        parse_bare(s, i) matches Some(w) ==> i < w.1 <= s.len(),
    decreases s.len() - i,
{
    if 0 <= i < s.len() && bare_key_char(s[i]) {
        lemma_parse_bare_pos(s, i + 1);
    }
}

/// Parse a key, written in quotes or bare.
pub open spec fn parse_key(s: Seq<char>, i: int) -> Option<(Seq<char>, int)> {
    if i < 0 || i >= s.len() {
        None
    } else if s[i] == '"' {
        parse_qstr(s, i + 1)
    } else {
        parse_bare(s, i)
    }
}

pub proof fn lemma_parse_key_pos(s: Seq<char>, i: int)
    ensures
        parse_key(s, i) matches Some(k) ==> i < k.1 <= s.len(),
{
    lemma_parse_qstr_pos(s, i + 1);
    lemma_parse_bare_pos(s, i);
}

/// The position after any inline whitespace at `i`.
pub open spec fn skip_ws(s: Seq<char>, i: int) -> int
    decreases s.len() - i,
{
    if 0 <= i < s.len() && ws_char(s[i]) {
        skip_ws(s, i + 1)
    } else {
        i
    }
}

pub proof fn lemma_skip_ws_pos(s: Seq<char>, i: int)
    requires
        0 <= i <= s.len(),
    ensures
        i <= skip_ws(s, i) <= s.len(),
    decreases s.len() - i,
{
    if i < s.len() && ws_char(s[i]) {
        lemma_skip_ws_pos(s, i + 1);
    }
}

/// Parse pair lines until the end of the text or a section header.
pub open spec fn parse_pairs(s: Seq<char>, i: int) -> Option<
    (Seq<(Seq<char>, Seq<char>)>, int),
>
    decreases s.len() - i,
    via parse_pairs_decreases
{
    if i < 0 || i > s.len() {
        None
    } else if i == s.len() || s[i] == '[' {
        Some((Seq::empty(), i))
    } else if s[i] == '"' || bare_key_char(s[i]) {
        match parse_key(s, i) {
            Some(k) => {
                let j = skip_ws(s, k.1);
                if j < s.len() && s[j] == '=' {
                    let j2 = skip_ws(s, j + 1);
                    if j2 < s.len() && s[j2] == '"' {
                        match parse_qstr(s, j2 + 1) {
                            Some(v) => {
                                let m = v.1;
                                if m < s.len() && s[m] == '\n' {
                                    match parse_pairs(s, m + 1) {
                                        Some(rest) => Some(
                                            (seq![(k.0, v.0)] + rest.0, rest.1),
                                        ),
                                        None => None,
                                    }
                                } else {
                                    None
                                }
                            },
                            None => None,
                        }
                    } else {
                        None
                    }
                } else {
                    None
                }
            },
            None => None,
        }
    } else {
        None
    }
}

#[via_fn]
proof fn parse_pairs_decreases(s: Seq<char>, i: int) {
    if 0 <= i < s.len() && (s[i] == '"' || bare_key_char(s[i])) {
        lemma_parse_key_pos(s, i);
        if let Some(k) = parse_key(s, i) {
            lemma_skip_ws_pos(s, k.1);
            let j = skip_ws(s, k.1);
            if j < s.len() && s[j] == '=' {
                lemma_skip_ws_pos(s, j + 1);
                let j2 = skip_ws(s, j + 1);
                if j2 < s.len() && s[j2] == '"' {
                    lemma_parse_qstr_pos(s, j2 + 1);
                }
            }
        }
    }
}

/// Parsed pair lines end at the end of the text or at a section header,
/// and never move backwards.
pub proof fn lemma_parse_pairs_pos(s: Seq<char>, i: int)
    ensures
        parse_pairs(s, i) matches Some(r) ==> {
            &&& i <= r.1 <= s.len()
            &&& (r.1 == s.len() || s[r.1] == '[')
        },
    decreases s.len() - i,
{
    if 0 <= i < s.len() && s[i] != '[' && (s[i] == '"' || bare_key_char(s[i])) {
        lemma_parse_key_pos(s, i);
        if let Some(k) = parse_key(s, i) {
            lemma_skip_ws_pos(s, k.1);
            let j = skip_ws(s, k.1);
            if j < s.len() && s[j] == '=' {
                lemma_skip_ws_pos(s, j + 1);
                let j2 = skip_ws(s, j + 1);
                if j2 < s.len() && s[j2] == '"' {
                    lemma_parse_qstr_pos(s, j2 + 1);
                    if let Some(v) = parse_qstr(s, j2 + 1) {
                        let m = v.1;
                        if m < s.len() && s[m] == '\n' {
                            lemma_parse_pairs_pos(s, m + 1);
                        }
                    }
                }
            }
        }
    }
}

/// Parse a document: sections until the end of the text.
pub open spec fn parse_sections(s: Seq<char>, i: int) -> Option<
    (Seq<(Seq<char>, Seq<(Seq<char>, Seq<char>)>)>, int),
>
    decreases s.len() - i,
    via parse_sections_decreases
{
    if i < 0 || i > s.len() {
        None
    } else if i == s.len() {
        Some((Seq::empty(), i))
    } else if s[i] == '[' {
        match parse_key(s, i + 1) {
            Some(name) => {
                let j = name.1;
                if j + 1 < s.len() && s[j] == ']' && s[j + 1] == '\n' {
                    match parse_pairs(s, j + 2) {
                        Some(ps) => match parse_sections(s, ps.1) {
                            Some(rest) => Some(
                                (seq![(name.0, ps.0)] + rest.0, rest.1),
                            ),
                            None => None,
                        },
                        None => None,
                    }
                } else {
                    None
                }
            },
            None => None,
        }
    } else {
        None
    }
}

#[via_fn]
proof fn parse_sections_decreases(s: Seq<char>, i: int) {
    if 0 <= i < s.len() && s[i] == '[' {
        lemma_parse_key_pos(s, i + 1);
        if let Some(name) = parse_key(s, i + 1) {
            let j = name.1;
            if j + 1 < s.len() && s[j] == ']' && s[j + 1] == '\n' {
                lemma_parse_pairs_pos(s, j + 2);
            }
        }
    }
}

// ---------------------------------------------------------------------------
// Round trip: parsing an encoded document yields the document.
// ---------------------------------------------------------------------------
/// The text `t` occurs in `s` at position `i`.
pub open spec fn agrees(s: Seq<char>, i: int, t: Seq<char>) -> bool {
    &&& 0 <= i
    &&& i + t.len() <= s.len()
    &&& forall|k: int| 0 <= k < t.len() ==> s[i + k] == #[trigger] t[k]
}

pub proof fn lemma_agrees_index(s: Seq<char>, i: int, t: Seq<char>, k: int)
    requires
        agrees(s, i, t),
        0 <= k < t.len(),
    ensures
        s[i + k] == t[k],
{
}

/// Splitting an occurrence of a concatenation into its two halves.
pub proof fn lemma_agrees_split(s: Seq<char>, i: int, a: Seq<char>, b: Seq<char>)
    requires
        agrees(s, i, a + b),
    ensures
        agrees(s, i, a),
        agrees(s, i + a.len(), b),
{
    assert forall|k: int| 0 <= k < a.len() implies s[i + k] == #[trigger] a[k] by {
        assert((a + b)[k] == a[k]);
    }
    assert forall|k: int| 0 <= k < b.len() implies s[i + a.len() + k] == #[trigger] b[k] by {
        assert((a + b)[a.len() + k] == b[k]);
    }
}

/// An encoded string followed by its closing quote parses back to the
/// string, ending just after the quote.
pub proof fn lemma_parse_encode_qstr(s: Seq<char>, i: int, x: Seq<char>)
    requires
        agrees(s, i, encode_str(x) + seq!['"']),
    ensures
        parse_qstr(s, i) == Some((x, i + encode_str(x).len() + 1)),
    decreases x.len(),
{
    let e_all = encode_str(x) + seq!['"'];
    if x.len() == 0 {
        assert(encode_str(x) =~= Seq::<char>::empty());
        assert(e_all[0] == '"');
        lemma_agrees_index(s, i, e_all, 0);
    } else {
        let c = x[0];
        let e = esc_char(c);
        let rest = x.drop_first();
        assert(encode_str(x) == e + encode_str(rest));
        assert(e_all =~= e + (encode_str(rest) + seq!['"']));
        lemma_agrees_split(s, i, e, encode_str(rest) + seq!['"']);
        lemma_parse_encode_qstr(s, i + e.len(), rest);
        if plain_char(c) {
            assert(e[0] == c);
            lemma_agrees_index(s, i, e, 0);
            assert(seq![s[i]] + rest =~= x);
        } else {
            assert(e[0] == '\\');
            lemma_agrees_index(s, i, e, 0);
            lemma_agrees_index(s, i, e, 1);
            assert(unesc_char(e[1]) == Some(c));
            assert(seq![c] + rest =~= x);
        }
    }
}

/// Encoded pair lines parse back to the pairs, given that the text goes
/// on with a section header or ends there.
pub proof fn lemma_parse_encode_pairs(s: Seq<char>, i: int, ps: Seq<(Seq<char>, Seq<char>)>)
    requires
        agrees(s, i, encode_pairs(ps)),
        i + encode_pairs(ps).len() == s.len() || s[i + encode_pairs(ps).len()] == '[',
    ensures
        parse_pairs(s, i) == Some((ps, i + encode_pairs(ps).len())),
    decreases ps.len(),
{
    let e_all = encode_pairs(ps);
    if ps.len() == 0 {
        assert(e_all =~= Seq::<char>::empty());
    } else {
        let k = ps[0].0;
        let v = ps[0].1;
        let rest = ps.drop_first();
        let ek = encode_str(k);
        let ev = encode_str(v);
        let pair = encode_pair(k, v);
        assert(e_all == pair + encode_pairs(rest));
        lemma_agrees_split(s, i, pair, encode_pairs(rest));
        // Break the pair line into the pieces the parser reads.
        let mid = seq![' ', '=', ' ', '"'];
        assert(pair =~= seq!['"'] + ((ek + seq!['"']) + (mid + ((ev + seq!['"'])
            + seq!['\n']))));
        lemma_agrees_split(s, i, seq!['"'], (ek + seq!['"']) + (mid + ((ev + seq!['"'])
            + seq!['\n'])));
        lemma_agrees_index(s, i, seq!['"'], 0);
        let i1 = i + 1;
        lemma_agrees_split(s, i1, ek + seq!['"'], mid + ((ev + seq!['"']) + seq!['\n']));
        lemma_parse_encode_qstr(s, i1, k);
        let j = i1 + ek.len() + 1;
        lemma_agrees_split(s, j, mid, (ev + seq!['"']) + seq!['\n']);
        lemma_agrees_index(s, j, mid, 0);
        lemma_agrees_index(s, j, mid, 1);
        lemma_agrees_index(s, j, mid, 2);
        lemma_agrees_index(s, j, mid, 3);
        // The written form has exactly one space on each side of `=`.
        assert(skip_ws(s, j) == skip_ws(s, j + 1));
        assert(skip_ws(s, j + 1) == j + 1);
        assert(skip_ws(s, j + 2) == skip_ws(s, j + 3));
        assert(skip_ws(s, j + 3) == j + 3);
        let i2 = j + 4;
        lemma_agrees_split(s, i2, ev + seq!['"'], seq!['\n']);
        lemma_parse_encode_qstr(s, i2, v);
        let m = i2 + ev.len() + 1;
        lemma_agrees_index(s, m, seq!['\n'], 0);
        lemma_parse_encode_pairs(s, m + 1, rest);
        assert(seq![(k, v)] + rest =~= ps);
    }
}

/// Encoded sections parse back to the sections, consuming the whole text.
pub proof fn lemma_parse_encode_sections_at(
    s: Seq<char>,
    i: int,
    ss: Seq<(Seq<char>, Seq<(Seq<char>, Seq<char>)>)>,
)
    requires
        agrees(s, i, encode_sections(ss)),
        i + encode_sections(ss).len() == s.len(),
    ensures
        parse_sections(s, i) == Some((ss, s.len() as int)),
    decreases ss.len(),
{
    let e_all = encode_sections(ss);
    if ss.len() == 0 {
        assert(e_all =~= Seq::<char>::empty());
    } else {
        let name = ss[0].0;
        let ps = ss[0].1;
        let rest = ss.drop_first();
        let en = encode_str(name);
        let sec = encode_section(name, ps);
        assert(e_all == sec + encode_sections(rest));
        lemma_agrees_split(s, i, sec, encode_sections(rest));
        let head = seq!['[', '"'];
        assert(sec =~= head + ((en + seq!['"']) + (seq![']', '\n'] + encode_pairs(ps))));
        lemma_agrees_split(s, i, head, (en + seq!['"']) + (seq![']', '\n'] + encode_pairs(
            ps,
        )));
        lemma_agrees_index(s, i, head, 0);
        lemma_agrees_index(s, i, head, 1);
        assert(parse_key(s, i + 1) == parse_qstr(s, i + 2));
        let i1 = i + 2;
        lemma_agrees_split(s, i1, en + seq!['"'], seq![']', '\n'] + encode_pairs(ps));
        lemma_parse_encode_qstr(s, i1, name);
        let j = i1 + en.len() + 1;
        lemma_agrees_split(s, j, seq![']', '\n'], encode_pairs(ps));
        lemma_agrees_index(s, j, seq![']', '\n'], 0);
        lemma_agrees_index(s, j, seq![']', '\n'], 1);
        let i2 = j + 2;
        // After this section's pairs the text ends or the next section opens.
        let after = i2 + encode_pairs(ps).len();
        if rest.len() > 0 {
            assert(encode_sections(rest) == encode_section(rest[0].0, rest[0].1)
                + encode_sections(rest.drop_first()));
            assert(encode_sections(rest)[0] == '[');
            lemma_agrees_index(s, i + sec.len(), encode_sections(rest), 0);
            assert(s[after] == '[');
        }
        lemma_parse_encode_pairs(s, i2, ps);
        lemma_parse_encode_sections_at(s, after, rest);
        assert(seq![(name, ps)] + rest =~= ss);
    }
}

/// Top-level round trip for a document of sections.
pub proof fn lemma_parse_encode_sections(ss: Seq<(Seq<char>, Seq<(Seq<char>, Seq<char>)>)>)
    ensures
        parse_sections(encode_sections(ss), 0) == Some(
            (ss, encode_sections(ss).len() as int),
        ),
{
    lemma_parse_encode_sections_at(encode_sections(ss), 0, ss);
}

/// Top-level round trip for a document of bare pairs.
pub proof fn lemma_parse_encode_pairs_only(ps: Seq<(Seq<char>, Seq<char>)>)
    ensures
        parse_pairs(encode_pairs(ps), 0) == Some((ps, encode_pairs(ps).len() as int)),
{
    lemma_parse_encode_pairs(encode_pairs(ps), 0, ps);
}


// ---------------------------------------------------------------------------
// Views of executable documents.
// ---------------------------------------------------------------------------
/// The pair of character sequences a pair of strings stands for.
pub open spec fn pair_view(p: (String, String)) -> (Seq<char>, Seq<char>) {
    (p.0@, p.1@)
}

pub open spec fn pairs_view(ps: Seq<(String, String)>) -> Seq<(Seq<char>, Seq<char>)> {
    ps.map_values(|p: (String, String)| pair_view(p))
}

pub open spec fn sections_view(ss: Seq<(String, Vec<(String, String)>)>) -> Seq<
    (Seq<char>, Seq<(Seq<char>, Seq<char>)>),
> {
    ss.map_values(|sec: (String, Vec<(String, String)>)| (sec.0@, pairs_view(sec.1@)))
}

// ---------------------------------------------------------------------------
// Executable encoding.
// ---------------------------------------------------------------------------
/// Append one escaped character.
fn push_esc(out: &mut Vec<char>, c: char)
    ensures
        final(out)@ == old(out)@ + esc_char(c),
{
    if c == '"' {
        out.push('\\');
        out.push('"');
    } else if c == '\\' {
        out.push('\\');
        out.push('\\');
    } else if c == '\n' {
        out.push('\\');
        out.push('n');
    } else if c == '\r' {
        out.push('\\');
        out.push('r');
    } else if c == '\t' {
        out.push('\\');
        out.push('t');
    } else {
        out.push(c);
    }
    proof {
        assert(out@ =~= old(out)@ + esc_char(c));
    }
}

/// Encoding one more character extends the encoding at the end.
proof fn lemma_encode_str_snoc(t: Seq<char>, c: char)
    ensures
        encode_str(t.push(c)) == encode_str(t) + esc_char(c),
    decreases t.len(),
{
    if t.len() == 0 {
        assert(t.push(c).drop_first() =~= Seq::<char>::empty());
        assert(encode_str(Seq::<char>::empty()) =~= Seq::<char>::empty());
        assert(encode_str(t.push(c)) =~= encode_str(t) + esc_char(c));
    } else {
        assert(t.push(c).drop_first() =~= t.drop_first().push(c));
        lemma_encode_str_snoc(t.drop_first(), c);
        assert(t.push(c)[0] == t[0]);
        assert(encode_str(t.push(c)) == esc_char(t[0]) + encode_str(t.drop_first().push(c)));
        assert(encode_str(t.push(c)) =~= encode_str(t) + esc_char(c));
    }
}

/// Append the escaped body of `s`.
fn push_encoded(out: &mut Vec<char>, s: &str)
    ensures
        final(out)@ == old(out)@ + encode_str(s@),
{
    let len = s.unicode_len();
    let mut i: usize = 0;
    proof {
        assert(s@.subrange(0, 0) =~= Seq::<char>::empty());
        assert(encode_str(s@.subrange(0, 0)) =~= Seq::<char>::empty());
        assert(out@ =~= old(out)@ + encode_str(s@.subrange(0, 0)));
    }
    while i < len
        invariant
            i <= len,
            len == s@.len(),
            out@ == old(out)@ + encode_str(s@.subrange(0, i as int)),
        decreases len - i,
    {
        let c = s.get_char(i);
        push_esc(out, c);
        proof {
            assert(s@.subrange(0, i + 1 as int) =~= s@.subrange(0, i as int).push(c));
            lemma_encode_str_snoc(s@.subrange(0, i as int), c);
        }
        i = i + 1;
    }
    proof {
        assert(s@.subrange(0, len as int) =~= s@);
    }
}

/// Append `s` written in quotes.
fn push_quoted(out: &mut Vec<char>, s: &str)
    ensures
        final(out)@ == old(out)@ + quoted(s@),
{
    out.push('"');
    push_encoded(out, s);
    out.push('"');
    proof {
        assert(out@ =~= old(out)@ + quoted(s@));
    }
}

/// Append one `"key" = "value"` line.
fn push_pair(out: &mut Vec<char>, k: &str, v: &str)
    ensures
        final(out)@ == old(out)@ + encode_pair(k@, v@),
{
    push_quoted(out, k);
    out.push(' ');
    out.push('=');
    out.push(' ');
    push_quoted(out, v);
    out.push('\n');
    proof {
        assert(out@ =~= old(out)@ + encode_pair(k@, v@));
    }
}

proof fn lemma_encode_pairs_snoc(ps: Seq<(Seq<char>, Seq<char>)>, p: (Seq<char>, Seq<char>))
    ensures
        encode_pairs(ps.push(p)) == encode_pairs(ps) + encode_pair(p.0, p.1),
    decreases ps.len(),
{
    if ps.len() == 0 {
        assert(ps.push(p).drop_first() =~= Seq::<(Seq<char>, Seq<char>)>::empty());
        assert(encode_pairs(Seq::<(Seq<char>, Seq<char>)>::empty()) =~= Seq::<char>::empty());
        assert(encode_pairs(ps.push(p)) =~= encode_pairs(ps) + encode_pair(p.0, p.1));
    } else {
        assert(ps.push(p).drop_first() =~= ps.drop_first().push(p));
        lemma_encode_pairs_snoc(ps.drop_first(), p);
        assert(ps.push(p)[0] == ps[0]);
        assert(encode_pairs(ps.push(p)) == encode_pair(ps[0].0, ps[0].1) + encode_pairs(
            ps.drop_first().push(p),
        ));
        assert(encode_pairs(ps.push(p)) =~= encode_pairs(ps) + encode_pair(p.0, p.1));
    }
}

proof fn lemma_encode_sections_snoc(
    ss: Seq<(Seq<char>, Seq<(Seq<char>, Seq<char>)>)>,
    sec: (Seq<char>, Seq<(Seq<char>, Seq<char>)>),
)
    ensures
        encode_sections(ss.push(sec)) == encode_sections(ss) + encode_section(sec.0, sec.1),
    decreases ss.len(),
{
    if ss.len() == 0 {
        assert(ss.push(sec).drop_first() =~= Seq::<
            (Seq<char>, Seq<(Seq<char>, Seq<char>)>),
        >::empty());
        assert(encode_sections(Seq::<(Seq<char>, Seq<(Seq<char>, Seq<char>)>)>::empty())
            =~= Seq::<char>::empty());
        assert(encode_sections(ss.push(sec)) =~= encode_sections(ss) + encode_section(
            sec.0,
            sec.1,
        ));
    } else {
        assert(ss.push(sec).drop_first() =~= ss.drop_first().push(sec));
        lemma_encode_sections_snoc(ss.drop_first(), sec);
        assert(ss.push(sec)[0] == ss[0]);
        assert(encode_sections(ss.push(sec)) == encode_section(ss[0].0, ss[0].1)
            + encode_sections(ss.drop_first().push(sec)));
        assert(encode_sections(ss.push(sec)) =~= encode_sections(ss) + encode_section(
            sec.0,
            sec.1,
        ));
    }
}

/// Append the pair lines of a whole list.
pub(crate) fn push_pairs(out: &mut Vec<char>, ps: &Vec<(String, String)>)
    ensures
        final(out)@ == old(out)@ + encode_pairs(pairs_view(ps@)),
{
    let mut i: usize = 0;
    proof {
        assert(pairs_view(ps@.subrange(0, 0)) =~= Seq::<(Seq<char>, Seq<char>)>::empty());
        assert(out@ =~= old(out)@ + encode_pairs(pairs_view(ps@.subrange(0, 0))));
    }
    while i < ps.len()
        invariant
            i <= ps@.len(),
            out@ == old(out)@ + encode_pairs(pairs_view(ps@.subrange(0, i as int))),
        decreases ps@.len() - i,
    {
        push_pair(out, ps[i].0.as_str(), ps[i].1.as_str());
        proof {
            assert(pairs_view(ps@.subrange(0, i + 1 as int)) =~= pairs_view(
                ps@.subrange(0, i as int),
            ).push(pair_view(ps@[i as int])));
            lemma_encode_pairs_snoc(
                pairs_view(ps@.subrange(0, i as int)),
                pair_view(ps@[i as int]),
            );
        }
        i = i + 1;
    }
    proof {
        assert(ps@.subrange(0, ps@.len() as int) =~= ps@);
    }
}

/// Encode a whole document of sections.
pub(crate) fn encode_sections_exec(ss: &Vec<(String, Vec<(String, String)>)>) -> (r: Vec<char>)
    ensures
        r@ == encode_sections(sections_view(ss@)),
{
    let mut out: Vec<char> = Vec::new();
    let mut i: usize = 0;
    proof {
        assert(sections_view(ss@.subrange(0, 0)) =~= Seq::<
            (Seq<char>, Seq<(Seq<char>, Seq<char>)>),
        >::empty());
        assert(out@ =~= encode_sections(sections_view(ss@.subrange(0, 0))));
    }
    while i < ss.len()
        invariant
            i <= ss@.len(),
            out@ == encode_sections(sections_view(ss@.subrange(0, i as int))),
        decreases ss@.len() - i,
    {
        let ghost out0 = out@;
        out.push('[');
        push_quoted(&mut out, ss[i].0.as_str());
        out.push(']');
        out.push('\n');
        push_pairs(&mut out, &ss[i].1);
        proof {
            let sec = (ss@[i as int].0@, pairs_view(ss@[i as int].1@));
            assert(out@ =~= out0 + encode_section(sec.0, sec.1));
            assert(sections_view(ss@.subrange(0, i + 1 as int)) =~= sections_view(
                ss@.subrange(0, i as int),
            ).push(sec));
            lemma_encode_sections_snoc(sections_view(ss@.subrange(0, i as int)), sec);
        }
        i = i + 1;
    }
    proof {
        assert(ss@.subrange(0, ss@.len() as int) =~= ss@);
    }
    out
}


// ---------------------------------------------------------------------------
// Executable parsing. Each function mirrors its spec counterpart.
// ---------------------------------------------------------------------------
fn unesc_exec(c: char) -> (r: Option<char>)
    ensures
        r == unesc_char(c),
{
    if c == '"' {
        Some('"')
    } else if c == '\\' {
        Some('\\')
    } else if c == 'n' {
        Some('\n')
    } else if c == 'r' {
        Some('\r')
    } else if c == 't' {
        Some('\t')
    } else {
        None
    }
}

/// Parse the rest of a quoted string from position `i` of `s`.
pub(crate) fn parse_qstr_exec(s: &Vec<char>, i: usize) -> (r: Option<(Vec<char>, usize)>)
    requires
        i <= s@.len(),
    ensures
        match r {
            Some(d) => {
                &&& parse_qstr(s@, i as int) == Some((d.0@, d.1 as int))
                &&& i < d.1 <= s@.len()
            },
            None => parse_qstr(s@, i as int) is None,
        },
    decreases s@.len() - i,
{
    if i >= s.len() {
        return None;
    }
    let c = s[i];
    if c == '"' {
        let empty: Vec<char> = Vec::new();
        proof {
            assert(empty@ =~= Seq::<char>::empty());
        }
        Some((empty, i + 1))
    } else if c == '\n' || c == '\r' {
        None
    } else if c == '\\' {
        if i + 1 >= s.len() {
            return None;
        }
        match unesc_exec(s[i + 1]) {
            Some(u) => match parse_qstr_exec(s, i + 2) {
                Some((d, j)) => {
                    let mut d = d;
                    let ghost d0 = d@;
                    d.insert(0, u);
                    proof {
                        assert(d@ =~= seq![u] + d0);
                    }
                    Some((d, j))
                },
                None => None,
            },
            None => None,
        }
    } else {
        match parse_qstr_exec(s, i + 1) {
            Some((d, j)) => {
                let mut d = d;
                let ghost d0 = d@;
                d.insert(0, c);
                proof {
                    assert(d@ =~= seq![c] + d0);
                }
                Some((d, j))
            },
            None => None,
        }
    }
}


fn bare_key_char_exec(c: char) -> (r: bool)
    ensures
        r == bare_key_char(c),
{
    ('a' <= c && c <= 'z') || ('A' <= c && c <= 'Z') || ('0' <= c && c <= '9') || c == '-' || c
        == '_'
}

/// Parse a bare key from position `i` of `s`.
fn parse_bare_exec(s: &Vec<char>, i: usize) -> (r: Option<(Vec<char>, usize)>)
    requires
        i <= s@.len(),
    ensures
        match r {
            Some(d) => {
                &&& parse_bare(s@, i as int) == Some((d.0@, d.1 as int))
                &&& i < d.1 <= s@.len()
            },
            None => parse_bare(s@, i as int) is None,
        },
    decreases s@.len() - i,
{
    if i >= s.len() {
        return None;
    }
    let c = s[i];
    if !bare_key_char_exec(c) {
        return None;
    }
    match parse_bare_exec(s, i + 1) {
        Some((d, j)) => {
            let mut d = d;
            let ghost d0 = d@;
            d.insert(0, c);
            proof {
                assert(d@ =~= seq![c] + d0);
            }
            Some((d, j))
        },
        None => {
            let mut w: Vec<char> = Vec::new();
            w.push(c);
            proof {
                assert(w@ =~= seq![c]);
            }
            Some((w, i + 1))
        },
    }
}

/// Parse a quoted or bare key from position `i` of `s`.
fn parse_key_exec(s: &Vec<char>, i: usize) -> (r: Option<(Vec<char>, usize)>)
    requires
        i <= s@.len(),
    ensures
        match r {
            Some(d) => {
                &&& parse_key(s@, i as int) == Some((d.0@, d.1 as int))
                &&& i < d.1 <= s@.len()
            },
            None => parse_key(s@, i as int) is None,
        },
{
    if i >= s.len() {
        return None;
    }
    if s[i] == '"' {
        parse_qstr_exec(s, i + 1)
    } else {
        parse_bare_exec(s, i)
    }
}

/// The position after any inline whitespace at `i`.
fn skip_ws_exec(s: &Vec<char>, i: usize) -> (r: usize)
    requires
        i <= s@.len(),
    ensures
        r as int == skip_ws(s@, i as int),
        i <= r <= s@.len(),
{
    let mut j: usize = i;
    while j < s.len() && (s[j] == ' ' || s[j] == '\t')
        invariant
            i <= j <= s@.len(),
            skip_ws(s@, i as int) == skip_ws(s@, j as int),
        decreases s@.len() - j,
    {
        j = j + 1;
    }
    j
}

/// Parse pair lines from position `i` of `s`.
pub(crate) fn parse_pairs_exec(s: &Vec<char>, i: usize) -> (r: Option<
    (Vec<(String, String)>, usize),
>)
    requires
        i <= s@.len(),
    ensures
        match r {
            Some(d) => {
                &&& parse_pairs(s@, i as int) == Some((pairs_view(d.0@), d.1 as int))
                &&& i <= d.1 <= s@.len()
            },
            None => parse_pairs(s@, i as int) is None,
        },
    decreases s@.len() - i,
{
    if i == s.len() {
        let empty: Vec<(String, String)> = Vec::new();
        proof {
            assert(pairs_view(empty@) =~= Seq::<(Seq<char>, Seq<char>)>::empty());
        }
        return Some((empty, i));
    }
    let c = s[i];
    if c == '[' {
        let empty: Vec<(String, String)> = Vec::new();
        proof {
            assert(pairs_view(empty@) =~= Seq::<(Seq<char>, Seq<char>)>::empty());
        }
        return Some((empty, i));
    }
    if c != '"' && !bare_key_char_exec(c) {
        return None;
    }
    match parse_key_exec(s, i) {
        Some((kv, j)) => {
            let j = skip_ws_exec(s, j);
            if j < s.len() && s[j] == '=' {
                let j2 = skip_ws_exec(s, j + 1);
                if j2 < s.len() && s[j2] == '"' {
                    match parse_qstr_exec(s, j2 + 1) {
                        Some((vv, m)) => {
                            if m < s.len() && s[m] == '\n' {
                                match parse_pairs_exec(s, m + 1) {
                                    Some((ps, end)) => {
                                        let mut ps = ps;
                                        let ghost ps0 = ps@;
                                        let k = crate::text::chars_to_string(&kv);
                                        let v = crate::text::chars_to_string(&vv);
                                        ps.insert(0, (k, v));
                                        proof {
                                            assert(pairs_view(ps@) =~= seq![(kv@, vv@)]
                                                + pairs_view(ps0));
                                        }
                                        Some((ps, end))
                                    },
                                    None => None,
                                }
                            } else {
                                None
                            }
                        },
                        None => None,
                    }
                } else {
                    None
                }
            } else {
                None
            }
        },
        None => None,
    }
}

/// Parse a whole document of sections from position `i` of `s`.
pub(crate) fn parse_sections_exec(s: &Vec<char>, i: usize) -> (r: Option<
    (Vec<(String, Vec<(String, String)>)>, usize),
>)
    requires
        i <= s@.len(),
    ensures
        match r {
            Some(d) => {
                &&& parse_sections(s@, i as int) == Some((sections_view(d.0@), d.1 as int))
                &&& i <= d.1 <= s@.len()
            },
            None => parse_sections(s@, i as int) is None,
        },
    decreases s@.len() - i,
{
    if i == s.len() {
        let empty: Vec<(String, Vec<(String, String)>)> = Vec::new();
        proof {
            assert(sections_view(empty@) =~= Seq::<
                (Seq<char>, Seq<(Seq<char>, Seq<char>)>),
            >::empty());
        }
        return Some((empty, i));
    }
    if s[i] != '[' {
        return None;
    }
    match parse_key_exec(s, i + 1) {
        Some((nv, j)) => {
            if s.len() - j > 1 && s[j] == ']' && s[j + 1] == '\n' {
                match parse_pairs_exec(s, j + 2) {
                    Some((ps, pend)) => {
                        proof {
                            lemma_parse_pairs_pos(s@, j + 2 as int);
                        }
                        match parse_sections_exec(s, pend) {
                            Some((rest, end)) => {
                                let mut rest = rest;
                                let ghost rest0 = rest@;
                                let name = crate::text::chars_to_string(&nv);
                                rest.insert(0, (name, ps));
                                proof {
                                    assert(sections_view(rest@) =~= seq![
                                        (nv@, pairs_view(ps@)),
                                    ] + sections_view(rest0));
                                }
                                Some((rest, end))
                            },
                            None => None,
                        }
                    },
                    None => None,
                }
            } else {
                None
            }
        },
        None => None,
    }
}


} // verus!
