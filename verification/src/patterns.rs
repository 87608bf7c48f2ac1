//! The marker patterns of the PlantUML/OCL models (`@id(...)`, `@ref(...)`,
//! `@sec(...)`, ...) and what the `regex` crate finds for each of them.
//!
//! Every pattern here has a unique match at a given start, so the
//! leftmost-first search of `regex` is: scan left to right for the first
//! start position that matches, report capture group 1, continue after the
//! match (`captures_iter`), or stop at the first one (`captures`).
use vstd::prelude::*;
use crate::text::{find_char_from, is_ascii_alnum, occurs_at, strs};

verus! {

pub const ID_PATTERN: &'static str = "@id\\(([A-Za-z0-9_.:-]+)\\)";

pub const REF_PATTERN: &'static str = "@ref\\(([A-Za-z0-9_.:-]+)\\)";

pub const SCOPE_PATTERN: &'static str = "@scope\\(([^)]*)\\)";

pub const UI_ROUTE_PATTERN: &'static str = "@ui-route\\(([^)]*)\\)";

pub const UI_VIEWPORT_PATTERN: &'static str = "@ui-viewport\\(([^)]*)\\)";

pub const UI_ELEMENT_PATTERN: &'static str = "@ui-element\\(([^)]*)\\)";

pub const SEC_PATTERN: &'static str = "@sec\\(([^)]*)\\)";

pub const QUOTED_PATTERN: &'static str = "\"([^\"]+)\"";

pub const ALIAS_PATTERN: &'static str = "\\bas\\s+(\"[^\"]+\"|[A-Za-z0-9_]+)";

/// The shape of a marker pattern.
pub enum Pat {
    /// `TAG\(([A-Za-z0-9_.:-]+)\)`, the tag including its `(`.
    Ident(Seq<char>),
    /// `TAG\(([^)]*)\)`, the tag including its `(`.
    Body(Seq<char>),
    /// `"([^"]+)"`.
    Quoted,
}

/// A character of `[A-Za-z0-9_.:-]`.
pub open spec fn is_id_char(c: char) -> bool {
    is_ascii_alnum(c) || c == '_' || c == '.' || c == ':' || c == '-'
}

/// Length of the run of identifier characters starting at `i`.
pub open spec fn id_run(s: Seq<char>, i: int) -> nat
    decreases s.len() - i,
{
    if 0 <= i < s.len() && is_id_char(s[i]) {
        1 + id_run(s, i + 1)
    } else {
        0
    }
}

/// The match of `p` starting at `i`, as (end of match, capture group 1).
pub open spec fn match_at(p: Pat, s: Seq<char>, i: int) -> Option<(int, Seq<char>)> {
    match p {
        Pat::Ident(tag) => {
            let b = i + tag.len();
            let k = id_run(s, b);
            if occurs_at(s, tag, i) && k > 0 && b + k < s.len() && s[b + k] == ')' {
                Some((b + k + 1, s.subrange(b, b + k)))
            } else {
                None
            }
        },
        Pat::Body(tag) => {
            let b = i + tag.len();
            if occurs_at(s, tag, i) {
                match find_char_from(s, ')', b) {
                    Some(e) => Some((e + 1, s.subrange(b, e))),
                    None => None,
                }
            } else {
                None
            }
        },
        Pat::Quoted => {
            if 0 <= i < s.len() && s[i] == '"' {
                match find_char_from(s, '"', i + 1) {
                    Some(e) => if e > i + 1 {
                        Some((e + 1, s.subrange(i + 1, e)))
                    } else {
                        None
                    },
                    None => None,
                }
            } else {
                None
            }
        },
    }
}

pub proof fn lemma_id_run(s: Seq<char>, i: int)
    requires
        0 <= i,
    ensures
        i + id_run(s, i) <= s.len() || id_run(s, i) == 0,
        forall|k: int| i <= k < i + id_run(s, i) ==> is_id_char(s[k]),
        i + id_run(s, i) < s.len() ==> !is_id_char(s[i + id_run(s, i)]),
    decreases s.len() - i,
{
    if 0 <= i < s.len() && is_id_char(s[i]) {
        lemma_id_run(s, i + 1);
    }
}

/// Capture group 1 of every match found scanning from `i`, in order.
pub open spec fn captures_from(p: Pat, s: Seq<char>, i: int) -> Seq<Seq<char>>
    decreases s.len() + 1 - i,
{
    if i < 0 || i > s.len() {
        seq![]
    } else {
        match match_at(p, s, i) {
            Some((e, c)) => if i < e <= s.len() {
                seq![c] + captures_from(p, s, e)
            } else {
                seq![]
            },
            None => captures_from(p, s, i + 1),
        }
    }
}

/// Capture group 1 of every non-overlapping match (`captures_iter`).
pub open spec fn captures(p: Pat, s: Seq<char>) -> Seq<Seq<char>> {
    captures_from(p, s, 0)
}

/// Capture group 1 of the leftmost match (`captures`).
pub open spec fn first_capture(p: Pat, s: Seq<char>) -> Option<Seq<char>> {
    let c = captures(p, s);
    if c.len() > 0 {
        Some(c[0])
    } else {
        None
    }
}

/// Capture group 1 of the leftmost match of `ALIAS_PATTERN` in `line`.
/// (`\b` and `\s` are Unicode-aware in `regex`.)
pub uninterp spec fn alias_capture(line: Seq<char>) -> Option<Seq<char>>;

/// `Regex::new(pattern)` then `captures_iter(text)`, keeping capture group 1
/// of each match. The contract states, for each pattern of this library,
/// which substrings that is: the leftmost-first, non-overlapping matches
/// scanned from the start of `text`.
#[verifier::external_body]
pub(crate) fn regex_captures_iter(pattern: &str, text: &str) -> (r: Vec<String>)
    requires
        pattern@ == ID_PATTERN@ || pattern@ == REF_PATTERN@ || pattern@ == SCOPE_PATTERN@
            || pattern@ == UI_ROUTE_PATTERN@ || pattern@ == UI_VIEWPORT_PATTERN@ || pattern@
            == UI_ELEMENT_PATTERN@ || pattern@ == SEC_PATTERN@ || pattern@ == QUOTED_PATTERN@,
    ensures
        pattern@ == ID_PATTERN@ ==> strs(r@) == captures(Pat::Ident("@id("@), text@),
        pattern@ == REF_PATTERN@ ==> strs(r@) == captures(Pat::Ident("@ref("@), text@),
        pattern@ == SCOPE_PATTERN@ ==> strs(r@) == captures(Pat::Body("@scope("@), text@),
        pattern@ == UI_ROUTE_PATTERN@ ==> strs(r@) == captures(Pat::Body("@ui-route("@), text@),
        pattern@ == UI_VIEWPORT_PATTERN@ ==> strs(r@) == captures(
            Pat::Body("@ui-viewport("@),
            text@,
        ),
        pattern@ == UI_ELEMENT_PATTERN@ ==> strs(r@) == captures(
            Pat::Body("@ui-element("@),
            text@,
        ),
        pattern@ == SEC_PATTERN@ ==> strs(r@) == captures(Pat::Body("@sec("@), text@),
        pattern@ == QUOTED_PATTERN@ ==> strs(r@) == captures(Pat::Quoted, text@),
{
    let re = regex::Regex::new(pattern).unwrap();
    re.captures_iter(text).map(|c| c[1].to_string()).collect()
}

/// `Regex::new(pattern)` then `captures(text)`, keeping capture group 1 of
/// the leftmost match. For the alias pattern (whose `\b` and `\s` follow
/// Unicode tables) the result is named, not stated.
#[verifier::external_body]
pub(crate) fn regex_captures(pattern: &str, text: &str) -> (r: Option<String>)
    requires
        pattern@ == ID_PATTERN@ || pattern@ == UI_ROUTE_PATTERN@ || pattern@ == QUOTED_PATTERN@
            || pattern@ == ALIAS_PATTERN@,
    ensures
        pattern@ == ID_PATTERN@ ==> match r {
            Some(c) => first_capture(Pat::Ident("@id("@), text@) == Some(c@),
            None => first_capture(Pat::Ident("@id("@), text@) is None,
        },
        pattern@ == UI_ROUTE_PATTERN@ ==> match r {
            Some(c) => first_capture(Pat::Body("@ui-route("@), text@) == Some(c@),
            None => first_capture(Pat::Body("@ui-route("@), text@) is None,
        },
        pattern@ == QUOTED_PATTERN@ ==> match r {
            Some(c) => first_capture(Pat::Quoted, text@) == Some(c@),
            None => first_capture(Pat::Quoted, text@) is None,
        },
        pattern@ == ALIAS_PATTERN@ ==> match r {
            Some(c) => alias_capture(text@) == Some(c@),
            None => alias_capture(text@) is None,
        },
{
    let re = regex::Regex::new(pattern).unwrap();
    re.captures(text).map(|c| c[1].to_string())
}

pub const DESC_PATTERN: &'static str = "@desc\\(\\s*([A-Za-z0-9_.:-]+)\\s*,\\s*\"((?:[^\"\\\\]|\\\\.)*)\"\\s*\\)";

/// A character of a description's id: an ASCII letter or digit, `_`, `.`,
/// `:` or `-`.
pub open spec fn desc_id_char(c: char) -> bool {
    ('A' <= c && c <= 'Z') || ('a' <= c && c <= 'z') || ('0' <= c && c <= '9') || c == '_' || c == '.' || c
        == ':' || c == '-'
}

/// The first index at or after `i` that is not whitespace (`\s`).
pub open spec fn skip_ws_from(s: Seq<char>, i: int) -> int
    decreases s.len() - i,
{
    if 0 <= i < s.len() && crate::text::is_ws(s[i]) {
        skip_ws_from(s, i + 1)
    } else {
        i
    }
}

/// The first index at or after `i` that is not an id character.
pub open spec fn skip_id_from(s: Seq<char>, i: int) -> int
    decreases s.len() - i,
{
    if 0 <= i < s.len() && desc_id_char(s[i]) {
        skip_id_from(s, i + 1)
    } else {
        i
    }
}

/// The closing quote of a quoted text whose body starts at `i`: the first
/// `"` not escaped by a backslash, where a backslash escapes the next
/// character unless that is a line feed (then there is no match).
pub open spec fn closing_quote(s: Seq<char>, i: int) -> Option<int>
    decreases s.len() - i,
{
    if i < 0 || i >= s.len() {
        None
    } else if s[i] == '"' {
        Some(i)
    } else if s[i] == '\\' {
        if i + 1 < s.len() && s[i + 1] != '\n' {
            closing_quote(s, i + 2)
        } else {
            None
        }
    } else {
        closing_quote(s, i + 1)
    }
}

pub proof fn lemma_skips_forward(s: Seq<char>, i: int)
    ensures
        skip_ws_from(s, i) >= i,
        skip_id_from(s, i) >= i,
        closing_quote(s, i) matches Some(q) ==> q >= i,
    decreases s.len() - i,
{
    if 0 <= i < s.len() {
        lemma_skips_forward(s, i + 1);
        if i + 1 < s.len() {
            lemma_skips_forward(s, i + 2);
        }
    }
}

/// The rest of a `@desc(` marker whose argument list starts at `j`: the id,
/// a comma, a quoted text and a closing parenthesis, with whitespace
/// allowed around each part. Gives the id's and the text's bounds and the
/// index after the parenthesis.
pub open spec fn desc_rest(s: Seq<char>, j: int) -> Option<(int, int, int, int, int)> {
    let a = skip_ws_from(s, j);
    let b = skip_id_from(s, a);
    let c = skip_ws_from(s, b);
    let d = skip_ws_from(s, c + 1);
    if b == a || c >= s.len() || s[c] != ',' || d >= s.len() || s[d] != '"' {
        None
    } else {
        match closing_quote(s, d + 1) {
            Some(q) => {
                let e = skip_ws_from(s, q + 1);
                if e < s.len() && s[e] == ')' {
                    Some((a, b, d + 1, q, e + 1))
                } else {
                    None
                }
            },
            None => None,
        }
    }
}

/// Capture groups 1 and 2 of every match of `DESC_PATTERN` from index `i`
/// on: each `@desc(` at which the rest of the marker matches gives its id
/// and quoted text, and the scan resumes after it; elsewhere the scan
/// moves on by one character.
pub open spec fn desc_from(s: Seq<char>, i: int) -> Seq<(Seq<char>, Seq<char>)>
    decreases s.len() - i,
{
    if i < 0 || i >= s.len() {
        seq![]
    } else if i + 6 <= s.len() && s.subrange(i, i + 6) == "@desc("@ {
        match desc_rest(s, i + 6) {
            Some(m) => {
                proof {
                    lemma_skips_forward(s, i + 6);
                    lemma_skips_forward(s, skip_ws_from(s, i + 6));
                    lemma_skips_forward(s, m.1);
                    lemma_skips_forward(s, skip_ws_from(s, m.1) + 1);
                    lemma_skips_forward(s, m.2);
                    lemma_skips_forward(s, m.3 + 1);
                }
                seq![(s.subrange(m.0, m.1), s.subrange(m.2, m.3))] + desc_from(s, m.4)
            },
            None => desc_from(s, i + 1),
        }
    } else {
        desc_from(s, i + 1)
    }
}

/// Capture groups 1 and 2 of every match of `DESC_PATTERN` in a text.
pub open spec fn desc_captures(text: Seq<char>) -> Seq<(Seq<char>, Seq<char>)> {
    desc_from(text, 0)
}

/// `Regex::new(DESC_PATTERN)` then `captures_iter(text)`, keeping capture
/// groups 1 and 2 of each match, in order (see `desc_captures`; `\s` is
/// Unicode white space, and the pattern has only one way to match at each
/// start, so the leftmost-first matches are the ones `desc_from` finds).
#[verifier::external_body]
pub(crate) fn regex_desc_pairs(text: &str) -> (r: Vec<(String, String)>)
    ensures
        r@.map_values(|x: (String, String)| (x.0@, x.1@)) == desc_captures(text@),
{
    let re = regex::Regex::new(DESC_PATTERN).unwrap();
    re.captures_iter(text).map(|c| (c[1].to_string(), c[2].to_string())).collect()
}

} // verus!
