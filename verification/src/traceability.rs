//! The deterministic part of the traceability engine: which symbol kinds
//! carry behaviour, how a trace.yml source_link names a code symbol, the
//! changed line ranges of a `git diff --unified=0`, and the classification
//! of changed lines against a symbol index.
use vstd::prelude::*;
use crate::strings::{KeyMap, keys_sorted, pairs_get, pairs_insert, parse_usize, parse_usize_spec};
use crate::text::{
    cat, chars_of, contains, ends_with, find_char_exec, find_char_from, is_whitespace, is_ws, lines, lines_of, owned, slice_chars, starts_with,
    starts_with_exec, str_contains, str_ends_with, str_eq, string_of, string_of_range, trim_bounds, trim_start, vviews,
};

verus! {

/// DOM-SYMBOL-SPAN: a code symbol with its 1-based, inclusive line span.
/// `symbol` is a bare name for a free item or `Type::method` for a method.
#[derive(Clone)]
pub struct SymbolSpan {
    pub path: String,
    pub symbol: String,
    pub line_start: usize,
    pub line_end: usize,
    pub kind: String,
}

/// A changed line outside every recorded symbol (module-level glue).
pub struct GlueChange {
    pub path: String,
    pub line: usize,
    pub label: String,
}

/// Changed code between a base revision and the working tree.
pub struct ChangedCode {
    /// Recorded (non-test) symbols with at least one changed line.
    pub symbols: Vec<SymbolSpan>,
    /// Changed lines outside any recorded symbol.
    pub glue: Vec<GlueChange>,
}

/// Behaviour-bearing kinds: `fn`, `struct`, `enum`, `trait`, `type`.
pub open spec fn behaviour_kind(kind: Seq<char>) -> bool {
    kind == "fn"@ || kind == "struct"@ || kind == "enum"@ || kind == "trait"@ || kind == "type"@
}

/// A changed symbol of one of these kinds with no source_link is a blocking
/// reverse violation; every other kind only warns.
pub fn is_behaviour_kind(kind: &str) -> (b: bool)
    ensures
        b == behaviour_kind(kind@),
{
    str_eq(kind, "fn") || str_eq(kind, "struct") || str_eq(kind, "enum") || str_eq(kind, "trait")
        || str_eq(kind, "type")
}

/// The two names denote the same symbol: equal, or one is the other's
/// `Type::` qualified form.
pub open spec fn symbols_match(span_symbol: Seq<char>, link_symbol: Seq<char>) -> bool {
    span_symbol == link_symbol || ends_with(span_symbol, "::"@ + link_symbol) || ends_with(
        link_symbol,
        "::"@ + span_symbol,
    )
}

/// Symbol matching does not depend on which side holds the qualified form,
/// and every name matches itself.
pub proof fn lemma_symbols_match_symmetric(a: Seq<char>, b: Seq<char>)
    ensures
        symbols_match(a, b) == symbols_match(b, a),
        symbols_match(a, a),
{
}

/// Whether a source_link's symbol refers to the same thing as an indexed
/// symbol, tolerating a bare leaf name against a `Type::method` path in
/// either direction.
pub fn symbol_matches(span_symbol: &str, link_symbol: &str) -> (b: bool)
    ensures
        b == symbols_match(span_symbol@, link_symbol@),
{
    if str_eq(span_symbol, link_symbol) {
        return true;
    }
    let qualified_link = cat("::", link_symbol);
    if str_ends_with(span_symbol, qualified_link.as_str()) {
        return true;
    }
    let qualified_span = cat("::", span_symbol);
    str_ends_with(link_symbol, qualified_span.as_str())
}

// ---------------------------------------------------------------------------
// Unified diff parsing

/// Words of `s` as `str::split_whitespace` yields them.
pub open spec fn words(s: Seq<char>) -> Seq<Seq<char>>
    decreases s.len(),
{
    if s.len() == 0 {
        seq![]
    } else if is_ws(s[0]) {
        words(s.drop_first())
    } else {
        let n = word_len(s);
        if n == 0 || n > s.len() {
            seq![]
        } else {
            seq![s.take(n as int)] + words(s.skip(n as int))
        }
    }
}

/// Length of the run of non-whitespace characters at the start of `s`.
pub open spec fn word_len(s: Seq<char>) -> nat
    decreases s.len(),
{
    if s.len() > 0 && !is_ws(s[0]) {
        1 + word_len(s.drop_first())
    } else {
        0
    }
}

/// The first word starting with `+`.
pub open spec fn first_plus_word(ws: Seq<Seq<char>>) -> Option<Seq<char>>
    decreases ws.len(),
{
    if ws.len() == 0 {
        None
    } else if ws[0].len() > 0 && ws[0][0] == '+' {
        Some(ws[0])
    } else {
        first_plus_word(ws.drop_first())
    }
}

/// `trim_start_matches('+')`.
pub open spec fn strip_pluses(s: Seq<char>) -> Seq<char>
    decreases s.len(),
{
    if s.len() > 0 && s[0] == '+' {
        strip_pluses(s.drop_first())
    } else {
        s
    }
}

/// The new-file `(start, count)` of a hunk header body such as
/// `-12,3 +40,2 @@ fn foo`; an omitted count means 1.
pub open spec fn hunk_new_range(hunk: Seq<char>) -> Option<(usize, usize)> {
    match first_plus_word(words(hunk)) {
        None => None,
        Some(plus) => {
            let spec_ = strip_pluses(plus);
            match find_char_from(spec_, ',', 0) {
                None => match parse_usize_spec(spec_) {
                    Some(start) => Some((start, 1usize)),
                    None => None,
                },
                Some(i) => {
                    let second = spec_.skip(i + 1);
                    let count_text = match find_char_from(second, ',', 0) {
                        Some(j) => second.take(j),
                        None => second,
                    };
                    match (parse_usize_spec(spec_.take(i)), parse_usize_spec(count_text)) {
                        (Some(start), Some(count)) => Some((start, count)),
                        _ => None,
                    }
                },
            }
        },
    }
}

/// The file a `+++ ` header line switches to: `b/<path>` of a `.rs` file under
/// a `/src/` directory, else none.
pub open spec fn tracked_path(rest: Seq<char>) -> Option<Seq<char>> {
    if starts_with(rest, "b/"@) && ends_with(rest.skip(2), ".rs"@) && contains(
        rest.skip(2),
        "/src/"@,
    ) {
        Some(rest.skip(2))
    } else {
        None
    }
}

/// Changed ranges per file after reading `ls`, with the file in effect.
pub open spec fn diff_state(ls: Seq<Seq<char>>) -> (Option<Seq<char>>, Seq<(Seq<char>, Seq<(usize, usize)>)>)
    decreases ls.len(),
{
    if ls.len() == 0 {
        (None, seq![])
    } else {
        let (cur, m) = diff_state(ls.drop_last());
        let line = ls.last();
        if starts_with(line, "+++ "@) {
            (tracked_path(line.skip(4)), m)
        } else if cur is Some && starts_with(line, "@@ "@) {
            match hunk_new_range(line.skip(3)) {
                Some((start, count)) => if count > 0 {
                    (cur, pairs_insert(m, cur->0, match pairs_get(m, cur->0) {
                        Some(v) => v.push((start, (start + count - 1) as usize)),
                        None => seq![(start, (start + count - 1) as usize)],
                    }))
                } else {
                    (cur, m)
                },
                None => (cur, m),
            }
        } else {
            (cur, m)
        }
    }
}

/// The new range of every hunk header that is read (one under a tracked
/// file) fits in `usize`: `start + count - 1` for a non-empty range.
pub open spec fn ranges_fit(diff: Seq<char>) -> bool {
    forall|i: int|
        0 <= i < lines(diff).len() && starts_with(#[trigger] lines(diff)[i], "@@ "@) && diff_state(
            lines(diff).take(i),
        ).0 is Some ==> match hunk_new_range(lines(diff)[i].skip(3)) {
            Some((start, count)) => count > 0 ==> start + count <= usize::MAX + 1,
            None => true,
        }
}

/// Changed new-file line ranges per repo-relative path, sorted by path.
pub type FileRanges = KeyMap<Vec<(usize, usize)>>;

/// Words of a character slice, with the proof that they follow `words`.
fn split_whitespace(s: &[char]) -> (r: Vec<Vec<char>>)
    ensures
        vviews(r@) == words(s@),
{
    let mut r: Vec<Vec<char>> = Vec::new();
    let mut i: usize = 0;
    assert(s@.skip(0) == s@);
    assert(vviews(r@) =~= Seq::<Seq<char>>::empty());
    while i < s.len()
        invariant
            i <= s.len(),
            words(s@) == vviews(r@) + words(s@.skip(i as int)),
        decreases s.len() - i,
    {
        let ghost rest = s@.skip(i as int);
        if is_whitespace(s[i]) {
            assert(rest.drop_first() == s@.skip(i + 1));
            i = i + 1;
        } else {
            let mut j = i;
            while j < s.len() && !is_whitespace(s[j])
                invariant
                    i <= j <= s.len(),
                    word_len(rest) == (j - i) + word_len(s@.skip(j as int)),
                    rest == s@.skip(i as int),
                decreases s.len() - j,
            {
                assert(s@.skip(j as int).drop_first() == s@.skip(j + 1));
                j = j + 1;
            }
            assert(word_len(s@.skip(j as int)) == 0) by {
                if j < s.len() {
                    assert(s@.skip(j as int)[0] == s@[j as int]);
                }
            }
            let w = slice_chars(s, i, j);
            let ghost old_r = r@;
            r.push(w);
            proof {
                assert(rest.take((j - i) as int) =~= s@.subrange(i as int, j as int));
                assert(rest.skip((j - i) as int) =~= s@.skip(j as int));
                assert(vviews(r@) =~= vviews(old_r).push(w@));
            }
            i = j;
        }
    }
    assert(s@.skip(i as int) =~= Seq::<char>::empty());
    assert(vviews(r@) + Seq::<Seq<char>>::empty() =~= vviews(r@));
    r
}

/// The new-file `(start, count)` of a hunk header body.
pub fn parse_hunk_new_range(hunk: &str) -> (r: Option<(usize, usize)>)
    ensures
        r == hunk_new_range(hunk@),
{
    let hv = chars_of(hunk);
    let ws = split_whitespace(hv.as_slice());
    let mut k: usize = 0;
    assert(vviews(ws@).skip(0) == vviews(ws@));
    while k < ws.len() && !(ws[k].len() > 0 && ws[k][0] == '+')
        invariant
            k <= ws.len(),
            first_plus_word(words(hunk@)) == first_plus_word(vviews(ws@).skip(k as int)),
            vviews(ws@) == words(hunk@),
        decreases ws.len() - k,
    {
        let ghost t = vviews(ws@).skip(k as int);
        assert(t[0] == ws@[k as int]@);
        assert(t.drop_first() == vviews(ws@).skip(k + 1));
        k = k + 1;
    }
    if k >= ws.len() {
        assert(vviews(ws@).skip(k as int) =~= Seq::<Seq<char>>::empty());
        return None;
    }
    proof {
        let t = vviews(ws@).skip(k as int);
        assert(t[0] == ws@[k as int]@);
    }
    assert(first_plus_word(words(hunk@)) == Some(ws@[k as int]@));
    let plus = &ws[k];
    let mut p: usize = 0;
    assert(plus@.skip(0) == plus@);
    while p < plus.len() && plus[p] == '+'
        invariant
            p <= plus.len(),
            strip_pluses(plus@) == strip_pluses(plus@.skip(p as int)),
        decreases plus.len() - p,
    {
        assert(plus@.skip(p as int).drop_first() == plus@.skip(p + 1));
        p = p + 1;
    }
    let spec_v = slice_chars(plus.as_slice(), p, plus.len());
    assert(spec_v@ == plus@.skip(p as int));
    assert(strip_pluses(plus@) == spec_v@);
    match find_char_exec(spec_v.as_slice(), ',', 0) {
        None => {
            let txt = string_of(spec_v.as_slice());
            match parse_usize(txt.as_str()) {
                Some(start) => Some((start, 1usize)),
                None => None,
            }
        },
        Some(i) => {
            proof {
                crate::text::lemma_find_char_from_range(spec_v@, ',', 0);
            }
            let first = string_of_range(spec_v.as_slice(), 0, i);
            let second = slice_chars(spec_v.as_slice(), i + 1, spec_v.len());
            assert(second@ == spec_v@.skip(i + 1));
            assert(first@ == spec_v@.take(i as int));
            proof {
                crate::text::lemma_find_char_from_range(second@, ',', 0);
            }
            let count_text = match find_char_exec(second.as_slice(), ',', 0) {
                Some(j) => string_of_range(second.as_slice(), 0, j),
                None => string_of(second.as_slice()),
            };
            match (parse_usize(first.as_str()), parse_usize(count_text.as_str())) {
                (Some(start), Some(count)) => Some((start, count)),
                _ => None,
            }
        },
    }
}

/// Parse `git diff --unified=0` text into path -> changed new-line ranges,
/// keeping only `.rs` files under a `*/src/` directory.
pub fn parse_unified_diff(diff: &str) -> (r: FileRanges)
    requires
        ranges_fit(diff@),
    ensures
        r.wf(),
        r@ == diff_state(lines(diff@)).1,
{
    let ls = lines_of(diff);
    let mut result: FileRanges = KeyMap::new();
    let mut current: Option<String> = None;
    let mut i: usize = 0;
    let ghost all = vviews(ls@);
    assert(all.take(0) =~= Seq::<Seq<char>>::empty());
    while i < ls.len()
        invariant
            i <= ls.len(),
            all == vviews(ls@),
            all == lines(diff@),
            ranges_fit(diff@),
            result.wf(),
            diff_state(all.take(i as int)).1 == result@,
            diff_state(all.take(i as int)).0 == match current {
                Some(c) => Some(c@),
                None => None::<Seq<char>>,
            },
        decreases ls.len() - i,
    {
        let line = &ls[i];
        proof {
            assert(all.take(i + 1).drop_last() == all.take(i as int));
            assert(all.take(i + 1).last() == line@);
        }
        let header = chars_of("+++ ");
        let at = chars_of("@@ ");
        proof {
            reveal_strlit("+++ ");
            reveal_strlit("@@ ");
            reveal_strlit("b/");
        }
        if starts_with_exec(line.as_slice(), header.as_slice()) {
            let rest = slice_chars(line.as_slice(), 4, line.len());
            assert(rest@ == line@.skip(4));
            if str_starts_with_chars(rest.as_slice(), "b/") {
                let path = string_of_range(rest.as_slice(), 2, rest.len());
                assert(path@ == rest@.skip(2));
                if str_ends_with(path.as_str(), ".rs") && str_contains(path.as_str(), "/src/") {
                    current = Some(path);
                } else {
                    current = None;
                }
            } else {
                current = None;
            }
        } else if current.is_some() && starts_with_exec(line.as_slice(), at.as_slice()) {
            let hunk = string_of_range(line.as_slice(), 3, line.len());
            assert(hunk@ == line@.skip(3));
            proof {
                assert(all[i as int] == line@);
                assert(lines(diff@)[i as int].skip(3) == hunk@);
            }
            match parse_hunk_new_range(hunk.as_str()) {
                Some((start, count)) => {
                    proof {
                        assert(hunk_new_range(lines(diff@)[i as int].skip(3)) == Some((start, count)));
                    }
                    if count > 0 {
                        let path = match &current {
                            Some(p) => p.clone(),
                            None => String::new(),
                        };
                        proof {
                            assert(ranges_fit(diff@));
                            assert(starts_with(lines(diff@)[i as int], "@@ "@));
                            assert(diff_state(lines(diff@).take(i as int)).0 is Some);
                        }
                        result.push_to(path, (start, start + (count - 1)));
                    }
                },
                None => {},
            }
        }
        i = i + 1;
    }
    assert(all.take(ls.len() as int) == all);
    result
}

fn str_starts_with_chars(s: &[char], p: &str) -> (r: bool)
    ensures
        r == starts_with(s@, p@),
{
    let pv = chars_of(p);
    starts_with_exec(s, pv.as_slice())
}

// ---------------------------------------------------------------------------
// Changed lines against the symbol index

/// Index of the smallest span containing `line` (the first such on ties).
pub open spec fn innermost(symbols: Seq<SymbolSpan>, line: usize) -> Option<int>
    decreases symbols.len(),
{
    if symbols.len() == 0 {
        None
    } else {
        let rest = innermost(symbols.drop_last(), line);
        let i = symbols.len() - 1;
        let s = symbols[i];
        if s.line_start <= line && line <= s.line_end {
            match rest {
                Some(j) => if symbols[j].line_end - symbols[j].line_start <= s.line_end
                    - s.line_start {
                    Some(j)
                } else {
                    Some(i)
                },
                None => Some(i),
            }
        } else {
            rest
        }
    }
}

/// Index of the smallest symbol span containing `line`, if any.
pub fn innermost_symbol(symbols: &Vec<SymbolSpan>, line: usize) -> (r: Option<usize>)
    ensures
        match r {
            Some(i) => innermost(symbols@, line) == Some(i as int),
            None => innermost(symbols@, line) is None,
        },
{
    let mut best: Option<usize> = None;
    let mut i: usize = 0;
    assert(symbols@.take(0) =~= Seq::<SymbolSpan>::empty());
    while i < symbols.len()
        invariant
            i <= symbols.len(),
            match best {
                Some(b) => innermost(symbols@.take(i as int), line) == Some(b as int) && b < i
                    && symbols@[b as int].line_start <= line <= symbols@[b as int].line_end,
                None => innermost(symbols@.take(i as int), line) is None,
            },
        decreases symbols.len() - i,
    {
        let s = &symbols[i];
        proof {
            let t = symbols@.take(i + 1);
            assert(t.drop_last() == symbols@.take(i as int));
            assert(t.last() == symbols@[i as int]);
            if let Some(b) = best {
                assert(t[b as int] == symbols@[b as int]);
            }
        }
        if s.line_start <= line && line <= s.line_end {
            match best {
                Some(b) => {
                    let cur = &symbols[b];
                    if !(cur.line_end - cur.line_start <= s.line_end - s.line_start) {
                        best = Some(i);
                    }
                },
                None => {
                    best = Some(i);
                },
            }
        }
        i = i + 1;
    }
    assert(symbols@.take(symbols.len() as int) == symbols@);
    best
}

/// Classification of a glue line for the bucket-A report.
pub open spec fn glue_label_spec(text: Seq<char>) -> Seq<char> {
    let t = trim_start(text);
    if starts_with(t, "use "@) || starts_with(t, "pub use "@) || starts_with(t, "extern crate"@) {
        "import"@
    } else if starts_with(t, "//"@) || starts_with(t, "/*"@) || starts_with(t, "*"@) {
        "comment"@
    } else if starts_with(t, "#["@) || starts_with(t, "#!["@) {
        "attribute"@
    } else if starts_with(t, "mod "@) || starts_with(t, "pub mod "@) {
        "module"@
    } else if t.len() == 0 {
        "blank"@
    } else {
        "glue"@
    }
}

/// Coarse classification of a changed line outside every symbol.
pub fn glue_label(text: &str) -> (r: String)
    ensures
        r@ == glue_label_spec(text@),
{
    let v = chars_of(text);
    let (a, _b) = trim_bounds(v.as_slice());
    let t = slice_chars(v.as_slice(), a, v.len());
    assert(t@ == trim_start(text@));
    let ts = string_of(t.as_slice());
    let ts = ts.as_str();
    if crate::text::str_starts_with(ts, "use ") || crate::text::str_starts_with(ts, "pub use ")
        || crate::text::str_starts_with(ts, "extern crate") {
        owned("import")
    } else if crate::text::str_starts_with(ts, "//") || crate::text::str_starts_with(ts, "/*")
        || crate::text::str_starts_with(ts, "*") {
        owned("comment")
    } else if crate::text::str_starts_with(ts, "#[") || crate::text::str_starts_with(ts, "#![") {
        owned("attribute")
    } else if crate::text::str_starts_with(ts, "mod ") || crate::text::str_starts_with(
        ts,
        "pub mod ",
    ) {
        owned("module")
    } else if t.len() == 0 {
        owned("blank")
    } else {
        owned("glue")
    }
}

// ---------------------------------------------------------------------------
// Changed code

/// The lines of an inclusive range, in order.
pub open spec fn span_lines(a: usize, b: usize) -> Seq<usize> {
    if a <= b {
        Seq::new((b - a + 1) as nat, |k: int| (a + k) as usize)
    } else {
        seq![]
    }
}

/// The lines of the ranges, in order.
pub open spec fn range_lines(ranges: Seq<(usize, usize)>) -> Seq<usize>
    decreases ranges.len(),
{
    if ranges.len() == 0 {
        seq![]
    } else {
        range_lines(ranges.drop_last()) + span_lines(ranges.last().0, ranges.last().1)
    }
}

/// The text of a 1-based line (empty past the end).
pub open spec fn line_text(ls: Seq<Seq<char>>, l: usize) -> Seq<char> {
    if 1 <= l <= ls.len() {
        ls[l - 1]
    } else {
        seq![]
    }
}

/// A changed line outside every symbol: path, line, label.
pub type GlueV = (Seq<char>, usize, Seq<char>);

pub open spec fn glue_view(v: Seq<GlueChange>) -> Seq<GlueV> {
    v.map_values(|g: GlueChange| (g.path@, g.line, g.label@))
}

/// The changed lines outside every symbol, labelled.
pub open spec fn file_glue(path: Seq<char>, ls: Seq<Seq<char>>, symbols: Seq<SymbolSpan>, lines: Seq<usize>) -> Seq<GlueV> {
    lines.filter(|l: usize| innermost(symbols, l) is None).map_values(
        |l: usize| (path, l, glue_label_spec(line_text(ls, l))),
    )
}

/// A symbol some changed line falls in (innermost).
pub open spec fn is_hit(symbols: Seq<SymbolSpan>, lines: Seq<usize>, i: int) -> bool {
    exists|k: int| 0 <= k < lines.len() && innermost(symbols, #[trigger] lines[k]) == Some(i)
}

pub type SpanV = (Seq<char>, Seq<char>, usize, usize, Seq<char>);

pub open spec fn span_view(s: SymbolSpan) -> SpanV {
    (s.path@, s.symbol@, s.line_start, s.line_end, s.kind@)
}

pub open spec fn spans_view(v: Seq<SymbolSpan>) -> Seq<SpanV> {
    v.map_values(|s: SymbolSpan| span_view(s))
}

/// The hit symbols, in index order.
pub open spec fn hit_symbols(symbols: Seq<SymbolSpan>, lines: Seq<usize>, n: int) -> Seq<SpanV>
    decreases n,
{
    if n <= 0 {
        seq![]
    } else {
        hit_symbols(symbols, lines, n - 1) + (if is_hit(symbols, lines, n - 1) {
            seq![span_view(symbols[n - 1])]
        } else {
            seq![]
        })
    }
}

fn copy_span(s: &SymbolSpan) -> (r: SymbolSpan)
    ensures
        span_view(r) == span_view(*s),
{
    SymbolSpan {
        path: s.path.clone(),
        symbol: s.symbol.clone(),
        line_start: s.line_start,
        line_end: s.line_end,
        kind: s.kind.clone(),
    }
}

/// Account for one changed line: mark its symbol, or record it as glue.
fn account_line(
    path: &String,
    line: usize,
    symbols: &Vec<SymbolSpan>,
    text_lines: &Vec<Vec<char>>,
    hit: &mut Vec<bool>,
    glue: &mut Vec<GlueChange>,
)
    requires
        old(hit)@.len() == symbols@.len(),
    ensures
        final(hit)@.len() == symbols@.len(),
        forall|i: int| 0 <= i < symbols@.len() ==> #[trigger] final(hit)@[i] == (old(hit)@[i] || innermost(symbols@, line) == Some(i)),
        glue_view(final(glue)@) == glue_view(old(glue)@) + (if innermost(symbols@, line) is None {
            seq![(path@, line, glue_label_spec(line_text(vviews(text_lines@), line)))]
        } else {
            seq![]
        }),
{
    let ghost g0 = glue_view(glue@);
    match innermost_symbol(symbols, line) {
        Some(idx) => {
            proof {
                lemma_innermost_range(symbols@, line);
            }
            hit.set(idx, true);
            assert(glue_view(glue@) =~= g0 + Seq::<GlueV>::empty());
        },
        None => {
            let text: Vec<char> = if line >= 1 && line - 1 < text_lines.len() {
                let mut t: Vec<char> = Vec::new();
                let src = &text_lines[line - 1];
                let mut k: usize = 0;
                while k < src.len()
                    invariant
                        k <= src.len(),
                        t@ == src@.take(k as int),
                    decreases src.len() - k,
                {
                    t.push(src[k]);
                    assert(src@.take(k + 1) == src@.take(k as int).push(src@[k as int]));
                    k = k + 1;
                }
                assert(src@.take(src.len() as int) == src@);
                t
            } else {
                Vec::new()
            };
            assert(text@ == line_text(vviews(text_lines@), line));
            let label = glue_label(string_of(text.as_slice()).as_str());
            glue.push(GlueChange { path: path.clone(), line, label });
            assert(glue_view(glue@) =~= g0.push((path@, line, glue_label_spec(line_text(vviews(text_lines@), line)))));
        },
    }
}

proof fn lemma_innermost_range(symbols: Seq<SymbolSpan>, line: usize)
    ensures
        innermost(symbols, line) matches Some(i) ==> 0 <= i < symbols.len(),
    decreases symbols.len(),
{
    if symbols.len() > 0 {
        lemma_innermost_range(symbols.drop_last(), line);
    }
}

/// Classify the changed lines of one file against its symbol index: the
/// symbols a changed line falls in (innermost; in index order) and the
/// changed lines outside every symbol, labelled by their text.
pub fn changed_in_file(
    path: &String,
    ranges: &Vec<(usize, usize)>,
    symbols: &Vec<SymbolSpan>,
    source: &str,
    out: &mut ChangedCode,
)
    ensures
        spans_view(final(out).symbols@) == spans_view(old(out).symbols@) + hit_symbols(
            symbols@,
            range_lines(ranges@),
            symbols@.len() as int,
        ),
        glue_view(final(out).glue@) == glue_view(old(out).glue@) + file_glue(
            path@,
            lines(source@),
            symbols@,
            range_lines(ranges@),
        ),
{
    let text_lines = lines_of(source);
    let ghost ls = vviews(text_lines@);
    let ghost sy = symbols@;
    let mut hit: Vec<bool> = Vec::new();
    let mut j: usize = 0;
    while j < symbols.len()
        invariant
            j <= symbols.len(),
            hit@.len() == j,
            forall|i: int| 0 <= i < j ==> !(#[trigger] hit@[i]),
        decreases symbols.len() - j,
    {
        hit.push(false);
        j = j + 1;
    }
    let ghost g0 = glue_view(out.glue@);
    let ghost pred = |l: usize| innermost(sy, l) is None;
    let ghost lab = |l: usize| (path@, l, glue_label_spec(line_text(ls, l)));
    let mut r: usize = 0;
    assert(range_lines(ranges@.take(0)).filter(pred) =~= Seq::<usize>::empty()) by {
        reveal(Seq::filter);
    }
    assert(g0 + Seq::<usize>::empty().map_values(lab) =~= g0);
    while r < ranges.len()
        invariant
            r <= ranges.len(),
            sy == symbols@,
            ls == vviews(text_lines@),
            ls == lines(source@),
            pred == (|l: usize| innermost(sy, l) is None),
            lab == (|l: usize| (path@, l, glue_label_spec(line_text(ls, l)))),
            hit@.len() == sy.len(),
            forall|i: int| 0 <= i < sy.len() ==> #[trigger] hit@[i] == is_hit(sy, range_lines(ranges@.take(r as int)), i),
            glue_view(out.glue@) == g0 + range_lines(ranges@.take(r as int)).filter(pred).map_values(lab),
            out.symbols@ == old(out).symbols@,
        decreases ranges.len() - r,
    {
        let (start, end) = ranges[r];
        let ghost done = range_lines(ranges@.take(r as int));
        proof {
            assert(ranges@.take(r + 1).drop_last() == ranges@.take(r as int));
            assert(ranges@.take(r + 1).last() == ranges@[r as int]);
        }
        if start <= end {
            let mut line = start;
            loop
                invariant_except_break
                    forall|i: int| 0 <= i < sy.len() ==> #[trigger] hit@[i] == is_hit(
                        sy,
                        done + span_lines(start, end).take(line - start),
                        i,
                    ),
                    glue_view(out.glue@) == g0 + (done + span_lines(start, end).take(line - start)).filter(pred).map_values(
                        lab,
                    ),
                invariant
                    start <= line <= end,
                    sy == symbols@,
                    ls == vviews(text_lines@),
                    pred == (|l: usize| innermost(sy, l) is None),
                    lab == (|l: usize| (path@, l, glue_label_spec(line_text(ls, l)))),
                    hit@.len() == sy.len(),
                    out.symbols@ == old(out).symbols@,
                ensures
                    forall|i: int| 0 <= i < sy.len() ==> #[trigger] hit@[i] == is_hit(sy, done + span_lines(start, end), i),
                    glue_view(out.glue@) == g0 + (done + span_lines(start, end)).filter(pred).map_values(lab),
                decreases end - line,
            {
                let ghost before = done + span_lines(start, end).take(line - start);
                let ghost hit0 = hit@;
                let ghost gv0 = glue_view(out.glue@);
                account_line(path, line, symbols, &text_lines, &mut hit, &mut out.glue);
                proof {
                    let after = done + span_lines(start, end).take(line - start + 1);
                    assert(span_lines(start, end)[line - start] == line);
                    assert(after =~= before.push(line));
                    assert forall|i: int| 0 <= i < sy.len() implies #[trigger] hit@[i] == is_hit(sy, after, i) by {
                        if is_hit(sy, after, i) && !hit0[i] && innermost(sy, line) != Some(i) {
                            let k = choose|k: int| 0 <= k < after.len() && innermost(sy, #[trigger] after[k]) == Some(i);
                            assert(k < before.len());
                            assert(before[k] == after[k]);
                        }
                        if hit0[i] {
                            let k = choose|k: int| 0 <= k < before.len() && innermost(sy, #[trigger] before[k]) == Some(i);
                            assert(after[k] == before[k]);
                        }
                        if innermost(sy, line) == Some(i) {
                            assert(after[before.len() as int] == line);
                        }
                    }
                    before.lemma_filter_push(line, pred);
                    assert(before.filter(pred).push(line).map_values(lab) =~= before.filter(pred).map_values(lab).push(
                        lab(line),
                    ));
                    assert(glue_view(out.glue@) =~= g0 + after.filter(pred).map_values(lab));
                }
                if line == end {
                    assert(span_lines(start, end).take(line - start + 1) =~= span_lines(start, end));
                    break;
                }
                line = line + 1;
            }
            proof {
                assert(range_lines(ranges@.take(r + 1)) == done + span_lines(start, end));
            }
        } else {
            assert(range_lines(ranges@.take(r + 1)) =~= done);
        }
        r = r + 1;
    }
    assert(ranges@.take(ranges.len() as int) == ranges@);
    let ghost all = range_lines(ranges@);
    let ghost s0 = spans_view(out.symbols@);
    let mut k: usize = 0;
    assert(s0 + hit_symbols(sy, all, 0) =~= s0);
    while k < symbols.len()
        invariant
            k <= symbols.len(),
            sy == symbols@,
            hit@.len() == sy.len(),
            forall|i: int| 0 <= i < sy.len() ==> #[trigger] hit@[i] == is_hit(sy, all, i),
            spans_view(out.symbols@) == s0 + hit_symbols(sy, all, k as int),
            glue_view(out.glue@) == g0 + all.filter(pred).map_values(lab),
        decreases symbols.len() - k,
    {
        if hit[k] {
            let c = copy_span(&symbols[k]);
            let ghost o0 = spans_view(out.symbols@);
            out.symbols.push(c);
            assert(spans_view(out.symbols@) =~= o0.push(span_view(sy[k as int])));
        }
        k = k + 1;
    }
}

/// A changed file: its path, changed ranges, and (when it could be read)
/// its symbol index and source.
pub type ChangedFile = (String, Vec<(usize, usize)>, Option<(Vec<SymbolSpan>, String)>);

/// The changed symbols of the files, in file order.
pub open spec fn all_hit_symbols(files: Seq<ChangedFile>) -> Seq<SpanV>
    decreases files.len(),
{
    if files.len() == 0 {
        seq![]
    } else {
        let f = files.last();
        all_hit_symbols(files.drop_last()) + match f.2 {
            Some((syms, _)) => hit_symbols(syms@, range_lines(f.1@), syms@.len() as int),
            None => seq![],
        }
    }
}

/// The changed glue of the files, in file order.
pub open spec fn all_glue(files: Seq<ChangedFile>) -> Seq<GlueV>
    decreases files.len(),
{
    if files.len() == 0 {
        seq![]
    } else {
        let f = files.last();
        all_glue(files.drop_last()) + match f.2 {
            Some((syms, src)) => file_glue(f.0@, lines(src@), syms@, range_lines(f.1@)),
            None => seq![],
        }
    }
}

/// The changed code of a changeset: for each changed file that could be
/// read (the others are skipped), the symbols its changed lines fall in and
/// its changed glue (see `changed_in_file`).
pub fn changed_code(files: &Vec<ChangedFile>) -> (r: ChangedCode)
    ensures
        spans_view(r.symbols@) == all_hit_symbols(files@),
        glue_view(r.glue@) == all_glue(files@),
{
    let mut out = ChangedCode { symbols: Vec::new(), glue: Vec::new() };
    let mut i: usize = 0;
    assert(spans_view(out.symbols@) =~= all_hit_symbols(files@.take(0)));
    assert(glue_view(out.glue@) =~= all_glue(files@.take(0)));
    while i < files.len()
        invariant
            i <= files.len(),
            spans_view(out.symbols@) == all_hit_symbols(files@.take(i as int)),
            glue_view(out.glue@) == all_glue(files@.take(i as int)),
        decreases files.len() - i,
    {
        proof {
            assert(files@.take(i + 1).drop_last() == files@.take(i as int));
            assert(files@.take(i + 1).last() == files@[i as int]);
        }
        match &files[i].2 {
            Some((syms, src)) => {
                changed_in_file(&files[i].0, &files[i].1, syms, src.as_str(), &mut out);
            },
            None => {
                assert(spans_view(out.symbols@) =~= all_hit_symbols(files@.take(i + 1)));
                assert(glue_view(out.glue@) =~= all_glue(files@.take(i + 1)));
            },
        }
        i = i + 1;
    }
    assert(files@.take(files.len() as int) == files@);
    out
}

} // verus!
