//! Cycle tracking, read side: the per-cycle manifests under `.mdd/cycles/`
//! and the before/after element diff of each diagram.
use vstd::prelude::*;
use crate::order::{filter_by_membership, insert_sorted, lex_lt, sorted_contains, strictly_sorted};
use crate::patterns::{ALIAS_PATTERN, ID_PATTERN, Pat, QUOTED_PATTERN, alias_capture, first_capture, regex_captures};
use crate::strings::{zero_padded, zero_padded_string};
use crate::text::{
    cat, cat3, chars_of, is_ascii_alnum, is_ascii_alphanumeric, lines, lines_of, owned, push_str, starts_with,
    starts_with_exec, str_starts_with, string_of, string_of_range, strs, trim, trim_bounds, trim_chars, vviews,
};

verus! {

/// Directory of the per-cycle store, relative to the project root.
pub const CYCLES_DIR: &'static str = ".mdd/cycles";

/// Where a cycle's run began: `Generate` iff a description was given,
/// `Mapping` otherwise (the run that only maps existing code; `map` on disk).
#[derive(Clone, Copy, PartialEq, Eq, Structural, Debug)]
pub enum EntryPoint {
    Generate,
    Mapping,
}

#[derive(Clone, Copy, PartialEq, Eq, Structural, Debug)]
pub enum CycleStatus {
    Open,
    Closed,
    Aborted,
}

/// `.mdd/cycles/<n>/manifest.yml`.
pub struct CycleManifest {
    pub number: u32,
    pub slug: String,
    pub entry: EntryPoint,
    pub description: String,
    pub status: CycleStatus,
    pub opened_at: String,
    pub closed_at: Option<String>,
    pub touched_files: Vec<String>,
    /// The objective `@id`s this cycle realizes; empty means the whole model.
    pub scope: Vec<String>,
}

/// A resolved cycle: its manifest plus its snapshot directories.
pub struct Cycle {
    pub manifest: CycleManifest,
    pub dir: String,
    pub before_dir: String,
    pub after_dir: Option<String>,
}

/// The rail label's status word.
pub open spec fn status_word(s: CycleStatus) -> Seq<char> {
    match s {
        CycleStatus::Open => "open"@,
        CycleStatus::Closed => "closed"@,
        CycleStatus::Aborted => "aborted"@,
    }
}

/// `Cycle {:04} — <slug> (<status>)`.
pub open spec fn cycle_label(number: u32, slug: Seq<char>, status: CycleStatus) -> Seq<char> {
    "Cycle "@ + zero_padded(number as nat, 4) + " — "@ + slug + " ("@ + status_word(status) + ")"@
}

/// The `.diff.puml` of a model file `.mdd/models/<side>/<kind>/<name>.puml`
/// in cycle `number`: `.mdd/cycles/<nnnn>/<kind>/<name>.diff.puml`.
pub open spec fn diff_puml_rel_spec(number: u32, model_rel: Seq<char>) -> Option<Seq<char>> {
    let pre = ".mdd/models/"@;
    if !starts_with(model_rel, pre) {
        None
    } else {
        let under = model_rel.skip(pre.len() as int);
        match crate::text::find_char_from(under, '/', 0) {
            None => None,
            Some(i) => {
                let kind_name = under.skip(i + 1);
                if crate::text::ends_with(kind_name, ".puml"@) {
                    let stem = kind_name.take(kind_name.len() - 5);
                    Some(CYCLES_DIR@ + "/"@ + zero_padded(number as nat, 4) + "/"@ + stem
                        + ".diff.puml"@)
                } else {
                    None
                }
            },
        }
    }
}

fn status_text(s: CycleStatus) -> (r: &'static str)
    ensures
        r@ == status_word(s),
{
    match s {
        CycleStatus::Open => "open",
        CycleStatus::Closed => "closed",
        CycleStatus::Aborted => "aborted",
    }
}

impl Cycle {
    pub fn number(&self) -> (n: u32)
        ensures
            n == self.manifest.number,
    {
        self.manifest.number
    }

    pub fn is_closed(&self) -> (b: bool)
        ensures
            b == (self.manifest.status == CycleStatus::Closed),
    {
        self.manifest.status == CycleStatus::Closed
    }

    /// Human label for the rail, e.g. `Cycle 0002 — tree-rail (closed)`.
    pub fn label(&self) -> (r: String)
        ensures
            r@ == cycle_label(self.manifest.number, self.manifest.slug@, self.manifest.status),
    {
        let mut r = owned("Cycle ");
        let num = zero_padded_string(self.manifest.number as u64, 4);
        push_str(&mut r, num.as_str());
        push_str(&mut r, " — ");
        push_str(&mut r, self.manifest.slug.as_str());
        push_str(&mut r, " (");
        push_str(&mut r, status_text(self.manifest.status));
        push_str(&mut r, ")");
        r
    }

    /// Project-relative path of the superposed `.diff.puml` for a model file
    /// in this cycle; `None` for a path that is not a model file.
    pub fn diff_puml_rel(&self, model_rel: &str) -> (r: Option<String>)
        ensures
            match r {
                Some(p) => diff_puml_rel_spec(self.manifest.number, model_rel@) == Some(p@),
                None => diff_puml_rel_spec(self.manifest.number, model_rel@) is None,
            },
    {
        let v = chars_of(model_rel);
        let pre = chars_of(".mdd/models/");
        if !starts_with_exec(v.as_slice(), pre.as_slice()) {
            return None;
        }
        let under = crate::text::slice_chars(v.as_slice(), pre.len(), v.len());
        assert(under@ == model_rel@.skip(".mdd/models/"@.len() as int));
        match crate::text::find_char_exec(under.as_slice(), '/', 0) {
            None => None,
            Some(i) => {
                proof {
                    crate::text::lemma_find_char_from_range(under@, '/', 0);
                }
                let kind_name = crate::text::slice_chars(under.as_slice(), i + 1, under.len());
                assert(kind_name@ == under@.skip(i + 1));
                let suffix = chars_of(".puml");
                if crate::text::ends_with_exec(kind_name.as_slice(), suffix.as_slice()) {
                    proof {
                        reveal_strlit(".puml");
                    }
                    let stem = string_of_range(kind_name.as_slice(), 0, kind_name.len() - 5);
                    assert(stem@ == kind_name@.take(kind_name@.len() - 5));
                    let mut r = owned(CYCLES_DIR);
                    push_str(&mut r, "/");
                    let num = zero_padded_string(self.manifest.number as u64, 4);
                    push_str(&mut r, num.as_str());
                    push_str(&mut r, "/");
                    push_str(&mut r, stem.as_str());
                    push_str(&mut r, ".diff.puml");
                    Some(r)
                } else {
                    None
                }
            },
        }
    }
}

/// All cycles discovered under `.mdd/cycles/`, ordered by number.
pub struct CycleRegistry {
    pub cycles: Vec<Cycle>,
}

/// Index of the first cycle numbered `n`.
pub open spec fn first_numbered(cs: Seq<Cycle>, n: u32, i: int) -> Option<int>
    decreases cs.len() - i,
{
    if i < 0 || i >= cs.len() {
        None
    } else if cs[i].manifest.number == n {
        Some(i)
    } else {
        first_numbered(cs, n, i + 1)
    }
}

impl CycleRegistry {
    /// The first cycle numbered `number`.
    pub fn cycle(&self, number: u32) -> (r: Option<&Cycle>)
        ensures
            match first_numbered(self.cycles@, number, 0) {
                Some(i) => r == Some(&self.cycles@[i]),
                None => r is None,
            },
    {
        let mut i: usize = 0;
        while i < self.cycles.len()
            invariant
                i <= self.cycles.len(),
                first_numbered(self.cycles@, number, 0) == first_numbered(
                    self.cycles@,
                    number,
                    i as int,
                ),
            decreases self.cycles.len() - i,
        {
            if self.cycles[i].manifest.number == number {
                return Some(&self.cycles[i]);
            }
            i = i + 1;
        }
        None
    }

    /// The last (highest-numbered) cycle.
    pub fn latest(&self) -> (r: Option<&Cycle>)
        ensures
            self.cycles@.len() == 0 ==> r is None,
            self.cycles@.len() > 0 ==> r == Some(&self.cycles@.last()),
    {
        if self.cycles.len() == 0 {
            None
        } else {
            Some(&self.cycles[self.cycles.len() - 1])
        }
    }
}

// ---------------------------------------------------------------------------
// Element identities

/// The declaration keywords whose lines declare a diagram element.
pub open spec fn key_keywords() -> Seq<Seq<char>> {
    seq![
        "usecase "@, "actor "@, "class "@, "interface "@, "enum "@, "abstract "@,
        "participant "@, "boundary "@, "control "@, "entity "@, "database "@,
        "collections "@, "queue "@, "state "@, "component "@, "package "@, "node "@,
        "rectangle "@, "circle "@, "cloud "@, "frame "@, "folder "@, "card "@, "agent "@,
    ]
}

fn key_keyword(i: usize) -> (r: &'static str)
    requires
        i < 24,
    ensures
        r@ == key_keywords()[i as int],
{
    match i {
        0 => "usecase ",
        1 => "actor ",
        2 => "class ",
        3 => "interface ",
        4 => "enum ",
        5 => "abstract ",
        6 => "participant ",
        7 => "boundary ",
        8 => "control ",
        9 => "entity ",
        10 => "database ",
        11 => "collections ",
        12 => "queue ",
        13 => "state ",
        14 => "component ",
        15 => "package ",
        16 => "node ",
        17 => "rectangle ",
        18 => "circle ",
        19 => "cloud ",
        20 => "frame ",
        21 => "folder ",
        22 => "card ",
        _ => "agent ",
    }
}

/// Index of the first keyword of `kws` (from `i` on) that `line` starts with.
pub open spec fn first_keyword(kws: Seq<Seq<char>>, line: Seq<char>, i: int) -> Option<int>
    decreases kws.len() - i,
{
    if i < 0 || i >= kws.len() {
        None
    } else if starts_with(line, kws[i]) {
        Some(i)
    } else {
        first_keyword(kws, line, i + 1)
    }
}

/// The keywords that open an element declaration in a PlantUML diagram.
pub open spec fn element_keywords() -> Seq<Seq<char>> {
    seq!["usecase "@, "actor "@, "class "@, "interface "@, "enum "@, "abstract "@, "participant "@, "boundary "@, "control "@, "entity "@, "database "@, "collections "@, "queue "@, "state "@, "component "@, "package "@, "node "@, "rectangle "@, "circle "@, "cloud "@, "frame "@, "folder "@, "card "@, "agent "@]
}

/// An element's bare name: letters, digits and `_`.
pub open spec fn bare_name(s: Seq<char>) -> bool {
    s.len() > 0 && forall|i: int| 0 <= i < s.len() ==> is_ascii_alnum(#[trigger] s[i]) || s[i] == '_'
}

/// A keyword: a lower-case word followed by one space, its only space.
pub open spec fn keyword_shaped(k: Seq<char>) -> bool {
    &&& k.len() >= 2
    &&& k[k.len() - 1] == ' '
    &&& 'a' <= k[0] && k[0] <= 'z'
    &&& forall|t: int| 0 <= t < k.len() - 1 ==> #[trigger] k[t] != ' '
}

proof fn lemma_keyword_lists_shaped()
    ensures
        forall|q: int| 0 <= q < key_keywords().len() ==> keyword_shaped(#[trigger] key_keywords()[q]),
        forall|q: int| 0 <= q < element_keywords().len() ==> keyword_shaped(#[trigger] element_keywords()[q]),
{
    reveal_strlit("usecase ");
    reveal_strlit("actor ");
    reveal_strlit("class ");
    reveal_strlit("interface ");
    reveal_strlit("enum ");
    reveal_strlit("abstract ");
    reveal_strlit("participant ");
    reveal_strlit("boundary ");
    reveal_strlit("control ");
    reveal_strlit("entity ");
    reveal_strlit("database ");
    reveal_strlit("collections ");
    reveal_strlit("queue ");
    reveal_strlit("state ");
    reveal_strlit("component ");
    reveal_strlit("package ");
    reveal_strlit("node ");
    reveal_strlit("rectangle ");
    reveal_strlit("circle ");
    reveal_strlit("cloud ");
    reveal_strlit("frame ");
    reveal_strlit("folder ");
    reveal_strlit("card ");
    reveal_strlit("agent ");
}

proof fn lemma_first_keyword_upto(kws: Seq<Seq<char>>, line: Seq<char>, i: int, j: int)
    requires
        0 <= i <= j < kws.len(),
        starts_with(line, kws[j]),
    ensures
        first_keyword(kws, line, i) matches Some(q) && i <= q <= j && starts_with(line, kws[q]),
    decreases j - i,
{
    if !starts_with(line, kws[i]) {
        lemma_first_keyword_upto(kws, line, i + 1, j);
    }
}

proof fn lemma_shaped_prefixes_equal(line: Seq<char>, a: Seq<char>, b: Seq<char>)
    requires
        keyword_shaped(a),
        keyword_shaped(b),
        starts_with(line, a),
        starts_with(line, b),
    ensures
        a == b,
{
    if a.len() < b.len() {
        assert(line[a.len() - 1] == a[a.len() - 1]);
        assert(line[a.len() - 1] == b[a.len() - 1]);
    } else if b.len() < a.len() {
        assert(line[b.len() - 1] == b[b.len() - 1]);
        assert(line[b.len() - 1] == a[b.len() - 1]);
    }
    assert(a =~= line.take(a.len() as int));
    assert(b =~= line.take(b.len() as int));
}

proof fn lemma_no_tag_no_capture(tag: Seq<char>, s: Seq<char>, i: int)
    requires
        tag.len() > 0,
        forall|t: int| 0 <= t < s.len() ==> s[t] != tag[0],
    ensures
        crate::patterns::captures_from(Pat::Ident(tag), s, i).len() == 0,
    decreases s.len() + 1 - i,
{
    if 0 <= i <= s.len() {
        if crate::patterns::match_at(Pat::Ident(tag), s, i) is Some {
            assert(crate::text::occurs_at(s, tag, i));
            assert(s[i] == s.subrange(i, i + tag.len())[0]);
        }
        lemma_no_tag_no_capture(tag, s, i + 1);
    }
}

proof fn lemma_no_quote_no_capture(s: Seq<char>, i: int)
    requires
        forall|t: int| 0 <= t < s.len() ==> s[t] != '"',
    ensures
        crate::patterns::captures_from(Pat::Quoted, s, i).len() == 0,
    decreases s.len() + 1 - i,
{
    if 0 <= i <= s.len() {
        lemma_no_quote_no_capture(s, i + 1);
    }
}

proof fn lemma_bare_ident_prefix(s: Seq<char>)
    requires
        forall|i: int| 0 <= i < s.len() ==> is_ascii_alnum(#[trigger] s[i]) || s[i] == '_',
    ensures
        ident_prefix(s) == s,
    decreases s.len(),
{
    if s.len() > 0 {
        assert forall|i: int| 0 <= i < s.drop_first().len() implies is_ascii_alnum(#[trigger] s.drop_first()[i])
            || s.drop_first()[i] == '_' by {
            assert(s.drop_first()[i] == s[i + 1]);
        }
        lemma_bare_ident_prefix(s.drop_first());
        assert(s =~= seq![s[0]] + s.drop_first());
    }
}

/// A line that declares an element by a PlantUML element keyword and a
/// bare name is recognised as a declaration with that keyword, and, when it
/// gives no alias, its identity is `el:` and the name.
pub proof fn lemma_keyword_declares_element(kw: Seq<char>, name: Seq<char>)
    requires
        element_keywords().contains(kw),
        bare_name(name),
    ensures
        first_keyword(key_keywords(), kw + name, 0) matches Some(q) && key_keywords()[q] == kw,
        alias_capture(kw + name) is None ==> line_key(kw + name) == Some("el:"@ + name),
{
    reveal_strlit("@id(");
    reveal_strlit("'");
    reveal_strlit("//");
    lemma_keyword_lists_shaped();
    let line = kw + name;
    let j = choose|j: int| 0 <= j < element_keywords().len() && element_keywords()[j] == kw;
    assert(key_keywords()[j] == element_keywords()[j]);
    assert(line.take(kw.len() as int) =~= kw);
    lemma_first_keyword_upto(key_keywords(), line, 0, j);
    let q = first_keyword(key_keywords(), line, 0)->0;
    assert(keyword_shaped(key_keywords()[q]));
    assert(keyword_shaped(kw));
    assert forall|t: int| 0 <= t < name.len() implies #[trigger] name[t] != ' ' by {
        assert(is_ascii_alnum(name[t]) || name[t] == '_');
    }
    lemma_shaped_prefixes_equal(line, key_keywords()[q], kw);
    if alias_capture(line) is None {
        assert forall|t: int| 0 <= t < line.len() implies line[t] != '@' && line[t] != '"' by {
            if t < kw.len() {
                assert(line[t] == kw[t]);
                if t < kw.len() - 1 {
                    assert(kw[t] != ' ');
                }
                if kw[t] == '@' || kw[t] == '"' {
                    lemma_keyword_kw_chars(kw, t);
                }
            } else {
                assert(line[t] == name[t - kw.len()]);
                assert(is_ascii_alnum(name[t - kw.len()]) || name[t - kw.len()] == '_');
            }
        }
        lemma_no_tag_no_capture("@id("@, line, 0);
        lemma_no_quote_no_capture(line, 0);
        assert(!is_comment_line(line)) by {
            if starts_with(line, "'"@) {
                assert(line[0] == line.take(1)[0]);
            }
            if starts_with(line, "//"@) {
                assert(line[0] == line.take(2)[0]);
            }
        }
        let rest = line.skip(kw.len() as int);
        assert(rest =~= name);
        assert(crate::text::ws_prefix_len(name) == 0) by {
            assert(is_ascii_alnum(name[0]) || name[0] == '_');
        }
        assert(name.skip(0) =~= name);
        assert(crate::text::ws_suffix_len(name) == 0) by {
            assert(is_ascii_alnum(name[name.len() - 1]) || name[name.len() - 1] == '_');
        }
        assert(name.take(name.len() as int) =~= name);
        assert(trim(rest) == name);
        lemma_bare_ident_prefix(name);
    }
}

proof fn lemma_keyword_kw_chars(kw: Seq<char>, t: int)
    requires
        element_keywords().contains(kw),
        0 <= t < kw.len(),
    ensures
        kw[t] != '@' && kw[t] != '"',
{
    reveal_strlit("usecase ");
    reveal_strlit("actor ");
    reveal_strlit("class ");
    reveal_strlit("interface ");
    reveal_strlit("enum ");
    reveal_strlit("abstract ");
    reveal_strlit("participant ");
    reveal_strlit("boundary ");
    reveal_strlit("control ");
    reveal_strlit("entity ");
    reveal_strlit("database ");
    reveal_strlit("collections ");
    reveal_strlit("queue ");
    reveal_strlit("state ");
    reveal_strlit("component ");
    reveal_strlit("package ");
    reveal_strlit("node ");
    reveal_strlit("rectangle ");
    reveal_strlit("circle ");
    reveal_strlit("cloud ");
    reveal_strlit("frame ");
    reveal_strlit("folder ");
    reveal_strlit("card ");
    reveal_strlit("agent ");
}

/// A diagram with a line (after trimming) that declares an element by a
/// PlantUML element keyword and a bare name, without an alias, has that
/// element's identity `el:<name>`; so a component added in a cycle shows
/// up as added.
pub proof fn lemma_declared_element_keyed(ls: Seq<Seq<char>>, j: int, kw: Seq<char>, name: Seq<char>)
    requires
        0 <= j < ls.len(),
        trim(ls[j]) == kw + name,
        element_keywords().contains(kw),
        bare_name(name),
        alias_capture(kw + name) is None,
    ensures
        keys_of_lines(ls).contains("el:"@ + name),
    decreases ls.len(),
{
    lemma_keyword_declares_element(kw, name);
    if j < ls.len() - 1 {
        assert(ls.drop_last()[j] == ls[j]);
        lemma_declared_element_keyed(ls.drop_last(), j, kw, name);
    }
}

/// A line that starts with an element keyword starts with a lower-case
/// letter: it is no comment and no `@` directive.
pub proof fn lemma_keyword_line_starts_with_letter(line: Seq<char>)
    requires
        first_keyword(key_keywords(), line, 0) is Some,
    ensures
        line.len() > 0,
        'a' <= line[0] && line[0] <= 'z',
{
    reveal_strlit("usecase ");
    reveal_strlit("actor ");
    reveal_strlit("class ");
    reveal_strlit("interface ");
    reveal_strlit("enum ");
    reveal_strlit("abstract ");
    reveal_strlit("participant ");
    reveal_strlit("boundary ");
    reveal_strlit("control ");
    reveal_strlit("entity ");
    reveal_strlit("database ");
    reveal_strlit("collections ");
    reveal_strlit("queue ");
    reveal_strlit("state ");
    reveal_strlit("component ");
    reveal_strlit("package ");
    reveal_strlit("node ");
    reveal_strlit("rectangle ");
    reveal_strlit("circle ");
    reveal_strlit("cloud ");
    reveal_strlit("frame ");
    reveal_strlit("folder ");
    reveal_strlit("card ");
    reveal_strlit("agent ");
    let q = first_keyword(key_keywords(), line, 0)->0;
    lemma_first_keyword(key_keywords(), line, 0);
    let kw = key_keywords()[q];
    assert(kw.len() > 0 && 'a' <= kw[0] && kw[0] <= 'z');
    assert(line[0] == line.take(kw.len() as int)[0]);
}

pub proof fn lemma_first_keyword(kws: Seq<Seq<char>>, line: Seq<char>, i: int)
    requires
        0 <= i,
    ensures
        first_keyword(kws, line, i) matches Some(k) ==> i <= k < kws.len() && starts_with(
            line,
            kws[k],
        ),
    decreases kws.len() - i,
{
    if i < kws.len() && !starts_with(line, kws[i]) {
        lemma_first_keyword(kws, line, i + 1);
    }
}

/// Leading run of `[A-Za-z0-9_]`.
pub open spec fn ident_prefix(s: Seq<char>) -> Seq<char>
    decreases s.len(),
{
    if s.len() > 0 && (is_ascii_alnum(s[0]) || s[0] == '_') {
        seq![s[0]] + ident_prefix(s.drop_first())
    } else {
        seq![]
    }
}

/// `str::trim_matches('"')`.
pub open spec fn trim_quotes(s: Seq<char>) -> Seq<char>
    decreases s.len(),
{
    if s.len() > 0 && s[0] == '"' {
        trim_quotes(s.drop_first())
    } else if s.len() > 0 && s.last() == '"' {
        trim_quotes(s.drop_last())
    } else {
        s
    }
}

/// A comment line of PlantUML: `'` or `//`.
pub open spec fn is_comment_line(t: Seq<char>) -> bool {
    starts_with(t, "'"@) || starts_with(t, "//"@)
}

/// The identity a trimmed line contributes, if any: its `@id`, else for an
/// element declaration its alias, quoted label, or bare name.
pub open spec fn line_key(line: Seq<char>) -> Option<Seq<char>> {
    if line.len() == 0 {
        None
    } else {
        match first_capture(Pat::Ident("@id("@), line) {
            Some(c) => Some("id:"@ + c),
            None => if is_comment_line(line) {
                None
            } else {
                match first_keyword(key_keywords(), line, 0) {
                    None => None,
                    Some(k) => match alias_capture(line) {
                        Some(a) => Some("el:"@ + trim_quotes(a)),
                        None => match first_capture(Pat::Quoted, line) {
                            Some(q) => Some("el:"@ + q),
                            None => {
                                let t = ident_prefix(trim(line.skip(key_keywords()[k].len() as int)));
                                if t.len() > 0 {
                                    Some("el:"@ + t)
                                } else {
                                    None
                                }
                            },
                        },
                    },
                }
            },
        }
    }
}

/// The element identities of a list of lines.
pub open spec fn keys_of_lines(ls: Seq<Seq<char>>) -> Set<Seq<char>>
    decreases ls.len(),
{
    if ls.len() == 0 {
        Set::empty()
    } else {
        let rest = keys_of_lines(ls.drop_last());
        match line_key(trim(ls.last())) {
            Some(k) => rest.insert(k),
            None => rest,
        }
    }
}

/// The element identities of a diagram document.
pub open spec fn doc_keys(doc: Seq<char>) -> Set<Seq<char>> {
    keys_of_lines(lines(doc))
}

/// Index of the first keyword of `key_keywords()` the line starts with.
pub fn find_key_keyword(line: &[char]) -> (r: Option<usize>)
    ensures
        match r {
            Some(k) => first_keyword(key_keywords(), line@, 0) == Some(k as int) && k < 24,
            None => first_keyword(key_keywords(), line@, 0) is None,
        },
{
    let mut i: usize = 0;
    while i < 24
        invariant
            i <= 24,
            first_keyword(key_keywords(), line@, 0) == first_keyword(key_keywords(), line@, i as int),
        decreases 24 - i,
    {
        let kw = chars_of(key_keyword(i));
        if starts_with_exec(line, kw.as_slice()) {
            return Some(i);
        }
        i = i + 1;
    }
    None
}

/// `str::trim_matches('"')` on characters.
fn trim_quote_chars(s: &[char]) -> (r: Vec<char>)
    ensures
        r@ == trim_quotes(s@),
{
    let mut a: usize = 0;
    let mut b: usize = s.len();
    assert(s@.subrange(0, s.len() as int) == s@);
    while a < b && (s[a] == '"' || s[b - 1] == '"')
        invariant
            a <= b <= s.len(),
            trim_quotes(s@) == trim_quotes(s@.subrange(a as int, b as int)),
        decreases b - a,
    {
        let ghost t = s@.subrange(a as int, b as int);
        if s[a] == '"' {
            assert(t.drop_first() == s@.subrange(a + 1, b as int));
            a = a + 1;
        } else {
            assert(t.drop_last() == s@.subrange(a as int, b - 1));
            b = b - 1;
        }
    }
    proof {
        let t = s@.subrange(a as int, b as int);
        if a < b {
            assert(t[0] == s@[a as int]);
            assert(t.last() == s@[b - 1]);
        }
    }
    crate::text::slice_chars(s, a, b)
}

/// Leading run of `[A-Za-z0-9_]` of `s`.
fn ident_prefix_chars(s: &[char]) -> (r: Vec<char>)
    ensures
        r@ == ident_prefix(s@),
{
    let mut i: usize = 0;
    assert(s@.skip(0) == s@);
    assert(s@.take(0) + ident_prefix(s@) =~= ident_prefix(s@));
    while i < s.len() && (is_ascii_alphanumeric(s[i]) || s[i] == '_')
        invariant
            i <= s.len(),
            ident_prefix(s@) == s@.take(i as int) + ident_prefix(s@.skip(i as int)),
        decreases s.len() - i,
    {
        let ghost t = s@.skip(i as int);
        assert(t[0] == s@[i as int]);
        assert(t.drop_first() == s@.skip(i + 1));
        assert(s@.take(i + 1) == s@.take(i as int) + seq![s@[i as int]]);
        i = i + 1;
    }
    proof {
        let t = s@.skip(i as int);
        if i < s.len() {
            assert(t[0] == s@[i as int]);
        }
        assert(ident_prefix(t) =~= Seq::<char>::empty());
    }
    crate::text::slice_chars(s, 0, i)
}

/// The identity a trimmed line contributes, if any.
fn line_key_exec(line: &str) -> (r: Option<String>)
    ensures
        match r {
            Some(k) => line_key(line@) == Some(k@),
            None => line_key(line@) is None,
        },
{
    let v = chars_of(line);
    if v.len() == 0 {
        return None;
    }
    match regex_captures(ID_PATTERN, line) {
        Some(c) => {
            return Some(cat("id:", c.as_str()));
        },
        None => {},
    }
    if str_starts_with(line, "'") || str_starts_with(line, "//") {
        return None;
    }
    match find_key_keyword(v.as_slice()) {
        None => None,
        Some(k) => {
            match regex_captures(ALIAS_PATTERN, line) {
                Some(a) => {
                    let av = chars_of(a.as_str());
                    let t = trim_quote_chars(av.as_slice());
                    let ts = string_of(t.as_slice());
                    Some(cat("el:", ts.as_str()))
                },
                None => match regex_captures(QUOTED_PATTERN, line) {
                    Some(q) => Some(cat("el:", q.as_str())),
                    None => {
                        let kw = chars_of(key_keyword(k));
                        proof {
                            lemma_first_keyword(key_keywords(), v@, 0);
                        }
                        let rest = crate::text::slice_chars(v.as_slice(), kw.len(), v.len());
                        let rt = trim_chars(rest.as_slice());
                        let tok = ident_prefix_chars(rt.as_slice());
                        if tok.len() > 0 {
                            let ts = string_of(tok.as_slice());
                            Some(cat("el:", ts.as_str()))
                        } else {
                            None
                        }
                    },
                },
            }
        },
    }
}

/// Element identity for diffing: every `@id(...)` (as `id:<id>`), plus every
/// declared element keyed by its alias, quoted label, or bare name (as
/// `el:<name>`). Sorted, without duplicates.
pub fn element_keys(doc: &str) -> (r: Vec<String>)
    ensures
        strictly_sorted(strs(r@)),
        strs(r@).to_set() == doc_keys(doc@),
{
    let ls = lines_of(doc);
    let ghost all = vviews(ls@);
    let mut keys: Vec<String> = Vec::new();
    let mut i: usize = 0;
    assert(all.take(0) =~= Seq::<Seq<char>>::empty());
    assert(strs(keys@).to_set() =~= Set::<Seq<char>>::empty());
    while i < ls.len()
        invariant
            i <= ls.len(),
            all == vviews(ls@),
            all == lines(doc@),
            strictly_sorted(strs(keys@)),
            strs(keys@).to_set() == keys_of_lines(all.take(i as int)),
        decreases ls.len() - i,
    {
        proof {
            assert(all.take(i + 1).drop_last() == all.take(i as int));
            assert(all.take(i + 1).last() == ls@[i as int]@);
        }
        let t = trim_chars(ls[i].as_slice());
        let line = string_of(t.as_slice());
        match line_key_exec(line.as_str()) {
            Some(k) => {
                insert_sorted(&mut keys, k);
            },
            None => {},
        }
        i = i + 1;
    }
    assert(all.take(ls.len() as int) == all);
    keys
}

// ---------------------------------------------------------------------------
// Before/after partition

/// Per-diagram partition of element identities between a cycle's `before/`
/// and `after/` snapshots.
pub struct CycleDiff {
    pub diagram: String,
    pub unchanged: Vec<String>,
    pub added: Vec<String>,
    pub removed: Vec<String>,
}

impl CycleDiff {
    /// Nothing was added or removed.
    pub fn is_empty(&self) -> (b: bool)
        ensures
            b == (self.added@.len() == 0 && self.removed@.len() == 0),
    {
        self.added.len() == 0 && self.removed.len() == 0
    }
}

/// A strictly sorted list with no elements is empty.
proof fn lemma_empty_set_empty_seq(s: Seq<Seq<char>>)
    requires
        s.to_set() == Set::<Seq<char>>::empty(),
    ensures
        s.len() == 0,
{
    if s.len() > 0 {
        assert(s.to_set().contains(s[0]));
    }
}

/// Partition the element identities of `before` and `after` into unchanged
/// (in both), added (only after) and removed (only before), each sorted.
/// The buckets are pairwise disjoint and together cover both documents; two
/// identical documents give a diff with nothing added or removed.
pub fn diff_documents(diagram: &str, before: &str, after: &str) -> (d: CycleDiff)
    ensures
        d.diagram@ == diagram@,
        strictly_sorted(strs(d.unchanged@)),
        strictly_sorted(strs(d.added@)),
        strictly_sorted(strs(d.removed@)),
        strs(d.unchanged@).to_set() == doc_keys(before@).intersect(doc_keys(after@)),
        strs(d.added@).to_set() == doc_keys(after@).difference(doc_keys(before@)),
        strs(d.removed@).to_set() == doc_keys(before@).difference(doc_keys(after@)),
        strs(d.unchanged@).to_set().disjoint(strs(d.added@).to_set()),
        strs(d.unchanged@).to_set().disjoint(strs(d.removed@).to_set()),
        strs(d.added@).to_set().disjoint(strs(d.removed@).to_set()),
        strs(d.unchanged@).to_set() + strs(d.removed@).to_set() == doc_keys(before@),
        strs(d.unchanged@).to_set() + strs(d.added@).to_set() == doc_keys(after@),
        before@ == after@ ==> d.added@.len() == 0 && d.removed@.len() == 0,
{
    let before_keys = element_keys(before);
    let after_keys = element_keys(after);
    let unchanged = filter_by_membership(&before_keys, &after_keys, true);
    let added = filter_by_membership(&after_keys, &before_keys, false);
    let removed = filter_by_membership(&before_keys, &after_keys, false);
    let ghost kb = doc_keys(before@);
    let ghost ka = doc_keys(after@);
    proof {
        assert(strs(unchanged@).to_set() =~= kb.intersect(ka));
        assert(strs(added@).to_set() =~= ka.difference(kb));
        assert(strs(removed@).to_set() =~= kb.difference(ka));
        assert(kb.intersect(ka) + kb.difference(ka) =~= kb);
        assert(kb.intersect(ka) + ka.difference(kb) =~= ka);
        if before@ == after@ {
            assert(ka.difference(kb) =~= Set::<Seq<char>>::empty());
            lemma_empty_set_empty_seq(strs(added@));
            lemma_empty_set_empty_seq(strs(removed@));
        }
    }
    CycleDiff { diagram: owned(diagram), unchanged, added, removed }
}

// ---------------------------------------------------------------------------
// Superposed before/after document

/// A sequence-diagram participant declaration.
pub open spec fn participant_line(t: Seq<char>) -> bool {
    starts_with(t, "participant "@) || starts_with(t, "boundary "@) || starts_with(t, "control "@)
        || starts_with(t, "entity "@) || starts_with(t, "collections "@) || starts_with(
        t,
        "queue "@,
    )
}

/// The element keyword used to re-inject removed elements: none for a Salt
/// mockup, `state` for a state diagram, `participant` for a sequence
/// diagram, else `card`.
pub open spec fn ghost_keyword(after: Seq<char>) -> Option<Seq<char>> {
    let ls = lines(after);
    if exists|i: int| 0 <= i < ls.len() && starts_with(trim(#[trigger] ls[i]), "@startsalt"@) {
        None
    } else if exists|i: int|
        0 <= i < ls.len() && !is_comment_line(trim(#[trigger] ls[i])) && crate::text::contains(
            trim(ls[i]),
            "[*]"@,
        ) {
        Some("state"@)
    } else if exists|i: int|
        0 <= i < ls.len() && !is_comment_line(trim(#[trigger] ls[i])) && participant_line(
            trim(ls[i]),
        ) {
        Some("participant"@)
    } else {
        Some("card"@)
    }
}

fn is_participant_line(t: &str) -> (b: bool)
    ensures
        b == participant_line(t@),
{
    str_starts_with(t, "participant ") || str_starts_with(t, "boundary ") || str_starts_with(
        t,
        "control ",
    ) || str_starts_with(t, "entity ") || str_starts_with(t, "collections ") || str_starts_with(
        t,
        "queue ",
    )
}

/// PlantUML element keyword for re-injecting a removed element as a ghost,
/// valid for the diagram type of `after`; `None` for a Salt mockup.
pub fn removed_ghost_keyword(after: &str) -> (r: Option<&'static str>)
    ensures
        match r {
            Some(k) => ghost_keyword(after@) == Some(k@),
            None => ghost_keyword(after@) is None,
        },
{
    let ls = lines_of(after);
    let ghost all = vviews(ls@);
    let mut has_participant = false;
    let mut has_state = false;
    let mut i: usize = 0;
    while i < ls.len()
        invariant
            i <= ls.len(),
            all == vviews(ls@),
            all == lines(after@),
            forall|k: int| 0 <= k < i ==> !starts_with(trim(#[trigger] all[k]), "@startsalt"@),
            has_state == exists|k: int|
                0 <= k < i && !is_comment_line(trim(#[trigger] all[k])) && crate::text::contains(
                    trim(all[k]),
                    "[*]"@,
                ),
            has_participant == exists|k: int|
                0 <= k < i && !is_comment_line(trim(#[trigger] all[k])) && participant_line(
                    trim(all[k]),
                ),
        decreases ls.len() - i,
    {
        assert(all[i as int] == ls@[i as int]@);
        let tv = trim_chars(ls[i].as_slice());
        let ts = string_of(tv.as_slice());
        let t = ts.as_str();
        if str_starts_with(t, "@startsalt") {
            return None;
        }
        if !(str_starts_with(t, "'") || str_starts_with(t, "//")) {
            if crate::text::str_contains(t, "[*]") {
                has_state = true;
            }
            if is_participant_line(t) {
                has_participant = true;
            }
        }
        i = i + 1;
    }
    if has_state {
        Some("state")
    } else if has_participant {
        Some("participant")
    } else {
        Some("card")
    }
}

/// The colour legend inserted after the opening line.
pub const SKINPARAM_BLOCK: &'static str = "skinparam usecase {\n  BackgroundColor<<added>> #90EE90\n  BackgroundColor<<removed>> #FFB6C1\n}\nskinparam class {\n  BackgroundColor<<added>> #90EE90\n  BackgroundColor<<removed>> #FFB6C1\n}\nskinparam component {\n  BackgroundColor<<added>> #90EE90\n  BackgroundColor<<removed>> #FFB6C1\n}\nskinparam state {\n  BackgroundColor<<added>> #90EE90\n  BackgroundColor<<removed>> #FFB6C1\n}\nskinparam rectangle {\n  BackgroundColor<<added>> #90EE90\n  BackgroundColor<<removed>> #FFB6C1\n}\nskinparam actor {\n  BackgroundColor<<added>> #90EE90\n  BackgroundColor<<removed>> #FFB6C1\n}\nskinparam participant {\n  BackgroundColor<<added>> #90EE90\n  BackgroundColor<<removed>> #FFB6C1\n}\n";

/// Keywords of a declaration that can carry the `<<added>>` stereotype.
pub open spec fn annot_keywords() -> Seq<Seq<char>> {
    seq![
        "usecase "@, "actor "@, "class "@, "interface "@, "enum "@, "participant "@, "state "@,
        "component "@, "rectangle "@, "database "@, "folder "@, "node "@, "card "@, "agent "@,
    ]
}

fn annot_keyword(i: usize) -> (r: &'static str)
    requires
        i < 14,
    ensures
        r@ == annot_keywords()[i as int],
{
    match i {
        0 => "usecase ",
        1 => "actor ",
        2 => "class ",
        3 => "interface ",
        4 => "enum ",
        5 => "participant ",
        6 => "state ",
        7 => "component ",
        8 => "rectangle ",
        9 => "database ",
        10 => "folder ",
        11 => "node ",
        12 => "card ",
        _ => "agent ",
    }
}

fn has_annot_keyword(t: &[char]) -> (b: bool)
    ensures
        b == (first_keyword(annot_keywords(), t@, 0) is Some),
{
    let mut i: usize = 0;
    while i < 14
        invariant
            i <= 14,
            first_keyword(annot_keywords(), t@, 0) == first_keyword(annot_keywords(), t@, i as int),
        decreases 14 - i,
    {
        let kw = chars_of(annot_keyword(i));
        if starts_with_exec(t, kw.as_slice()) {
            return true;
        }
        i = i + 1;
    }
    false
}

/// `str::trim_start_matches(p)`: every leading copy of `p` removed.
pub open spec fn strip_all_prefix(s: Seq<char>, p: Seq<char>) -> Seq<char>
    decreases s.len(),
{
    if p.len() > 0 && starts_with(s, p) {
        strip_all_prefix(s.skip(p.len() as int), p)
    } else {
        s
    }
}

fn strip_all_prefix_chars(s: &[char], p: &[char]) -> (r: Vec<char>)
    requires
        p.len() > 0,
    ensures
        r@ == strip_all_prefix(s@, p@),
{
    let mut i: usize = 0;
    assert(s@.skip(0) == s@);
    loop
        invariant
            i <= s.len(),
            p.len() > 0,
            strip_all_prefix(s@, p@) == strip_all_prefix(s@.skip(i as int), p@),
        decreases s.len() - i,
    {
        let rest = crate::text::slice_chars(s, i, s.len());
        assert(rest@ == s@.skip(i as int));
        if starts_with_exec(rest.as_slice(), p) {
            assert(s@.skip(i as int).skip(p.len() as int) == s@.skip(i + p.len()));
            i = i + p.len();
        } else {
            return rest;
        }
    }
}

/// The label of a removed identity: its `id:` / `el:` prefixes removed.
pub open spec fn removed_label(key: Seq<char>) -> Seq<char> {
    strip_all_prefix(strip_all_prefix(key, "id:"@), "el:"@)
}

/// `<kw> "<label>" as RemovedByCycle<idx> <<removed>>` for each removed key.
pub open spec fn removed_block(kw: Seq<char>, removed: Seq<Seq<char>>) -> Seq<char>
    decreases removed.len(),
{
    if removed.len() == 0 {
        seq![]
    } else {
        removed_block(kw, removed.drop_last()) + kw + " \""@ + removed_label(removed.last())
            + "\" as RemovedByCycle"@ + crate::strings::decimal((removed.len() - 1) as nat)
            + " <<removed>>\n"@
    }
}

/// A declaration line with a stereotype injected before its body brace (or
/// at its end).
pub open spec fn with_stereo(line: Seq<char>, stereo: Seq<char>) -> Seq<char> {
    match crate::text::find_char_from(line, '{', 0) {
        Some(p) => crate::text::trim_end(line.take(p)) + " "@ + stereo + " "@ + line.skip(p),
        None => crate::text::trim_end(line) + " "@ + stereo,
    }
}

/// Tagging a declaration keeps the declaration (up to trailing spaces
/// before the tag) and writes the stereotype into it.
pub proof fn lemma_with_stereo_tags(line: Seq<char>, stereo: Seq<char>)
    ensures
        exists|p: int| crate::text::occurs_at(with_stereo(line, stereo), stereo, p),
        crate::text::find_char_from(line, '{', 0) is None ==> with_stereo(line, stereo).take(
            crate::text::trim_end(line).len() as int,
        ) == crate::text::trim_end(line),
{
    reveal_strlit(" ");
    let w = with_stereo(line, stereo);
    match crate::text::find_char_from(line, '{', 0) {
        Some(q) => {
            let a = crate::text::trim_end(line.take(q));
            let p: int = a.len() as int + 1;
            assert(w.subrange(p, p + stereo.len() as int) =~= stereo);
            assert(crate::text::occurs_at(w, stereo, p));
        },
        None => {
            let a = crate::text::trim_end(line);
            let p: int = a.len() as int + 1;
            assert(w.subrange(p, p + stereo.len() as int) =~= stereo);
            assert(crate::text::occurs_at(w, stereo, p));
            assert(w.take(a.len() as int) =~= a);
        },
    }
}

/// A declaration line with `<<added>>` injected.
pub open spec fn with_added(line: Seq<char>) -> Seq<char> {
    with_stereo(line, "<<added>>"@)
}

/// One line of the superposed document: (output, legend inserted, an
/// added `@id` waits for its declaration).
pub open spec fn annot_step(
    st: (Seq<char>, bool, bool),
    line: Seq<char>,
    kb: Set<Seq<char>>,
    removed: Seq<Seq<char>>,
    ghost_kw: Option<Seq<char>>,
) -> (Seq<char>, bool, bool) {
    let (out, inserted, pending) = st;
    let t = trim(line);
    if !inserted && (starts_with(t, "@startuml"@) || starts_with(t, "@startsalt"@)) {
        (out + line + "\n"@ + SKINPARAM_BLOCK@, true, pending)
    } else if starts_with(t, "@enduml"@) || starts_with(t, "@endsalt"@) {
        let ghosts = match ghost_kw {
            Some(kw) => removed_block(kw, removed),
            None => seq![],
        };
        (out + ghosts + line + "\n"@, inserted, pending)
    } else if is_comment_line(t) {
        let p = match first_capture(Pat::Ident("@id("@), t) {
            Some(c) => if !kb.contains("id:"@ + c) {
                true
            } else {
                pending
            },
            None => pending,
        };
        (out + line + "\n"@, inserted, p)
    } else if pending && t.len() > 0 && first_keyword(annot_keywords(), t, 0) is Some {
        (out + with_added(line) + "\n"@, inserted, false)
    } else {
        (out + line + "\n"@, inserted, pending)
    }
}

pub open spec fn annot_fold(
    ls: Seq<Seq<char>>,
    kb: Set<Seq<char>>,
    removed: Seq<Seq<char>>,
    ghost_kw: Option<Seq<char>>,
) -> (Seq<char>, bool, bool)
    decreases ls.len(),
{
    if ls.len() == 0 {
        (seq![], false, false)
    } else {
        annot_step(annot_fold(ls.drop_last(), kb, removed, ghost_kw), ls.last(), kb, removed, ghost_kw)
    }
}

/// The strictly sorted sequence of a set of strings.
pub open spec fn sorted_of(s: Set<Seq<char>>) -> Seq<Seq<char>> {
    choose|q: Seq<Seq<char>>| strictly_sorted(q) && q.to_set() == s
}

/// A strictly sorted sequence is the sorted sequence of its elements.
pub proof fn lemma_sorted_of(s: Seq<Seq<char>>)
    requires
        strictly_sorted(s),
    ensures
        s == sorted_of(s.to_set()),
{
    crate::order::lemma_sorted_unique(s, sorted_of(s.to_set()));
}

/// The superposed before/after PlantUML document of a cycle.
pub open spec fn annotate_cycle_spec(after: Seq<char>, before: Seq<char>) -> Seq<char> {
    let kb = doc_keys(before);
    let removed = sorted_of(kb.difference(doc_keys(after)));
    annot_fold(lines(after), kb, removed, ghost_keyword(after)).0
}

pub open spec fn opt_str_view(o: Option<&'static str>) -> Option<Seq<char>> {
    match o {
        Some(s) => Some(s@),
        None => None,
    }
}

pub fn push_chars(out: &mut String, v: &[char])
    ensures
        final(out)@ == old(out)@ + v@,
{
    let s = string_of(v);
    push_str(out, s.as_str());
}

/// The removed-element ghost lines.
fn push_removed_block(out: &mut String, kw: &str, removed: &Vec<String>)
    ensures
        final(out)@ == old(out)@ + removed_block(kw@, strs(removed@)),
{
    let mut idx: usize = 0;
    let idp = chars_of("id:");
    let elp = chars_of("el:");
    proof {
        reveal_strlit("id:");
        reveal_strlit("el:");
    }
    assert(strs(removed@).take(0) =~= Seq::<Seq<char>>::empty());
    while idx < removed.len()
        invariant
            idx <= removed.len(),
            idp@ == "id:"@,
            elp@ == "el:"@,
            idp@.len() > 0,
            elp@.len() > 0,
            out@ == old(out)@ + removed_block(kw@, strs(removed@).take(idx as int)),
        decreases removed.len() - idx,
    {
        proof {
            let t = strs(removed@).take(idx + 1);
            assert(t.drop_last() == strs(removed@).take(idx as int));
            assert(t.last() == removed@[idx as int]@);
        }
        let kv = chars_of(removed[idx].as_str());
        let l1 = strip_all_prefix_chars(kv.as_slice(), idp.as_slice());
        let label = strip_all_prefix_chars(l1.as_slice(), elp.as_slice());
        push_str(out, kw);
        push_str(out, " \"");
        push_chars(out, label.as_slice());
        push_str(out, "\" as RemovedByCycle");
        let n = crate::strings::decimal_string(idx as u64);
        push_str(out, n.as_str());
        push_str(out, " <<removed>>\n");
        idx = idx + 1;
    }
    assert(strs(removed@).take(removed.len() as int) == strs(removed@));
}

/// `with_stereo` on characters.
pub fn with_stereo_chars(line: &[char], stereo: &str) -> (r: Vec<char>)
    ensures
        r@ == with_stereo(line@, stereo@),
{
    match crate::text::find_char_exec(line, '{', 0) {
        Some(p) => {
            proof {
                crate::text::lemma_find_char_from_range(line@, '{', 0);
            }
            let head = crate::text::slice_chars(line, 0, p);
            let he = crate::text::trim_end_chars(head.as_slice());
            let mut out = string_of(he.as_slice());
            push_str(&mut out, " ");
            push_str(&mut out, stereo);
            push_str(&mut out, " ");
            let tail = crate::text::slice_chars(line, p, line.len());
            push_chars(&mut out, tail.as_slice());
            assert(head@ == line@.take(p as int));
            assert(tail@ == line@.skip(p as int));
            chars_of(out.as_str())
        },
        None => {
            let he = crate::text::trim_end_chars(line);
            let mut out = string_of(he.as_slice());
            push_str(&mut out, " ");
            push_str(&mut out, stereo);
            chars_of(out.as_str())
        },
    }
}

/// One line of the superposed document.
fn annotate_line(
    out: &mut String,
    inserted: &mut bool,
    pending: &mut bool,
    line: &[char],
    before_keys: &Vec<String>,
    removed: &Vec<String>,
    ghost_kw: Option<&'static str>,
)
    ensures
        (final(out)@, *final(inserted), *final(pending)) == annot_step(
            (old(out)@, *old(inserted), *old(pending)),
            line@,
            strs(before_keys@).to_set(),
            strs(removed@),
            opt_str_view(ghost_kw),
        ),
{
    let tv = trim_chars(line);
    let ts = string_of(tv.as_slice());
    let t = ts.as_str();
    if !*inserted && (str_starts_with(t, "@startuml") || str_starts_with(t, "@startsalt")) {
        push_chars(out, line);
        push_str(out, "\n");
        push_str(out, SKINPARAM_BLOCK);
        *inserted = true;
        return;
    }
    if str_starts_with(t, "@enduml") || str_starts_with(t, "@endsalt") {
        match ghost_kw {
            Some(kw) => {
                push_removed_block(out, kw, removed);
            },
            None => {
                assert(old(out)@ + Seq::<char>::empty() == old(out)@);
            },
        }
        push_chars(out, line);
        push_str(out, "\n");
        return;
    }
    if str_starts_with(t, "'") || str_starts_with(t, "//") {
        match regex_captures(ID_PATTERN, t) {
            Some(c) => {
                let key = cat("id:", c.as_str());
                let known = sorted_contains(before_keys, key.as_str());
                if !known {
                    *pending = true;
                }
            },
            None => {},
        }
        push_chars(out, line);
        push_str(out, "\n");
        return;
    }
    if *pending && tv.len() > 0 && has_annot_keyword(tv.as_slice()) {
        let w = with_stereo_chars(line, "<<added>>");
        push_chars(out, w.as_slice());
        push_str(out, "\n");
        *pending = false;
        return;
    }
    push_chars(out, line);
    push_str(out, "\n");
}

/// Superposed PlantUML document of a cycle's before and after snapshots:
/// the after document with the colour legend after its opening line, each
/// declaration following a comment that names an `@id` new since before
/// tagged `<<added>>`, and, before the closing line, every identity
/// removed since before re-injected as a `<<removed>>` ghost of the
/// diagram's ghost keyword (none for a Salt mockup).
pub fn annotate_cycle_diff_puml(after: &str, before: &str) -> (r: String)
    ensures
        r@ == annotate_cycle_spec(after@, before@),
{
    let before_keys = element_keys(before);
    let after_keys = element_keys(after);
    let removed = filter_by_membership(&before_keys, &after_keys, false);
    let ghost_kw = removed_ghost_keyword(after);
    let ghost kb = doc_keys(before@);
    let ghost target = kb.difference(doc_keys(after@));
    proof {
        assert(strs(removed@).to_set() =~= target);
        let q = sorted_of(target);
        assert(strictly_sorted(q) && q.to_set() == target);
        crate::order::lemma_sorted_unique(strs(removed@), q);
        assert(opt_str_view(ghost_kw) == ghost_keyword(after@));
    }
    let ls = lines_of(after);
    let ghost all = vviews(ls@);
    let mut out = String::new();
    let mut inserted = false;
    let mut pending = false;
    let mut i: usize = 0;
    assert(all.take(0) =~= Seq::<Seq<char>>::empty());
    assert(out@ =~= Seq::<char>::empty());
    while i < ls.len()
        invariant
            i <= ls.len(),
            all == vviews(ls@),
            all == lines(after@),
            strs(before_keys@).to_set() == kb,
            strs(removed@) == sorted_of(target),
            target == kb.difference(doc_keys(after@)),
            opt_str_view(ghost_kw) == ghost_keyword(after@),
            (out@, inserted, pending) == annot_fold(
                all.take(i as int),
                kb,
                strs(removed@),
                opt_str_view(ghost_kw),
            ),
        decreases ls.len() - i,
    {
        proof {
            assert(all.take(i + 1).drop_last() == all.take(i as int));
            assert(all.take(i + 1).last() == ls@[i as int]@);
        }
        annotate_line(
            &mut out,
            &mut inserted,
            &mut pending,
            ls[i].as_slice(),
            &before_keys,
            &removed,
            ghost_kw,
        );
        i = i + 1;
    }
    assert(all.take(ls.len() as int) == all);
    out
}

} // verus!
