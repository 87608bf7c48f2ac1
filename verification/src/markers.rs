//! The markers of the model files (`@id`, `@ref`, `@scope`, `@ui-route`,
//! `@ui-viewport`, `@ui-element`, `@sec`) and how each is read, plus the
//! classification of model paths.
use vstd::prelude::*;
use crate::model::{ModelKind, ModelSide};
use crate::order::{strictly_sorted};
use crate::patterns::{
    ID_PATTERN, Pat, REF_PATTERN, SCOPE_PATTERN, SEC_PATTERN, UI_ELEMENT_PATTERN, UI_ROUTE_PATTERN, UI_VIEWPORT_PATTERN,
    captures, first_capture, regex_captures, regex_captures_iter,
};
use crate::strings::{KeyMap, ParamMap, pairs_insert, parse_u32, parse_u32_spec};
use crate::strings::{replace, replace_str, sorted_unique};
use crate::text::{
    chars_of, is_ascii_alnum, is_ascii_alphanumeric, lower, owned, starts_with, str_starts_with, string_of, strs, trim,
    trim_chars, trim_str,
};

verus! {

/// The distinct `@id`s of a model file, sorted.
pub fn extract_ids(content: &str) -> (r: Vec<String>)
    ensures
        strictly_sorted(strs(r@)),
        strs(r@).to_set() == captures(Pat::Ident("@id("@), content@).to_set(),
{
    let all = regex_captures_iter(ID_PATTERN, content);
    sorted_unique(&all)
}

/// The distinct `@ref`s of a model file, sorted.
pub fn extract_refs(content: &str) -> (r: Vec<String>)
    ensures
        strictly_sorted(strs(r@)),
        strs(r@).to_set() == captures(Pat::Ident("@ref("@), content@).to_set(),
{
    let all = regex_captures_iter(REF_PATTERN, content);
    sorted_unique(&all)
}

/// The pieces of `s` between commas (`str::split(',')`).
pub open spec fn split_commas(s: Seq<char>) -> Seq<Seq<char>>
    decreases s.len(),
{
    match crate::text::find_char_from(s, ',', 0) {
        Some(i) => if 0 <= i < s.len() {
            seq![s.take(i)] + split_commas(s.skip(i + 1))
        } else {
            seq![s]
        },
        None => seq![s],
    }
}

/// The trimmed, non-empty pieces.
pub open spec fn nonempty_trimmed(ps: Seq<Seq<char>>) -> Seq<Seq<char>>
    decreases ps.len(),
{
    if ps.len() == 0 {
        seq![]
    } else {
        let rest = nonempty_trimmed(ps.drop_last());
        if trim(ps.last()).len() > 0 {
            rest.push(trim(ps.last()))
        } else {
            rest
        }
    }
}

/// The ids of one `@scope(...)` body.
pub open spec fn scope_body_ids(body: Seq<char>) -> Seq<Seq<char>> {
    nonempty_trimmed(split_commas(body))
}

/// The ids of every `@scope(...)` body, in order.
pub open spec fn all_scope_ids(bodies: Seq<Seq<char>>) -> Seq<Seq<char>>
    decreases bodies.len(),
{
    if bodies.len() == 0 {
        seq![]
    } else {
        all_scope_ids(bodies.drop_last()) + scope_body_ids(bodies.last())
    }
}

/// `split(',')` on characters.
fn split_commas_exec(s: &[char]) -> (r: Vec<Vec<char>>)
    ensures
        crate::text::vviews(r@) == split_commas(s@),
{
    let mut r: Vec<Vec<char>> = Vec::new();
    let mut start: usize = 0;
    assert(s@.skip(0) == s@);
    assert(crate::text::vviews(r@) =~= Seq::<Seq<char>>::empty());
    loop
        invariant
            start <= s.len(),
            split_commas(s@) == crate::text::vviews(r@) + split_commas(s@.skip(start as int)),
        decreases s.len() - start,
    {
        let ghost rest = s@.skip(start as int);
        match crate::text::find_char_exec(s, ',', start) {
            Some(i) => {
                proof {
                    crate::text::lemma_find_char_from_range(s@, ',', start as int);
                    crate::text::lemma_find_char_from_range(rest, ',', 0);
                    assert forall|k: int| 0 <= k < i - start implies rest[k] != ',' by {
                        assert(rest[k] == s@[start + k]);
                    }
                    assert(rest[i - start] == ',');
                    assert(crate::text::find_char_from(rest, ',', 0) == Some((i - start) as int));
                    assert(rest.take(i - start) =~= s@.subrange(start as int, i as int));
                    assert(rest.skip(i - start + 1) =~= s@.skip(i + 1));
                }
                let piece = crate::text::slice_chars(s, start, i);
                let ghost r0 = crate::text::vviews(r@);
                r.push(piece);
                assert(crate::text::vviews(r@) =~= r0.push(piece@));
                start = i + 1;
            },
            None => {
                proof {
                    crate::text::lemma_find_char_from_range(s@, ',', start as int);
                    crate::text::lemma_find_char_from_range(rest, ',', 0);
                    assert forall|k: int| 0 <= k < rest.len() implies rest[k] != ',' by {
                        assert(rest[k] == s@[start + k]);
                    }
                    assert(crate::text::find_char_from(rest, ',', 0) is None);
                    assert(rest =~= s@.subrange(start as int, s.len() as int));
                }
                let piece = crate::text::slice_chars(s, start, s.len());
                let ghost r0 = crate::text::vviews(r@);
                r.push(piece);
                assert(crate::text::vviews(r@) =~= r0.push(piece@));
                return r;
            },
        }
    }
}

/// Appends the trimmed, non-empty pieces to `out`.
fn push_nonempty_trimmed(out: &mut Vec<String>, ps: &Vec<Vec<char>>)
    ensures
        strs(final(out)@) == strs(old(out)@) + nonempty_trimmed(crate::text::vviews(ps@)),
{
    let ghost o0 = strs(out@);
    let ghost pv = crate::text::vviews(ps@);
    let mut i: usize = 0;
    assert(pv.take(0) =~= Seq::<Seq<char>>::empty());
    assert(o0 + Seq::<Seq<char>>::empty() =~= o0);
    while i < ps.len()
        invariant
            i <= ps.len(),
            pv == crate::text::vviews(ps@),
            strs(out@) == o0 + nonempty_trimmed(pv.take(i as int)),
        decreases ps.len() - i,
    {
        proof {
            assert(pv.take(i + 1).drop_last() == pv.take(i as int));
            assert(pv.take(i + 1).last() == ps@[i as int]@);
        }
        let t = trim_chars(ps[i].as_slice());
        if t.len() > 0 {
            let ghost e0 = strs(out@);
            out.push(string_of(t.as_slice()));
            assert(strs(out@) =~= e0.push(t@));
        }
        i = i + 1;
    }
    assert(pv.take(ps.len() as int) == pv);
}

/// The objective `@id`s named by every `@scope(<id>, <id>, ...)` marker:
/// trimmed, empties dropped, distinct and sorted.
pub fn extract_scope_ids(content: &str) -> (r: Vec<String>)
    ensures
        strictly_sorted(strs(r@)),
        strs(r@).to_set() == all_scope_ids(captures(Pat::Body("@scope("@), content@)).to_set(),
{
    let bodies = regex_captures_iter(SCOPE_PATTERN, content);
    let ghost bv = strs(bodies@);
    let mut ids: Vec<String> = Vec::new();
    let mut i: usize = 0;
    assert(bv.take(0) =~= Seq::<Seq<char>>::empty());
    assert(strs(ids@) =~= Seq::<Seq<char>>::empty());
    while i < bodies.len()
        invariant
            i <= bodies.len(),
            bv == strs(bodies@),
            strs(ids@) == all_scope_ids(bv.take(i as int)),
        decreases bodies.len() - i,
    {
        proof {
            assert(bv.take(i + 1).drop_last() == bv.take(i as int));
            assert(bv.take(i + 1).last() == bodies@[i as int]@);
        }
        let pieces = split_commas_exec(chars_of(bodies[i].as_str()).as_slice());
        push_nonempty_trimmed(&mut ids, &pieces);
        i = i + 1;
    }
    assert(bv.take(bodies.len() as int) == bv);
    sorted_unique(&ids)
}

/// The route of a mockup: the trimmed body of its first `@ui-route(...)`,
/// when non-empty.
pub open spec fn ui_route_spec(content: Seq<char>) -> Option<Seq<char>> {
    match first_capture(Pat::Body("@ui-route("@), content) {
        Some(c) => if trim(c).len() > 0 {
            Some(trim(c))
        } else {
            None
        },
        None => None,
    }
}

pub fn extract_ui_route(content: &str) -> (r: Option<String>)
    ensures
        match r {
            Some(s) => ui_route_spec(content@) == Some(s@),
            None => ui_route_spec(content@) is None,
        },
{
    match regex_captures(UI_ROUTE_PATTERN, content) {
        Some(c) => {
            let t = trim_str(c.as_str());
            if chars_of(t.as_str()).len() > 0 {
                Some(t)
            } else {
                None
            }
        },
        None => None,
    }
}

// ---------------------------------------------------------------------------
// Contract arguments

/// State of the argument splitter: (parts, current piece, inside quotes,
/// after a backslash inside quotes).
pub type SplitState = (Seq<Seq<char>>, Seq<char>, bool, bool);

pub open spec fn split_step(st: SplitState, ch: char) -> SplitState {
    let (parts, cur, inq, esc) = st;
    if esc {
        (parts, cur.push(ch), inq, false)
    } else if ch == '\\' && inq {
        (parts, cur.push(ch), inq, true)
    } else if ch == '"' {
        (parts, cur.push(ch), !inq, esc)
    } else if ch == ',' && !inq {
        (if trim(cur).len() > 0 {
            parts.push(trim(cur))
        } else {
            parts
        }, seq![], inq, esc)
    } else {
        (parts, cur.push(ch), inq, esc)
    }
}

pub open spec fn split_fold(s: Seq<char>) -> SplitState
    decreases s.len(),
{
    if s.len() == 0 {
        (seq![], seq![], false, false)
    } else {
        split_step(split_fold(s.drop_last()), s.last())
    }
}

/// The comma-separated arguments of a contract marker: commas inside double
/// quotes (where a backslash escapes the next character) do not split;
/// each argument is trimmed and empty ones dropped.
pub open spec fn contract_args(s: Seq<char>) -> Seq<Seq<char>> {
    let (parts, cur, _, _) = split_fold(s);
    if trim(cur).len() > 0 {
        parts.push(trim(cur))
    } else {
        parts
    }
}

pub fn split_contract_args(value: &str) -> (r: Vec<String>)
    ensures
        strs(r@) == contract_args(value@),
{
    let v = chars_of(value);
    let mut parts: Vec<String> = Vec::new();
    let mut current: Vec<char> = Vec::new();
    let mut in_quotes = false;
    let mut escaped = false;
    let mut i: usize = 0;
    assert(v@.take(0) =~= Seq::<char>::empty());
    assert(strs(parts@) =~= Seq::<Seq<char>>::empty());
    assert(current@ =~= Seq::<char>::empty());
    while i < v.len()
        invariant
            i <= v.len(),
            v@ == value@,
            (strs(parts@), current@, in_quotes, escaped) == split_fold(v@.take(i as int)),
        decreases v.len() - i,
    {
        let ch = v[i];
        proof {
            assert(v@.take(i + 1).drop_last() == v@.take(i as int));
            assert(v@.take(i + 1).last() == ch);
        }
        let ghost p0 = strs(parts@);
        if escaped {
            current.push(ch);
            escaped = false;
        } else if ch == '\\' && in_quotes {
            current.push(ch);
            escaped = true;
        } else if ch == '"' {
            current.push(ch);
            in_quotes = !in_quotes;
        } else if ch == ',' && !in_quotes {
            let t = trim_chars(current.as_slice());
            if t.len() > 0 {
                parts.push(string_of(t.as_slice()));
                assert(strs(parts@) =~= p0.push(t@));
            }
            current = Vec::new();
            assert(current@ =~= Seq::<char>::empty());
        } else {
            current.push(ch);
        }
        i = i + 1;
    }
    assert(v@.take(v.len() as int) == v@);
    let t = trim_chars(current.as_slice());
    if t.len() > 0 {
        let ghost p0 = strs(parts@);
        parts.push(string_of(t.as_slice()));
        assert(strs(parts@) =~= p0.push(t@));
    }
    parts
}

/// A trimmed value with its surrounding double quotes removed (and `\"`,
/// `\\` unescaped), or just trimmed when it is not quoted.
pub open spec fn unquote_spec(value: Seq<char>) -> Seq<char> {
    let t = trim(value);
    if t.len() >= 2 && t[0] == '"' && t.last() == '"' {
        replace(replace(t.subrange(1, t.len() - 1), "\\\""@, "\""@), "\\\\"@, "\\"@)
    } else {
        t
    }
}

pub fn unquote(value: &str) -> (r: String)
    ensures
        r@ == unquote_spec(value@),
{
    let t = trim_chars(chars_of(value).as_slice());
    if t.len() >= 2 && t[0] == '"' && t[t.len() - 1] == '"' {
        let inner = crate::text::string_of_range(t.as_slice(), 1, t.len() - 1);
        proof {
            reveal_strlit("\\\"");
            reveal_strlit("\\\\");
        }
        let a = replace_str(inner.as_str(), "\\\"", "\"");
        replace_str(a.as_str(), "\\\\", "\\")
    } else {
        string_of(t.as_slice())
    }
}

// ---------------------------------------------------------------------------
// Paths and names

/// The kind of a model file from its project-relative path.
pub open spec fn kind_for_path_spec(relative: Seq<char>) -> ModelKind {
    let cur = ".mdd/models/current/"@;
    let obj = ".mdd/models/objective/"@;
    if starts_with(relative, cur) || starts_with(relative, obj) {
        let rest = if starts_with(relative, cur) {
            relative.skip(cur.len() as int)
        } else {
            relative.skip(obj.len() as int)
        };
        if starts_with(rest, "use-cases/"@) {
            ModelKind::UseCase
        } else if starts_with(rest, "sequences/"@) {
            ModelKind::Sequence
        } else if starts_with(rest, "domain/"@) {
            ModelKind::Domain
        } else if starts_with(rest, "components/"@) {
            ModelKind::Other
        } else if starts_with(rest, "mockups/"@) {
            ModelKind::Mockup
        } else if starts_with(rest, "states/"@) {
            ModelKind::State
        } else {
            ModelKind::Other
        }
    } else if starts_with(relative, ".mdd/constraints/"@) {
        ModelKind::Constraint
    } else {
        ModelKind::Other
    }
}

pub fn kind_for_path(relative: &str) -> (k: ModelKind)
    ensures
        k == kind_for_path_spec(relative@),
{
    let v = chars_of(relative);
    let cur = chars_of(".mdd/models/current/");
    let obj = chars_of(".mdd/models/objective/");
    let is_cur = crate::text::starts_with_exec(v.as_slice(), cur.as_slice());
    let is_obj = crate::text::starts_with_exec(v.as_slice(), obj.as_slice());
    if is_cur || is_obj {
        let n = if is_cur {
            cur.len()
        } else {
            obj.len()
        };
        let rest = string_of(crate::text::slice_chars(v.as_slice(), n, v.len()).as_slice());
        let rest = rest.as_str();
        if str_starts_with(rest, "use-cases/") {
            ModelKind::UseCase
        } else if str_starts_with(rest, "sequences/") {
            ModelKind::Sequence
        } else if str_starts_with(rest, "domain/") {
            ModelKind::Domain
        } else if str_starts_with(rest, "components/") {
            ModelKind::Other
        } else if str_starts_with(rest, "mockups/") {
            ModelKind::Mockup
        } else if str_starts_with(rest, "states/") {
            ModelKind::State
        } else {
            ModelKind::Other
        }
    } else if str_starts_with(relative, ".mdd/constraints/") {
        ModelKind::Constraint
    } else {
        ModelKind::Other
    }
}

pub open spec fn side_for_path_spec(relative: Seq<char>) -> ModelSide {
    if starts_with(relative, ".mdd/models/current/"@) {
        ModelSide::Current
    } else if starts_with(relative, ".mdd/models/objective/"@) {
        ModelSide::Objective
    } else {
        ModelSide::Shared
    }
}

pub fn side_for_path(relative: &str) -> (s: ModelSide)
    ensures
        s == side_for_path_spec(relative@),
{
    if str_starts_with(relative, ".mdd/models/current/") {
        ModelSide::Current
    } else if str_starts_with(relative, ".mdd/models/objective/") {
        ModelSide::Objective
    } else {
        ModelSide::Shared
    }
}

/// A file the registry reads: `.puml`, `.plantuml`, `.uml` or `.ocl`.
pub open spec fn model_extension(ext: Option<Seq<char>>) -> bool {
    match ext {
        Some(e) => e == "puml"@ || e == "plantuml"@ || e == "uml"@ || e == "ocl"@,
        None => false,
    }
}

/// Whether a file's extension (as `Path::extension` gives it) marks a model
/// or constraint file.
pub fn is_model_or_constraint_file(extension: Option<&str>) -> (b: bool)
    ensures
        b == model_extension(match extension {
            Some(e) => Some(e@),
            None => None,
        }),
{
    match extension {
        Some(e) => crate::text::str_eq(e, "puml") || crate::text::str_eq(e, "plantuml")
            || crate::text::str_eq(e, "uml") || crate::text::str_eq(e, "ocl"),
        None => false,
    }
}

/// State of the slug builder: (slug, the last character was a dash).
pub open spec fn slug_fold(s: Seq<char>) -> (Seq<char>, bool)
    decreases s.len(),
{
    if s.len() == 0 {
        (seq![], false)
    } else {
        let (slug, dash) = slug_fold(s.drop_last());
        let ch = s.last();
        if is_ascii_alnum(ch) {
            (slug.push(lower(ch)), false)
        } else if !dash {
            (slug.push('-'), true)
        } else {
            (slug, dash)
        }
    }
}

/// `trim_matches('-')`.
pub open spec fn trim_dashes(s: Seq<char>) -> Seq<char>
    decreases s.len(),
{
    if s.len() > 0 && s[0] == '-' {
        trim_dashes(s.drop_first())
    } else if s.len() > 0 && s.last() == '-' {
        trim_dashes(s.drop_last())
    } else {
        s
    }
}

/// The lower-case ASCII alphanumerics of `value`, each run of other
/// characters collapsed to one dash, with no dash at either end.
pub open spec fn slug_spec(value: Seq<char>) -> Seq<char> {
    trim_dashes(slug_fold(value).0)
}

pub fn slugify(value: &str) -> (r: String)
    ensures
        r@ == slug_spec(value@),
{
    let v = chars_of(value);
    let mut slug: Vec<char> = Vec::new();
    let mut last_dash = false;
    let mut i: usize = 0;
    assert(v@.take(0) =~= Seq::<char>::empty());
    while i < v.len()
        invariant
            i <= v.len(),
            v@ == value@,
            (slug@, last_dash) == slug_fold(v@.take(i as int)),
        decreases v.len() - i,
    {
        let ch = v[i];
        proof {
            assert(v@.take(i + 1).drop_last() == v@.take(i as int));
            assert(v@.take(i + 1).last() == ch);
        }
        if is_ascii_alphanumeric(ch) {
            slug.push(crate::text::to_ascii_lower(ch));
            last_dash = false;
        } else if !last_dash {
            slug.push('-');
            last_dash = true;
        }
        i = i + 1;
    }
    assert(v@.take(v.len() as int) == v@);
    let mut a: usize = 0;
    let mut b: usize = slug.len();
    assert(slug@.subrange(0, slug.len() as int) == slug@);
    while a < b && (slug[a] == '-' || slug[b - 1] == '-')
        invariant
            a <= b <= slug.len(),
            trim_dashes(slug@) == trim_dashes(slug@.subrange(a as int, b as int)),
        decreases b - a,
    {
        let ghost t = slug@.subrange(a as int, b as int);
        if slug[a] == '-' {
            assert(t.drop_first() == slug@.subrange(a + 1, b as int));
            a = a + 1;
        } else {
            assert(t.drop_last() == slug@.subrange(a as int, b - 1));
            b = b - 1;
        }
    }
    proof {
        let t = slug@.subrange(a as int, b as int);
        if a < b {
            assert(t[0] == slug@[a as int]);
            assert(t.last() == slug@[b - 1]);
        }
    }
    crate::text::string_of_range(slug.as_slice(), a, b)
}

// ---------------------------------------------------------------------------
// Mockup and security contracts

pub struct UiViewport {
    pub name: String,
    pub width: u32,
    pub height: u32,
}

impl View for UiViewport {
    type V = (Seq<char>, u32, u32);

    open spec fn view(&self) -> (Seq<char>, u32, u32) {
        (self.name@, self.width, self.height)
    }
}

pub struct UiElementContract {
    pub id: String,
    pub role: Option<String>,
    pub name: Option<String>,
    pub required: bool,
}

pub type ElementV = (Seq<char>, Option<Seq<char>>, Option<Seq<char>>, bool);

impl View for UiElementContract {
    type V = ElementV;

    open spec fn view(&self) -> ElementV {
        (self.id@, crate::model::opt_view(self.role), crate::model::opt_view(self.name), self.required)
    }
}

pub struct SecMarker {
    pub stereotype: String,
    pub host: String,
    pub id: Option<String>,
    pub params: ParamMap,
}

pub type MarkerV = (Seq<char>, Seq<char>, Option<Seq<char>>, Seq<(Seq<char>, Seq<char>)>);

impl View for SecMarker {
    type V = MarkerV;

    open spec fn view(&self) -> MarkerV {
        (self.stereotype@, self.host@, crate::model::opt_view(self.id), self.params@)
    }
}

/// `split_once('=')`.
pub open spec fn split_eq(s: Seq<char>) -> Option<(Seq<char>, Seq<char>)> {
    match crate::text::find_char_from(s, '=', 0) {
        Some(i) => if 0 <= i < s.len() {
            Some((s.take(i), s.skip(i + 1)))
        } else {
            None
        },
        None => None,
    }
}

fn split_eq_exec(s: &str) -> (r: Option<(String, String)>)
    ensures
        match r {
            Some((a, b)) => split_eq(s@) == Some((a@, b@)),
            None => split_eq(s@) is None,
        },
{
    let v = chars_of(s);
    match crate::text::find_char_exec(v.as_slice(), '=', 0) {
        Some(i) => {
            proof {
                crate::text::lemma_find_char_from_range(v@, '=', 0);
            }
            assert(i < v.len());
            let a = crate::text::string_of_range(v.as_slice(), 0, i);
            let b = crate::text::string_of_range(v.as_slice(), i + 1, v.len());
            assert(a@ == s@.take(i as int));
            assert(b@ == s@.skip(i + 1));
            Some((a, b))
        },
        None => None,
    }
}

/// The viewport of a `@ui-viewport(name, width, height)` body, when it has
/// exactly three arguments and both sizes are `u32`s.
pub open spec fn viewport_of(body: Seq<char>) -> Option<(Seq<char>, u32, u32)> {
    let parts = contract_args(body);
    if parts.len() != 3 {
        None
    } else {
        match (parse_u32_spec(trim(parts[1])), parse_u32_spec(trim(parts[2]))) {
            (Some(w), Some(h)) => Some((unquote_spec(trim(parts[0])), w, h)),
            _ => None,
        }
    }
}

pub open spec fn viewports_of(bodies: Seq<Seq<char>>) -> Seq<(Seq<char>, u32, u32)>
    decreases bodies.len(),
{
    if bodies.len() == 0 {
        seq![]
    } else {
        let rest = viewports_of(bodies.drop_last());
        match viewport_of(bodies.last()) {
            Some(v) => rest.push(v),
            None => rest,
        }
    }
}

pub open spec fn viewports_view(v: Seq<UiViewport>) -> Seq<(Seq<char>, u32, u32)> {
    v.map_values(|x: UiViewport| x@)
}

/// The declared viewports of a mockup, in order.
pub fn extract_ui_viewports(content: &str) -> (r: Vec<UiViewport>)
    ensures
        viewports_view(r@) == viewports_of(captures(Pat::Body("@ui-viewport("@), content@)),
{
    let bodies = regex_captures_iter(UI_VIEWPORT_PATTERN, content);
    let ghost bv = strs(bodies@);
    let mut out: Vec<UiViewport> = Vec::new();
    let mut i: usize = 0;
    assert(bv.take(0) =~= Seq::<Seq<char>>::empty());
    assert(viewports_view(out@) =~= Seq::<(Seq<char>, u32, u32)>::empty());
    while i < bodies.len()
        invariant
            i <= bodies.len(),
            bv == strs(bodies@),
            viewports_view(out@) == viewports_of(bv.take(i as int)),
        decreases bodies.len() - i,
    {
        proof {
            assert(bv.take(i + 1).drop_last() == bv.take(i as int));
            assert(bv.take(i + 1).last() == bodies@[i as int]@);
        }
        let parts = split_contract_args(bodies[i].as_str());
        if parts.len() == 3 {
            let w = parse_u32(trim_str(parts[1].as_str()).as_str());
            let h = parse_u32(trim_str(parts[2].as_str()).as_str());
            match (w, h) {
                (Some(w), Some(h)) => {
                    let name = unquote(trim_str(parts[0].as_str()).as_str());
                    let vp = UiViewport { name, width: w, height: h };
                    let ghost o0 = viewports_view(out@);
                    out.push(vp);
                    assert(viewports_view(out@) =~= o0.push((unquote_spec(trim(strs(parts@)[0])), w, h)));
                },
                _ => {},
            }
        }
        i = i + 1;
    }
    assert(bv.take(bodies.len() as int) == bv);
    out
}

/// `eq_ignore_ascii_case`.
pub open spec fn eq_ignore_case(a: Seq<char>, b: Seq<char>) -> bool {
    crate::text::lower_seq(a) == crate::text::lower_seq(b)
}

fn eq_ignore_case_exec(a: &str, b: &str) -> (r: bool)
    ensures
        r == eq_ignore_case(a@, b@),
{
    let va = chars_of(a);
    let vb = chars_of(b);
    if va.len() != vb.len() {
        assert(crate::text::lower_seq(a@).len() != crate::text::lower_seq(b@).len());
        return false;
    }
    let mut i: usize = 0;
    while i < va.len()
        invariant
            i <= va.len(),
            va.len() == vb.len(),
            va@ == a@,
            vb@ == b@,
            forall|k: int| 0 <= k < i ==> lower(va@[k]) == lower(vb@[k]),
        decreases va.len() - i,
    {
        if crate::text::to_ascii_lower(va[i]) != crate::text::to_ascii_lower(vb[i]) {
            assert(crate::text::lower_seq(a@)[i as int] != crate::text::lower_seq(b@)[i as int]);
            return false;
        }
        i = i + 1;
    }
    assert(crate::text::lower_seq(a@) =~= crate::text::lower_seq(b@));
    true
}

/// Fold of the `key=value` attributes of a UI element: (role, name,
/// required).
pub open spec fn element_attrs(attrs: Seq<Seq<char>>) -> (Option<Seq<char>>, Option<Seq<char>>, bool)
    decreases attrs.len(),
{
    if attrs.len() == 0 {
        (None, None, true)
    } else {
        let (role, name, req) = element_attrs(attrs.drop_last());
        match split_eq(attrs.last()) {
            None => (role, name, req),
            Some((k, v)) => {
                let key = trim(k);
                let value = unquote_spec(trim(v));
                if key == "role"@ {
                    (Some(value), name, req)
                } else if key == "name"@ {
                    (role, Some(value), req)
                } else if key == "required"@ {
                    (role, name, eq_ignore_case(value, "true"@))
                } else {
                    (role, name, req)
                }
            },
        }
    }
}

/// The element of a `@ui-element(id, key=value, ...)` body.
pub open spec fn element_of(body: Seq<char>) -> ElementV {
    let parts = contract_args(body);
    if parts.len() == 0 {
        (seq![], None, None, true)
    } else {
        let (role, name, req) = element_attrs(parts.skip(1));
        (trim(parts[0]), role, name, req)
    }
}

pub open spec fn elements_view(v: Seq<UiElementContract>) -> Seq<ElementV> {
    v.map_values(|x: UiElementContract| x@)
}

fn element_from(body: &str) -> (r: UiElementContract)
    ensures
        r@ == element_of(body@),
{
    let parts = split_contract_args(body);
    if parts.len() == 0 {
        return UiElementContract { id: String::new(), role: None, name: None, required: true };
    }
    let ghost attrs = strs(parts@).skip(1);
    let mut role: Option<String> = None;
    let mut name: Option<String> = None;
    let mut required = true;
    let mut k: usize = 1;
    assert(attrs.take(0) =~= Seq::<Seq<char>>::empty());
    while k < parts.len()
        invariant
            1 <= k <= parts.len(),
            attrs == strs(parts@).skip(1),
            (crate::model::opt_view(role), crate::model::opt_view(name), required) == element_attrs(
                attrs.take(k - 1),
            ),
        decreases parts.len() - k,
    {
        proof {
            assert(attrs.take(k as int).drop_last() == attrs.take(k - 1));
            assert(attrs.take(k as int).last() == parts@[k as int]@);
        }
        match split_eq_exec(parts[k].as_str()) {
            None => {},
            Some((key, value)) => {
                let key = trim_str(key.as_str());
                let value = unquote(trim_str(value.as_str()).as_str());
                if crate::text::str_eq(key.as_str(), "role") {
                    role = Some(value);
                } else if crate::text::str_eq(key.as_str(), "name") {
                    name = Some(value);
                } else if crate::text::str_eq(key.as_str(), "required") {
                    required = eq_ignore_case_exec(value.as_str(), "true");
                }
            },
        }
        k = k + 1;
    }
    assert(attrs.take(parts.len() - 1) == attrs);
    let id = trim_str(parts[0].as_str());
    UiElementContract { id, role, name, required }
}

/// The UI elements a mockup declares, in order.
pub fn extract_ui_elements(content: &str) -> (r: Vec<UiElementContract>)
    ensures
        elements_view(r@) == captures(Pat::Body("@ui-element("@), content@).map_values(
            |b: Seq<char>| element_of(b),
        ),
{
    let bodies = regex_captures_iter(UI_ELEMENT_PATTERN, content);
    let ghost target = strs(bodies@).map_values(|b: Seq<char>| element_of(b));
    let mut out: Vec<UiElementContract> = Vec::new();
    let mut i: usize = 0;
    while i < bodies.len()
        invariant
            i <= bodies.len(),
            target == strs(bodies@).map_values(|b: Seq<char>| element_of(b)),
            elements_view(out@) == target.take(i as int),
        decreases bodies.len() - i,
    {
        let e = element_from(bodies[i].as_str());
        let ghost o0 = elements_view(out@);
        assert(e@ == target[i as int]);
        out.push(e);
        assert(elements_view(out@) =~= o0.push(target[i as int]));
        assert(target.take(i + 1) =~= target.take(i as int).push(target[i as int]));
        i = i + 1;
    }
    assert(target.take(bodies.len() as int) == target);
    out
}

/// Fold of the attributes of a `@sec(...)` marker: (stereotype, host, id,
/// the other parameters).
pub open spec fn sec_attrs(attrs: Seq<Seq<char>>) -> MarkerV
    decreases attrs.len(),
{
    if attrs.len() == 0 {
        (seq![], seq![], None, seq![])
    } else {
        let (st, host, id, params) = sec_attrs(attrs.drop_last());
        match split_eq(attrs.last()) {
            None => (st, host, id, params),
            Some((k, v)) => {
                let key = trim(k);
                let value = unquote_spec(trim(v));
                if key == "stereotype"@ {
                    (value, host, id, params)
                } else if key == "host"@ {
                    (st, value, id, params)
                } else if key == "id"@ {
                    (st, host, Some(value), params)
                } else {
                    (st, host, id, pairs_insert(params, key, value))
                }
            },
        }
    }
}

/// The marker of a `@sec(key=value, ...)` body.
pub open spec fn sec_of(body: Seq<char>) -> MarkerV {
    sec_attrs(contract_args(body))
}

proof fn lemma_sec_attrs_sorted(attrs: Seq<Seq<char>>)
    ensures
        crate::strings::keys_sorted(sec_attrs(attrs).3),
    decreases attrs.len(),
{
    if attrs.len() > 0 {
        lemma_sec_attrs_sorted(attrs.drop_last());
        let (st, host, id, params) = sec_attrs(attrs.drop_last());
        match split_eq(attrs.last()) {
            None => {},
            Some((k, v)) => {
                crate::strings::lemma_pairs_insert_sorted(params, trim(k), unquote_spec(trim(v)));
            },
        }
    }
}

fn sec_from(body: &str) -> (r: SecMarker)
    ensures
        r@ == sec_of(body@),
        r.params.wf(),
{
    let parts = split_contract_args(body);
    let ghost attrs = strs(parts@);
    let mut stereotype = String::new();
    let mut host = String::new();
    let mut id: Option<String> = None;
    let mut params: ParamMap = KeyMap::new();
    let mut k: usize = 0;
    assert(attrs.take(0) =~= Seq::<Seq<char>>::empty());
    assert(stereotype@ =~= Seq::<char>::empty());
    assert(host@ =~= Seq::<char>::empty());
    while k < parts.len()
        invariant
            k <= parts.len(),
            attrs == strs(parts@),
            params.wf(),
            (stereotype@, host@, crate::model::opt_view(id), params@) == sec_attrs(attrs.take(k as int)),
        decreases parts.len() - k,
    {
        proof {
            assert(attrs.take(k + 1).drop_last() == attrs.take(k as int));
            assert(attrs.take(k + 1).last() == parts@[k as int]@);
        }
        match split_eq_exec(parts[k].as_str()) {
            None => {},
            Some((key, value)) => {
                let key = trim_str(key.as_str());
                let value = unquote(trim_str(value.as_str()).as_str());
                if crate::text::str_eq(key.as_str(), "stereotype") {
                    stereotype = value;
                } else if crate::text::str_eq(key.as_str(), "host") {
                    host = value;
                } else if crate::text::str_eq(key.as_str(), "id") {
                    id = Some(value);
                } else {
                    params.insert(key, value);
                }
            },
        }
        k = k + 1;
    }
    assert(attrs.take(parts.len() as int) == attrs);
    SecMarker { stereotype, host, id, params }
}

pub open spec fn markers_view(v: Seq<SecMarker>) -> Seq<MarkerV> {
    v.map_values(|x: SecMarker| x@)
}

/// The security markers of a model file, in order.
pub fn extract_sec_markers(content: &str) -> (r: Vec<SecMarker>)
    ensures
        markers_view(r@) == captures(Pat::Body("@sec("@), content@).map_values(
            |b: Seq<char>| sec_of(b),
        ),
        forall|i: int| 0 <= i < r@.len() ==> (#[trigger] r@[i]).params.wf(),
{
    let bodies = regex_captures_iter(SEC_PATTERN, content);
    let ghost target = strs(bodies@).map_values(|b: Seq<char>| sec_of(b));
    let mut out: Vec<SecMarker> = Vec::new();
    let mut i: usize = 0;
    while i < bodies.len()
        invariant
            i <= bodies.len(),
            target == strs(bodies@).map_values(|b: Seq<char>| sec_of(b)),
            markers_view(out@) == target.take(i as int),
            forall|j: int| 0 <= j < out@.len() ==> (#[trigger] out@[j]).params.wf(),
        decreases bodies.len() - i,
    {
        let m = sec_from(bodies[i].as_str());
        let ghost o0 = markers_view(out@);
        assert(m@ == target[i as int]);
        out.push(m);
        assert(markers_view(out@) =~= o0.push(target[i as int]));
        assert(target.take(i + 1) =~= target.take(i as int).push(target[i as int]));
        i = i + 1;
    }
    assert(target.take(bodies.len() as int) == target);
    out
}

/// What kind of element a `@sec` host is.
#[derive(Clone, Copy, PartialEq, Eq, Structural, Debug)]
pub enum HostKind {
    Actor,
    UseCase,
    Class,
    Component,
    SequenceParticipant,
    Unknown,
}

/// The kind of the declaration on a lower-cased line.
pub open spec fn kind_of_decl(lower_line: Seq<char>) -> HostKind {
    let l = lower_line;
    if starts_with(l, "actor"@) {
        HostKind::Actor
    } else if starts_with(l, "usecase"@) || starts_with(l, "rectangle"@) || starts_with(l, "("@) {
        HostKind::UseCase
    } else if starts_with(l, "class "@) || starts_with(l, "interface "@) || starts_with(l, "enum "@)
        || starts_with(l, "abstract "@) {
        HostKind::Class
    } else if starts_with(l, "component "@) || starts_with(l, "package "@) || starts_with(l, "node "@)
        || starts_with(l, "folder "@) {
        HostKind::Component
    } else if starts_with(l, "participant "@) || starts_with(l, "boundary "@) || starts_with(
        l,
        "control "@,
    ) || starts_with(l, "entity "@) || starts_with(l, "database "@) || starts_with(
        l,
        "collections "@,
    ) || starts_with(l, "queue "@) {
        HostKind::SequenceParticipant
    } else {
        HostKind::Unknown
    }
}

/// A line skipped while looking for the host's declaration.
pub open spec fn skipped_line(t: Seq<char>) -> bool {
    t.len() == 0 || starts_with(t, "'"@) || starts_with(t, "@"@)
}

/// Scan state: (the host's `@id` was seen, the kind once decided).
pub open spec fn host_scan(ls: Seq<Seq<char>>, needle: Seq<char>) -> (bool, Option<HostKind>)
    decreases ls.len(),
{
    if ls.len() == 0 {
        (false, None)
    } else {
        let (found, decided) = host_scan(ls.drop_last(), needle);
        let line = ls.last();
        if decided is Some {
            (found, decided)
        } else if !found {
            (crate::text::contains(line, needle), None)
        } else if skipped_line(trim(line)) {
            (found, None)
        } else {
            (found, Some(kind_of_decl(crate::text::lower_seq(trim(line)))))
        }
    }
}

/// The kind of the first declaration after the line carrying
/// `@id(<host_id>)`, skipping blank, comment and marker lines.
pub open spec fn host_kind_spec(content: Seq<char>, host_id: Seq<char>) -> HostKind {
    match host_scan(crate::text::lines(content), "@id("@ + host_id + ")"@).1 {
        Some(k) => k,
        None => HostKind::Unknown,
    }
}

fn kind_of_decl_exec(l: &str) -> (k: HostKind)
    ensures
        k == kind_of_decl(l@),
{
    if str_starts_with(l, "actor") {
        HostKind::Actor
    } else if str_starts_with(l, "usecase") || str_starts_with(l, "rectangle") || str_starts_with(
        l,
        "(",
    ) {
        HostKind::UseCase
    } else if str_starts_with(l, "class ") || str_starts_with(l, "interface ") || str_starts_with(
        l,
        "enum ",
    ) || str_starts_with(l, "abstract ") {
        HostKind::Class
    } else if str_starts_with(l, "component ") || str_starts_with(l, "package ") || str_starts_with(
        l,
        "node ",
    ) || str_starts_with(l, "folder ") {
        HostKind::Component
    } else if str_starts_with(l, "participant ") || str_starts_with(l, "boundary ")
        || str_starts_with(l, "control ") || str_starts_with(l, "entity ") || str_starts_with(
        l,
        "database ",
    ) || str_starts_with(l, "collections ") || str_starts_with(l, "queue ") {
        HostKind::SequenceParticipant
    } else {
        HostKind::Unknown
    }
}

/// The kind of element that `host_id` names in a model file.
pub fn detect_host_kind(content: &str, host_id: &str) -> (k: HostKind)
    ensures
        k == host_kind_spec(content@, host_id@),
{
    let needle = crate::text::cat3("@id(", host_id, ")");
    let ls = crate::text::lines_of(content);
    let ghost all = crate::text::vviews(ls@);
    let mut found = false;
    let mut i: usize = 0;
    assert(all.take(0) =~= Seq::<Seq<char>>::empty());
    while i < ls.len()
        invariant
            i <= ls.len(),
            all == crate::text::vviews(ls@),
            all == crate::text::lines(content@),
            needle@ == "@id("@ + host_id@ + ")"@,
            host_scan(all.take(i as int), needle@) == (found, None::<HostKind>),
        decreases ls.len() - i,
    {
        proof {
            assert(all.take(i + 1).drop_last() == all.take(i as int));
            assert(all.take(i + 1).last() == ls@[i as int]@);
        }
        let line = string_of(ls[i].as_slice());
        if !found {
            if crate::text::str_contains(line.as_str(), needle.as_str()) {
                found = true;
            }
        } else {
            let t = trim_chars(ls[i].as_slice());
            let ts = string_of(t.as_slice());
            if !(t.len() == 0 || str_starts_with(ts.as_str(), "'") || str_starts_with(
                ts.as_str(),
                "@",
            )) {
                let mut low: Vec<char> = Vec::new();
                let mut k: usize = 0;
                while k < t.len()
                    invariant
                        k <= t.len(),
                        low@ == crate::text::lower_seq(t@.take(k as int)),
                    decreases t.len() - k,
                {
                    low.push(crate::text::to_ascii_lower(t[k]));
                    k = k + 1;
                    assert(crate::text::lower_seq(t@.take(k as int)) =~= crate::text::lower_seq(
                        t@.take(k - 1),
                    ).push(lower(t@[k - 1])));
                }
                assert(t@.take(t.len() as int) == t@);
                let kind = kind_of_decl_exec(string_of(low.as_slice()).as_str());
                proof {
                    lemma_host_scan_decided(all, needle@, (i + 1) as int);
                }
                return kind;
            }
        }
        i = i + 1;
    }
    assert(all.take(ls.len() as int) == all);
    HostKind::Unknown
}

/// Once decided, the scan keeps its kind.
proof fn lemma_host_scan_decided(ls: Seq<Seq<char>>, needle: Seq<char>, n: int)
    requires
        0 <= n <= ls.len(),
        host_scan(ls.take(n), needle).1 is Some,
    ensures
        host_scan(ls, needle).1 == host_scan(ls.take(n), needle).1,
    decreases ls.len() - n,
{
    if n < ls.len() {
        assert(ls.take(n + 1).drop_last() == ls.take(n));
        lemma_host_scan_decided(ls, needle, n + 1);
    } else {
        assert(ls.take(n) == ls);
    }
}

/// A mockup element contract set, per `MCK-` id.
pub struct MockupContract {
    pub model_id: String,
    pub file: String,
    pub route: Option<String>,
    pub viewports: Vec<UiViewport>,
    pub elements: Vec<UiElementContract>,
}

impl MockupContract {
    /// A route and at least one element.
    pub fn is_implementation_ready(&self) -> (b: bool)
        ensures
            b == (self.route is Some && self.elements@.len() > 0),
    {
        self.route.is_some() && self.elements.len() > 0
    }
}

/// The security stereotypes that are checked and scaffolded.
pub open spec fn active_stereotype(s: Seq<char>) -> bool {
    s == "ByPassing"@ || s == "Encrypt"@ || s == "BufferOverflow"@ || s == "SqlInjection"@ || s
        == "Flooding"@ || s == "Expiration"@
}

pub fn is_active_stereotype(s: &str) -> (b: bool)
    ensures
        b == active_stereotype(s@),
{
    crate::text::str_eq(s, "ByPassing") || crate::text::str_eq(s, "Encrypt") || crate::text::str_eq(
        s,
        "BufferOverflow",
    ) || crate::text::str_eq(s, "SqlInjection") || crate::text::str_eq(s, "Flooding")
        || crate::text::str_eq(s, "Expiration")
}

/// The parameter is present and non-empty.
pub open spec fn has_param(params: Seq<(Seq<char>, Seq<char>)>, key: Seq<char>) -> bool {
    match crate::strings::pairs_get(params, key) {
        Some(v) => v.len() > 0,
        None => false,
    }
}

pub fn has_param_exec(params: &ParamMap, key: &str) -> (b: bool)
    ensures
        b == has_param(params@, key@),
{
    match params.get(key) {
        Some(v) => chars_of(v.as_str()).len() > 0,
        None => false,
    }
}

/// A marker carries the tagged values its stereotype's test scaffold needs.
pub open spec fn implementation_ready(stereotype: Seq<char>, params: Seq<(Seq<char>, Seq<char>)>) -> bool {
    if stereotype == "ByPassing"@ {
        has_param(params, "link"@)
    } else if stereotype == "Encrypt"@ {
        has_param(params, "algorithm"@) && has_param(params, "scope"@)
    } else if stereotype == "BufferOverflow"@ {
        has_param(params, "max_length"@) && has_param(params, "field"@)
    } else if stereotype == "SqlInjection"@ {
        has_param(params, "sink"@) && has_param(params, "sanitizer"@) && has_param(params, "field"@)
    } else if stereotype == "Flooding"@ {
        has_param(params, "max_rate"@) || has_param(params, "max_concurrent"@)
    } else if stereotype == "Expiration"@ {
        has_param(params, "ttl"@) && has_param(params, "field"@)
    } else {
        false
    }
}

pub fn marker_is_implementation_ready(stereotype: &str, params: &ParamMap) -> (b: bool)
    ensures
        b == implementation_ready(stereotype@, params@),
{
    let st = stereotype;
    if crate::text::str_eq(st, "ByPassing") {
        has_param_exec(params, "link")
    } else if crate::text::str_eq(st, "Encrypt") {
        has_param_exec(params, "algorithm") && has_param_exec(params, "scope")
    } else if crate::text::str_eq(st, "BufferOverflow") {
        has_param_exec(params, "max_length") && has_param_exec(params, "field")
    } else if crate::text::str_eq(st, "SqlInjection") {
        has_param_exec(params, "sink") && has_param_exec(params, "sanitizer") && has_param_exec(
            params,
            "field",
        )
    } else if crate::text::str_eq(st, "Flooding") {
        has_param_exec(params, "max_rate") || has_param_exec(params, "max_concurrent")
    } else if crate::text::str_eq(st, "Expiration") {
        has_param_exec(params, "ttl") && has_param_exec(params, "field")
    } else {
        false
    }
}

// ---------------------------------------------------------------------------
// Descriptions

/// `m` with each pair of `ps` inserted in turn (a later value wins).
pub open spec fn inserted(m: Seq<(Seq<char>, Seq<char>)>, ps: Seq<(Seq<char>, Seq<char>)>) -> Seq<(Seq<char>, Seq<char>)>
    decreases ps.len(),
{
    if ps.len() == 0 {
        m
    } else {
        crate::strings::pairs_insert(inserted(m, ps.drop_last()), ps.last().0, ps.last().1)
    }
}

/// The text of a `@desc` marker with its escaped quotes and backslashes
/// restored.
pub open spec fn unescape_desc(raw: Seq<char>) -> Seq<char> {
    crate::strings::replace(crate::strings::replace(raw, "\\\""@, "\""@), "\\\\"@, "\\"@)
}

/// The descriptions a diagram declares, by id (a later marker wins).
pub open spec fn descs_of(content: Seq<char>) -> Seq<(Seq<char>, Seq<char>)> {
    inserted(
        seq![],
        crate::patterns::desc_captures(content).map_values(|p: (Seq<char>, Seq<char>)| (p.0, unescape_desc(p.1))),
    )
}

fn insert_pairs(m: &mut ParamMap, ps: &Vec<(String, String)>)
    requires
        old(m).wf(),
    ensures
        final(m).wf(),
        final(m)@ == inserted(old(m)@, ps@.map_values(|x: (String, String)| (x.0@, x.1@))),
{
    let ghost m0 = m@;
    let ghost pv = ps@.map_values(|x: (String, String)| (x.0@, x.1@));
    let mut i: usize = 0;
    assert(pv.take(0) =~= Seq::<(Seq<char>, Seq<char>)>::empty());
    while i < ps.len()
        invariant
            i <= ps.len(),
            m.wf(),
            pv == ps@.map_values(|x: (String, String)| (x.0@, x.1@)),
            m@ == inserted(m0, pv.take(i as int)),
        decreases ps.len() - i,
    {
        proof {
            assert(pv.take(i + 1).drop_last() == pv.take(i as int));
            assert(pv.take(i + 1).last() == pv[i as int]);
        }
        m.insert(ps[i].0.clone(), ps[i].1.clone());
        i = i + 1;
    }
    assert(pv.take(ps.len() as int) == pv);
}

/// The `@desc(<id>, "text")` descriptions of a diagram, by id: escaped
/// quotes and backslashes restored, a later marker for an id winning.
pub fn extract_descs(content: &str) -> (r: ParamMap)
    ensures
        r.wf(),
        r@ == descs_of(content@),
{
    let raw = crate::patterns::regex_desc_pairs(content);
    let ghost rv = raw@.map_values(|x: (String, String)| (x.0@, x.1@));
    let mut unescaped: Vec<(String, String)> = Vec::new();
    let mut i: usize = 0;
    while i < raw.len()
        invariant
            i <= raw.len(),
            rv == raw@.map_values(|x: (String, String)| (x.0@, x.1@)),
            unescaped@.map_values(|x: (String, String)| (x.0@, x.1@)) == rv.take(i as int).map_values(
                |p: (Seq<char>, Seq<char>)| (p.0, unescape_desc(p.1)),
            ),
        decreases raw.len() - i,
    {
        proof {
            reveal_strlit("\\\"");
            reveal_strlit("\\\\");
        }
        let a = crate::strings::replace_str(raw[i].1.as_str(), "\\\"", "\"");
        let b = crate::strings::replace_str(a.as_str(), "\\\\", "\\");
        let ghost u0 = unescaped@.map_values(|x: (String, String)| (x.0@, x.1@));
        unescaped.push((raw[i].0.clone(), b));
        proof {
            let f = |p: (Seq<char>, Seq<char>)| (p.0, unescape_desc(p.1));
            assert(unescaped@.map_values(|x: (String, String)| (x.0@, x.1@)) =~= u0.push(f(rv[i as int])));
            assert(rv.take(i + 1).map_values(f) =~= rv.take(i as int).map_values(f).push(f(rv[i as int])));
        }
        i = i + 1;
    }
    assert(rv.take(raw.len() as int) =~= rv);
    assert(rv == crate::patterns::desc_captures(content@));
    let mut m: ParamMap = KeyMap::new();
    insert_pairs(&mut m, &unescaped);
    m
}

} // verus!
