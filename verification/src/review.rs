//! Review: the parity of the current and objective models (ids, security
//! markers, traceability) and the annotated diagrams of a mismatch.
use vstd::prelude::*;
use crate::cycle::{first_keyword, is_comment_line, key_keywords, lemma_sorted_of, push_chars, sorted_of, with_stereo};
use crate::markers::{MarkerV, SecMarker, extract_sec_markers, markers_view, sec_of};
use crate::patterns::captures;
use crate::strings::{KeyMap, ParamMap};
use crate::traceability::{ChangedCode, GlueChange, SymbolSpan, behaviour_kind, is_behaviour_kind, symbol_matches, symbols_match};
use crate::model::{
    MarkerSummary, ModelElement, ModelFile, ModelKind, ModelRegistry, ModelSide, ParityMode,
    ReviewReport, SecurityReviewReport, TraceabilityReport, opt_view, ForwardError, ReverseViolation,
    SourceLink, Trace,
};
use crate::order::{filter_by_membership, insert_sorted, sorted_contains, strictly_sorted};
use crate::project::{ElemV, FileV, Project, elems_view, mfiles_view};
use crate::strings::sorted_unique;
use crate::validation::clone_strings;
use crate::patterns::{ID_PATTERN, Pat, first_capture, regex_captures};
use crate::text::{
    replace_first, replace_first_str, strip_prefix_or_self, strip_prefix_or_self_str, str_eq, str_ends_with, ends_with, cat, cat3, chars_of, lines, lines_of, owned, push_str, starts_with, str_starts_with, string_of, strs, trim, trim_chars, vviews};

verus! {

/// A stand-in element for an id present only in current.
pub open spec fn extra_element_spec(id: Seq<char>, kind: ModelKind) -> Seq<char> {
    match kind {
        ModelKind::UseCase => "usecase \""@ + id + "\" as "@ + id + "_extra <<extra>>"@,
        ModelKind::Domain => "class \""@ + id + "\" as "@ + id + "_extra <<extra>>"@,
        ModelKind::Sequence => "participant \""@ + id + "\" as "@ + id + "_extra <<extra>>"@,
        ModelKind::State => "state \""@ + id + "\" as "@ + id + "_extra <<extra>>"@,
        ModelKind::Mockup => "note \"extra (mockup): "@ + id + "\" as "@ + id + "_extra #FFB6C1"@,
        ModelKind::Other => "rectangle \""@ + id + "\" as "@ + id + "_extra <<extra>>"@,
        ModelKind::Constraint => "note \"extra constraint: "@ + id + "\" as "@ + id + "_extra #FFB6C1"@,
    }
}

pub fn extra_pseudo_element(id: &str, kind: ModelKind) -> (r: String)
    ensures
        r@ == extra_element_spec(id@, kind),
{
    let (pre, mid, post) = match kind {
        ModelKind::UseCase => ("usecase \"", "\" as ", "_extra <<extra>>"),
        ModelKind::Domain => ("class \"", "\" as ", "_extra <<extra>>"),
        ModelKind::Sequence => ("participant \"", "\" as ", "_extra <<extra>>"),
        ModelKind::State => ("state \"", "\" as ", "_extra <<extra>>"),
        ModelKind::Mockup => ("note \"extra (mockup): ", "\" as ", "_extra #FFB6C1"),
        ModelKind::Other => ("rectangle \"", "\" as ", "_extra <<extra>>"),
        ModelKind::Constraint => ("note \"extra constraint: ", "\" as ", "_extra #FFB6C1"),
    };
    let mut r = cat3(pre, id, mid);
    push_str(&mut r, id);
    push_str(&mut r, post);
    r
}

/// The legend of a review diff.
pub const REVIEW_SKINPARAM: &'static str = "skinparam usecase {\n  BackgroundColor<<missing>> #90EE90\n  BackgroundColor<<extra>> #FFB6C1\n}\nskinparam class {\n  BackgroundColor<<missing>> #90EE90\n  BackgroundColor<<extra>> #FFB6C1\n}\nskinparam component {\n  BackgroundColor<<missing>> #90EE90\n  BackgroundColor<<extra>> #FFB6C1\n}\nskinparam state {\n  BackgroundColor<<missing>> #90EE90\n  BackgroundColor<<extra>> #FFB6C1\n}\nskinparam rectangle {\n  BackgroundColor<<missing>> #90EE90\n  BackgroundColor<<extra>> #FFB6C1\n}\nskinparam actor {\n  BackgroundColor<<missing>> #90EE90\n  BackgroundColor<<extra>> #FFB6C1\n}\nskinparam participant {\n  BackgroundColor<<missing>> #90EE90\n  BackgroundColor<<extra>> #FFB6C1\n}\nskinparam node {\n  BackgroundColor<<missing>> #90EE90\n  BackgroundColor<<extra>> #FFB6C1\n}\n";

pub type ExtraV = (Seq<char>, ModelKind);

pub open spec fn extras_view(v: Seq<(String, ModelKind)>) -> Seq<ExtraV> {
    v.map_values(|x: (String, ModelKind)| (x.0@, x.1))
}

/// The stand-in element lines of the extras.
pub open spec fn extras_block(xs: Seq<ExtraV>) -> Seq<char>
    decreases xs.len(),
{
    if xs.len() == 0 {
        seq![]
    } else {
        extras_block(xs.drop_last()) + extra_element_spec(xs.last().0, xs.last().1) + "\n"@
    }
}

/// (output, a missing `@id` waits for its declaration, legend inserted,
/// closing line reached).
pub type ReviewSt = (Seq<char>, bool, bool, bool);

pub open spec fn review_step(st: ReviewSt, line: Seq<char>, missing: Set<Seq<char>>, block: Seq<char>) -> ReviewSt {
    let (out, pending, inserted, ended) = st;
    let t = trim(line);
    if ended {
        (out + line + "\n"@, pending, inserted, ended)
    } else if !inserted && (starts_with(t, "@startuml"@) || starts_with(t, "@startsalt"@)) {
        (out + line + "\n"@ + REVIEW_SKINPARAM@, pending, true, ended)
    } else if starts_with(t, "@enduml"@) || starts_with(t, "@endsalt"@) {
        (out + block + line + "\n"@, pending, inserted, true)
    } else if is_comment_line(t) {
        let p = match first_capture(Pat::Ident("@id("@), t) {
            Some(c) => if missing.contains(c) {
                true
            } else {
                pending
            },
            None => pending,
        };
        (out + line + "\n"@, p, inserted, ended)
    } else if pending && t.len() > 0 && first_keyword(key_keywords(), t, 0) is Some {
        (out + with_stereo(line, "<<missing>>"@) + "\n"@, false, inserted, ended)
    } else {
        (out + line + "\n"@, pending, inserted, ended)
    }
}

pub open spec fn review_fold(ls: Seq<Seq<char>>, missing: Set<Seq<char>>, block: Seq<char>) -> ReviewSt
    decreases ls.len(),
{
    if ls.len() == 0 {
        (seq![], false, false, false)
    } else {
        review_step(review_fold(ls.drop_last(), missing, block), ls.last(), missing, block)
    }
}

/// The objective diagram annotated for review: the legend after the
/// opening line, each declaration following a comment that names a missing
/// `@id` tagged `<<missing>>`, and a stand-in for each extra id before the
/// closing line (or at the end when there is none).
pub open spec fn review_diff_spec(content: Seq<char>, missing: Set<Seq<char>>, extras: Seq<ExtraV>) -> Seq<char> {
    let block = extras_block(extras);
    let st = review_fold(lines(content), missing, block);
    if st.3 {
        st.0
    } else {
        st.0 + block
    }
}

/// A trimmed line that closes the diagram.
pub open spec fn is_end_line(t: Seq<char>) -> bool {
    starts_with(t, "@enduml"@) || starts_with(t, "@endsalt"@)
}

/// A trimmed line that declares an element: it starts with an element
/// keyword.
pub open spec fn declares(t: Seq<char>) -> bool {
    first_keyword(key_keywords(), t, 0) is Some
}

proof fn lemma_review_step_extends(st: ReviewSt, line: Seq<char>, missing: Set<Seq<char>>, block: Seq<char>)
    ensures
        review_step(st, line, missing, block).0.len() >= st.0.len(),
        review_step(st, line, missing, block).0.take(st.0.len() as int) == st.0,
{
    let r = review_step(st, line, missing, block).0;
    assert(r.take(st.0.len() as int) =~= st.0);
}

proof fn lemma_review_fold_prefix(ls: Seq<Seq<char>>, k: int, missing: Set<Seq<char>>, block: Seq<char>)
    requires
        0 <= k <= ls.len(),
    ensures
        review_fold(ls, missing, block).0.len() >= review_fold(ls.take(k), missing, block).0.len(),
        review_fold(ls, missing, block).0.take(review_fold(ls.take(k), missing, block).0.len() as int)
            == review_fold(ls.take(k), missing, block).0,
    decreases ls.len(),
{
    if k == ls.len() {
        assert(ls.take(k) =~= ls);
    } else {
        let d = ls.drop_last();
        assert(d.take(k) =~= ls.take(k));
        lemma_review_fold_prefix(d, k, missing, block);
        lemma_review_step_extends(review_fold(d, missing, block), ls.last(), missing, block);
        let a = review_fold(ls.take(k), missing, block).0;
        let b = review_fold(d, missing, block).0;
        let c = review_fold(ls, missing, block).0;
        assert(c.take(a.len() as int) =~= b.take(a.len() as int));
    }
}

proof fn lemma_review_not_ended(ls: Seq<Seq<char>>, missing: Set<Seq<char>>, block: Seq<char>)
    requires
        forall|j: int| 0 <= j < ls.len() ==> !is_end_line(trim(#[trigger] ls[j])),
    ensures
        !review_fold(ls, missing, block).3,
    decreases ls.len(),
{
    if ls.len() > 0 {
        assert forall|j: int| 0 <= j < ls.drop_last().len() implies !is_end_line(trim(#[trigger] ls.drop_last()[j])) by {
            assert(ls.drop_last()[j] == ls[j]);
        }
        lemma_review_not_ended(ls.drop_last(), missing, block);
        assert(!is_end_line(trim(ls[ls.len() - 1])));
    }
}

proof fn lemma_pending_until(ls: Seq<Seq<char>>, missing: Set<Seq<char>>, block: Seq<char>, i: int, k: int, n: int)
    requires
        0 <= i < k < ls.len(),
        i + 1 <= n <= k,
        forall|j: int| 0 <= j <= k ==> !is_end_line(trim(#[trigger] ls[j])),
        is_comment_line(trim(ls[i])),
        first_capture(Pat::Ident("@id("@), trim(ls[i])) matches Some(c) && missing.contains(c),
        forall|j: int| i < j < k ==> !declares(trim(#[trigger] ls[j])),
    ensures
        review_fold(ls.take(n), missing, block).1,
    decreases n,
{
    reveal_strlit("'");
    reveal_strlit("//");
    reveal_strlit("@startuml");
    reveal_strlit("@startsalt");
    reveal_strlit("@enduml");
    reveal_strlit("@endsalt");
    let m = n - 1;
    assert(ls.take(n).drop_last() =~= ls.take(m));
    assert(ls.take(n).last() == ls[m]);
    assert forall|j: int| 0 <= j < ls.take(m).len() implies !is_end_line(trim(#[trigger] ls.take(m)[j])) by {
        assert(ls.take(m)[j] == ls[j]);
    }
    lemma_review_not_ended(ls.take(m), missing, block);
    let t = trim(ls[m]);
    assert(!is_end_line(t));
    if m == i {
        if starts_with(t, "'"@) {
            assert(t[0] == t.take(1)[0]);
        } else {
            assert(t[0] == t.take(2)[0]);
        }
        if starts_with(t, "@startuml"@) {
            assert(t[0] == t.take(9)[0]);
        }
        if starts_with(t, "@startsalt"@) {
            assert(t[0] == t.take(10)[0]);
        }
    } else {
        lemma_pending_until(ls, missing, block, i, k, m);
        assert(!declares(t));
        if is_comment_line(t) {
            if starts_with(t, "'"@) {
                assert(t[0] == t.take(1)[0]);
            } else {
                assert(t[0] == t.take(2)[0]);
            }
        }
    }
}

/// In the review diagram, an element declared after a comment that names
/// a missing `@id` (the first declaration after that comment, before the
/// diagram closes) is written tagged `<<missing>>`.
pub proof fn lemma_missing_declaration_marked(
    content: Seq<char>,
    missing: Set<Seq<char>>,
    extras: Seq<ExtraV>,
    i: int,
    k: int,
)
    requires
        0 <= i < k < lines(content).len(),
        forall|j: int| 0 <= j <= k ==> !is_end_line(trim(#[trigger] lines(content)[j])),
        is_comment_line(trim(lines(content)[i])),
        first_capture(Pat::Ident("@id("@), trim(lines(content)[i])) matches Some(c) && missing.contains(c),
        forall|j: int| i < j < k ==> !declares(trim(#[trigger] lines(content)[j])),
        declares(trim(lines(content)[k])),
    ensures
        exists|p: int|
            crate::text::occurs_at(
                review_diff_spec(content, missing, extras),
                with_stereo(lines(content)[k], "<<missing>>"@) + "\n"@,
                p,
            ),
{
    reveal_strlit("'");
    reveal_strlit("//");
    reveal_strlit("@startuml");
    reveal_strlit("@startsalt");
    reveal_strlit("@enduml");
    reveal_strlit("@endsalt");
    let ls = lines(content);
    let block = extras_block(extras);
    // Up to the comment, the diagram has not closed.
    assert forall|n: int| 0 <= n <= k + 1 implies !review_fold(ls.take(n), missing, block).3 by {
        assert forall|j: int| 0 <= j < ls.take(n).len() implies !is_end_line(trim(#[trigger] ls.take(n)[j])) by {
            assert(ls.take(n)[j] == ls[j]);
        }
        lemma_review_not_ended(ls.take(n), missing, block);
    }
    // After the comment a missing id waits, and it still waits at `k`.
    lemma_pending_until(ls, missing, block, i, k, k);
    let before = review_fold(ls.take(k), missing, block);
    assert(ls.take(k + 1).drop_last() =~= ls.take(k));
    assert(ls.take(k + 1).last() == ls[k]);
    let t = trim(ls[k]);
    crate::cycle::lemma_keyword_line_starts_with_letter(t);
    if starts_with(t, "@startuml"@) {
        assert(t[0] == t.take(9)[0]);
    }
    if starts_with(t, "@startsalt"@) {
        assert(t[0] == t.take(10)[0]);
    }
    if starts_with(t, "'"@) {
        assert(t[0] == t.take(1)[0]);
    }
    if starts_with(t, "//"@) {
        assert(t[0] == t.take(2)[0]);
    }
    assert(!is_end_line(t));
    assert(before.1);
    assert(!before.3);
    let w = with_stereo(ls[k], "<<missing>>"@) + "\n"@;
    let after = review_fold(ls.take(k + 1), missing, block);
    assert(after.0 == before.0 + w);
    lemma_review_fold_prefix(ls, k + 1, missing, block);
    let whole = review_fold(ls, missing, block);
    let out = review_diff_spec(content, missing, extras);
    assert(out.take(whole.0.len() as int) =~= whole.0);
    let p = before.0.len() as int;
    assert(out.subrange(p, p + w.len()) =~= w) by {
        assert forall|x: int| 0 <= x < w.len() implies out.subrange(p, p + w.len())[x] == w[x] by {
            assert(out[p + x] == whole.0[p + x]);
            assert(whole.0[p + x] == after.0[p + x]);
        }
    }
    assert(crate::text::occurs_at(out, w, p));
}

fn push_extras(out: &mut String, extras: &Vec<(String, ModelKind)>)
    ensures
        final(out)@ == old(out)@ + extras_block(extras_view(extras@)),
{
    let ghost o0 = out@;
    let ghost xs = extras_view(extras@);
    let mut i: usize = 0;
    assert(xs.take(0) =~= Seq::<ExtraV>::empty());
    assert(o0 + Seq::<char>::empty() =~= o0);
    while i < extras.len()
        invariant
            i <= extras.len(),
            xs == extras_view(extras@),
            out@ == o0 + extras_block(xs.take(i as int)),
        decreases extras.len() - i,
    {
        proof {
            assert(xs.take(i + 1).drop_last() == xs.take(i as int));
            assert(xs.take(i + 1).last() == (extras@[i as int].0@, extras@[i as int].1));
        }
        let e = extra_pseudo_element(extras[i].0.as_str(), extras[i].1);
        push_str(out, e.as_str());
        push_str(out, "\n");
        i = i + 1;
    }
    assert(xs.take(extras.len() as int) == xs);
}

fn review_line(
    out: &mut String,
    pending: &mut bool,
    inserted: &mut bool,
    ended: &mut bool,
    line: &[char],
    missing: &Vec<String>,
    extras: &Vec<(String, ModelKind)>,
)
    ensures
        (final(out)@, *final(pending), *final(inserted), *final(ended)) == review_step(
            (old(out)@, *old(pending), *old(inserted), *old(ended)),
            line@,
            strs(missing@).to_set(),
            extras_block(extras_view(extras@)),
        ),
{
    if *ended {
        push_chars(out, line);
        push_str(out, "\n");
        return;
    }
    let tv = trim_chars(line);
    let ts = string_of(tv.as_slice());
    let t = ts.as_str();
    if !*inserted && (str_starts_with(t, "@startuml") || str_starts_with(t, "@startsalt")) {
        push_chars(out, line);
        push_str(out, "\n");
        push_str(out, REVIEW_SKINPARAM);
        *inserted = true;
        return;
    }
    if str_starts_with(t, "@enduml") || str_starts_with(t, "@endsalt") {
        push_extras(out, extras);
        push_chars(out, line);
        push_str(out, "\n");
        *ended = true;
        return;
    }
    if str_starts_with(t, "'") || str_starts_with(t, "//") {
        match regex_captures(ID_PATTERN, t) {
            Some(c) => {
                if sorted_contains(missing, c.as_str()) {
                    *pending = true;
                }
            },
            None => {},
        }
        push_chars(out, line);
        push_str(out, "\n");
        return;
    }
    if *pending && tv.len() > 0 && crate::cycle::find_key_keyword(tv.as_slice()).is_some() {
        let w = crate::cycle::with_stereo_chars(line, "<<missing>>");
        push_chars(out, w.as_slice());
        push_str(out, "\n");
        *pending = false;
        return;
    }
    push_chars(out, line);
    push_str(out, "\n");
}

/// The review diff of one objective diagram (see `review_diff_spec`).
pub fn annotate_review_diff_puml(
    objective_content: &str,
    missing_ids: &Vec<String>,
    extras: &Vec<(String, ModelKind)>,
) -> (r: String)
    ensures
        r@ == review_diff_spec(objective_content@, strs(missing_ids@).to_set(), extras_view(extras@)),
{
    let ls = lines_of(objective_content);
    let ghost all = vviews(ls@);
    let ghost block = extras_block(extras_view(extras@));
    let mut out = String::new();
    let mut pending = false;
    let mut inserted = false;
    let mut ended = false;
    let mut i: usize = 0;
    assert(all.take(0) =~= Seq::<Seq<char>>::empty());
    assert(out@ =~= Seq::<char>::empty());
    while i < ls.len()
        invariant
            i <= ls.len(),
            all == vviews(ls@),
            all == lines(objective_content@),
            block == extras_block(extras_view(extras@)),
            (out@, pending, inserted, ended) == review_fold(all.take(i as int), strs(missing_ids@).to_set(), block),
        decreases ls.len() - i,
    {
        proof {
            assert(all.take(i + 1).drop_last() == all.take(i as int));
            assert(all.take(i + 1).last() == ls@[i as int]@);
        }
        review_line(&mut out, &mut pending, &mut inserted, &mut ended, ls[i].as_slice(), missing_ids, extras);
        i = i + 1;
    }
    assert(all.take(ls.len() as int) == all);
    if !ended {
        push_extras(&mut out, extras);
    }
    out
}

// ---------------------------------------------------------------------------
// Security markers

/// `k=v` for each parameter, in key order, joined by `sep`.
pub open spec fn params_text(ps: Seq<(Seq<char>, Seq<char>)>, sep: Seq<char>) -> Seq<char>
    decreases ps.len(),
{
    if ps.len() == 0 {
        seq![]
    } else if ps.len() == 1 {
        ps[0].0 + "="@ + ps[0].1
    } else {
        params_text(ps.drop_last(), sep) + sep + ps.last().0 + "="@ + ps.last().1
    }
}

fn params_text_exec(ps: &crate::strings::ParamMap, sep: &str) -> (r: String)
    ensures
        r@ == params_text(ps@, sep@),
{
    let mut r = String::new();
    let mut i: usize = 0;
    let ghost pv = ps@;
    assert(pv.take(0) =~= Seq::<(Seq<char>, Seq<char>)>::empty());
    while i < ps.entries.len()
        invariant
            i <= ps.entries.len(),
            pv == ps@,
            r@ == params_text(pv.take(i as int), sep@),
        decreases ps.entries.len() - i,
    {
        proof {
            let t = pv.take(i + 1);
            assert(t.drop_last() == pv.take(i as int));
            assert(t.last() == (ps.entries@[i as int].0@, ps.entries@[i as int].1@));
            if i == 0 {
                assert(t[0] == t.last());
            }
        }
        if i > 0 {
            push_str(&mut r, sep);
        } else {
            assert(r@ =~= Seq::<char>::empty());
        }
        push_str(&mut r, ps.entries[i].0.as_str());
        push_str(&mut r, "=");
        push_str(&mut r, ps.entries[i].1.as_str());
        i = i + 1;
    }
    assert(pv.take(ps.entries.len() as int) == pv);
    r
}

/// The identity of a marker for parity: host, stereotype and parameters
/// (not its id nor its file).
pub open spec fn parity_key_spec(host: Seq<char>, stereotype: Seq<char>, params: Seq<(Seq<char>, Seq<char>)>) -> Seq<char> {
    host + "|"@ + stereotype + "|"@ + params_text(params, ","@)
}

pub fn parity_key(marker: &MarkerSummary) -> (r: String)
    ensures
        r@ == parity_key_spec(marker.host@, marker.stereotype@, marker.params@),
{
    let mut r = cat3(marker.host.as_str(), "|", marker.stereotype.as_str());
    push_str(&mut r, "|");
    let p = params_text_exec(&marker.params, ",");
    push_str(&mut r, p.as_str());
    r
}

/// One bullet of the missing-markers note.
pub open spec fn missing_marker_line(host: Seq<char>, stereotype: Seq<char>, params: Seq<(Seq<char>, Seq<char>)>, id: Option<Seq<char>>) -> Seq<char> {
    "• "@ + host + ": <<"@ + stereotype + ">>"@ + (if params.len() == 0 {
        seq![]
    } else {
        " ("@ + params_text(params, ", "@) + ")"@
    }) + match id {
        Some(i) => " [id="@ + i + "]"@,
        None => seq![],
    } + "\\n"@
}

/// A marker as compared for parity: host, stereotype, parameters, id, file.
pub type SummaryV = (Seq<char>, Seq<char>, Seq<(Seq<char>, Seq<char>)>, Option<Seq<char>>, Seq<char>);

pub open spec fn summary_view(m: MarkerSummary) -> SummaryV {
    (m.host@, m.stereotype@, m.params@, opt_view(m.id), m.file@)
}

pub open spec fn summaries_view(v: Seq<MarkerSummary>) -> Seq<SummaryV> {
    v.map_values(|m: MarkerSummary| summary_view(m))
}

pub open spec fn missing_lines(ms: Seq<SummaryV>) -> Seq<char>
    decreases ms.len(),
{
    if ms.len() == 0 {
        seq![]
    } else {
        let m = ms.last();
        missing_lines(ms.drop_last()) + missing_marker_line(m.0, m.1, m.2, m.3)
    }
}

/// The note listing the missing markers.
pub open spec fn security_note(ms: Seq<SummaryV>) -> Seq<char> {
    "note as MissingSecMarkers #FFB6C1\n"@ + "**MISSING SECURITY MARKERS**\\n"@ + missing_lines(ms) + "\nend note\n"@
}

/// (output, note inserted).
pub open spec fn security_fold(ls: Seq<Seq<char>>, note: Seq<char>) -> (Seq<char>, bool)
    decreases ls.len(),
{
    if ls.len() == 0 {
        (seq![], false)
    } else {
        let (out, ins) = security_fold(ls.drop_last(), note);
        let line = ls.last();
        let t = trim(line);
        if (starts_with(t, "@enduml"@) || starts_with(t, "@endsalt"@)) && !ins {
            (out + note + line + "\n"@, true)
        } else {
            (out + line + "\n"@, ins)
        }
    }
}

/// The objective diagram with a note of the missing security markers
/// before its closing line (or at the end when there is none).
pub open spec fn security_diff_spec(content: Seq<char>, ms: Seq<SummaryV>) -> Seq<char> {
    let note = security_note(ms);
    let (out, ins) = security_fold(lines(content), note);
    if ins {
        out
    } else {
        out + note
    }
}

fn missing_marker_line_exec(m: &MarkerSummary) -> (r: String)
    ensures
        r@ == missing_marker_line(m.host@, m.stereotype@, m.params@, opt_view(m.id)),
{
    let mut body = cat3("• ", m.host.as_str(), ": <<");
    push_str(&mut body, m.stereotype.as_str());
    push_str(&mut body, ">>");
    let ghost head = body@;
    if m.params.entries.len() > 0 {
        push_str(&mut body, " (");
        let p = params_text_exec(&m.params, ", ");
        push_str(&mut body, p.as_str());
        push_str(&mut body, ")");
    } else {
        assert(body@ =~= head + Seq::<char>::empty());
    }
    let ghost mid = body@;
    match &m.id {
        Some(id) => {
            push_str(&mut body, " [id=");
            push_str(&mut body, id.as_str());
            push_str(&mut body, "]");
        },
        None => {
            assert(body@ =~= mid + Seq::<char>::empty());
        },
    }
    push_str(&mut body, "\\n");
    body
}

fn security_note_exec(missing: &Vec<MarkerSummary>) -> (r: String)
    ensures
        r@ == security_note(summaries_view(missing@)),
{
    let mut body = String::new();
    let mut i: usize = 0;
    let ghost mv = summaries_view(missing@);
    assert(mv.take(0) =~= Seq::<SummaryV>::empty());
    assert(body@ =~= Seq::<char>::empty());
    while i < missing.len()
        invariant
            i <= missing.len(),
            mv == summaries_view(missing@),
            body@ == missing_lines(mv.take(i as int)),
        decreases missing.len() - i,
    {
        proof {
            assert(mv.take(i + 1).drop_last() == mv.take(i as int));
            assert(mv.take(i + 1).last() == summary_view(missing@[i as int]));
        }
        let line = missing_marker_line_exec(&missing[i]);
        push_str(&mut body, line.as_str());
        i = i + 1;
    }
    assert(mv.take(missing.len() as int) == mv);
    let mut r = owned("note as MissingSecMarkers #FFB6C1\n");
    push_str(&mut r, "**MISSING SECURITY MARKERS**\\n");
    push_str(&mut r, body.as_str());
    push_str(&mut r, "\nend note\n");
    r
}

/// The security review diff of one objective diagram.
pub fn annotate_security_diff_puml(objective_content: &str, missing: &Vec<MarkerSummary>) -> (r: String)
    ensures
        r@ == security_diff_spec(objective_content@, summaries_view(missing@)),
{
    let note = security_note_exec(missing);
    let ls = lines_of(objective_content);
    let ghost all = vviews(ls@);
    let mut out = String::new();
    let mut inserted = false;
    let mut i: usize = 0;
    assert(all.take(0) =~= Seq::<Seq<char>>::empty());
    assert(out@ =~= Seq::<char>::empty());
    while i < ls.len()
        invariant
            i <= ls.len(),
            all == vviews(ls@),
            all == lines(objective_content@),
            note@ == security_note(summaries_view(missing@)),
            (out@, inserted) == security_fold(all.take(i as int), note@),
        decreases ls.len() - i,
    {
        proof {
            assert(all.take(i + 1).drop_last() == all.take(i as int));
            assert(all.take(i + 1).last() == ls@[i as int]@);
        }
        let tv = trim_chars(ls[i].as_slice());
        let ts = string_of(tv.as_slice());
        if (str_starts_with(ts.as_str(), "@enduml") || str_starts_with(ts.as_str(), "@endsalt")) && !inserted {
            push_str(&mut out, note.as_str());
            inserted = true;
        }
        push_chars(&mut out, ls[i].as_slice());
        push_str(&mut out, "\n");
        i = i + 1;
    }
    assert(all.take(ls.len() as int) == all);
    if !inserted {
        push_str(&mut out, note.as_str());
    }
    out
}

// ---------------------------------------------------------------------------
// Id parity

/// The ids of the elements on one side.
pub open spec fn side_ids(es: Seq<ElemV>, side: ModelSide) -> Set<Seq<char>>
    decreases es.len(),
{
    if es.len() == 0 {
        Set::empty()
    } else if es.last().3 == side {
        side_ids(es.drop_last(), side).insert(es.last().0)
    } else {
        side_ids(es.drop_last(), side)
    }
}

/// An empty scope admits every id.
pub open spec fn in_scope(scope: Seq<Seq<char>>, id: Seq<char>) -> bool {
    scope.len() == 0 || scope.contains(id)
}

/// Objective ids absent from current, within the scope.
pub open spec fn missing_id_set(es: Seq<ElemV>, scope: Seq<Seq<char>>) -> Set<Seq<char>> {
    side_ids(es, ModelSide::Objective).difference(side_ids(es, ModelSide::Current)).filter(
        |id: Seq<char>| in_scope(scope, id),
    )
}

/// Current ids absent from objective, within the scope.
pub open spec fn extra_id_set(es: Seq<ElemV>, scope: Seq<Seq<char>>) -> Set<Seq<char>> {
    side_ids(es, ModelSide::Current).difference(side_ids(es, ModelSide::Objective)).filter(
        |id: Seq<char>| in_scope(scope, id),
    )
}

/// Narrowing a review to a scope keeps exactly the gaps inside it: an
/// in-scope gap is reported as without a scope, one outside is never
/// reported.
pub proof fn lemma_review_scope(es: Seq<ElemV>, scope: Seq<Seq<char>>)
    ensures
        missing_id_set(es, scope) == missing_id_set(es, seq![]).filter(|id: Seq<char>| in_scope(scope, id)),
        extra_id_set(es, scope) == extra_id_set(es, seq![]).filter(|id: Seq<char>| in_scope(scope, id)),
        missing_id_set(es, scope).subset_of(missing_id_set(es, seq![])),
        extra_id_set(es, scope).subset_of(extra_id_set(es, seq![])),
{
    assert(missing_id_set(es, scope) =~= missing_id_set(es, seq![]).filter(|id: Seq<char>| in_scope(scope, id)));
    assert(extra_id_set(es, scope) =~= extra_id_set(es, seq![]).filter(|id: Seq<char>| in_scope(scope, id)));
}

fn side_id_list(ids: &Vec<ModelElement>, side: ModelSide) -> (r: Vec<String>)
    ensures
        strictly_sorted(strs(r@)),
        strs(r@).to_set() == side_ids(elems_view(ids@), side),
{
    let ghost es = elems_view(ids@);
    let mut r: Vec<String> = Vec::new();
    let mut i: usize = 0;
    assert(strs(r@).to_set() =~= Set::<Seq<char>>::empty());
    while i < ids.len()
        invariant
            i <= ids.len(),
            es == elems_view(ids@),
            strictly_sorted(strs(r@)),
            strs(r@).to_set() == side_ids(es.take(i as int), side),
        decreases ids.len() - i,
    {
        proof {
            assert(es.take(i + 1).drop_last() == es.take(i as int));
            assert(es.take(i + 1).last() == es[i as int]);
        }
        if ids[i].side == side {
            insert_sorted(&mut r, ids[i].id.clone());
        }
        i = i + 1;
    }
    assert(es.take(ids.len() as int) == es);
    r
}

/// The members of a sorted list within the scope, in order.
fn scoped(v: &Vec<String>, scope: &Vec<String>) -> (r: Vec<String>)
    requires
        strictly_sorted(strs(v@)),
    ensures
        strictly_sorted(strs(r@)),
        strs(r@).to_set() == strs(v@).to_set().filter(|id: Seq<char>| in_scope(strs(scope@), id)),
{
    if scope.len() == 0 {
        let r = clone_strings(v);
        assert(strs(v@).to_set().filter(|id: Seq<char>| in_scope(strs(scope@), id)) =~= strs(v@).to_set());
        r
    } else {
        let r = filter_by_membership(v, scope, true);
        assert(strs(v@).to_set().filter(|x: Seq<char>| strs(scope@).contains(x) == true) =~= strs(
            v@,
        ).to_set().filter(|id: Seq<char>| in_scope(strs(scope@), id)));
        r
    }
}

/// The missing and the extra ids of a review, each sorted.
pub fn review_ids(registry: &ModelRegistry, scope: &Vec<String>) -> (r: (Vec<String>, Vec<String>))
    ensures
        strictly_sorted(strs(r.0@)),
        strs(r.0@).to_set() == missing_id_set(elems_view(registry.ids@), strs(scope@)),
        strictly_sorted(strs(r.1@)),
        strs(r.1@).to_set() == extra_id_set(elems_view(registry.ids@), strs(scope@)),
{
    let cur = side_id_list(&registry.ids, ModelSide::Current);
    let obj = side_id_list(&registry.ids, ModelSide::Objective);
    let only_obj = filter_by_membership(&obj, &cur, false);
    let only_cur = filter_by_membership(&cur, &obj, false);
    let missing = scoped(&only_obj, scope);
    let extra = scoped(&only_cur, scope);
    let ghost es = elems_view(registry.ids@);
    let ghost sc = strs(scope@);
    assert(strs(missing@).to_set() =~= missing_id_set(es, sc));
    assert(strs(extra@).to_set() =~= extra_id_set(es, sc));
    (missing, extra)
}

/// The kind of the last element with the id (`Other` when none).
pub open spec fn last_kind(es: Seq<ElemV>, id: Seq<char>) -> ModelKind
    decreases es.len(),
{
    if es.len() == 0 {
        ModelKind::Other
    } else if es.last().0 == id {
        es.last().2
    } else {
        last_kind(es.drop_last(), id)
    }
}

fn kind_of_id(ids: &Vec<ModelElement>, id: &str) -> (k: ModelKind)
    ensures
        k == last_kind(elems_view(ids@), id@),
{
    let ghost es = elems_view(ids@);
    let mut j: usize = ids.len();
    assert(es.take(j as int) == es);
    while j > 0
        invariant
            j <= ids.len(),
            es == elems_view(ids@),
            last_kind(es, id@) == last_kind(es.take(j as int), id@),
        decreases j,
    {
        proof {
            assert(es.take(j as int).drop_last() == es.take(j - 1));
            assert(es.take(j as int).last() == es[j - 1]);
        }
        if str_eq(ids[j - 1].id.as_str(), id) {
            return ids[j - 1].kind;
        }
        j = j - 1;
    }
    ModelKind::Other
}

/// Each extra id with the kind of its element.
pub open spec fn extras_of(xs: Seq<Seq<char>>, es: Seq<ElemV>) -> Seq<ExtraV> {
    xs.map_values(|id: Seq<char>| (id, last_kind(es, id)))
}

fn extras_with_kind(extra: &Vec<String>, ids: &Vec<ModelElement>) -> (r: Vec<(String, ModelKind)>)
    ensures
        extras_view(r@) == extras_of(strs(extra@), elems_view(ids@)),
{
    let mut r: Vec<(String, ModelKind)> = Vec::new();
    let mut i: usize = 0;
    while i < extra.len()
        invariant
            i <= extra.len(),
            extras_view(r@) == extras_of(strs(extra@), elems_view(ids@)).take(i as int),
        decreases extra.len() - i,
    {
        let k = kind_of_id(ids, extra[i].as_str());
        let x = extra[i].clone();
        assert(x@ == strs(extra@)[i as int]);
        let ghost r0 = extras_view(r@);
        r.push((x, k));
        proof {
            assert(extras_view(r@) =~= r0.push((strs(extra@)[i as int], k)));
            assert(extras_view(r@) =~= extras_of(strs(extra@), elems_view(ids@)).take(i + 1));
        }
        i = i + 1;
    }
    assert(extras_of(strs(extra@), elems_view(ids@)).take(extra.len() as int) =~= extras_of(
        strs(extra@),
        elems_view(ids@),
    ));
    r
}

/// Where the review diff of an objective diagram is written.
pub open spec fn review_diff_rel(path: Seq<char>, suffix: Seq<char>) -> Seq<char> {
    ".mdd/rendered/review/"@ + replace_first(
        strip_prefix_or_self(path, ".mdd/models/objective/"@),
        ".puml"@,
        suffix,
    )
}

fn review_diff_rel_exec(path: &str, suffix: &str) -> (r: String)
    ensures
        r@ == review_diff_rel(path@, suffix@),
{
    let rel = strip_prefix_or_self_str(path, ".mdd/models/objective/");
    proof {
        reveal_strlit(".puml");
    }
    let replaced = replace_first_str(rel.as_str(), ".puml", suffix);
    cat(".mdd/rendered/review/", replaced.as_str())
}

/// The ids of a file that are missing.
pub open spec fn file_missing(ids: Seq<Seq<char>>, missing: Set<Seq<char>>) -> Seq<Seq<char>> {
    ids.filter(|id: Seq<char>| missing.contains(id))
}

/// The review diffs: for each objective diagram (in registry order) with a
/// missing id of its own or with any extra id, its path under
/// `.mdd/rendered/review/` and its annotated content.
pub open spec fn review_diffs(
    files: Seq<FileV>,
    contents: Seq<Seq<char>>,
    missing: Set<Seq<char>>,
    extras: Seq<ExtraV>,
) -> Seq<(Seq<char>, Seq<char>)>
    decreases files.len(),
{
    if files.len() == 0 {
        seq![]
    } else {
        let prev = review_diffs(files.drop_last(), contents, missing, extras);
        let f = files.last();
        let fm = file_missing(f.3, missing);
        if f.2 != ModelSide::Objective || (fm.len() == 0 && extras.len() == 0) {
            prev
        } else {
            prev.push(
                (
                    review_diff_rel(f.0, ".diff.puml"@),
                    review_diff_spec(contents[files.len() - 1], fm.to_set(), extras),
                ),
            )
        }
    }
}

pub open spec fn pairs_view(v: Seq<(String, String)>) -> Seq<(Seq<char>, Seq<char>)> {
    v.map_values(|x: (String, String)| (x.0@, x.1@))
}

fn file_missing_exec(ids: &Vec<String>, missing: &Vec<String>) -> (r: Vec<String>)
    ensures
        strs(r@) == file_missing(strs(ids@), strs(missing@).to_set()),
{
    let ghost pred = |id: Seq<char>| strs(missing@).to_set().contains(id);
    let mut r: Vec<String> = Vec::new();
    let mut i: usize = 0;
    assert(strs(ids@).take(0).filter(pred) =~= Seq::<Seq<char>>::empty()) by {
        reveal(Seq::filter);
    }
    while i < ids.len()
        invariant
            i <= ids.len(),
            pred == (|id: Seq<char>| strs(missing@).to_set().contains(id)),
            strs(r@) == strs(ids@).take(i as int).filter(pred),
        decreases ids.len() - i,
    {
        proof {
            assert(strs(ids@).take(i + 1) == strs(ids@).take(i as int).push(ids@[i as int]@));
            strs(ids@).take(i as int).lemma_filter_push(ids@[i as int]@, pred);
        }
        if sorted_contains(missing, ids[i].as_str()) {
            r.push(ids[i].clone());
            assert(strs(r@) =~= strs(ids@).take(i + 1).filter(pred));
        }
        i = i + 1;
    }
    assert(strs(ids@).take(ids.len() as int) == strs(ids@));
    r
}

fn review_diff_files(
    files: &Vec<ModelFile>,
    contents: &Vec<String>,
    missing: &Vec<String>,
    extras: &Vec<(String, ModelKind)>,
) -> (r: Vec<(String, String)>)
    requires
        contents@.len() == files@.len(),
    ensures
        pairs_view(r@) == review_diffs(
            mfiles_view(files@),
            strs(contents@),
            strs(missing@).to_set(),
            extras_view(extras@),
        ),
{
    let ghost fs = mfiles_view(files@);
    let ghost ms = strs(missing@).to_set();
    let ghost xs = extras_view(extras@);
    let mut r: Vec<(String, String)> = Vec::new();
    let mut i: usize = 0;
    assert(pairs_view(r@) =~= Seq::<(Seq<char>, Seq<char>)>::empty());
    while i < files.len()
        invariant
            i <= files.len(),
            contents@.len() == files@.len(),
            fs == mfiles_view(files@),
            ms == strs(missing@).to_set(),
            xs == extras_view(extras@),
            pairs_view(r@) == review_diffs(fs.take(i as int), strs(contents@), ms, xs),
        decreases files.len() - i,
    {
        proof {
            assert(fs.take(i + 1).drop_last() == fs.take(i as int));
            assert(fs.take(i + 1).last() == fs[i as int]);
        }
        let f = &files[i];
        let fm = file_missing_exec(&f.ids, missing);
        if f.side == ModelSide::Objective && (fm.len() > 0 || extras.len() > 0) {
            let rel = review_diff_rel_exec(f.path.as_str(), ".diff.puml");
            let content = annotate_review_diff_puml(contents[i].as_str(), &fm, extras);
            proof {
                let fmv = file_missing(fs[i as int].3, ms);
                assert(strs(fm@) == fmv);
            }
            r.push((rel, content));
            assert(pairs_view(r@) =~= review_diffs(fs.take(i + 1), strs(contents@), ms, xs));
        }
        i = i + 1;
    }
    assert(fs.take(files.len() as int) == fs);
    r
}

/// Whether a parity pass lets the review pass: it matched, or it only warns.
pub open spec fn gate_ok(matched: bool, mode: ParityMode) -> bool {
    matched || mode == ParityMode::Warn
}

impl Project {
    /// The review of the models: id parity between the current and the
    /// objective side (narrowed to the open cycle's `scope` when it has
    /// one), the annotated diagrams of a mismatch, and the combined gate
    /// with the security and the traceability passes. `contents` holds the
    /// text of each registry file, in registry order. The second result
    /// lists each review diff to write: its project-relative path and its
    /// content.
    pub fn review(
        &self,
        registry: &ModelRegistry,
        contents: &Vec<String>,
        scope: &Vec<String>,
        security: SecurityReviewReport,
        traceability: TraceabilityReport,
    ) -> (r: (ReviewReport, Vec<(String, String)>))
        requires
            contents@.len() == registry.files@.len(),
        ensures
            strictly_sorted(strs(r.0.missing_ids@)),
            strs(r.0.missing_ids@).to_set() == missing_id_set(elems_view(registry.ids@), strs(scope@)),
            strictly_sorted(strs(r.0.extra_ids@)),
            strs(r.0.extra_ids@).to_set() == extra_id_set(elems_view(registry.ids@), strs(scope@)),
            strictly_sorted(strs(r.0.scope@)),
            strs(r.0.scope@).to_set() == strs(scope@).to_set(),
            r.0.ids_matched == (r.0.missing_ids@.len() == 0),
            r.0.matched == (r.0.ids_matched && gate_ok(security.matched, security.mode) && gate_ok(
                traceability.matched,
                traceability.mode,
            )),
            r.0.security == security,
            r.0.traceability == traceability,
            pairs_view(r.1@) == (if r.0.ids_matched {
                Seq::<(Seq<char>, Seq<char>)>::empty()
            } else {
                review_diffs(
                    mfiles_view(registry.files@),
                    strs(contents@),
                    strs(r.0.missing_ids@).to_set(),
                    extras_of(strs(r.0.extra_ids@), elems_view(registry.ids@)),
                )
            }),
            strs(r.0.diff_puml_paths@) == pairs_view(r.1@).map_values(|d: (Seq<char>, Seq<char>)| d.0),
    {
        let (missing, extra) = review_ids(registry, scope);
        let ids_matched = missing.len() == 0;
        let mut diffs: Vec<(String, String)> = Vec::new();
        if !ids_matched {
            let xk = extras_with_kind(&extra, &registry.ids);
            diffs = review_diff_files(&registry.files, contents, &missing, &xk);
        } else {
            assert(pairs_view(diffs@) =~= Seq::<(Seq<char>, Seq<char>)>::empty());
        }
        let mut paths: Vec<String> = Vec::new();
        let mut i: usize = 0;
        while i < diffs.len()
            invariant
                i <= diffs.len(),
                strs(paths@) == pairs_view(diffs@).map_values(|d: (Seq<char>, Seq<char>)| d.0).take(
                    i as int,
                ),
            decreases diffs.len() - i,
        {
            let p = diffs[i].0.clone();
            assert(p@ == pairs_view(diffs@)[i as int].0);
            let ghost p0 = strs(paths@);
            paths.push(p);
            assert(strs(paths@) =~= p0.push(pairs_view(diffs@)[i as int].0));
            assert(strs(paths@) =~= pairs_view(diffs@).map_values(|d: (Seq<char>, Seq<char>)| d.0).take(
                i + 1,
            ));
            i = i + 1;
        }
        assert(pairs_view(diffs@).map_values(|d: (Seq<char>, Seq<char>)| d.0).take(
            diffs.len() as int,
        ) =~= pairs_view(diffs@).map_values(|d: (Seq<char>, Seq<char>)| d.0));
        let sec_ok = security.matched || security.mode == ParityMode::Warn;
        let trace_ok = traceability.matched || traceability.mode == ParityMode::Warn;
        let report = ReviewReport {
            matched: ids_matched && sec_ok && trace_ok,
            ids_matched,
            scope: sorted_unique(scope),
            missing_ids: missing,
            extra_ids: extra,
            diff_puml_paths: paths,
            security,
            traceability,
        };
        (report, diffs)
    }
}

// ---------------------------------------------------------------------------
// Security-marker parity

pub fn copy_params(p: &ParamMap) -> (r: ParamMap)
    ensures
        r@ == p@,
{
    let mut entries: Vec<(String, String)> = Vec::new();
    let mut i: usize = 0;
    while i < p.entries.len()
        invariant
            i <= p.entries.len(),
            (KeyMap { entries })@ == p@.take(i as int),
        decreases p.entries.len() - i,
    {
        let k = p.entries[i].0.clone();
        let v = p.entries[i].1.clone();
        let ghost e0 = (KeyMap { entries })@;
        entries.push((k, v));
        assert((KeyMap { entries })@ =~= e0.push(p@[i as int]));
        assert(p@.take(i + 1) =~= p@.take(i as int).push(p@[i as int]));
        i = i + 1;
    }
    assert(p@.take(p.entries.len() as int) == p@);
    KeyMap { entries }
}

fn copy_summary(m: &MarkerSummary) -> (r: MarkerSummary)
    ensures
        summary_view(r) == summary_view(*m),
{
    MarkerSummary {
        host: m.host.clone(),
        stereotype: m.stereotype.clone(),
        params: copy_params(&m.params),
        id: crate::model::clone_opt(&m.id),
        file: m.file.clone(),
    }
}

/// Whether a marker takes part in parity: it names a stereotype and a
/// host, and its host is in scope.
pub open spec fn kept_marker(m: MarkerV, scope: Seq<Seq<char>>) -> bool {
    m.0.len() > 0 && m.1.len() > 0 && in_scope(scope, m.1)
}

/// The compared markers of one file, in order.
pub open spec fn file_summaries(ms: Seq<MarkerV>, file: Seq<char>, scope: Seq<Seq<char>>) -> Seq<SummaryV>
    decreases ms.len(),
{
    if ms.len() == 0 {
        seq![]
    } else {
        let prev = file_summaries(ms.drop_last(), file, scope);
        let m = ms.last();
        if kept_marker(m, scope) {
            prev.push((m.1, m.0, m.3, m.2, file))
        } else {
            prev
        }
    }
}

/// The `@sec(...)` markers of a diagram, in order.
pub open spec fn content_markers(content: Seq<char>) -> Seq<MarkerV> {
    captures(Pat::Body("@sec("@), content).map_values(|b: Seq<char>| sec_of(b))
}

/// The compared markers of the (non-constraint) diagrams of one side, in
/// registry order.
pub open spec fn side_summaries(
    files: Seq<FileV>,
    contents: Seq<Seq<char>>,
    scope: Seq<Seq<char>>,
    side: ModelSide,
) -> Seq<SummaryV>
    decreases files.len(),
{
    if files.len() == 0 {
        seq![]
    } else {
        let prev = side_summaries(files.drop_last(), contents, scope, side);
        let f = files.last();
        if f.1 != ModelKind::Constraint && f.2 == side {
            prev + file_summaries(content_markers(contents[files.len() - 1]), f.0, scope)
        } else {
            prev
        }
    }
}

pub open spec fn summary_key(s: SummaryV) -> Seq<char> {
    parity_key_spec(s.0, s.1, s.2)
}

/// The parity keys of a list of markers.
pub open spec fn key_set(ss: Seq<SummaryV>) -> Set<Seq<char>> {
    ss.map_values(|s: SummaryV| summary_key(s)).to_set()
}

/// The first marker with the key.
pub open spec fn first_keyed(ss: Seq<SummaryV>, k: Seq<char>) -> Option<SummaryV>
    decreases ss.len(),
{
    if ss.len() == 0 {
        None
    } else if summary_key(ss[0]) == k {
        Some(ss[0])
    } else {
        first_keyed(ss.drop_first(), k)
    }
}

/// For each key of `a` that `b` lacks, in key order, the first marker of
/// `a` with that key.
pub open spec fn unmatched(a: Seq<SummaryV>, b: Seq<SummaryV>) -> Seq<SummaryV> {
    sorted_of(key_set(a).difference(key_set(b))).map_values(|k: Seq<char>| first_keyed(a, k).unwrap())
}

/// A text without the character `c`.
pub open spec fn no_char(s: Seq<char>, c: char) -> bool {
    forall|i: int| 0 <= i < s.len() ==> s[i] != c
}

/// A marker written without separator characters in its parts: no `|` in
/// its host or stereotype, no `,` or `=` in a parameter name and no `,` in
/// a parameter value (as `@sec` markers are written).
pub open spec fn plain_marker(m: SummaryV) -> bool {
    &&& no_char(m.0, '|')
    &&& no_char(m.1, '|')
    &&& forall|i: int|
        0 <= i < m.2.len() ==> no_char(#[trigger] m.2[i].0, ',') && no_char(m.2[i].0, '=') && no_char(m.2[i].1, ',')
}

/// Two texts that each end in a separator-free part after a separator
/// split there alike.
proof fn lemma_split_last(x: Seq<char>, a: Seq<char>, y: Seq<char>, b: Seq<char>, c: char)
    requires
        x + seq![c] + a == y + seq![c] + b,
        no_char(a, c),
        no_char(b, c),
    ensures
        x == y,
        a == b,
{
    let w = x + seq![c] + a;
    let w2 = y + seq![c] + b;
    assert(w.len() == w2.len());
    if a.len() < b.len() {
        assert(w[x.len() as int] == c);
        assert(w2[x.len() as int] == b[x.len() - y.len() - 1]);
    } else if b.len() < a.len() {
        assert(w2[y.len() as int] == c);
        assert(w[y.len() as int] == a[y.len() - x.len() - 1]);
    }
    assert(x.len() == y.len());
    assert(x =~= w.take(x.len() as int));
    assert(y =~= w.take(x.len() as int));
    assert(a =~= w.skip(x.len() + 1int));
    assert(b =~= w.skip(x.len() + 1int));
}

/// Two texts that each start with a separator-free part before a
/// separator split there alike.
proof fn lemma_split_first(x: Seq<char>, a: Seq<char>, y: Seq<char>, b: Seq<char>, c: char)
    requires
        x + seq![c] + a == y + seq![c] + b,
        no_char(x, c),
        no_char(y, c),
    ensures
        x == y,
        a == b,
{
    let w = x + seq![c] + a;
    if x.len() < y.len() {
        assert(w[x.len() as int] == c);
        assert(y[x.len() as int] == w[x.len() as int]);
    } else if y.len() < x.len() {
        assert(w[y.len() as int] == c);
        assert(x[y.len() as int] == w[y.len() as int]);
    }
    assert(x =~= w.take(x.len() as int));
    assert(y =~= w.take(x.len() as int));
    assert(a =~= w.skip(x.len() + 1int));
    assert(b =~= w.skip(x.len() + 1int));
}

pub open spec fn plain_params(ps: Seq<(Seq<char>, Seq<char>)>) -> bool {
    forall|i: int|
        0 <= i < ps.len() ==> no_char(#[trigger] ps[i].0, ',') && no_char(ps[i].0, '=') && no_char(ps[i].1, ',')
}

proof fn lemma_params_commas(ps: Seq<(Seq<char>, Seq<char>)>)
    requires
        plain_params(ps),
    ensures
        ps.len() <= 1 ==> no_char(params_text(ps, ","@), ','),
        ps.len() >= 1 ==> params_text(ps, ","@).len() > 0,
        ps.len() >= 2 ==> params_text(ps, ","@) == params_text(ps.drop_last(), ","@) + seq![','] + (ps.last().0
            + seq!['='] + ps.last().1),
    decreases ps.len(),
{
    reveal_strlit("=");
    reveal_strlit(",");
    if ps.len() == 1 {
        let t = params_text(ps, ","@);
        assert(t == ps[0].0 + "="@ + ps[0].1);
        assert forall|i: int| 0 <= i < t.len() implies t[i] != ',' by {
            if i < ps[0].0.len() {
                assert(t[i] == ps[0].0[i]);
            } else if i > ps[0].0.len() {
                assert(t[i] == ps[0].1[i - ps[0].0.len() - 1]);
            }
        }
    } else if ps.len() >= 2 {
        assert(params_text(ps, ","@) =~= params_text(ps.drop_last(), ","@) + seq![','] + (ps.last().0 + seq!['=']
            + ps.last().1));
    }
}

proof fn lemma_pair_no_comma(k: Seq<char>, v: Seq<char>)
    requires
        no_char(k, ','),
        no_char(v, ','),
    ensures
        no_char(k + seq!['='] + v, ','),
{
    let t = k + seq!['='] + v;
    assert forall|i: int| 0 <= i < t.len() implies t[i] != ',' by {
        if i < k.len() {
            assert(t[i] == k[i]);
        } else if i > k.len() {
            assert(t[i] == v[i - k.len() - 1]);
        }
    }
}

/// The parameter text names the parameters: plain parameter lists with the
/// same text are the same list.
pub proof fn lemma_params_text_injective(p: Seq<(Seq<char>, Seq<char>)>, q: Seq<(Seq<char>, Seq<char>)>)
    requires
        plain_params(p),
        plain_params(q),
        params_text(p, ","@) == params_text(q, ","@),
    ensures
        p == q,
    decreases p.len() + q.len(),
{
    reveal_strlit("=");
    reveal_strlit(",");
    lemma_params_commas(p);
    lemma_params_commas(q);
    let t = params_text(p, ","@);
    if p.len() == 0 || q.len() == 0 {
        assert(p.len() == 0 && q.len() == 0);
        assert(p =~= q);
    } else if p.len() == 1 && q.len() == 1 {
        assert(t == p[0].0 + seq!['='] + p[0].1);
        assert(t == q[0].0 + seq!['='] + q[0].1);
        lemma_split_first(p[0].0, p[0].1, q[0].0, q[0].1, '=');
        assert(p =~= q);
    } else if p.len() == 1 {
        let sq = q.last().0 + seq!['='] + q.last().1;
        let w = params_text(q.drop_last(), ","@);
        assert(t == w + seq![','] + sq);
        assert(t[w.len() as int] == ',');
    } else if q.len() == 1 {
        let sp = p.last().0 + seq!['='] + p.last().1;
        let w = params_text(p.drop_last(), ","@);
        assert(t == w + seq![','] + sp);
        assert(t[w.len() as int] == ',');
    } else {
        let sp = p.last().0 + seq!['='] + p.last().1;
        let sq = q.last().0 + seq!['='] + q.last().1;
        assert(p[p.len() - 1] == p.last());
        assert(q[q.len() - 1] == q.last());
        lemma_pair_no_comma(p.last().0, p.last().1);
        lemma_pair_no_comma(q.last().0, q.last().1);
        lemma_split_last(params_text(p.drop_last(), ","@), sp, params_text(q.drop_last(), ","@), sq, ',');
        lemma_split_first(p.last().0, p.last().1, q.last().0, q.last().1, '=');
        assert(plain_params(p.drop_last())) by {
            assert forall|i: int| 0 <= i < p.drop_last().len() implies no_char(#[trigger] p.drop_last()[i].0, ',')
                && no_char(p.drop_last()[i].0, '=') && no_char(p.drop_last()[i].1, ',') by {
                assert(p.drop_last()[i] == p[i]);
            }
        }
        assert(plain_params(q.drop_last())) by {
            assert forall|i: int| 0 <= i < q.drop_last().len() implies no_char(#[trigger] q.drop_last()[i].0, ',')
                && no_char(q.drop_last()[i].0, '=') && no_char(q.drop_last()[i].1, ',') by {
                assert(q.drop_last()[i] == q[i]);
            }
        }
        lemma_params_text_injective(p.drop_last(), q.drop_last());
        assert(p =~= q.drop_last().push(q.last()));
        assert(q =~= q.drop_last().push(q.last()));
    }
}

/// The parity key tells plain markers apart by host, stereotype and
/// parameters: two with the same key agree on all three.
pub proof fn lemma_parity_key_injective(m1: SummaryV, m2: SummaryV)
    requires
        plain_marker(m1),
        plain_marker(m2),
        summary_key(m1) == summary_key(m2),
    ensures
        m1.0 == m2.0,
        m1.1 == m2.1,
        m1.2 == m2.2,
{
    reveal_strlit("|");
    let r1 = m1.1 + seq!['|'] + params_text(m1.2, ","@);
    let r2 = m2.1 + seq!['|'] + params_text(m2.2, ","@);
    assert(summary_key(m1) =~= m1.0 + seq!['|'] + r1);
    assert(summary_key(m2) =~= m2.0 + seq!['|'] + r2);
    lemma_split_first(m1.0, r1, m2.0, r2, '|');
    lemma_split_first(m1.1, params_text(m1.2, ","@), m2.1, params_text(m2.2, ","@), '|');
    assert(plain_params(m1.2));
    assert(plain_params(m2.2));
    lemma_params_text_injective(m1.2, m2.2);
}

proof fn lemma_first_keyed_member(ss: Seq<SummaryV>, k: Seq<char>)
    ensures
        first_keyed(ss, k) matches Some(x) ==> summary_key(x) == k && ss.contains(x),
    decreases ss.len(),
{
    if ss.len() > 0 && summary_key(ss[0]) != k {
        lemma_first_keyed_member(ss.drop_first(), k);
        if first_keyed(ss, k) is Some {
            let x = first_keyed(ss, k)->0;
            let j = choose|j: int| 0 <= j < ss.drop_first().len() && ss.drop_first()[j] == x;
            assert(ss[j + 1] == x);
        }
    }
}

/// A marker of `a` that no marker of `b` repeats in host, stereotype and
/// parameters is unmatched: the unmatched markers hold one with its host,
/// stereotype and parameters. So an objective `@sec` marker whose guard
/// differs from every current one keeps the security pass from matching.
pub proof fn lemma_unrepeated_marker_unmatched(a: Seq<SummaryV>, b: Seq<SummaryV>, i: int)
    requires
        0 <= i < a.len(),
        forall|j: int| 0 <= j < a.len() ==> plain_marker(#[trigger] a[j]),
        forall|j: int| 0 <= j < b.len() ==> plain_marker(#[trigger] b[j]),
        forall|j: int|
            0 <= j < b.len() ==> !((#[trigger] b[j]).0 == a[i].0 && b[j].1 == a[i].1 && b[j].2 == a[i].2),
    ensures
        unmatched(a, b).len() > 0,
        exists|u: int|
            0 <= u < unmatched(a, b).len() && (#[trigger] unmatched(a, b)[u]).0 == a[i].0 && unmatched(a, b)[u].1
                == a[i].1 && unmatched(a, b)[u].2 == a[i].2,
{
    let k = summary_key(a[i]);
    let ka = a.map_values(|s: SummaryV| summary_key(s));
    let kb = b.map_values(|s: SummaryV| summary_key(s));
    assert(ka[i] == k);
    assert(key_set(a).contains(k));
    assert(!key_set(b).contains(k)) by {
        if key_set(b).contains(k) {
            let j = choose|j: int| 0 <= j < kb.len() && kb[j] == k;
            lemma_parity_key_injective(b[j], a[i]);
        }
    }
    let d = key_set(a).difference(key_set(b));
    let f = ka.filter(|x: Seq<char>| !key_set(b).contains(x));
    assert(f.to_set() =~= d) by {
        assert forall|x: Seq<char>| f.to_set().contains(x) <==> d.contains(x) by {
            if f.contains(x) {
                let j = choose|j: int| 0 <= j < f.len() && f[j] == x;
                ka.lemma_filter_pred(|x: Seq<char>| !key_set(b).contains(x), j);
                ka.lemma_filter_contains_rev(|x: Seq<char>| !key_set(b).contains(x), x);
            }
            if d.contains(x) {
                let j = choose|j: int| 0 <= j < ka.len() && ka[j] == x;
                ka.lemma_filter_contains(|x: Seq<char>| !key_set(b).contains(x), j);
            }
        }
    }
    let q = crate::order::sorted_listing(f);
    let so = sorted_of(d);
    assert(strictly_sorted(so) && so.to_set() == d);
    assert(d.contains(k));
    let u = choose|u: int| 0 <= u < so.len() && so[u] == k;
    let un = unmatched(a, b);
    assert(un.len() == so.len());
    lemma_first_keyed_some(a, k, i);
    lemma_first_keyed_member(a, k);
    let x = first_keyed(a, k).unwrap();
    assert(un[u] == x);
    let m = choose|m: int| 0 <= m < a.len() && a[m] == x;
    lemma_parity_key_injective(a[m], a[i]);
}

/// Security parity compares markers by host, stereotype and parameters
/// alone: when every marker of `a` has one in `b` with the same three,
/// none of `a` is unmatched, whatever their ids and files.
pub proof fn lemma_security_parity_by_body(a: Seq<SummaryV>, b: Seq<SummaryV>)
    requires
        forall|i: int| 0 <= i < a.len() ==> exists|j: int| 0 <= j < b.len() && (#[trigger] b[j]).0 == (#[trigger] a[i]).0
            && b[j].1 == a[i].1 && b[j].2 == a[i].2,
    ensures
        unmatched(a, b).len() == 0,
{
    assert(key_set(a).difference(key_set(b)) =~= Set::<Seq<char>>::empty()) by {
        assert forall|k: Seq<char>| !#[trigger] key_set(a).difference(key_set(b)).contains(k) by {
            let ka = a.map_values(|s: SummaryV| summary_key(s));
            if key_set(a).contains(k) {
                assert(ka.contains(k));
                let i = choose|i: int| 0 <= i < ka.len() && #[trigger] ka[i] == k;
                let j = choose|j: int| 0 <= j < b.len() && (#[trigger] b[j]).0 == (#[trigger] a[i]).0 && b[j].1 == a[i].1
                    && b[j].2 == a[i].2;
                assert(b.map_values(|s: SummaryV| summary_key(s))[j] == k);
            }
        }
    }
    let e = Seq::<Seq<char>>::empty();
    crate::cycle::lemma_sorted_of(e);
    assert(e.to_set() =~= Set::<Seq<char>>::empty());
}

proof fn lemma_first_keyed_some(ss: Seq<SummaryV>, k: Seq<char>, i: int)
    requires
        0 <= i < ss.len(),
        summary_key(ss[i]) == k,
    ensures
        first_keyed(ss, k) is Some,
    decreases i,
{
    if summary_key(ss[0]) != k {
        lemma_first_keyed_some(ss.drop_first(), k, i - 1);
    }
}

fn file_summaries_exec(markers: &Vec<SecMarker>, file: &String, scope: &Vec<String>, out: &mut Vec<MarkerSummary>)
    ensures
        summaries_view(final(out)@) == summaries_view(old(out)@) + file_summaries(
            markers_view(markers@),
            file@,
            strs(scope@),
        ),
{
    let ghost mv = markers_view(markers@);
    let ghost o0 = summaries_view(out@);
    let mut i: usize = 0;
    assert(mv.take(0) =~= Seq::<MarkerV>::empty());
    assert(o0 + Seq::<SummaryV>::empty() =~= o0);
    while i < markers.len()
        invariant
            i <= markers.len(),
            mv == markers_view(markers@),
            summaries_view(out@) == o0 + file_summaries(mv.take(i as int), file@, strs(scope@)),
        decreases markers.len() - i,
    {
        proof {
            assert(mv.take(i + 1).drop_last() == mv.take(i as int));
            assert(mv.take(i + 1).last() == markers@[i as int]@);
        }
        let m = &markers[i];
        if !m.stereotype.as_str().is_empty() && !m.host.as_str().is_empty() && (scope.len() == 0 || sorted_contains(
            scope,
            m.host.as_str(),
        )) {
            let sm = MarkerSummary {
                host: m.host.clone(),
                stereotype: m.stereotype.clone(),
                params: copy_params(&m.params),
                id: crate::model::clone_opt(&m.id),
                file: file.clone(),
            };
            let ghost before = summaries_view(out@);
            out.push(sm);
            assert(summaries_view(out@) =~= before.push(summary_view(sm)));
        }
        i = i + 1;
    }
    assert(mv.take(markers.len() as int) == mv);
}

fn side_summaries_exec(files: &Vec<ModelFile>, contents: &Vec<String>, scope: &Vec<String>, side: ModelSide) -> (r: Vec<MarkerSummary>)
    requires
        contents@.len() == files@.len(),
    ensures
        summaries_view(r@) == side_summaries(mfiles_view(files@), strs(contents@), strs(scope@), side),
{
    let ghost fs = mfiles_view(files@);
    let mut out: Vec<MarkerSummary> = Vec::new();
    let mut i: usize = 0;
    assert(summaries_view(out@) =~= Seq::<SummaryV>::empty());
    while i < files.len()
        invariant
            i <= files.len(),
            contents@.len() == files@.len(),
            fs == mfiles_view(files@),
            summaries_view(out@) == side_summaries(fs.take(i as int), strs(contents@), strs(scope@), side),
        decreases files.len() - i,
    {
        proof {
            assert(fs.take(i + 1).drop_last() == fs.take(i as int));
            assert(fs.take(i + 1).last() == fs[i as int]);
        }
        if files[i].kind != ModelKind::Constraint && files[i].side == side {
            let markers = extract_sec_markers(contents[i].as_str());
            file_summaries_exec(&markers, &files[i].path, scope, &mut out);
        } else {
            assert(side_summaries(fs.take(i + 1), strs(contents@), strs(scope@), side) == side_summaries(
                fs.take(i as int),
                strs(contents@),
                strs(scope@),
                side,
            ));
        }
        i = i + 1;
    }
    assert(fs.take(files.len() as int) == fs);
    out
}

fn key_list(ss: &Vec<MarkerSummary>) -> (r: Vec<String>)
    ensures
        strictly_sorted(strs(r@)),
        strs(r@).to_set() == key_set(summaries_view(ss@)),
{
    let ghost ks = summaries_view(ss@).map_values(|s: SummaryV| summary_key(s));
    let mut r: Vec<String> = Vec::new();
    let mut i: usize = 0;
    assert(strs(r@).to_set() =~= ks.take(0).to_set());
    while i < ss.len()
        invariant
            i <= ss.len(),
            ks == summaries_view(ss@).map_values(|s: SummaryV| summary_key(s)),
            strictly_sorted(strs(r@)),
            strs(r@).to_set() == ks.take(i as int).to_set(),
        decreases ss.len() - i,
    {
        let k = parity_key(&ss[i]);
        insert_sorted(&mut r, k);
        proof {
            assert(ks.take(i + 1) =~= ks.take(i as int).push(ks[i as int]));
            ks.take(i as int).lemma_push_to_set_commute(ks[i as int]);
        }
        i = i + 1;
    }
    assert(ks.take(ss.len() as int) == ks);
    r
}

fn first_keyed_exec(ss: &Vec<MarkerSummary>, k: &str) -> (r: Option<usize>)
    ensures
        match first_keyed(summaries_view(ss@), k@) {
            Some(s) => r is Some && r.unwrap() < ss@.len() && summary_view(ss@[r.unwrap() as int]) == s,
            None => r is None,
        },
{
    let ghost sv = summaries_view(ss@);
    let mut i: usize = 0;
    assert(sv.skip(0) == sv);
    while i < ss.len()
        invariant
            i <= ss.len(),
            sv == summaries_view(ss@),
            first_keyed(sv, k@) == first_keyed(sv.skip(i as int), k@),
        decreases ss.len() - i,
    {
        let ghost t = sv.skip(i as int);
        assert(t[0] == sv[i as int]);
        assert(t.drop_first() == sv.skip(i + 1));
        let key = parity_key(&ss[i]);
        if str_eq(key.as_str(), k) {
            return Some(i);
        }
        i = i + 1;
    }
    None
}

fn unmatched_exec(a: &Vec<MarkerSummary>, b: &Vec<MarkerSummary>) -> (r: Vec<MarkerSummary>)
    ensures
        summaries_view(r@) == unmatched(summaries_view(a@), summaries_view(b@)),
{
    let ka = key_list(a);
    let kb = key_list(b);
    let ks = filter_by_membership(&ka, &kb, false);
    let ghost av = summaries_view(a@);
    let ghost target = key_set(av).difference(key_set(summaries_view(b@)));
    proof {
        assert(strs(ks@).to_set() =~= target);
        lemma_sorted_of(strs(ks@));
    }
    let ghost want = unmatched(av, summaries_view(b@));
    let mut r: Vec<MarkerSummary> = Vec::new();
    let mut i: usize = 0;
    while i < ks.len()
        invariant
            i <= ks.len(),
            av == summaries_view(a@),
            strs(ks@) == sorted_of(target),
            target == key_set(av).difference(key_set(summaries_view(b@))),
            strs(ks@).to_set() == target,
            want == unmatched(av, summaries_view(b@)),
            want.len() == ks@.len(),
            summaries_view(r@) == want.take(i as int),
        decreases ks.len() - i,
    {
        let ghost k = strs(ks@)[i as int];
        proof {
            assert(strs(ks@).to_set().contains(k));
            assert(key_set(av).contains(k));
            let ksa = av.map_values(|s: SummaryV| summary_key(s));
            let j = choose|j: int| 0 <= j < ksa.len() && ksa[j] == k;
            lemma_first_keyed_some(av, k, j);
        }
        let idx = first_keyed_exec(a, ks[i].as_str());
        let j = idx.unwrap();
        let c = copy_summary(&a[j]);
        let ghost r0 = summaries_view(r@);
        assert(ks@[i as int]@ == k);
        assert(want[i as int] == first_keyed(av, k).unwrap());
        assert(summary_view(c) == want[i as int]);
        r.push(c);
        assert(summaries_view(r@) =~= r0.push(want[i as int]));
        assert(want.take(i + 1) =~= want.take(i as int).push(want[i as int]));
        i = i + 1;
    }
    assert(want.take(ks.len() as int) =~= want);
    r
}

/// The first file entry with the path.
pub open spec fn first_path(files: Seq<FileV>, p: Seq<char>, i: int) -> Option<int>
    decreases files.len() - i,
{
    if i < 0 || i >= files.len() {
        None
    } else if files[i].0 == p {
        Some(i)
    } else {
        first_path(files, p, i + 1)
    }
}

/// The content of the file with the path (empty when no file has it).
pub open spec fn content_at(files: Seq<FileV>, contents: Seq<Seq<char>>, p: Seq<char>) -> Seq<char> {
    match first_path(files, p, 0) {
        Some(j) => contents[j],
        None => seq![],
    }
}

fn content_for(files: &Vec<ModelFile>, contents: &Vec<String>, p: &str) -> (r: String)
    requires
        contents@.len() == files@.len(),
    ensures
        r@ == content_at(mfiles_view(files@), strs(contents@), p@),
{
    let ghost fs = mfiles_view(files@);
    let mut i: usize = 0;
    while i < files.len()
        invariant
            i <= files.len(),
            contents@.len() == files@.len(),
            fs == mfiles_view(files@),
            first_path(fs, p@, 0) == first_path(fs, p@, i as int),
        decreases files.len() - i,
    {
        if str_eq(files[i].path.as_str(), p) {
            return contents[i].clone();
        }
        i = i + 1;
    }
    String::new()
}

/// The files that hold a missing marker, sorted.
pub open spec fn marker_files(ms: Seq<SummaryV>) -> Seq<Seq<char>> {
    sorted_of(ms.map_values(|m: SummaryV| m.4).to_set())
}

/// The markers of one file, in order.
pub open spec fn markers_in(ms: Seq<SummaryV>, p: Seq<char>) -> Seq<SummaryV> {
    ms.filter(|m: SummaryV| m.4 == p)
}

/// The security review diffs: for each file holding a missing marker (by
/// path), its path under `.mdd/rendered/review/` and its content with the
/// note of its missing markers.
pub open spec fn security_diffs(ms: Seq<SummaryV>, files: Seq<FileV>, contents: Seq<Seq<char>>) -> Seq<(Seq<char>, Seq<char>)> {
    marker_files(ms).map_values(
        |p: Seq<char>|
            (
                review_diff_rel(p, ".security.diff.puml"@),
                security_diff_spec(content_at(files, contents, p), markers_in(ms, p)),
            ),
    )
}

fn markers_in_exec(ms: &Vec<MarkerSummary>, p: &str) -> (r: Vec<MarkerSummary>)
    ensures
        summaries_view(r@) == markers_in(summaries_view(ms@), p@),
{
    let ghost mv = summaries_view(ms@);
    let ghost pred = |m: SummaryV| m.4 == p@;
    let mut r: Vec<MarkerSummary> = Vec::new();
    let mut i: usize = 0;
    assert(mv.take(0).filter(pred) =~= Seq::<SummaryV>::empty()) by {
        reveal(Seq::filter);
    }
    assert(summaries_view(r@) =~= Seq::<SummaryV>::empty());
    while i < ms.len()
        invariant
            i <= ms.len(),
            mv == summaries_view(ms@),
            pred == (|m: SummaryV| m.4 == p@),
            summaries_view(r@) == mv.take(i as int).filter(pred),
        decreases ms.len() - i,
    {
        proof {
            assert(mv.take(i + 1) == mv.take(i as int).push(mv[i as int]));
            mv.take(i as int).lemma_filter_push(mv[i as int], pred);
        }
        if str_eq(ms[i].file.as_str(), p) {
            let c = copy_summary(&ms[i]);
            let ghost r0 = summaries_view(r@);
            r.push(c);
            assert(summaries_view(r@) =~= r0.push(mv[i as int]));
        }
        i = i + 1;
    }
    assert(mv.take(ms.len() as int) == mv);
    r
}

fn security_diff_files(ms: &Vec<MarkerSummary>, files: &Vec<ModelFile>, contents: &Vec<String>) -> (r: Vec<(String, String)>)
    requires
        contents@.len() == files@.len(),
    ensures
        pairs_view(r@) == security_diffs(summaries_view(ms@), mfiles_view(files@), strs(contents@)),
{
    let ghost mv = summaries_view(ms@);
    let ghost fl = mv.map_values(|m: SummaryV| m.4);
    let mut paths: Vec<String> = Vec::new();
    let mut i: usize = 0;
    assert(strs(paths@).to_set() =~= fl.take(0).to_set());
    while i < ms.len()
        invariant
            i <= ms.len(),
            mv == summaries_view(ms@),
            fl == mv.map_values(|m: SummaryV| m.4),
            strictly_sorted(strs(paths@)),
            strs(paths@).to_set() == fl.take(i as int).to_set(),
        decreases ms.len() - i,
    {
        insert_sorted(&mut paths, ms[i].file.clone());
        proof {
            assert(fl.take(i + 1) =~= fl.take(i as int).push(fl[i as int]));
            fl.take(i as int).lemma_push_to_set_commute(fl[i as int]);
        }
        i = i + 1;
    }
    proof {
        assert(fl.take(ms.len() as int) == fl);
        lemma_sorted_of(strs(paths@));
    }
    let ghost want = security_diffs(mv, mfiles_view(files@), strs(contents@));
    let mut r: Vec<(String, String)> = Vec::new();
    let mut j: usize = 0;
    while j < paths.len()
        invariant
            j <= paths.len(),
            contents@.len() == files@.len(),
            mv == summaries_view(ms@),
            strs(paths@) == marker_files(mv),
            want == security_diffs(mv, mfiles_view(files@), strs(contents@)),
            want.len() == paths@.len(),
            pairs_view(r@) == want.take(j as int),
        decreases paths.len() - j,
    {
        let p = paths[j].as_str();
        let mine = markers_in_exec(ms, p);
        let content = content_for(files, contents, p);
        let rel = review_diff_rel_exec(p, ".security.diff.puml");
        let body = annotate_security_diff_puml(content.as_str(), &mine);
        let ghost r0 = pairs_view(r@);
        let ghost pv = strs(paths@)[j as int];
        assert(paths@[j as int]@ == pv);
        assert(want[j as int] == (
            review_diff_rel(pv, ".security.diff.puml"@),
            security_diff_spec(content_at(mfiles_view(files@), strs(contents@), pv), markers_in(mv, pv)),
        ));
        r.push((rel, body));
        assert(pairs_view(r@) =~= r0.push(want[j as int]));
        assert(want.take(j + 1) =~= want.take(j as int).push(want[j as int]));
        j = j + 1;
    }
    assert(want.take(paths.len() as int) =~= want);
    r
}

impl Project {
    /// Security-marker parity between the current and the objective
    /// diagrams, narrowed to markers hosted on the scope's ids when the
    /// scope is not empty: the objective markers that current lacks
    /// (compared by host, stereotype and parameters), the current ones that
    /// objective lacks, and, when some are missing, for each objective file
    /// holding one the review diff to write (path and content). `contents`
    /// holds the text of each registry file, in registry order.
    pub fn review_security_scoped(
        &self,
        registry: &ModelRegistry,
        contents: &Vec<String>,
        scope: &Vec<String>,
        mode: ParityMode,
    ) -> (r: (SecurityReviewReport, Vec<(String, String)>))
        requires
            contents@.len() == registry.files@.len(),
        ensures
            summaries_view(r.0.missing_markers@) == unmatched(
                side_summaries(mfiles_view(registry.files@), strs(contents@), strs(scope@), ModelSide::Objective),
                side_summaries(mfiles_view(registry.files@), strs(contents@), strs(scope@), ModelSide::Current),
            ),
            summaries_view(r.0.extra_markers@) == unmatched(
                side_summaries(mfiles_view(registry.files@), strs(contents@), strs(scope@), ModelSide::Current),
                side_summaries(mfiles_view(registry.files@), strs(contents@), strs(scope@), ModelSide::Objective),
            ),
            r.0.matched == (r.0.missing_markers@.len() == 0),
            r.0.mode == mode,
            pairs_view(r.1@) == (if r.0.matched {
                Seq::<(Seq<char>, Seq<char>)>::empty()
            } else {
                security_diffs(summaries_view(r.0.missing_markers@), mfiles_view(registry.files@), strs(contents@))
            }),
            strs(r.0.diff_puml_paths@) == pairs_view(r.1@).map_values(|d: (Seq<char>, Seq<char>)| d.0),
    {
        let obj = side_summaries_exec(&registry.files, contents, scope, ModelSide::Objective);
        let cur = side_summaries_exec(&registry.files, contents, scope, ModelSide::Current);
        let missing = unmatched_exec(&obj, &cur);
        let extra = unmatched_exec(&cur, &obj);
        let matched = missing.len() == 0;
        let diffs = if matched {
            let d: Vec<(String, String)> = Vec::new();
            assert(pairs_view(d@) =~= Seq::<(Seq<char>, Seq<char>)>::empty());
            d
        } else {
            security_diff_files(&missing, &registry.files, contents)
        };
        let paths = first_of_pairs(&diffs);
        (
            SecurityReviewReport { matched, mode, missing_markers: missing, extra_markers: extra, diff_puml_paths: paths },
            diffs,
        )
    }

    /// Security-marker parity over the whole model (an empty scope).
    pub fn review_security(&self, registry: &ModelRegistry, contents: &Vec<String>, mode: ParityMode) -> (r: (
        SecurityReviewReport,
        Vec<(String, String)>,
    ))
        requires
            contents@.len() == registry.files@.len(),
        ensures
            summaries_view(r.0.missing_markers@) == unmatched(
                side_summaries(mfiles_view(registry.files@), strs(contents@), seq![], ModelSide::Objective),
                side_summaries(mfiles_view(registry.files@), strs(contents@), seq![], ModelSide::Current),
            ),
            summaries_view(r.0.extra_markers@) == unmatched(
                side_summaries(mfiles_view(registry.files@), strs(contents@), seq![], ModelSide::Current),
                side_summaries(mfiles_view(registry.files@), strs(contents@), seq![], ModelSide::Objective),
            ),
            r.0.matched == (r.0.missing_markers@.len() == 0),
            r.0.mode == mode,
            pairs_view(r.1@) == (if r.0.matched {
                Seq::<(Seq<char>, Seq<char>)>::empty()
            } else {
                security_diffs(summaries_view(r.0.missing_markers@), mfiles_view(registry.files@), strs(contents@))
            }),
            strs(r.0.diff_puml_paths@) == pairs_view(r.1@).map_values(|d: (Seq<char>, Seq<char>)| d.0),
    {
        let none: Vec<String> = Vec::new();
        assert(strs(none@) =~= Seq::<Seq<char>>::empty());
        self.review_security_scoped(registry, contents, &none, mode)
    }
}

/// The first component of each pair, in order.
fn first_of_pairs(v: &Vec<(String, String)>) -> (r: Vec<String>)
    ensures
        strs(r@) == pairs_view(v@).map_values(|d: (Seq<char>, Seq<char>)| d.0),
{
    let ghost want = pairs_view(v@).map_values(|d: (Seq<char>, Seq<char>)| d.0);
    let mut r: Vec<String> = Vec::new();
    let mut i: usize = 0;
    while i < v.len()
        invariant
            i <= v.len(),
            want == pairs_view(v@).map_values(|d: (Seq<char>, Seq<char>)| d.0),
            strs(r@) == want.take(i as int),
        decreases v.len() - i,
    {
        let p = v[i].0.clone();
        let ghost r0 = strs(r@);
        r.push(p);
        assert(strs(r@) =~= r0.push(want[i as int]));
        assert(want.take(i + 1) =~= want.take(i as int).push(want[i as int]));
        i = i + 1;
    }
    assert(want.take(v.len() as int) =~= want);
    r
}

// ---------------------------------------------------------------------------
// Traceability parity

pub type LinkV = (Seq<char>, Seq<char>, Option<Seq<char>>);

pub open spec fn slinks_view(v: Seq<SourceLink>) -> Seq<LinkV> {
    v.map_values(|l: SourceLink| (l.model_id@, l.path@, opt_view(l.symbol)))
}

/// Why a source link does not resolve, if it does not: its file is
/// missing, or it names a symbol in a `.rs` file that could not be read
/// (`symbols` is `None`) or whose symbol index has no matching symbol.
pub open spec fn link_problem(link: LinkV, exists: bool, symbols: Option<Seq<SymbolSpan>>) -> Option<Seq<char>> {
    if !exists {
        Some("source_link for "@ + link.0 + " points at missing file "@ + link.1)
    } else {
        match link.2 {
            None => None,
            Some(sym) => if ends_with(link.1, ".rs"@) {
                match symbols {
                    None => Some("source_link for "@ + link.0 + " could not read "@ + link.1),
                    Some(ss) => if exists|k: int| 0 <= k < ss.len() && symbols_match(#[trigger] ss[k].symbol@, sym) {
                        None
                    } else {
                        Some(
                            "source_link for "@ + link.0 + " points at symbol `"@ + sym + "` not found in "@
                                + link.1,
                        )
                    },
                }
            } else {
                None
            },
        }
    }
}

fn any_symbol_matches(ss: &Vec<SymbolSpan>, sym: &str) -> (b: bool)
    ensures
        b == exists|k: int| 0 <= k < ss@.len() && symbols_match(#[trigger] ss@[k].symbol@, sym@),
{
    let mut i: usize = 0;
    while i < ss.len()
        invariant
            i <= ss.len(),
            forall|k: int| 0 <= k < i ==> !symbols_match(#[trigger] ss@[k].symbol@, sym@),
        decreases ss.len() - i,
    {
        if symbol_matches(ss[i].symbol.as_str(), sym) {
            return true;
        }
        i = i + 1;
    }
    false
}

impl Project {
    /// Resolve a source link against the working tree: whether its file
    /// exists, and the symbol index of that file (`None` when it could not
    /// be read; consulted only for a `.rs` file and a named symbol). Gives
    /// the error of a broken link, `None` for a link that resolves.
    pub fn resolve_source_link(&self, link: &SourceLink, exists: bool, symbols: Option<&Vec<SymbolSpan>>) -> (r:
        Option<String>)
        ensures
            opt_view(r) == link_problem(
                (link.model_id@, link.path@, opt_view(link.symbol)),
                exists,
                match symbols {
                    Some(ss) => Some(ss@),
                    None => None,
                },
            ),
    {
        if !exists {
            let mut m = cat3("source_link for ", link.model_id.as_str(), " points at missing file ");
            push_str(&mut m, link.path.as_str());
            return Some(m);
        }
        let ghost lk = (link.model_id@, link.path@, opt_view(link.symbol));
        match &link.symbol {
            None => {
                assert(lk.2 is None);
                None
            },
            Some(sym) => {
                assert(lk.2 == Some(sym@));
                if !str_ends_with(link.path.as_str(), ".rs") {
                    assert(link_problem(lk, exists, match symbols {
                        Some(ss) => Some(ss@),
                        None => None,
                    }) is None);
                    return None;
                }
                let ghost sv: Option<Seq<SymbolSpan>> = match symbols {
                    Some(ss) => Some(ss@),
                    None => None,
                };
                match symbols {
                    None => {
                        let mut m = cat3("source_link for ", link.model_id.as_str(), " could not read ");
                        push_str(&mut m, link.path.as_str());
                        assert(sv is None);
                        assert(m@ == link_problem(lk, exists, sv).unwrap());
                        Some(m)
                    },
                    Some(ss) => {
                        assert(sv == Some(ss@));
                        if any_symbol_matches(ss, sym.as_str()) {
                            proof {
                                let k = choose|k: int| 0 <= k < ss@.len() && symbols_match(#[trigger] ss@[k].symbol@, sym@);
                                let q = sv.unwrap();
                                assert(q[k].symbol@ == ss@[k].symbol@);
                                assert(0 <= k < q.len() && symbols_match(q[k].symbol@, lk.2.unwrap()));
                            }
                            assert(link_problem(lk, exists, sv) is None);
                            None
                        } else {
                            let mut m = cat3("source_link for ", link.model_id.as_str(), " points at symbol `");
                            push_str(&mut m, sym.as_str());
                            push_str(&mut m, "` not found in ");
                            push_str(&mut m, link.path.as_str());
                            Some(m)
                        }
                    },
                }
            },
        }
    }
}

/// The `@id` prefixes whose source links the forward pass resolves.
pub open spec fn implementable(id: Seq<char>) -> bool {
    starts_with(id, "CMP-"@) || starts_with(id, "SEQ-"@) || starts_with(id, "DOM-"@) || starts_with(id, "STM-"@)
}

fn is_implementable(id: &str) -> (b: bool)
    ensures
        b == implementable(id@),
{
    str_starts_with(id, "CMP-") || str_starts_with(id, "SEQ-") || str_starts_with(id, "DOM-") || str_starts_with(
        id,
        "STM-",
    )
}

pub type ForwardV = (Seq<char>, Seq<char>, Seq<char>);

pub open spec fn forward_view(v: Seq<ForwardError>) -> Seq<ForwardV> {
    v.map_values(|e: ForwardError| (e.model_id@, e.path@, e.symbol@))
}

pub open spec fn unwrap_or_empty(o: Option<Seq<char>>) -> Seq<char> {
    match o {
        Some(s) => s,
        None => seq![],
    }
}

/// The broken links of one element, in link order.
pub open spec fn element_forward(id: Seq<char>, links: Seq<LinkV>, broken: Seq<bool>) -> Seq<ForwardV>
    decreases links.len(),
{
    if links.len() == 0 {
        seq![]
    } else {
        let prev = element_forward(id, links.drop_last(), broken);
        let l = links.last();
        if l.0 == id && broken[links.len() - 1] {
            prev.push((id, l.1, unwrap_or_empty(l.2)))
        } else {
            prev
        }
    }
}

/// The forward errors: for each implementable current element (registry
/// order), its broken links (link order).
pub open spec fn forward_errors(es: Seq<ElemV>, links: Seq<LinkV>, broken: Seq<bool>) -> Seq<ForwardV>
    decreases es.len(),
{
    if es.len() == 0 {
        seq![]
    } else {
        let e = es.last();
        forward_errors(es.drop_last(), links, broken) + (if e.3 == ModelSide::Current && implementable(e.0) {
            element_forward(e.0, links, broken)
        } else {
            seq![]
        })
    }
}

/// A link covers a changed symbol: same file, and no symbol or a matching one.
pub open spec fn covers(l: LinkV, sym: SymbolSpan) -> bool {
    l.1 == sym.path@ && match l.2 {
        Some(s) => symbols_match(sym.symbol@, s),
        None => true,
    }
}

pub open spec fn covered(links: Seq<LinkV>, sym: SymbolSpan) -> bool {
    exists|k: int| 0 <= k < links.len() && covers(#[trigger] links[k], sym)
}

pub type ViolationV = (Seq<char>, Seq<char>, Seq<char>);

pub open spec fn violations_view(v: Seq<ReverseViolation>) -> Seq<ViolationV> {
    v.map_values(|x: ReverseViolation| (x.path@, x.symbol@, x.kind@))
}

/// Uncovered behaviour-bearing changed symbols (they block).
pub open spec fn bucket_b(syms: Seq<SymbolSpan>, links: Seq<LinkV>) -> Seq<ViolationV>
    decreases syms.len(),
{
    if syms.len() == 0 {
        seq![]
    } else {
        let prev = bucket_b(syms.drop_last(), links);
        let s = syms.last();
        if !covered(links, s) && behaviour_kind(s.kind@) {
            prev.push((s.path@, s.symbol@, s.kind@))
        } else {
            prev
        }
    }
}

/// Uncovered other changed symbols, as `path (kind symbol)` (they warn).
pub open spec fn bucket_a_symbols(syms: Seq<SymbolSpan>, links: Seq<LinkV>) -> Set<Seq<char>>
    decreases syms.len(),
{
    if syms.len() == 0 {
        Set::empty()
    } else {
        let prev = bucket_a_symbols(syms.drop_last(), links);
        let s = syms.last();
        if !covered(links, s) && !behaviour_kind(s.kind@) {
            prev.insert(s.path@ + " ("@ + s.kind@ + " "@ + s.symbol@ + ")"@)
        } else {
            prev
        }
    }
}

/// Changed glue, as `path [label]` (it warns).
pub open spec fn bucket_a_glue(glue: Seq<GlueChange>) -> Set<Seq<char>>
    decreases glue.len(),
{
    if glue.len() == 0 {
        Set::empty()
    } else {
        let g = glue.last();
        bucket_a_glue(glue.drop_last()).insert(g.path@ + " ["@ + g.label@ + "]"@)
    }
}

fn is_covered(links: &Vec<SourceLink>, sym: &SymbolSpan) -> (b: bool)
    ensures
        b == covered(slinks_view(links@), *sym),
{
    let ghost lv = slinks_view(links@);
    let mut i: usize = 0;
    while i < links.len()
        invariant
            i <= links.len(),
            lv == slinks_view(links@),
            forall|k: int| 0 <= k < i ==> !covers(#[trigger] lv[k], *sym),
        decreases links.len() - i,
    {
        let l = &links[i];
        let ok = str_eq(l.path.as_str(), sym.path.as_str()) && match &l.symbol {
            Some(s) => symbol_matches(sym.symbol.as_str(), s.as_str()),
            None => true,
        };
        assert(lv[i as int] == (l.model_id@, l.path@, opt_view(l.symbol)));
        if ok {
            assert(covers(lv[i as int], *sym));
            return true;
        }
        i = i + 1;
    }
    false
}

fn element_forward_exec(
    id: &String,
    links: &Vec<SourceLink>,
    resolved: &Vec<Option<String>>,
    out: &mut Vec<ForwardError>,
)
    requires
        resolved@.len() == links@.len(),
    ensures
        forward_view(final(out)@) == forward_view(old(out)@) + element_forward(
            id@,
            slinks_view(links@),
            resolved@.map_values(|o: Option<String>| o is Some),
        ),
{
    let ghost lv = slinks_view(links@);
    let ghost br = resolved@.map_values(|o: Option<String>| o is Some);
    let ghost o0 = forward_view(out@);
    let mut i: usize = 0;
    assert(lv.take(0) =~= Seq::<LinkV>::empty());
    assert(o0 + Seq::<ForwardV>::empty() =~= o0);
    while i < links.len()
        invariant
            i <= links.len(),
            resolved@.len() == links@.len(),
            lv == slinks_view(links@),
            br == resolved@.map_values(|o: Option<String>| o is Some),
            forward_view(out@) == o0 + element_forward(id@, lv.take(i as int), br),
        decreases links.len() - i,
    {
        proof {
            assert(lv.take(i + 1).drop_last() == lv.take(i as int));
            assert(lv.take(i + 1).last() == lv[i as int]);
        }
        if str_eq(links[i].model_id.as_str(), id.as_str()) && resolved[i].is_some() {
            let sym = match &links[i].symbol {
                Some(s) => s.clone(),
                None => String::new(),
            };
            let e = ForwardError { model_id: id.clone(), path: links[i].path.clone(), symbol: sym };
            let ghost b0 = forward_view(out@);
            out.push(e);
            assert(forward_view(out@) =~= b0.push((id@, lv[i as int].1, unwrap_or_empty(lv[i as int].2))));
        }
        i = i + 1;
    }
    assert(lv.take(links.len() as int) == lv);
}

impl Project {
    /// The traceability pass of a review. Forward: each source link of an
    /// implementable current `@id` (`CMP-`, `SEQ-`, `DOM-`, `STM-`) that
    /// does not resolve (`resolved` holds, per source link, the outcome of
    /// `resolve_source_link`) is an error. Reverse: each symbol changed
    /// since `base` that no source link covers is a blocking violation when
    /// it bears behaviour, a warning otherwise; changed glue warns too.
    /// Under `Error` the pass matches when there is no forward error and no
    /// blocking violation; under `Warn` it is advisory and always matches.
    pub fn review_traceability(
        &self,
        registry: &ModelRegistry,
        mode: ParityMode,
        trace: &Trace,
        base: String,
        resolved: &Vec<Option<String>>,
        changed: &ChangedCode,
    ) -> (r: TraceabilityReport)
        requires
            resolved@.len() == trace.source_links@.len(),
        ensures
            forward_view(r.forward_errors@) == forward_errors(
                elems_view(registry.ids@),
                slinks_view(trace.source_links@),
                resolved@.map_values(|o: Option<String>| o is Some),
            ),
            violations_view(r.reverse_bucket_b@) == bucket_b(changed.symbols@, slinks_view(trace.source_links@)),
            strictly_sorted(strs(r.reverse_bucket_a@)),
            strs(r.reverse_bucket_a@).to_set() == bucket_a_symbols(changed.symbols@, slinks_view(trace.source_links@))
                + bucket_a_glue(changed.glue@),
            r.matched == (mode == ParityMode::Warn || (r.forward_errors@.len() == 0
                && r.reverse_bucket_b@.len() == 0)),
            r.mode == mode,
            r.base == base,
    {
        let ghost es = elems_view(registry.ids@);
        let ghost lv = slinks_view(trace.source_links@);
        let ghost br = resolved@.map_values(|o: Option<String>| o is Some);
        let mut forward: Vec<ForwardError> = Vec::new();
        let mut i: usize = 0;
        assert(forward_view(forward@) =~= Seq::<ForwardV>::empty());
        while i < registry.ids.len()
            invariant
                i <= registry.ids.len(),
                resolved@.len() == trace.source_links@.len(),
                es == elems_view(registry.ids@),
                lv == slinks_view(trace.source_links@),
                br == resolved@.map_values(|o: Option<String>| o is Some),
                forward_view(forward@) == forward_errors(es.take(i as int), lv, br),
            decreases registry.ids.len() - i,
        {
            proof {
                assert(es.take(i + 1).drop_last() == es.take(i as int));
                assert(es.take(i + 1).last() == es[i as int]);
            }
            let e = &registry.ids[i];
            if e.side == ModelSide::Current && is_implementable(e.id.as_str()) {
                element_forward_exec(&e.id, &trace.source_links, resolved, &mut forward);
            } else {
                assert(forward_view(forward@) =~= forward_errors(es.take(i + 1), lv, br));
            }
            i = i + 1;
        }
        assert(es.take(registry.ids.len() as int) == es);
        let mut bucket_a: Vec<String> = Vec::new();
        let mut bucket_b_v: Vec<ReverseViolation> = Vec::new();
        let ghost syms = changed.symbols@;
        let mut k: usize = 0;
        assert(strs(bucket_a@).to_set() =~= Set::<Seq<char>>::empty());
        assert(violations_view(bucket_b_v@) =~= Seq::<ViolationV>::empty());
        while k < changed.symbols.len()
            invariant
                k <= changed.symbols.len(),
                syms == changed.symbols@,
                lv == slinks_view(trace.source_links@),
                strictly_sorted(strs(bucket_a@)),
                strs(bucket_a@).to_set() == bucket_a_symbols(syms.take(k as int), lv),
                violations_view(bucket_b_v@) == bucket_b(syms.take(k as int), lv),
            decreases changed.symbols.len() - k,
        {
            proof {
                assert(syms.take(k + 1).drop_last() == syms.take(k as int));
                assert(syms.take(k + 1).last() == syms[k as int]);
            }
            let s = &changed.symbols[k];
            if !is_covered(&trace.source_links, s) {
                if is_behaviour_kind(s.kind.as_str()) {
                    let v = ReverseViolation { path: s.path.clone(), symbol: s.symbol.clone(), kind: s.kind.clone() };
                    let ghost b0 = violations_view(bucket_b_v@);
                    bucket_b_v.push(v);
                    assert(violations_view(bucket_b_v@) =~= b0.push((s.path@, s.symbol@, s.kind@)));
                } else {
                    let mut t = cat3(s.path.as_str(), " (", s.kind.as_str());
                    push_str(&mut t, " ");
                    push_str(&mut t, s.symbol.as_str());
                    push_str(&mut t, ")");
                    insert_sorted(&mut bucket_a, t);
                }
            }
            k = k + 1;
        }
        assert(syms.take(changed.symbols.len() as int) == syms);
        let ghost from_syms = bucket_a_symbols(syms, lv);
        let ghost glue = changed.glue@;
        let mut g: usize = 0;
        assert(from_syms + bucket_a_glue(glue.take(0)) =~= from_syms);
        while g < changed.glue.len()
            invariant
                g <= changed.glue.len(),
                glue == changed.glue@,
                strictly_sorted(strs(bucket_a@)),
                strs(bucket_a@).to_set() == from_syms + bucket_a_glue(glue.take(g as int)),
            decreases changed.glue.len() - g,
        {
            proof {
                assert(glue.take(g + 1).drop_last() == glue.take(g as int));
                assert(glue.take(g + 1).last() == glue[g as int]);
            }
            let gc = &changed.glue[g];
            let mut t = cat3(gc.path.as_str(), " [", gc.label.as_str());
            push_str(&mut t, "]");
            insert_sorted(&mut bucket_a, t);
            assert(strs(bucket_a@).to_set() =~= from_syms + bucket_a_glue(glue.take(g + 1)));
            g = g + 1;
        }
        assert(glue.take(changed.glue.len() as int) == glue);
        let matched = mode == ParityMode::Warn || (forward.len() == 0 && bucket_b_v.len() == 0);
        TraceabilityReport {
            matched,
            mode,
            base,
            forward_errors: forward,
            reverse_bucket_a: bucket_a,
            reverse_bucket_b: bucket_b_v,
        }
    }
}

} // verus!
