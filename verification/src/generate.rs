//! Test generation: the scaffolds to write for use cases, security markers
//! and mockup contracts, and the trace entries that record them.
use vstd::prelude::*;
use crate::markers::{
    ElementV, MockupContract, UiElementContract, UiViewport, element_of, elements_view, extract_ids, extract_ui_elements,
    extract_ui_route, extract_ui_viewports, kind_for_path, kind_for_path_spec, ui_route_spec, viewports_of, viewports_view,
    MarkerV, SecMarker, active_stereotype, extract_sec_markers, implementation_ready, is_active_stereotype, markers_view,
    marker_is_implementation_ready, slug_spec, slugify,
};
use crate::model::{GeneratedTest, GeneratedUiTest, MddConfig, ModelFile, ModelKind, ModelRegistry, ModelSide, TRACE_FILE, TestGenerationReport, Trace, clone_opt, opt_view};
use crate::order::{lemma_stable_pos, lemma_stable_sort_push, lex_lt, stable_insert, stable_pos, stable_sort, str_lt};
use crate::project::Project;
use crate::project::{FileV, mfiles_view};
use crate::review::{content_markers, copy_params, pairs_view};
use crate::scaffold::{playwright_spec, playwright_test_scaffold, acceptance_spec, acceptance_test_scaffold, security_scaffold_spec, security_test_scaffold};
use crate::text::{cat, cat3, owned, starts_with, str_eq, str_starts_with, strs};
use crate::patterns::{Pat, captures};
use crate::cycle::sorted_of;
use crate::project::ui_framework_spec;
use crate::validation::{collect_ids, sorted_ids};

verus! {

/// A generated acceptance test: id, path, model id, category.
pub type GtV = (Seq<char>, Seq<char>, Seq<char>, Option<Seq<char>>);

pub open spec fn gt_view(t: GeneratedTest) -> GtV {
    (t.id@, t.path@, t.model_id@, opt_view(t.category))
}

pub open spec fn gts_view(v: Seq<GeneratedTest>) -> Seq<GtV> {
    v.map_values(|t: GeneratedTest| gt_view(t))
}

/// The entries with neither the id nor the path.
pub open spec fn without(gs: Seq<GtV>, id: Seq<char>, path: Seq<char>) -> Seq<GtV> {
    gs.filter(|e: GtV| e.0 != id && e.1 != path)
}

/// Record each new entry in turn: drop the entries it replaces (same id or
/// same path), then append it.
pub open spec fn replace_tests(gs: Seq<GtV>, ts: Seq<GtV>) -> Seq<GtV>
    decreases ts.len(),
{
    if ts.len() == 0 {
        gs
    } else {
        let p = replace_tests(gs, ts.drop_last());
        let t = ts.last();
        without(p, t.0, t.1).push(t)
    }
}

/// Order by id, then by path.
pub open spec fn gt_lt() -> spec_fn(GtV, GtV) -> bool {
    |a: GtV, b: GtV| lex_lt(a.0, b.0) || (a.0 == b.0 && lex_lt(a.1, b.1))
}

/// Every field of the trace but the generated acceptance tests is kept.
pub open spec fn same_but_tests(a: Trace, b: Trace) -> bool {
    &&& a.version == b.version
    &&& a.links == b.links
    &&& a.generated_ui_tests == b.generated_ui_tests
    &&& a.tests == b.tests
    &&& a.source_links == b.source_links
}

fn copy_gt(t: &GeneratedTest) -> (r: GeneratedTest)
    ensures
        gt_view(r) == gt_view(*t),
{
    GeneratedTest {
        id: t.id.clone(),
        path: t.path.clone(),
        model_id: t.model_id.clone(),
        category: clone_opt(&t.category),
    }
}

fn without_exec(v: &Vec<GeneratedTest>, id: &str, path: &str) -> (r: Vec<GeneratedTest>)
    ensures
        gts_view(r@) == without(gts_view(v@), id@, path@),
{
    let ghost gv = gts_view(v@);
    let ghost pred = |e: GtV| e.0 != id@ && e.1 != path@;
    let mut r: Vec<GeneratedTest> = Vec::new();
    let mut i: usize = 0;
    assert(gv.take(0).filter(pred) =~= Seq::<GtV>::empty()) by {
        reveal(Seq::filter);
    }
    assert(gts_view(r@) =~= Seq::<GtV>::empty());
    while i < v.len()
        invariant
            i <= v.len(),
            gv == gts_view(v@),
            pred == (|e: GtV| e.0 != id@ && e.1 != path@),
            gts_view(r@) == gv.take(i as int).filter(pred),
        decreases v.len() - i,
    {
        proof {
            assert(gv.take(i + 1) == gv.take(i as int).push(gv[i as int]));
            gv.take(i as int).lemma_filter_push(gv[i as int], pred);
        }
        if !str_eq(v[i].id.as_str(), id) && !str_eq(v[i].path.as_str(), path) {
            let c = copy_gt(&v[i]);
            let ghost r0 = gts_view(r@);
            r.push(c);
            assert(gts_view(r@) =~= r0.push(gv[i as int]));
        }
        i = i + 1;
    }
    assert(gv.take(v.len() as int) == gv);
    r
}

fn gt_lt_exec(a: &GeneratedTest, b: &GeneratedTest) -> (r: bool)
    ensures
        r == (gt_lt())(gt_view(*a), gt_view(*b)),
{
    str_lt(a.id.as_str(), b.id.as_str()) || (str_eq(a.id.as_str(), b.id.as_str()) && str_lt(
        a.path.as_str(),
        b.path.as_str(),
    ))
}

fn insert_gt(v: &mut Vec<GeneratedTest>, x: GeneratedTest)
    ensures
        gts_view(final(v)@) == stable_insert(gts_view(old(v)@), gt_view(x), gt_lt()),
{
    let ghost s = gts_view(v@);
    proof {
        lemma_stable_pos(s, gt_view(x), gt_lt());
    }
    let mut j: usize = v.len();
    assert(s.take(j as int) == s);
    while j > 0 && gt_lt_exec(&x, &v[j - 1])
        invariant
            j <= v.len(),
            s == gts_view(v@),
            stable_pos(s, gt_view(x), gt_lt()) == stable_pos(s.take(j as int), gt_view(x), gt_lt()),
        decreases j,
    {
        proof {
            assert(s.take(j as int).drop_last() == s.take(j - 1));
            assert(s.take(j as int).last() == s[j - 1]);
        }
        j = j - 1;
    }
    proof {
        if j > 0 {
            assert(s.take(j as int).last() == s[j - 1]);
        }
        assert(stable_pos(s.take(j as int), gt_view(x), gt_lt()) == j);
    }
    let ghost xv = gt_view(x);
    v.insert(j, x);
    assert(gts_view(v@) =~= s.insert(j as int, xv));
}

fn sort_gts(v: &Vec<GeneratedTest>) -> (r: Vec<GeneratedTest>)
    ensures
        gts_view(r@) == stable_sort(gts_view(v@), gt_lt()),
{
    let ghost gv = gts_view(v@);
    let mut r: Vec<GeneratedTest> = Vec::new();
    let mut i: usize = 0;
    assert(gts_view(r@) =~= stable_sort(gv.take(0), gt_lt()));
    while i < v.len()
        invariant
            i <= v.len(),
            gv == gts_view(v@),
            gts_view(r@) == stable_sort(gv.take(i as int), gt_lt()),
        decreases v.len() - i,
    {
        proof {
            assert(gv.take(i + 1) == gv.take(i as int).push(gv[i as int]));
            lemma_stable_sort_push(gv.take(i as int), gv[i as int], gt_lt());
        }
        insert_gt(&mut r, copy_gt(&v[i]));
        i = i + 1;
    }
    assert(gv.take(v.len() as int) == gv);
    r
}

/// Record new acceptance-test entries in the trace, then order them.
fn record_tests(trace: &mut Trace, new: &Vec<GeneratedTest>)
    ensures
        same_but_tests(*final(trace), *old(trace)),
        gts_view(final(trace).generated_tests@) == stable_sort(
            replace_tests(gts_view(old(trace).generated_tests@), gts_view(new@)),
            gt_lt(),
        ),
{
    let ghost nv = gts_view(new@);
    let ghost g0 = gts_view(trace.generated_tests@);
    let mut cur: Vec<GeneratedTest> = Vec::new();
    let mut k: usize = 0;
    while k < trace.generated_tests.len()
        invariant
            k <= trace.generated_tests.len(),
            g0 == gts_view(trace.generated_tests@),
            gts_view(cur@) == g0.take(k as int),
        decreases trace.generated_tests.len() - k,
    {
        let c = copy_gt(&trace.generated_tests[k]);
        let ghost c0 = gts_view(cur@);
        cur.push(c);
        assert(gts_view(cur@) =~= c0.push(g0[k as int]));
        assert(g0.take(k + 1) =~= g0.take(k as int).push(g0[k as int]));
        k = k + 1;
    }
    assert(g0.take(trace.generated_tests.len() as int) =~= g0);
    let mut i: usize = 0;
    assert(nv.take(0) =~= Seq::<GtV>::empty());
    while i < new.len()
        invariant
            i <= new.len(),
            nv == gts_view(new@),
            gts_view(cur@) == replace_tests(g0, nv.take(i as int)),
        decreases new.len() - i,
    {
        proof {
            assert(nv.take(i + 1).drop_last() == nv.take(i as int));
            assert(nv.take(i + 1).last() == nv[i as int]);
        }
        let mut next = without_exec(&cur, new[i].id.as_str(), new[i].path.as_str());
        let ghost n0 = gts_view(next@);
        next.push(copy_gt(&new[i]));
        assert(gts_view(next@) =~= n0.push(nv[i as int]));
        cur = next;
        i = i + 1;
    }
    assert(nv.take(new.len() as int) == nv);
    trace.generated_tests = sort_gts(&cur);
}

/// Where the acceptance feature of a use case is written.
pub open spec fn acceptance_rel(id: Seq<char>) -> Seq<char> {
    ".mdd/tests/acceptance/"@ + slug_spec(id) + ".feature"@
}

pub open spec fn acceptance_entries(ids: Seq<Seq<char>>) -> Seq<GtV> {
    ids.map_values(|id: Seq<char>| ("AT-"@ + id, acceptance_rel(id), id, None::<Seq<char>>))
}

pub open spec fn acceptance_files(ids: Seq<Seq<char>>) -> Seq<(Seq<char>, Seq<char>)> {
    ids.map_values(|id: Seq<char>| (acceptance_rel(id), acceptance_spec("AT-"@ + id, id)))
}

impl Project {
    /// The acceptance features of the use cases: for each use-case `@id`
    /// (sorted), the feature to write (path and content) and its entry in
    /// the trace, which replaces any entry with the same test id or path;
    /// the trace's acceptance tests are then ordered by id and path. Fails,
    /// leaving the trace as it was, when the models hold no use case.
    pub fn generate_acceptance_tests(&self, registry: &ModelRegistry, trace: &mut Trace) -> (r: Result<
        (TestGenerationReport, Vec<(String, String)>),
        String,
    >)
        ensures
            (sorted_ids(registry.ids@, Some(ModelKind::UseCase), None).len() == 0) == r is Err,
            match r {
                Err(e) => e@ == "no use case model IDs found"@ && *final(trace) == *old(trace),
                Ok((rep, files)) => {
                    let ids = sorted_ids(registry.ids@, Some(ModelKind::UseCase), None);
                    &&& strs(rep.generated@) == ids.map_values(|id: Seq<char>| acceptance_rel(id))
                    &&& rep.trace_path@ == TRACE_FILE@
                    &&& pairs_view(files@) == acceptance_files(ids)
                    &&& same_but_tests(*final(trace), *old(trace))
                    &&& gts_view(final(trace).generated_tests@) == stable_sort(
                        replace_tests(gts_view(old(trace).generated_tests@), acceptance_entries(ids)),
                        gt_lt(),
                    )
                },
            },
    {
        let ids = collect_ids(&registry.ids, Some(ModelKind::UseCase), None);
        proof {
            crate::cycle::lemma_sorted_of(strs(ids@));
        }
        if ids.len() == 0 {
            return Err(owned("no use case model IDs found"));
        }
        let ghost iv = strs(ids@);
        let mut entries: Vec<GeneratedTest> = Vec::new();
        let mut files: Vec<(String, String)> = Vec::new();
        let mut generated: Vec<String> = Vec::new();
        let mut i: usize = 0;
        while i < ids.len()
            invariant
                i <= ids.len(),
                iv == strs(ids@),
                gts_view(entries@) == acceptance_entries(iv).take(i as int),
                pairs_view(files@) == acceptance_files(iv).take(i as int),
                strs(generated@) == iv.map_values(|id: Seq<char>| acceptance_rel(id)).take(i as int),
            decreases ids.len() - i,
        {
            let id = ids[i].as_str();
            let slug = slugify(id);
            let test_id = cat("AT-", id);
            let rel = cat3(".mdd/tests/acceptance/", slug.as_str(), ".feature");
            let content = acceptance_test_scaffold(test_id.as_str(), id);
            let ghost e0 = gts_view(entries@);
            let ghost f0 = pairs_view(files@);
            let ghost g0 = strs(generated@);
            entries.push(GeneratedTest { id: test_id, path: rel.clone(), model_id: ids[i].clone(), category: None });
            files.push((rel.clone(), content));
            generated.push(rel);
            proof {
                assert(gts_view(entries@) =~= e0.push(acceptance_entries(iv)[i as int]));
                assert(acceptance_entries(iv).take(i + 1) =~= acceptance_entries(iv).take(i as int).push(
                    acceptance_entries(iv)[i as int],
                ));
                assert(pairs_view(files@) =~= f0.push(acceptance_files(iv)[i as int]));
                assert(acceptance_files(iv).take(i + 1) =~= acceptance_files(iv).take(i as int).push(
                    acceptance_files(iv)[i as int],
                ));
                let rels = iv.map_values(|id: Seq<char>| acceptance_rel(id));
                assert(strs(generated@) =~= g0.push(rels[i as int]));
                assert(rels.take(i + 1) =~= rels.take(i as int).push(rels[i as int]));
            }
            i = i + 1;
        }
        proof {
            assert(acceptance_entries(iv).take(ids.len() as int) =~= acceptance_entries(iv));
            assert(acceptance_files(iv).take(ids.len() as int) =~= acceptance_files(iv));
            let rels = iv.map_values(|id: Seq<char>| acceptance_rel(id));
            assert(rels.take(ids.len() as int) =~= rels);
        }
        record_tests(trace, &entries);
        Ok((TestGenerationReport { generated, trace_path: owned(TRACE_FILE) }, files))
    }
}

// ---------------------------------------------------------------------------
// Security tests

/// The markers of the objective (non-constraint) diagrams, in registry order.
pub open spec fn objective_markers(files: Seq<FileV>, contents: Seq<Seq<char>>) -> Seq<MarkerV>
    decreases files.len(),
{
    if files.len() == 0 {
        seq![]
    } else {
        let prev = objective_markers(files.drop_last(), contents);
        let f = files.last();
        if f.1 != ModelKind::Constraint && f.2 == ModelSide::Objective {
            prev + content_markers(contents[files.len() - 1])
        } else {
            prev
        }
    }
}

/// A marker gets a test: an active stereotype, an id, and the tagged values
/// its scaffold needs.
pub open spec fn ready_marker(m: MarkerV) -> bool {
    active_stereotype(m.0) && m.2 is Some && implementation_ready(m.0, m.3)
}

/// The ready markers, the first of each security id, in order.
pub open spec fn test_markers(ms: Seq<MarkerV>) -> Seq<MarkerV>
    decreases ms.len(),
{
    if ms.len() == 0 {
        seq![]
    } else {
        let prev = test_markers(ms.drop_last());
        let m = ms.last();
        if ready_marker(m) && !prev.map_values(|x: MarkerV| x.2).contains(m.2) {
            prev.push(m)
        } else {
            prev
        }
    }
}

pub open spec fn security_entry(m: MarkerV) -> GtV {
    let sid = m.2.unwrap();
    ("SECT-"@ + sid, acceptance_rel(sid), sid, Some("security"@))
}

pub open spec fn security_file(m: MarkerV) -> (Seq<char>, Seq<char>) {
    let sid = m.2.unwrap();
    (acceptance_rel(sid), security_scaffold_spec(m.0, "SECT-"@ + sid, sid, m.1, m.3))
}

pub open spec fn no_security_markers_message() -> Seq<char> {
    "no implementation-ready security markers found (need an active stereotype with id=SEC-... and the stereotype's primary tagged values — see .mdd/docs/security-profile.md)"@
}

fn copy_marker(m: &SecMarker) -> (r: SecMarker)
    ensures
        r@ == m@,
{
    SecMarker {
        stereotype: m.stereotype.clone(),
        host: m.host.clone(),
        id: clone_opt(&m.id),
        params: copy_params(&m.params),
    }
}

fn seen_id(kept: &Vec<SecMarker>, id: &Option<String>) -> (b: bool)
    ensures
        b == markers_view(kept@).map_values(|x: MarkerV| x.2).contains(opt_view(*id)),
{
    let ghost ids = markers_view(kept@).map_values(|x: MarkerV| x.2);
    let mut i: usize = 0;
    while i < kept.len()
        invariant
            i <= kept.len(),
            ids == markers_view(kept@).map_values(|x: MarkerV| x.2),
            forall|k: int| 0 <= k < i ==> ids[k] != opt_view(*id),
        decreases kept.len() - i,
    {
        let same = match (&kept[i].id, id) {
            (Some(a), Some(b)) => str_eq(a.as_str(), b.as_str()),
            (None, None) => true,
            _ => false,
        };
        assert(ids[i as int] == opt_view(kept@[i as int].id));
        if same {
            return true;
        }
        i = i + 1;
    }
    false
}

fn keep_test_markers(kept: &mut Vec<SecMarker>, markers: &Vec<SecMarker>)
    ensures
        markers_view(final(kept)@) == {
            let base = markers_view(old(kept)@);
            test_markers_from(base, markers_view(markers@))
        },
{
    let ghost base = markers_view(kept@);
    let ghost mv = markers_view(markers@);
    let mut i: usize = 0;
    assert(mv.take(0) =~= Seq::<MarkerV>::empty());
    while i < markers.len()
        invariant
            i <= markers.len(),
            base == markers_view(old(kept)@),
            mv == markers_view(markers@),
            markers_view(kept@) == test_markers_from(base, mv.take(i as int)),
        decreases markers.len() - i,
    {
        proof {
            assert(mv.take(i + 1).drop_last() == mv.take(i as int));
            assert(mv.take(i + 1).last() == markers@[i as int]@);
        }
        let m = &markers[i];
        if is_active_stereotype(m.stereotype.as_str()) && m.id.is_some() && marker_is_implementation_ready(
            m.stereotype.as_str(),
            &m.params,
        ) && !seen_id(kept, &m.id) {
            let c = copy_marker(m);
            let ghost k0 = markers_view(kept@);
            kept.push(c);
            assert(markers_view(kept@) =~= k0.push(m@));
        }
        i = i + 1;
    }
    assert(mv.take(markers.len() as int) == mv);
}

/// `test_markers` continued from already kept markers.
pub open spec fn test_markers_from(kept: Seq<MarkerV>, ms: Seq<MarkerV>) -> Seq<MarkerV>
    decreases ms.len(),
{
    if ms.len() == 0 {
        kept
    } else {
        let prev = test_markers_from(kept, ms.drop_last());
        let m = ms.last();
        if ready_marker(m) && !prev.map_values(|x: MarkerV| x.2).contains(m.2) {
            prev.push(m)
        } else {
            prev
        }
    }
}

proof fn lemma_test_markers_ready(ms: Seq<MarkerV>)
    ensures
        forall|k: int| 0 <= k < test_markers(ms).len() ==> ready_marker(#[trigger] test_markers(ms)[k]),
    decreases ms.len(),
{
    if ms.len() > 0 {
        lemma_test_markers_ready(ms.drop_last());
        let prev = test_markers(ms.drop_last());
        let t = test_markers(ms);
        assert forall|k: int| 0 <= k < t.len() implies ready_marker(#[trigger] t[k]) by {
            if k < prev.len() {
                assert(t[k] == prev[k]);
            }
        }
    }
}

proof fn lemma_test_markers_append(a: Seq<MarkerV>, b: Seq<MarkerV>)
    ensures
        test_markers(a + b) == test_markers_from(test_markers(a), b),
    decreases b.len(),
{
    if b.len() == 0 {
        assert(a + b == a);
    } else {
        lemma_test_markers_append(a, b.drop_last());
        assert((a + b).drop_last() == a + b.drop_last());
        assert((a + b).last() == b.last());
    }
}

fn objective_test_markers(files: &Vec<ModelFile>, contents: &Vec<String>) -> (r: Vec<SecMarker>)
    requires
        contents@.len() == files@.len(),
    ensures
        markers_view(r@) == test_markers(objective_markers(mfiles_view(files@), strs(contents@))),
{
    let ghost fs = mfiles_view(files@);
    let mut kept: Vec<SecMarker> = Vec::new();
    let mut i: usize = 0;
    assert(markers_view(kept@) =~= test_markers(objective_markers(fs.take(0), strs(contents@))));
    while i < files.len()
        invariant
            i <= files.len(),
            contents@.len() == files@.len(),
            fs == mfiles_view(files@),
            markers_view(kept@) == test_markers(objective_markers(fs.take(i as int), strs(contents@))),
        decreases files.len() - i,
    {
        proof {
            assert(fs.take(i + 1).drop_last() == fs.take(i as int));
            assert(fs.take(i + 1).last() == fs[i as int]);
        }
        if files[i].kind != ModelKind::Constraint && files[i].side == ModelSide::Objective {
            let markers = extract_sec_markers(contents[i].as_str());
            proof {
                lemma_test_markers_append(
                    objective_markers(fs.take(i as int), strs(contents@)),
                    content_markers(strs(contents@)[i as int]),
                );
            }
            keep_test_markers(&mut kept, &markers);
        }
        i = i + 1;
    }
    assert(fs.take(files.len() as int) == fs);
    kept
}

impl Project {
    /// The security features of the objective markers: for the first ready
    /// marker of each security id (an active stereotype, an `id=`, and its
    /// stereotype's tagged values), the feature to write and its trace entry
    /// (category `security`), which replaces any entry with the same test id
    /// or path; the trace's acceptance tests are then ordered by id and path.
    /// Fails, leaving the trace as it was, when no marker is ready.
    /// `contents` holds the text of each registry file, in registry order.
    pub fn generate_security_tests(&self, registry: &ModelRegistry, contents: &Vec<String>, trace: &mut Trace) -> (r:
        Result<(TestGenerationReport, Vec<(String, String)>), String>)
        requires
            contents@.len() == registry.files@.len(),
        ensures
            (test_markers(objective_markers(mfiles_view(registry.files@), strs(contents@))).len() == 0) == r is Err,
            match r {
                Err(e) => e@ == no_security_markers_message() && *final(trace) == *old(trace),
                Ok((rep, files)) => {
                    let ms = test_markers(objective_markers(mfiles_view(registry.files@), strs(contents@)));
                    &&& strs(rep.generated@) == ms.map_values(|m: MarkerV| acceptance_rel(m.2.unwrap()))
                    &&& rep.trace_path@ == TRACE_FILE@
                    &&& pairs_view(files@) == ms.map_values(|m: MarkerV| security_file(m))
                    &&& same_but_tests(*final(trace), *old(trace))
                    &&& gts_view(final(trace).generated_tests@) == stable_sort(
                        replace_tests(
                            gts_view(old(trace).generated_tests@),
                            ms.map_values(|m: MarkerV| security_entry(m)),
                        ),
                        gt_lt(),
                    )
                },
            },
    {
        let markers = objective_test_markers(&registry.files, contents);
        if markers.len() == 0 {
            return Err(owned(
                "no implementation-ready security markers found (need an active stereotype with id=SEC-... and the stereotype's primary tagged values — see .mdd/docs/security-profile.md)",
            ));
        }
        let ghost ms = markers_view(markers@);
        proof {
            lemma_test_markers_ready(objective_markers(mfiles_view(registry.files@), strs(contents@)));
        }
        let ghost want_e = ms.map_values(|m: MarkerV| security_entry(m));
        let ghost want_f = ms.map_values(|m: MarkerV| security_file(m));
        let ghost want_g = ms.map_values(|m: MarkerV| acceptance_rel(m.2.unwrap()));
        let mut entries: Vec<GeneratedTest> = Vec::new();
        let mut files: Vec<(String, String)> = Vec::new();
        let mut generated: Vec<String> = Vec::new();
        let mut i: usize = 0;
        while i < markers.len()
            invariant
                i <= markers.len(),
                ms == markers_view(markers@),
                want_e == ms.map_values(|m: MarkerV| security_entry(m)),
                want_f == ms.map_values(|m: MarkerV| security_file(m)),
                want_g == ms.map_values(|m: MarkerV| acceptance_rel(m.2.unwrap())),
                ms == test_markers(objective_markers(mfiles_view(registry.files@), strs(contents@))),
                forall|k: int| 0 <= k < ms.len() ==> ready_marker(#[trigger] ms[k]),
                gts_view(entries@) == want_e.take(i as int),
                pairs_view(files@) == want_f.take(i as int),
                strs(generated@) == want_g.take(i as int),
            decreases markers.len() - i,
        {
            let m = &markers[i];
            assert(ready_marker(ms[i as int]));
            let sid = match &m.id {
                Some(x) => x.clone(),
                None => String::new(),
            };
            assert(sid@ == ms[i as int].2.unwrap());
            let slug = slugify(sid.as_str());
            let test_id = cat("SECT-", sid.as_str());
            let rel = cat3(".mdd/tests/acceptance/", slug.as_str(), ".feature");
            let content = security_test_scaffold(
                m.stereotype.as_str(),
                test_id.as_str(),
                sid.as_str(),
                m.host.as_str(),
                &m.params,
            );
            let ghost e0 = gts_view(entries@);
            let ghost f0 = pairs_view(files@);
            let ghost g0 = strs(generated@);
            entries.push(GeneratedTest { id: test_id, path: rel.clone(), model_id: sid, category: Some(owned("security")) });
            files.push((rel.clone(), content));
            generated.push(rel);
            proof {
                assert(gts_view(entries@) =~= e0.push(want_e[i as int]));
                assert(want_e.take(i + 1) =~= want_e.take(i as int).push(want_e[i as int]));
                assert(pairs_view(files@) =~= f0.push(want_f[i as int]));
                assert(want_f.take(i + 1) =~= want_f.take(i as int).push(want_f[i as int]));
                assert(strs(generated@) =~= g0.push(want_g[i as int]));
                assert(want_g.take(i + 1) =~= want_g.take(i as int).push(want_g[i as int]));
            }
            i = i + 1;
        }
        proof {
            assert(want_e.take(markers.len() as int) =~= want_e);
            assert(want_f.take(markers.len() as int) =~= want_f);
            assert(want_g.take(markers.len() as int) =~= want_g);
        }
        record_tests(trace, &entries);
        Ok((TestGenerationReport { generated, trace_path: owned(TRACE_FILE) }, files))
    }
}

// ---------------------------------------------------------------------------
// Mockup contracts and UI tests

/// A mockup contract: model id, file, route, viewports, elements.
pub type ContractV = (Seq<char>, Seq<char>, Option<Seq<char>>, Seq<(Seq<char>, u32, u32)>, Seq<ElementV>);

pub open spec fn contract_view(c: MockupContract) -> ContractV {
    (c.model_id@, c.file@, opt_view(c.route), viewports_view(c.viewports@), elements_view(c.elements@))
}

pub open spec fn contracts_view(v: Seq<MockupContract>) -> Seq<ContractV> {
    v.map_values(|c: MockupContract| contract_view(c))
}

/// The contracts of one mockup file: one per `MCK-` id (sorted), each with
/// the file's route, viewports and elements.
pub open spec fn file_contracts(rel: Seq<char>, content: Seq<char>) -> Seq<ContractV> {
    sorted_of(captures(Pat::Ident("@id("@), content).to_set()).filter(|id: Seq<char>| starts_with(id, "MCK-"@)).map_values(
        |id: Seq<char>|
            (
                id,
                rel,
                ui_route_spec(content),
                viewports_of(captures(Pat::Body("@ui-viewport("@), content)),
                captures(Pat::Body("@ui-element("@), content).map_values(|b: Seq<char>| element_of(b)),
            ),
    )
}

/// The contracts of the mockup files, in file order.
pub open spec fn all_contracts(files: Seq<(Seq<char>, Seq<char>)>) -> Seq<ContractV>
    decreases files.len(),
{
    if files.len() == 0 {
        seq![]
    } else {
        let f = files.last();
        all_contracts(files.drop_last()) + (if kind_for_path_spec(f.0) == ModelKind::Mockup {
            file_contracts(f.0, f.1)
        } else {
            seq![]
        })
    }
}

/// Order by model id, then by file.
pub open spec fn contract_lt() -> spec_fn(ContractV, ContractV) -> bool {
    |a: ContractV, b: ContractV| lex_lt(a.0, b.0) || (a.0 == b.0 && lex_lt(a.1, b.1))
}

fn copy_viewports(v: &Vec<UiViewport>) -> (r: Vec<UiViewport>)
    ensures
        viewports_view(r@) == viewports_view(v@),
{
    let mut r: Vec<UiViewport> = Vec::new();
    let mut k: usize = 0;
    while k < v.len()
        invariant
            k <= v.len(),
            viewports_view(r@) == viewports_view(v@).take(k as int),
        decreases v.len() - k,
    {
        let x = &v[k];
        let ghost r0 = viewports_view(r@);
        r.push(UiViewport { name: x.name.clone(), width: x.width, height: x.height });
        assert(viewports_view(r@) =~= r0.push(x@));
        assert(viewports_view(v@).take(k + 1) =~= viewports_view(v@).take(k as int).push(x@));
        k = k + 1;
    }
    assert(viewports_view(v@).take(v.len() as int) =~= viewports_view(v@));
    r
}

fn copy_elements(v: &Vec<UiElementContract>) -> (r: Vec<UiElementContract>)
    ensures
        elements_view(r@) == elements_view(v@),
{
    let mut r: Vec<UiElementContract> = Vec::new();
    let mut k: usize = 0;
    while k < v.len()
        invariant
            k <= v.len(),
            elements_view(r@) == elements_view(v@).take(k as int),
        decreases v.len() - k,
    {
        let x = &v[k];
        let ghost r0 = elements_view(r@);
        r.push(UiElementContract { id: x.id.clone(), role: clone_opt(&x.role), name: clone_opt(&x.name), required: x.required });
        assert(elements_view(r@) =~= r0.push(x@));
        assert(elements_view(v@).take(k + 1) =~= elements_view(v@).take(k as int).push(x@));
        k = k + 1;
    }
    assert(elements_view(v@).take(v.len() as int) =~= elements_view(v@));
    r
}

fn copy_contract(c: &MockupContract) -> (r: MockupContract)
    ensures
        contract_view(r) == contract_view(*c),
{
    MockupContract {
        model_id: c.model_id.clone(),
        file: c.file.clone(),
        route: clone_opt(&c.route),
        viewports: copy_viewports(&c.viewports),
        elements: copy_elements(&c.elements),
    }
}

fn contract_lt_exec(a: &MockupContract, b: &MockupContract) -> (r: bool)
    ensures
        r == (contract_lt())(contract_view(*a), contract_view(*b)),
{
    str_lt(a.model_id.as_str(), b.model_id.as_str()) || (str_eq(a.model_id.as_str(), b.model_id.as_str())
        && str_lt(a.file.as_str(), b.file.as_str()))
}

fn insert_contract(v: &mut Vec<MockupContract>, x: MockupContract)
    ensures
        contracts_view(final(v)@) == stable_insert(contracts_view(old(v)@), contract_view(x), contract_lt()),
{
    let ghost s = contracts_view(v@);
    proof {
        lemma_stable_pos(s, contract_view(x), contract_lt());
    }
    let mut j: usize = v.len();
    assert(s.take(j as int) == s);
    while j > 0 && contract_lt_exec(&x, &v[j - 1])
        invariant
            j <= v.len(),
            s == contracts_view(v@),
            stable_pos(s, contract_view(x), contract_lt()) == stable_pos(s.take(j as int), contract_view(x), contract_lt()),
        decreases j,
    {
        proof {
            assert(s.take(j as int).drop_last() == s.take(j - 1));
            assert(s.take(j as int).last() == s[j - 1]);
        }
        j = j - 1;
    }
    proof {
        if j > 0 {
            assert(s.take(j as int).last() == s[j - 1]);
        }
        assert(stable_pos(s.take(j as int), contract_view(x), contract_lt()) == j);
    }
    let ghost xv = contract_view(x);
    v.insert(j, x);
    assert(contracts_view(v@) =~= s.insert(j as int, xv));
}

fn push_file_contracts(out: &mut Vec<MockupContract>, rel: &String, content: &str)
    ensures
        contracts_view(final(out)@) == contracts_view(old(out)@) + file_contracts(rel@, content@),
{
    let ids = extract_ids(content);
    proof {
        crate::cycle::lemma_sorted_of(strs(ids@));
    }
    let route = extract_ui_route(content);
    let viewports = extract_ui_viewports(content);
    let elements = extract_ui_elements(content);
    let ghost iv = strs(ids@);
    let ghost pred = |id: Seq<char>| starts_with(id, "MCK-"@);
    let ghost o0 = contracts_view(out@);
    let ghost mk = |id: Seq<char>|
        (
            id,
            rel@,
            ui_route_spec(content@),
            viewports_of(captures(Pat::Body("@ui-viewport("@), content@)),
            captures(Pat::Body("@ui-element("@), content@).map_values(|b: Seq<char>| element_of(b)),
        );
    let mut i: usize = 0;
    assert(iv.take(0).filter(pred) =~= Seq::<Seq<char>>::empty()) by {
        reveal(Seq::filter);
    }
    assert(o0 + Seq::<ContractV>::empty() =~= o0);
    while i < ids.len()
        invariant
            i <= ids.len(),
            iv == strs(ids@),
            pred == (|id: Seq<char>| starts_with(id, "MCK-"@)),
            opt_view(route) == ui_route_spec(content@),
            viewports_view(viewports@) == viewports_of(captures(Pat::Body("@ui-viewport("@), content@)),
            elements_view(elements@) == captures(Pat::Body("@ui-element("@), content@).map_values(
                |b: Seq<char>| element_of(b),
            ),
            mk == (|id: Seq<char>|
                (
                    id,
                    rel@,
                    ui_route_spec(content@),
                    viewports_of(captures(Pat::Body("@ui-viewport("@), content@)),
                    captures(Pat::Body("@ui-element("@), content@).map_values(|b: Seq<char>| element_of(b)),
                )),
            contracts_view(out@) == o0 + iv.take(i as int).filter(pred).map_values(mk),
        decreases ids.len() - i,
    {
        proof {
            assert(iv.take(i + 1) == iv.take(i as int).push(iv[i as int]));
            iv.take(i as int).lemma_filter_push(iv[i as int], pred);
        }
        if str_starts_with(ids[i].as_str(), "MCK-") {
            let c = MockupContract {
                model_id: ids[i].clone(),
                file: rel.clone(),
                route: clone_opt(&route),
                viewports: copy_viewports(&viewports),
                elements: copy_elements(&elements),
            };
            let ghost c0 = contracts_view(out@);
            out.push(c);
            proof {
                let f0 = iv.take(i as int).filter(pred);
                assert(f0.push(iv[i as int]).map_values(mk) =~= f0.map_values(mk).push(mk(iv[i as int])));
                assert(contracts_view(out@) =~= c0.push(mk(iv[i as int])));
            }
        }
        i = i + 1;
    }
    assert(iv.take(ids.len() as int) == iv);
}

/// The mockup contracts of the model files, each given as its relative path
/// and content (in path order), ordered by model id then file (stably).
pub fn mockup_contracts(sources: &Vec<(String, String)>) -> (r: Vec<MockupContract>)
    ensures
        contracts_view(r@) == stable_sort(all_contracts(pairs_view(sources@)), contract_lt()),
{
    let ghost sv = pairs_view(sources@);
    let mut all: Vec<MockupContract> = Vec::new();
    let mut i: usize = 0;
    assert(contracts_view(all@) =~= all_contracts(sv.take(0)));
    while i < sources.len()
        invariant
            i <= sources.len(),
            sv == pairs_view(sources@),
            contracts_view(all@) == all_contracts(sv.take(i as int)),
        decreases sources.len() - i,
    {
        proof {
            assert(sv.take(i + 1).drop_last() == sv.take(i as int));
            assert(sv.take(i + 1).last() == sv[i as int]);
        }
        if kind_for_path(sources[i].0.as_str()) == ModelKind::Mockup {
            push_file_contracts(&mut all, &sources[i].0, sources[i].1.as_str());
        } else {
            assert(contracts_view(all@) =~= all_contracts(sv.take(i + 1)));
        }
        i = i + 1;
    }
    assert(sv.take(sources.len() as int) == sv);
    let ghost av = contracts_view(all@);
    let mut r: Vec<MockupContract> = Vec::new();
    let mut k: usize = 0;
    assert(contracts_view(r@) =~= stable_sort(av.take(0), contract_lt()));
    while k < all.len()
        invariant
            k <= all.len(),
            av == contracts_view(all@),
            contracts_view(r@) == stable_sort(av.take(k as int), contract_lt()),
        decreases all.len() - k,
    {
        proof {
            assert(av.take(k + 1) == av.take(k as int).push(av[k as int]));
            lemma_stable_sort_push(av.take(k as int), av[k as int], contract_lt());
        }
        insert_contract(&mut r, copy_contract(&all[k]));
        k = k + 1;
    }
    assert(av.take(all.len() as int) == av);
    r
}

/// A generated UI test: id, path, model id, framework.
pub type UtV = (Seq<char>, Seq<char>, Seq<char>, Seq<char>);

pub open spec fn ut_view(t: GeneratedUiTest) -> UtV {
    (t.id@, t.path@, t.model_id@, t.framework@)
}

pub open spec fn uts_view(v: Seq<GeneratedUiTest>) -> Seq<UtV> {
    v.map_values(|t: GeneratedUiTest| ut_view(t))
}

pub open spec fn ui_without(gs: Seq<UtV>, id: Seq<char>, path: Seq<char>) -> Seq<UtV> {
    gs.filter(|e: UtV| e.0 != id && e.1 != path)
}

pub open spec fn replace_ui_tests(gs: Seq<UtV>, ts: Seq<UtV>) -> Seq<UtV>
    decreases ts.len(),
{
    if ts.len() == 0 {
        gs
    } else {
        let p = replace_ui_tests(gs, ts.drop_last());
        let t = ts.last();
        ui_without(p, t.0, t.1).push(t)
    }
}

/// Order by id, then path, then framework.
pub open spec fn ut_lt() -> spec_fn(UtV, UtV) -> bool {
    |a: UtV, b: UtV|
        lex_lt(a.0, b.0) || (a.0 == b.0 && (lex_lt(a.1, b.1) || (a.1 == b.1 && lex_lt(a.3, b.3))))
}

/// Every field of the trace but the generated UI tests is kept.
pub open spec fn same_but_ui_tests(a: Trace, b: Trace) -> bool {
    &&& a.version == b.version
    &&& a.links == b.links
    &&& a.generated_tests == b.generated_tests
    &&& a.tests == b.tests
    &&& a.source_links == b.source_links
}

fn copy_ut(t: &GeneratedUiTest) -> (r: GeneratedUiTest)
    ensures
        ut_view(r) == ut_view(*t),
{
    GeneratedUiTest { id: t.id.clone(), path: t.path.clone(), model_id: t.model_id.clone(), framework: t.framework.clone() }
}

fn ui_without_exec(v: &Vec<GeneratedUiTest>, id: &str, path: &str) -> (r: Vec<GeneratedUiTest>)
    ensures
        uts_view(r@) == ui_without(uts_view(v@), id@, path@),
{
    let ghost gv = uts_view(v@);
    let ghost pred = |e: UtV| e.0 != id@ && e.1 != path@;
    let mut r: Vec<GeneratedUiTest> = Vec::new();
    let mut i: usize = 0;
    assert(gv.take(0).filter(pred) =~= Seq::<UtV>::empty()) by {
        reveal(Seq::filter);
    }
    assert(uts_view(r@) =~= Seq::<UtV>::empty());
    while i < v.len()
        invariant
            i <= v.len(),
            gv == uts_view(v@),
            pred == (|e: UtV| e.0 != id@ && e.1 != path@),
            uts_view(r@) == gv.take(i as int).filter(pred),
        decreases v.len() - i,
    {
        proof {
            assert(gv.take(i + 1) == gv.take(i as int).push(gv[i as int]));
            gv.take(i as int).lemma_filter_push(gv[i as int], pred);
        }
        if !str_eq(v[i].id.as_str(), id) && !str_eq(v[i].path.as_str(), path) {
            let c = copy_ut(&v[i]);
            let ghost r0 = uts_view(r@);
            r.push(c);
            assert(uts_view(r@) =~= r0.push(gv[i as int]));
        }
        i = i + 1;
    }
    assert(gv.take(v.len() as int) == gv);
    r
}

fn ut_lt_exec(a: &GeneratedUiTest, b: &GeneratedUiTest) -> (r: bool)
    ensures
        r == (ut_lt())(ut_view(*a), ut_view(*b)),
{
    str_lt(a.id.as_str(), b.id.as_str()) || (str_eq(a.id.as_str(), b.id.as_str()) && (str_lt(
        a.path.as_str(),
        b.path.as_str(),
    ) || (str_eq(a.path.as_str(), b.path.as_str()) && str_lt(a.framework.as_str(), b.framework.as_str()))))
}

fn insert_ut(v: &mut Vec<GeneratedUiTest>, x: GeneratedUiTest)
    ensures
        uts_view(final(v)@) == stable_insert(uts_view(old(v)@), ut_view(x), ut_lt()),
{
    let ghost s = uts_view(v@);
    proof {
        lemma_stable_pos(s, ut_view(x), ut_lt());
    }
    let mut j: usize = v.len();
    assert(s.take(j as int) == s);
    while j > 0 && ut_lt_exec(&x, &v[j - 1])
        invariant
            j <= v.len(),
            s == uts_view(v@),
            stable_pos(s, ut_view(x), ut_lt()) == stable_pos(s.take(j as int), ut_view(x), ut_lt()),
        decreases j,
    {
        proof {
            assert(s.take(j as int).drop_last() == s.take(j - 1));
            assert(s.take(j as int).last() == s[j - 1]);
        }
        j = j - 1;
    }
    proof {
        if j > 0 {
            assert(s.take(j as int).last() == s[j - 1]);
        }
        assert(stable_pos(s.take(j as int), ut_view(x), ut_lt()) == j);
    }
    let ghost xv = ut_view(x);
    v.insert(j, x);
    assert(uts_view(v@) =~= s.insert(j as int, xv));
}

/// Record new UI-test entries in the trace, then order them.
fn record_ui_tests(trace: &mut Trace, new: &Vec<GeneratedUiTest>)
    ensures
        same_but_ui_tests(*final(trace), *old(trace)),
        uts_view(final(trace).generated_ui_tests@) == stable_sort(
            replace_ui_tests(uts_view(old(trace).generated_ui_tests@), uts_view(new@)),
            ut_lt(),
        ),
{
    let ghost nv = uts_view(new@);
    let ghost g0 = uts_view(trace.generated_ui_tests@);
    let mut cur: Vec<GeneratedUiTest> = Vec::new();
    let mut k: usize = 0;
    while k < trace.generated_ui_tests.len()
        invariant
            k <= trace.generated_ui_tests.len(),
            g0 == uts_view(trace.generated_ui_tests@),
            uts_view(cur@) == g0.take(k as int),
        decreases trace.generated_ui_tests.len() - k,
    {
        let c = copy_ut(&trace.generated_ui_tests[k]);
        let ghost c0 = uts_view(cur@);
        cur.push(c);
        assert(uts_view(cur@) =~= c0.push(g0[k as int]));
        assert(g0.take(k + 1) =~= g0.take(k as int).push(g0[k as int]));
        k = k + 1;
    }
    assert(g0.take(trace.generated_ui_tests.len() as int) =~= g0);
    let mut i: usize = 0;
    assert(nv.take(0) =~= Seq::<UtV>::empty());
    while i < new.len()
        invariant
            i <= new.len(),
            nv == uts_view(new@),
            uts_view(cur@) == replace_ui_tests(g0, nv.take(i as int)),
        decreases new.len() - i,
    {
        proof {
            assert(nv.take(i + 1).drop_last() == nv.take(i as int));
            assert(nv.take(i + 1).last() == nv[i as int]);
        }
        let mut next = ui_without_exec(&cur, new[i].id.as_str(), new[i].path.as_str());
        let ghost n0 = uts_view(next@);
        next.push(copy_ut(&new[i]));
        assert(uts_view(next@) =~= n0.push(nv[i as int]));
        cur = next;
        i = i + 1;
    }
    assert(nv.take(new.len() as int) == nv);
    let ghost cv = uts_view(cur@);
    let mut sorted: Vec<GeneratedUiTest> = Vec::new();
    let mut m: usize = 0;
    assert(uts_view(sorted@) =~= stable_sort(cv.take(0), ut_lt()));
    while m < cur.len()
        invariant
            m <= cur.len(),
            cv == uts_view(cur@),
            uts_view(sorted@) == stable_sort(cv.take(m as int), ut_lt()),
        decreases cur.len() - m,
    {
        proof {
            assert(cv.take(m + 1) == cv.take(m as int).push(cv[m as int]));
            lemma_stable_sort_push(cv.take(m as int), cv[m as int], ut_lt());
        }
        insert_ut(&mut sorted, copy_ut(&cur[m]));
        m = m + 1;
    }
    assert(cv.take(cur.len() as int) == cv);
    trace.generated_ui_tests = sorted;
}

/// A contract gets a UI test: it has a route and an element.
pub open spec fn contract_ready(c: ContractV) -> bool {
    c.2 is Some && c.4.len() > 0
}

pub open spec fn ui_rel(id: Seq<char>) -> Seq<char> {
    ".mdd/tests/ui/"@ + slug_spec(id) + ".spec.ts"@
}

pub open spec fn ui_entry(c: ContractV, framework: Seq<char>) -> UtV {
    ("UIT-"@ + c.0, ui_rel(c.0), c.0, framework)
}

pub open spec fn ui_file(c: ContractV) -> (Seq<char>, Seq<char>) {
    (ui_rel(c.0), playwright_spec("UIT-"@ + c.0, c.0, c.2, c.3, c.4))
}

impl Project {
    /// The Playwright specs of the implementation-ready mockup contracts
    /// (a route and an element), in contract order: the spec to write and
    /// its trace entry (framework: the configured `ui` one, else
    /// `playwright`), which replaces any entry with the same test id or
    /// path; the trace's UI tests are then ordered by id, path and
    /// framework. Fails, leaving the trace as it was, when the mockups hold
    /// no contract or no ready one. `sources` holds each model file's
    /// relative path and content, in path order.
    pub fn generate_ui_tests(&self, sources: &Vec<(String, String)>, config: &MddConfig, trace: &mut Trace) -> (r:
        Result<(TestGenerationReport, Vec<(String, String)>), String>)
        ensures
            ({
                let cs = stable_sort(all_contracts(pairs_view(sources@)), contract_lt());
                let ready = cs.filter(|c: ContractV| contract_ready(c));
                &&& (cs.len() == 0 || ready.len() == 0) == r is Err
                &&& match r {
                    Err(e) => *final(trace) == *old(trace) && e@ == (if cs.len() == 0 {
                        "no mockup model IDs found"@
                    } else {
                        "no implementation-ready mockup contracts found"@
                    }),
                    Ok((rep, files)) => {
                        &&& strs(rep.generated@) == ready.map_values(|c: ContractV| ui_rel(c.0))
                        &&& rep.trace_path@ == TRACE_FILE@
                        &&& pairs_view(files@) == ready.map_values(|c: ContractV| ui_file(c))
                        &&& same_but_ui_tests(*final(trace), *old(trace))
                        &&& uts_view(final(trace).generated_ui_tests@) == stable_sort(
                            replace_ui_tests(
                                uts_view(old(trace).generated_ui_tests@),
                                ready.map_values(|c: ContractV| ui_entry(c, ui_framework_spec(config.test.layers@))),
                            ),
                            ut_lt(),
                        )
                    },
                }
            }),
    {
        let contracts = mockup_contracts(sources);
        if contracts.len() == 0 {
            return Err(owned("no mockup model IDs found"));
        }
        let framework = self.resolve_ui_framework(config);
        let ghost cs = contracts_view(contracts@);
        let ghost pred = |c: ContractV| contract_ready(c);
        let ghost fw = framework@;
        let mut entries: Vec<GeneratedUiTest> = Vec::new();
        let mut files: Vec<(String, String)> = Vec::new();
        let mut generated: Vec<String> = Vec::new();
        let mut i: usize = 0;
        assert(cs.take(0).filter(pred) =~= Seq::<ContractV>::empty()) by {
            reveal(Seq::filter);
        }
        assert(uts_view(entries@) =~= Seq::<UtV>::empty());
        assert(pairs_view(files@) =~= Seq::<(Seq<char>, Seq<char>)>::empty());
        assert(strs(generated@) =~= Seq::<Seq<char>>::empty());
        while i < contracts.len()
            invariant
                i <= contracts.len(),
                cs == contracts_view(contracts@),
                pred == (|c: ContractV| contract_ready(c)),
                fw == framework@,
                uts_view(entries@) == cs.take(i as int).filter(pred).map_values(|c: ContractV| ui_entry(c, fw)),
                pairs_view(files@) == cs.take(i as int).filter(pred).map_values(|c: ContractV| ui_file(c)),
                strs(generated@) == cs.take(i as int).filter(pred).map_values(|c: ContractV| ui_rel(c.0)),
            decreases contracts.len() - i,
        {
            proof {
                assert(cs.take(i + 1) == cs.take(i as int).push(cs[i as int]));
                cs.take(i as int).lemma_filter_push(cs[i as int], pred);
            }
            let c = &contracts[i];
            if c.is_implementation_ready() {
                let test_id = cat("UIT-", c.model_id.as_str());
                let slug = slugify(c.model_id.as_str());
                let rel = cat3(".mdd/tests/ui/", slug.as_str(), ".spec.ts");
                let content = playwright_test_scaffold(test_id.as_str(), c);
                let ghost e0 = uts_view(entries@);
                let ghost f0 = pairs_view(files@);
                let ghost g0 = strs(generated@);
                entries.push(
                    GeneratedUiTest { id: test_id, path: rel.clone(), model_id: c.model_id.clone(), framework: framework.clone() },
                );
                files.push((rel.clone(), content));
                generated.push(rel);
                proof {
                    let fl = cs.take(i as int).filter(pred);
                    let x = cs[i as int];
                    assert(fl.push(x).map_values(|c: ContractV| ui_entry(c, fw)) =~= fl.map_values(
                        |c: ContractV| ui_entry(c, fw),
                    ).push(ui_entry(x, fw)));
                    assert(uts_view(entries@) =~= e0.push(ui_entry(x, fw)));
                    assert(fl.push(x).map_values(|c: ContractV| ui_file(c)) =~= fl.map_values(|c: ContractV| ui_file(c)).push(
                        ui_file(x),
                    ));
                    assert(pairs_view(files@) =~= f0.push(ui_file(x)));
                    assert(fl.push(x).map_values(|c: ContractV| ui_rel(c.0)) =~= fl.map_values(|c: ContractV| ui_rel(c.0)).push(
                        ui_rel(x.0),
                    ));
                    assert(strs(generated@) =~= g0.push(ui_rel(x.0)));
                }
            }
            i = i + 1;
        }
        assert(cs.take(contracts.len() as int) == cs);
        if generated.len() == 0 {
            return Err(owned("no implementation-ready mockup contracts found"));
        }
        record_ui_tests(trace, &entries);
        Ok((TestGenerationReport { generated, trace_path: owned(TRACE_FILE) }, files))
    }
}

} // verus!
