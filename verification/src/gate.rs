//! The code gate: whether implementation may proceed, and what to warn of.
use vstd::prelude::*;
use crate::model::{
    ApprovalStatus, CodeGateReport, GeneratedTest, GeneratedUiTest, ModelFile, ModelKind, Trace, ValidationReport,
};
use crate::order::sorted_contains;
use crate::project::{FileV, Project, mfiles_view};
use crate::text::{cat, owned, str_eq, strs};
use crate::validation::{clone_strings, collect_ids, sorted_ids};

verus! {

/// The state of a diagram's rendered SVG.
#[derive(Clone, Copy, PartialEq, Eq, Structural, Debug)]
pub enum RenderState {
    Missing,
    Stale,
    Current,
}

/// The model ids that have a generated acceptance test.
pub open spec fn tested_models(ts: Seq<GeneratedTest>) -> Seq<Seq<char>> {
    ts.map_values(|t: GeneratedTest| t.model_id@)
}

/// The model ids that have a generated Playwright test.
pub open spec fn ui_tested_models(ts: Seq<GeneratedUiTest>) -> Seq<Seq<char>> {
    ts.filter(|t: GeneratedUiTest| t.framework@ == "playwright"@).map_values(|t: GeneratedUiTest| t.model_id@)
}

/// A warning for each id that `covered` lacks.
pub open spec fn uncovered(ids: Seq<Seq<char>>, covered: Seq<Seq<char>>, prefix: Seq<char>) -> Seq<Seq<char>> {
    ids.filter(|id: Seq<char>| !covered.contains(id)).map_values(|id: Seq<char>| prefix + id)
}

/// The render warnings of the non-constraint diagrams.
pub open spec fn render_warnings(files: Seq<FileV>, states: Seq<RenderState>) -> Seq<Seq<char>>
    decreases files.len(),
{
    if files.len() == 0 {
        seq![]
    } else {
        let f = files.last();
        let st = states[files.len() - 1];
        render_warnings(files.drop_last(), states) + (if f.1 == ModelKind::Constraint {
            seq![]
        } else {
            match st {
                RenderState::Missing => seq!["rendered SVG is missing for "@ + f.0],
                RenderState::Stale => seq!["rendered SVG is stale for "@ + f.0],
                RenderState::Current => seq![],
            }
        })
    }
}

/// The warnings of the code gate, in order.
pub open spec fn gate_warnings(
    validation: ValidationReport,
    approval: ApprovalStatus,
    trace: Trace,
    states: Seq<RenderState>,
) -> Seq<Seq<char>> {
    let ids = validation.registry.ids@;
    let use_cases = sorted_ids(ids, Some(ModelKind::UseCase), None);
    let mockups = sorted_ids(ids, Some(ModelKind::Mockup), None);
    strs(validation.warnings@) + (if !approval.approved || !approval.current {
        strs(approval.errors@)
    } else {
        seq![]
    }) + uncovered(use_cases, tested_models(trace.generated_tests@), "use case has no generated acceptance test: "@)
        + (if trace.generated_tests@.len() == 0 {
        seq!["no generated acceptance tests found"@]
    } else {
        seq![]
    }) + uncovered(mockups, ui_tested_models(trace.generated_ui_tests@), "mockup has no generated UI test: "@) + (
    if mockups.len() > 0 && trace.generated_ui_tests@.len() == 0 {
        seq!["no generated UI tests found"@]
    } else {
        seq![]
    }) + render_warnings(mfiles_view(validation.registry.files@), states) + (
    if validation.registry.files@.len() == 0 {
        seq!["no model files were discovered"@]
    } else {
        seq![]
    })
}

fn tested_models_exec(ts: &Vec<GeneratedTest>) -> (r: Vec<String>)
    ensures
        strs(r@) == tested_models(ts@),
{
    let mut r: Vec<String> = Vec::new();
    let mut i: usize = 0;
    while i < ts.len()
        invariant
            i <= ts.len(),
            strs(r@) == tested_models(ts@).take(i as int),
        decreases ts.len() - i,
    {
        let ghost r0 = strs(r@);
        r.push(ts[i].model_id.clone());
        assert(strs(r@) =~= r0.push(tested_models(ts@)[i as int]));
        assert(tested_models(ts@).take(i + 1) =~= tested_models(ts@).take(i as int).push(tested_models(ts@)[i as int]));
        i = i + 1;
    }
    assert(tested_models(ts@).take(ts.len() as int) =~= tested_models(ts@));
    r
}

fn ui_tested_models_exec(ts: &Vec<GeneratedUiTest>) -> (r: Vec<String>)
    ensures
        strs(r@) == ui_tested_models(ts@),
{
    let ghost pred = |t: GeneratedUiTest| t.framework@ == "playwright"@;
    let ghost f = |t: GeneratedUiTest| t.model_id@;
    let mut r: Vec<String> = Vec::new();
    let mut i: usize = 0;
    assert(ts@.take(0).filter(pred) =~= Seq::<GeneratedUiTest>::empty()) by {
        reveal(Seq::filter);
    }
    assert(strs(r@) =~= Seq::<Seq<char>>::empty());
    while i < ts.len()
        invariant
            i <= ts.len(),
            pred == (|t: GeneratedUiTest| t.framework@ == "playwright"@),
            f == (|t: GeneratedUiTest| t.model_id@),
            strs(r@) == ts@.take(i as int).filter(pred).map_values(f),
        decreases ts.len() - i,
    {
        proof {
            assert(ts@.take(i + 1) == ts@.take(i as int).push(ts@[i as int]));
            ts@.take(i as int).lemma_filter_push(ts@[i as int], pred);
        }
        if str_eq(ts[i].framework.as_str(), "playwright") {
            let ghost r0 = strs(r@);
            r.push(ts[i].model_id.clone());
            let ghost fl = ts@.take(i as int).filter(pred);
            assert(fl.push(ts@[i as int]).map_values(f) =~= fl.map_values(f).push(f(ts@[i as int])));
            assert(strs(r@) =~= r0.push(f(ts@[i as int])));
        }
        i = i + 1;
    }
    assert(ts@.take(ts.len() as int) == ts@);
    r
}

fn push_uncovered(out: &mut Vec<String>, ids: &Vec<String>, covered: &Vec<String>, prefix: &str)
    ensures
        strs(final(out)@) == strs(old(out)@) + uncovered(strs(ids@), strs(covered@), prefix@),
{
    let ghost iv = strs(ids@);
    let ghost cv = strs(covered@);
    let ghost pred = |id: Seq<char>| !cv.contains(id);
    let ghost f = |id: Seq<char>| prefix@ + id;
    let ghost o0 = strs(out@);
    let mut i: usize = 0;
    assert(iv.take(0).filter(pred) =~= Seq::<Seq<char>>::empty()) by {
        reveal(Seq::filter);
    }
    assert(o0 + Seq::<Seq<char>>::empty().map_values(f) =~= o0);
    while i < ids.len()
        invariant
            i <= ids.len(),
            iv == strs(ids@),
            cv == strs(covered@),
            pred == (|id: Seq<char>| !cv.contains(id)),
            f == (|id: Seq<char>| prefix@ + id),
            strs(out@) == o0 + iv.take(i as int).filter(pred).map_values(f),
        decreases ids.len() - i,
    {
        proof {
            assert(iv.take(i + 1) == iv.take(i as int).push(iv[i as int]));
            iv.take(i as int).lemma_filter_push(iv[i as int], pred);
        }
        if !sorted_contains(covered, ids[i].as_str()) {
            let ghost r0 = strs(out@);
            out.push(cat(prefix, ids[i].as_str()));
            let ghost fl = iv.take(i as int).filter(pred);
            assert(fl.push(iv[i as int]).map_values(f) =~= fl.map_values(f).push(f(iv[i as int])));
            assert(strs(out@) =~= r0.push(f(iv[i as int])));
        }
        i = i + 1;
    }
    assert(iv.take(ids.len() as int) == iv);
}

fn push_render_warnings(out: &mut Vec<String>, files: &Vec<ModelFile>, states: &Vec<RenderState>)
    requires
        states@.len() == files@.len(),
    ensures
        strs(final(out)@) == strs(old(out)@) + render_warnings(mfiles_view(files@), states@),
{
    let ghost fs = mfiles_view(files@);
    let ghost o0 = strs(out@);
    let mut i: usize = 0;
    assert(fs.take(0) =~= Seq::<FileV>::empty());
    assert(o0 + Seq::<Seq<char>>::empty() =~= o0);
    while i < files.len()
        invariant
            i <= files.len(),
            states@.len() == files@.len(),
            fs == mfiles_view(files@),
            strs(out@) == o0 + render_warnings(fs.take(i as int), states@),
        decreases files.len() - i,
    {
        proof {
            assert(fs.take(i + 1).drop_last() == fs.take(i as int));
            assert(fs.take(i + 1).last() == fs[i as int]);
        }
        let ghost r0 = strs(out@);
        if files[i].kind != ModelKind::Constraint {
            match states[i] {
                RenderState::Missing => {
                    out.push(cat("rendered SVG is missing for ", files[i].path.as_str()));
                    assert(strs(out@) =~= r0 + seq!["rendered SVG is missing for "@ + fs[i as int].0]);
                },
                RenderState::Stale => {
                    out.push(cat("rendered SVG is stale for ", files[i].path.as_str()));
                    assert(strs(out@) =~= r0 + seq!["rendered SVG is stale for "@ + fs[i as int].0]);
                },
                RenderState::Current => {
                    assert(strs(out@) =~= r0 + Seq::<Seq<char>>::empty());
                },
            }
        } else {
            assert(strs(out@) =~= r0 + Seq::<Seq<char>>::empty());
        }
        i = i + 1;
    }
    assert(fs.take(files.len() as int) == fs);
}

fn push_all(out: &mut Vec<String>, v: &Vec<String>)
    ensures
        strs(final(out)@) == strs(old(out)@) + strs(v@),
{
    let ghost o0 = strs(out@);
    let mut i: usize = 0;
    while i < v.len()
        invariant
            i <= v.len(),
            strs(out@) == o0 + strs(v@).take(i as int),
        decreases v.len() - i,
    {
        let ghost r0 = strs(out@);
        out.push(v[i].clone());
        assert(strs(out@) =~= r0.push(strs(v@)[i as int]));
        assert(strs(v@).take(i + 1) =~= strs(v@).take(i as int).push(strs(v@)[i as int]));
        i = i + 1;
    }
    assert(strs(v@).take(v.len() as int) =~= strs(v@));
}

fn push_one(out: &mut Vec<String>, msg: &str)
    ensures
        strs(final(out)@) == strs(old(out)@) + seq![msg@],
{
    let ghost r0 = strs(out@);
    out.push(owned(msg));
    assert(strs(out@) =~= r0 + seq![msg@]);
}

impl Project {
    /// The code gate: the validation's errors block; its warnings, the
    /// approval's errors (when the models are not approved or changed since),
    /// use cases and mockups without a generated test, missing and stale
    /// renders (`states` holds the render state of each registry file, in
    /// registry order), and an empty model set are warnings.
    pub fn code_gate(
        &self,
        validation: &ValidationReport,
        approval: &ApprovalStatus,
        trace: &Trace,
        states: &Vec<RenderState>,
    ) -> (r: CodeGateReport)
        requires
            states@.len() == validation.registry.files@.len(),
        ensures
            strs(r.errors@) == strs(validation.errors@),
            r.ok == (validation.errors@.len() == 0),
            strs(r.warnings@) == gate_warnings(*validation, *approval, *trace, states@),
    {
        let errors = clone_strings(&validation.errors);
        let mut warnings = clone_strings(&validation.warnings);
        let ghost w0 = strs(warnings@);
        if !approval.approved || !approval.current {
            push_all(&mut warnings, &approval.errors);
        } else {
            assert(strs(warnings@) =~= w0 + Seq::<Seq<char>>::empty());
        }
        let use_cases = collect_ids(&validation.registry.ids, Some(ModelKind::UseCase), None);
        let mockups = collect_ids(&validation.registry.ids, Some(ModelKind::Mockup), None);
        proof {
            crate::cycle::lemma_sorted_of(strs(use_cases@));
            crate::cycle::lemma_sorted_of(strs(mockups@));
        }
        let tested = tested_models_exec(&trace.generated_tests);
        let ui_tested = ui_tested_models_exec(&trace.generated_ui_tests);
        push_uncovered(&mut warnings, &use_cases, &tested, "use case has no generated acceptance test: ");
        let ghost w1 = strs(warnings@);
        if trace.generated_tests.len() == 0 {
            push_one(&mut warnings, "no generated acceptance tests found");
        } else {
            assert(strs(warnings@) =~= w1 + Seq::<Seq<char>>::empty());
        }
        push_uncovered(&mut warnings, &mockups, &ui_tested, "mockup has no generated UI test: ");
        let ghost w2 = strs(warnings@);
        if mockups.len() > 0 && trace.generated_ui_tests.len() == 0 {
            push_one(&mut warnings, "no generated UI tests found");
        } else {
            assert(strs(warnings@) =~= w2 + Seq::<Seq<char>>::empty());
        }
        push_render_warnings(&mut warnings, &validation.registry.files, states);
        let ghost w3 = strs(warnings@);
        if validation.registry.files.len() == 0 {
            push_one(&mut warnings, "no model files were discovered");
        } else {
            assert(strs(warnings@) =~= w3 + Seq::<Seq<char>>::empty());
        }
        let ok = errors.len() == 0;
        assert(strs(errors@).len() == errors@.len());
        assert(strs(validation.errors@).len() == validation.errors@.len());
        CodeGateReport { ok, errors, warnings }
    }
}

} // verus!
