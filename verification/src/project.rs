//! `Project`: the decisions of the MDD workflow commands over what was read
//! from a project directory (configuration, trace, evidence, file contents).
//! Reading and writing files is left to the caller.
use vstd::prelude::*;
use crate::model::{
    ModelElement, ModelFile, ModelKind, ModelRegistry, ModelSide, APPROVALS_FILE, ApprovalReport, ApprovalStatus, ApprovedFile, Approvals, ValidationReport, GapTest, GreenGateReport, MDD_DIR, MddConfig, ParityMode, RedGreenReport, TestEvidence, TestExpect, TestLayerConfig, TestLink,
    TestPhaseResult, TestPlanStep, TestRunResult, Trace, layer_name, links_view, opt_view, unified_spec,
};
use crate::order::{lemma_lex_total, lemma_lex_trans, lemma_lex_asym, lemma_stable_pos, lex_lt, stable_pos, stable_sort, stable_insert};
use crate::digest::{sha256_hex, sha256_hex_of};
use crate::strings::pairs_insert;
use crate::strings::{KeyMap, pairs_get};
use crate::text::{cat, chars_of, ends_with, owned, push_str, str_eq, strs};

verus! {

/// An MDD project rooted at a directory.
pub struct Project {
    root: String,
}

/// `Path::join`: an absolute `rel` replaces `base`; otherwise a separator
/// is added unless `base` is empty or already ends with one.
pub open spec fn path_join(base: Seq<char>, rel: Seq<char>) -> Seq<char> {
    if rel.len() > 0 && rel[0] == '/' {
        rel
    } else if base.len() == 0 {
        rel
    } else if base.last() == '/' {
        base + rel
    } else {
        base + "/"@ + rel
    }
}

/// `Path::join` on path text.
pub fn join_path(base: &str, rel: &str) -> (r: String)
    ensures
        r@ == path_join(base@, rel@),
{
    let b = chars_of(base);
    let rc = chars_of(rel);
    if rc.len() > 0 && rc[0] == '/' {
        owned(rel)
    } else if b.len() == 0 {
        owned(rel)
    } else if b[b.len() - 1] == '/' {
        cat(base, rel)
    } else {
        crate::text::cat3(base, "/", rel)
    }
}

/// The ids of the still-red results: those with a non-zero exit code.
pub open spec fn red_ids(rs: Seq<TestRunResult>) -> Seq<Seq<char>>
    decreases rs.len(),
{
    if rs.len() == 0 {
        seq![]
    } else {
        let rest = red_ids(rs.drop_last());
        if rs.last().exit_code != 0 {
            rest.push(rs.last().id@)
        } else {
            rest
        }
    }
}

/// Whether some result carries the id.
pub open spec fn has_result(rs: Seq<TestRunResult>, id: Seq<char>) -> bool {
    exists|j: int| 0 <= j < rs.len() && #[trigger] rs[j].id@ == id
}

/// The planned ids that no result carries, in plan order.
pub open spec fn missing_ids(plan: Seq<TestPlanStep>, rs: Seq<TestRunResult>) -> Seq<Seq<char>>
    decreases plan.len(),
{
    if plan.len() == 0 {
        seq![]
    } else {
        let rest = missing_ids(plan.drop_last(), rs);
        if has_result(rs, plan.last().id@) {
            rest
        } else {
            rest.push(plan.last().id@)
        }
    }
}

/// The still-red ids: the failing results in result order, then the
/// planned tests without a result in plan order.
pub open spec fn still_red_ids(plan: Seq<TestPlanStep>, rs: Seq<TestRunResult>) -> Seq<Seq<char>> {
    red_ids(rs) + missing_ids(plan, rs)
}

fn has_result_exec(rs: &Vec<TestRunResult>, id: &String) -> (b: bool)
    ensures
        b == has_result(rs@, id@),
{
    let mut j: usize = 0;
    while j < rs.len()
        invariant
            j <= rs.len(),
            forall|q: int| 0 <= q < j ==> rs@[q].id@ != id@,
        decreases rs.len() - j,
    {
        if str_eq(rs[j].id.as_str(), id.as_str()) {
            assert(rs@[j as int].id@ == id@);
            return true;
        }
        j = j + 1;
    }
    false
}

/// The first gap test of the evidence with id `id`.
pub open spec fn evidence_for(gs: Seq<GapTest>, id: Seq<char>, i: int) -> Option<GapTest>
    decreases gs.len() - i,
{
    if i < 0 || i >= gs.len() {
        None
    } else if gs[i].id@ == id {
        Some(gs[i])
    } else {
        evidence_for(gs, id, i + 1)
    }
}

/// The red phase was recorded as a failure with a non-zero exit code.
pub open spec fn red_failed(g: GapTest) -> bool {
    match g.red {
        Some(r) => r.result == TestPhaseResult::Fail && r.exit_code != 0,
        None => false,
    }
}

/// The green phase was recorded as a pass with exit code zero.
pub open spec fn green_passed(g: GapTest) -> bool {
    match g.green {
        Some(r) => r.result == TestPhaseResult::Pass && r.exit_code == 0,
        None => false,
    }
}

/// The gap test recorded for `id`, if any.
pub open spec fn entry_of(evidence: Option<&TestEvidence>, id: Seq<char>) -> Option<GapTest> {
    match evidence {
        Some(e) => evidence_for(e.gap_tests@, id, 0),
        None => None,
    }
}

/// The three red-green buckets for the gap ids, in order.
pub open spec fn red_green_buckets(evidence: Option<&TestEvidence>, ids: Seq<Seq<char>>) -> (
    Seq<Seq<char>>,
    Seq<Seq<char>>,
    Seq<Seq<char>>,
)
    decreases ids.len(),
{
    if ids.len() == 0 {
        (seq![], seq![], seq![])
    } else {
        let (m, n, s) = red_green_buckets(evidence, ids.drop_last());
        let id = ids.last();
        match entry_of(evidence, id) {
            None => (m.push(id), n, s),
            Some(g) => (
                m,
                if red_failed(g) {
                    n
                } else {
                    n.push(id)
                },
                if green_passed(g) {
                    s
                } else {
                    s.push(id)
                },
            ),
        }
    }
}

/// The `ui` layer's configured framework when non-empty, else `playwright`.
pub open spec fn ui_framework_spec(layers: Seq<(Seq<char>, (Seq<char>, Seq<char>))>) -> Seq<char> {
    match pairs_get(layers, "ui"@) {
        Some(l) => if l.0.len() > 0 {
            l.0
        } else {
            "playwright"@
        },
        None => "playwright"@,
    }
}

/// The framework of a UI test when none is configured.
pub fn default_ui_test_framework() -> (r: String)
    ensures
        r@ == "playwright"@,
{
    owned("playwright")
}

/// The index of the first candidate at or after `i` that is marked.
pub open spec fn first_marked(cs: Seq<(String, bool)>, i: int) -> Option<int>
    decreases cs.len() - i,
{
    if i < 0 || i >= cs.len() {
        None
    } else if cs[i].1 {
        Some(i)
    } else {
        first_marked(cs, i + 1)
    }
}

impl Project {
    /// The project root as given.
    pub closed spec fn root_path(&self) -> Seq<char> {
        self.root@
    }

    pub fn at(root: String) -> (p: Project)
        ensures
            p.root_path() == root@,
    {
        Project { root }
    }

    /// The project governing a directory: the nearest of `candidates` (the
    /// directory, then each ancestor, each with whether it holds a `.mdd`
    /// directory) that holds one.
    pub fn discover(candidates: &Vec<(String, bool)>) -> (r: Result<Project, String>)
        ensures
            match first_marked(candidates@, 0) {
                Some(i) => r matches Ok(p) && p.root_path() == candidates@[i].0@,
                None => r matches Err(e) && e@ == "could not find a .mdd directory; run `mdd init` first"@,
            },
    {
        let mut i: usize = 0;
        while i < candidates.len()
            invariant
                i <= candidates.len(),
                first_marked(candidates@, 0) == first_marked(candidates@, i as int),
            decreases candidates.len() - i,
        {
            if candidates[i].1 {
                return Ok(Project::at(candidates[i].0.clone()));
            }
            i = i + 1;
        }
        Err(owned("could not find a .mdd directory; run `mdd init` first"))
    }

    pub fn root(&self) -> (r: &str)
        ensures
            r@ == self.root_path(),
    {
        self.root.as_str()
    }

    /// `<root>/.mdd`.
    pub fn mdd_dir(&self) -> (r: String)
        ensures
            r@ == path_join(self.root_path(), MDD_DIR@),
    {
        join_path(self.root.as_str(), MDD_DIR)
    }

    /// The verdict over the planned tests: a test is still red when its
    /// exit code is non-zero or when the plan holds it and no result does.
    /// The verdict blocks only when one is still red and the configured test
    /// severity is `Error`.
    pub fn evaluate_green_gate(&self, config: &MddConfig, plan: &Vec<TestPlanStep>, results: &Vec<TestRunResult>) -> (r:
        GreenGateReport)
        ensures
            strs(r.still_red@) == still_red_ids(plan@, results@),
            r.all_green == (still_red_ids(plan@, results@).len() == 0),
            r.blocking == (!r.all_green && config.test.gate == ParityMode::Error),
    {
        let mut still_red: Vec<String> = Vec::new();
        let mut i: usize = 0;
        assert(results@.take(0) =~= Seq::<TestRunResult>::empty());
        while i < results.len()
            invariant
                i <= results.len(),
                strs(still_red@) == red_ids(results@.take(i as int)),
            decreases results.len() - i,
        {
            proof {
                assert(results@.take(i + 1).drop_last() == results@.take(i as int));
                assert(results@.take(i + 1).last() == results@[i as int]);
            }
            if results[i].exit_code != 0 {
                let ghost s0 = strs(still_red@);
                still_red.push(results[i].id.clone());
                assert(strs(still_red@) =~= s0.push(results@[i as int].id@));
            }
            i = i + 1;
        }
        assert(results@.take(results.len() as int) == results@);
        let ghost reds = strs(still_red@);
        let mut k: usize = 0;
        assert(plan@.take(0) =~= Seq::<TestPlanStep>::empty());
        while k < plan.len()
            invariant
                k <= plan.len(),
                reds == red_ids(results@),
                strs(still_red@) == reds + missing_ids(plan@.take(k as int), results@),
            decreases plan.len() - k,
        {
            proof {
                assert(plan@.take(k + 1).drop_last() == plan@.take(k as int));
                assert(plan@.take(k + 1).last() == plan@[k as int]);
            }
            let found = has_result_exec(results, &plan[k].id);
            if !found {
                let ghost s0 = strs(still_red@);
                still_red.push(plan[k].id.clone());
                assert(strs(still_red@) =~= s0.push(plan@[k as int].id@));
            }
            k = k + 1;
        }
        assert(plan@.take(plan.len() as int) == plan@);
        let all_green = still_red.len() == 0;
        GreenGateReport {
            all_green,
            blocking: !all_green && config.test.gate == ParityMode::Error,
            still_red,
        }
    }

    /// The verdict on gap tests: every gap id needs an evidence entry whose
    /// red phase failed and whose green phase passed. Ids without an entry
    /// are `missing_evidence`; with an entry, a red phase that did not fail
    /// is `not_red_first` and a green phase that did not pass `still_red`.
    /// No gap ids is vacuously satisfied.
    pub fn evaluate_red_green_gate(&self, evidence: Option<&TestEvidence>, gap_ids: &Vec<String>) -> (r:
        RedGreenReport)
        ensures
            (strs(r.missing_evidence@), strs(r.not_red_first@), strs(r.still_red@))
                == red_green_buckets(evidence, strs(gap_ids@)),
            r.satisfied == (r.missing_evidence@.len() == 0 && r.not_red_first@.len() == 0
                && r.still_red@.len() == 0),
    {
        let mut missing: Vec<String> = Vec::new();
        let mut not_red: Vec<String> = Vec::new();
        let mut still: Vec<String> = Vec::new();
        let ghost ids = strs(gap_ids@);
        let mut i: usize = 0;
        assert(ids.take(0) =~= Seq::<Seq<char>>::empty());
        while i < gap_ids.len()
            invariant
                i <= gap_ids.len(),
                ids == strs(gap_ids@),
                (strs(missing@), strs(not_red@), strs(still@)) == red_green_buckets(
                    evidence,
                    ids.take(i as int),
                ),
            decreases gap_ids.len() - i,
        {
            let id = &gap_ids[i];
            proof {
                assert(ids.take(i + 1).drop_last() == ids.take(i as int));
                assert(ids.take(i + 1).last() == id@);
            }
            let entry = find_gap_test(evidence, id.as_str());
            let ghost m0 = strs(missing@);
            let ghost n0 = strs(not_red@);
            let ghost s0 = strs(still@);
            match entry {
                None => {
                    missing.push(id.clone());
                    assert(strs(missing@) =~= m0.push(id@));
                },
                Some(g) => {
                    let red_ok = match &g.red {
                        Some(r) => r.result == TestPhaseResult::Fail && r.exit_code != 0,
                        None => false,
                    };
                    let green_ok = match &g.green {
                        Some(r) => r.result == TestPhaseResult::Pass && r.exit_code == 0,
                        None => false,
                    };
                    if !red_ok {
                        not_red.push(id.clone());
                        assert(strs(not_red@) =~= n0.push(id@));
                    }
                    if !green_ok {
                        still.push(id.clone());
                        assert(strs(still@) =~= s0.push(id@));
                    }
                },
            }
            i = i + 1;
        }
        assert(ids.take(gap_ids.len() as int) == ids);
        RedGreenReport {
            satisfied: missing.len() == 0 && not_red.len() == 0 && still.len() == 0,
            missing_evidence: missing,
            not_red_first: not_red,
            still_red: still,
        }
    }

    /// The framework for an authored UI test: the `ui` layer's configured
    /// framework when present and non-empty, else `playwright`.
    pub fn resolve_ui_framework(&self, config: &MddConfig) -> (r: String)
        ensures
            r@ == ui_framework_spec(config.test.layers@),
    {
        match config.test.layers.get("ui") {
            Some(l) => {
                if chars_of(l.framework.as_str()).len() > 0 {
                    l.framework.clone()
                } else {
                    default_ui_test_framework()
                }
            },
            None => default_ui_test_framework(),
        }
    }
}

/// The first gap test of the evidence with the given id.
fn find_gap_test<'a>(evidence: Option<&'a TestEvidence>, id: &str) -> (r: Option<&'a GapTest>)
    ensures
        match r {
            Some(g) => entry_of(evidence, id@) == Some(*g),
            None => entry_of(evidence, id@) is None,
        },
{
    match evidence {
        None => None,
        Some(e) => {
            let mut i: usize = 0;
            while i < e.gap_tests.len()
                invariant
                    i <= e.gap_tests.len(),
                    evidence == Some(e),
                    evidence_for(e.gap_tests@, id@, 0) == evidence_for(e.gap_tests@, id@, i as int),
                decreases e.gap_tests.len() - i,
            {
                if str_eq(e.gap_tests[i].id.as_str(), id) {
                    return Some(&e.gap_tests[i]);
                }
                i = i + 1;
            }
            None
        },
    }
}

// ---------------------------------------------------------------------------
// Test plan

pub type StepV = (Seq<char>, Seq<char>, Seq<char>, Seq<char>, Option<Seq<char>>, TestExpect, bool);

impl View for TestPlanStep {
    type V = StepV;

    open spec fn view(&self) -> StepV {
        (
            self.layer@,
            self.id@,
            self.model_id@,
            self.command@,
            opt_view(self.cwd),
            self.expect,
            self.is_gap,
        )
    }
}

pub open spec fn steps_view(v: Seq<TestPlanStep>) -> Seq<StepV> {
    v.map_values(|s: TestPlanStep| s@)
}

/// Taxonomy order of the layers.
pub open spec fn layer_rank(l: Seq<char>) -> int {
    if l == "unit"@ {
        0
    } else if l == "integration"@ {
        1
    } else if l == "e2e"@ {
        2
    } else if l == "acceptance"@ {
        3
    } else if l == "ui"@ {
        4
    } else if l == "security"@ {
        5
    } else {
        6
    }
}

/// Plan order: layer rank, then id.
pub open spec fn step_lt(a: StepV, b: StepV) -> bool {
    layer_rank(a.0) < layer_rank(b.0) || (layer_rank(a.0) == layer_rank(b.0) && lex_lt(a.1, b.1))
}

/// Insert `x` after every element that does not sort after it (a stable
/// insertion).
pub open spec fn sorted_insert(s: Seq<StepV>, x: StepV) -> Seq<StepV>
    decreases s.len(),
{
    if s.len() == 0 || !step_lt(x, s.last()) {
        s.push(x)
    } else {
        sorted_insert(s.drop_last(), x).push(s.last())
    }
}

/// The stable sort of the steps in plan order.
pub open spec fn sort_steps(s: Seq<StepV>) -> Seq<StepV>
    decreases s.len(),
{
    if s.len() == 0 {
        seq![]
    } else {
        sorted_insert(sort_steps(s.drop_last()), s.last())
    }
}

/// No element sorts before an earlier one.
pub open spec fn plan_ordered(s: Seq<StepV>) -> bool {
    forall|i: int, j: int| 0 <= i < j < s.len() ==> !step_lt(s[j], s[i])
}

/// The plan step of a test whose layer is configured.
pub open spec fn step_for(
    t: (Seq<char>, Seq<char>, Seq<char>, crate::model::TestLayer, Option<Seq<char>>, TestExpect),
    layers: Seq<(Seq<char>, (Seq<char>, Seq<char>))>,
) -> Option<StepV> {
    match pairs_get(layers, layer_name(t.3)) {
        Some(cfg) => Some(
            (layer_name(t.3), t.0, t.2, cfg.1, None, t.5, t.5 == TestExpect::RedUntilImplemented),
        ),
        None => None,
    }
}

/// The steps of the tests whose layer is configured, in trace order.
pub open spec fn plan_steps(
    ts: Seq<(Seq<char>, Seq<char>, Seq<char>, crate::model::TestLayer, Option<Seq<char>>, TestExpect)>,
    layers: Seq<(Seq<char>, (Seq<char>, Seq<char>))>,
) -> Seq<StepV>
    decreases ts.len(),
{
    if ts.len() == 0 {
        seq![]
    } else {
        let rest = plan_steps(ts.drop_last(), layers);
        match step_for(ts.last(), layers) {
            Some(st) => rest.push(st),
            None => rest,
        }
    }
}

/// Where `sorted_insert` places `x`: after the last element `x` does not
/// sort before.
pub open spec fn insert_pos(s: Seq<StepV>, x: StepV) -> int
    decreases s.len(),
{
    if s.len() == 0 || !step_lt(x, s.last()) {
        s.len() as int
    } else {
        insert_pos(s.drop_last(), x)
    }
}

proof fn lemma_insert_pos(s: Seq<StepV>, x: StepV)
    ensures
        0 <= insert_pos(s, x) <= s.len(),
        sorted_insert(s, x) == s.insert(insert_pos(s, x), x),
        forall|k: int| insert_pos(s, x) <= k < s.len() ==> step_lt(x, #[trigger] s[k]),
    decreases s.len(),
{
    if s.len() == 0 || !step_lt(x, s.last()) {
        assert(s.push(x) =~= s.insert(s.len() as int, x));
    } else {
        lemma_insert_pos(s.drop_last(), x);
        let p = insert_pos(s.drop_last(), x);
        assert(sorted_insert(s.drop_last(), x).push(s.last()) =~= s.insert(p, x));
        assert forall|k: int| p <= k < s.len() implies step_lt(x, #[trigger] s[k]) by {
            if k < s.len() - 1 {
                assert(s[k] == s.drop_last()[k]);
            }
        }
    }
}

proof fn lemma_step_not_lt_trans(a: StepV, b: StepV, c: StepV)
    requires
        !step_lt(b, a),
        !step_lt(c, b),
    ensures
        !step_lt(c, a),
{
    lemma_lex_total(a.1, b.1);
    lemma_lex_total(b.1, c.1);
    if step_lt(c, a) {
        if layer_rank(a.0) == layer_rank(b.0) && layer_rank(b.0) == layer_rank(c.0) {
            lemma_lex_trans(c.1, a.1, b.1);
        }
    }
}

proof fn lemma_sorted_insert_ordered(s: Seq<StepV>, x: StepV)
    requires
        plan_ordered(s),
    ensures
        plan_ordered(sorted_insert(s, x)),
{
    lemma_insert_pos(s, x);
    let p = insert_pos(s, x);
    let r = s.insert(p, x);
    assert forall|i: int, j: int| 0 <= i < j < r.len() implies !step_lt(r[j], r[i]) by {
        if j < p {
        } else if j == p {
            // every element before p is not after x
            if i < p {
                if p > 0 {
                    // s[p-1] is not after x
                    assert(!step_lt(x, s[p - 1])) by {
                        lemma_insert_pos_prev(s, x);
                    }
                    if i < p - 1 {
                        lemma_step_not_lt_trans(s[i], s[p - 1], x);
                    }
                }
            }
        } else if i == p {
            assert(r[j] == s[j - 1]);
            assert(step_lt(x, s[j - 1]));
            lemma_lex_asym_step(x, s[j - 1]);
        } else if i < p {
            assert(r[j] == s[j - 1]);
        } else {
            assert(r[j] == s[j - 1]);
            assert(r[i] == s[i - 1]);
        }
    }
}

proof fn lemma_lex_asym_step(a: StepV, b: StepV)
    requires
        step_lt(a, b),
    ensures
        !step_lt(b, a),
{
    if layer_rank(a.0) == layer_rank(b.0) {
        lemma_lex_asym(a.1, b.1);
    }
}

proof fn lemma_insert_pos_prev(s: Seq<StepV>, x: StepV)
    requires
        insert_pos(s, x) > 0,
    ensures
        !step_lt(x, s[insert_pos(s, x) - 1]),
    decreases s.len(),
{
    if s.len() == 0 || !step_lt(x, s.last()) {
    } else {
        lemma_insert_pos(s.drop_last(), x);
        lemma_insert_pos_prev(s.drop_last(), x);
        assert(s[insert_pos(s, x) - 1] == s.drop_last()[insert_pos(s, x) - 1]);
    }
}

proof fn lemma_sort_steps_ordered(s: Seq<StepV>)
    ensures
        plan_ordered(sort_steps(s)),
    decreases s.len(),
{
    if s.len() > 0 {
        lemma_sort_steps_ordered(s.drop_last());
        lemma_sorted_insert_ordered(sort_steps(s.drop_last()), s.last());
    }
}

fn layer_rank_exec(l: &str) -> (r: u8)
    ensures
        r == layer_rank(l@),
{
    if str_eq(l, "unit") {
        0
    } else if str_eq(l, "integration") {
        1
    } else if str_eq(l, "e2e") {
        2
    } else if str_eq(l, "acceptance") {
        3
    } else if str_eq(l, "ui") {
        4
    } else if str_eq(l, "security") {
        5
    } else {
        6
    }
}

fn step_lt_exec(a: &TestPlanStep, b: &TestPlanStep) -> (r: bool)
    ensures
        r == step_lt(a@, b@),
{
    let ra = layer_rank_exec(a.layer.as_str());
    let rb = layer_rank_exec(b.layer.as_str());
    ra < rb || (ra == rb && crate::order::str_lt(a.id.as_str(), b.id.as_str()))
}

/// Stable insertion of `x` into the plan.
fn insert_step(v: &mut Vec<TestPlanStep>, x: TestPlanStep)
    ensures
        steps_view(final(v)@) == sorted_insert(steps_view(old(v)@), x@),
{
    let ghost s = steps_view(v@);
    proof {
        lemma_insert_pos(s, x@);
    }
    let mut j: usize = v.len();
    assert(s.take(j as int) == s);
    while j > 0 && step_lt_exec(&x, &v[j - 1])
        invariant
            j <= v.len(),
            s == steps_view(v@),
            insert_pos(s, x@) == insert_pos(s.take(j as int), x@),
        decreases j,
    {
        proof {
            assert(s.take(j as int).drop_last() == s.take(j - 1));
            assert(s.take(j as int).last() == s[j - 1]);
        }
        j = j - 1;
    }
    proof {
        if j > 0 {
            assert(s.take(j as int).last() == s[j - 1]);
        }
        assert(insert_pos(s.take(j as int), x@) == j);
    }
    let ghost xv = x@;
    v.insert(j, x);
    assert(steps_view(v@) =~= s.insert(j as int, xv));
}

impl Project {
    /// The test plan: one step per unified test link whose layer is
    /// configured, carrying the layer's command and flagging the gap tests
    /// (`red-until-implemented`), stably ordered by layer (taxonomy order)
    /// then test id. Nothing is run.
    pub fn test_plan(&self, config: &MddConfig, trace: &Trace) -> (r: Vec<TestPlanStep>)
        ensures
            steps_view(r@) == sort_steps(plan_steps(unified_spec(*trace), config.test.layers@)),
            plan_ordered(steps_view(r@)),
    {
        let tests = trace.unified_tests();
        let ghost ts = links_view(tests@);
        let ghost layers = config.test.layers@;
        let mut out: Vec<TestPlanStep> = Vec::new();
        let mut i: usize = 0;
        assert(ts.take(0) =~= Seq::<(Seq<char>, Seq<char>, Seq<char>, crate::model::TestLayer, Option<Seq<char>>, TestExpect)>::empty());
        assert(steps_view(out@) =~= Seq::<StepV>::empty());
        while i < tests.len()
            invariant
                i <= tests.len(),
                ts == links_view(tests@),
                layers == config.test.layers@,
                steps_view(out@) == sort_steps(plan_steps(ts.take(i as int), layers)),
            decreases tests.len() - i,
        {
            let t = &tests[i];
            proof {
                assert(ts.take(i + 1).drop_last() == ts.take(i as int));
                assert(ts.take(i + 1).last() == t@);
            }
            let layer = t.layer.as_str();
            match config.test.layers.get(layer) {
                Some(cfg) => {
                    let step = TestPlanStep {
                        layer: owned(layer),
                        id: t.id.clone(),
                        model_id: t.model_id.clone(),
                        command: cfg.command.clone(),
                        cwd: None,
                        expect: t.expect,
                        is_gap: t.expect == TestExpect::RedUntilImplemented,
                    };
                    proof {
                        assert(pairs_get(layers, layer_name(t@.3)) == Some(cfg@));
                        assert(step_for(t@, layers) == Some(step@));
                        assert(plan_steps(ts.take(i + 1), layers) == plan_steps(ts.take(i as int), layers).push(step@));
                        let p = plan_steps(ts.take(i as int), layers);
                        assert(p.push(step@).drop_last() == p);
                        assert(sort_steps(p.push(step@)) == sorted_insert(sort_steps(p), step@));
                    }
                    insert_step(&mut out, step);
                },
                None => {
                    proof {
                        assert(step_for(t@, layers) is None);
                        assert(plan_steps(ts.take(i + 1), layers) == plan_steps(ts.take(i as int), layers));
                    }
                },
            }
            i = i + 1;
        }
        assert(ts.take(tests.len() as int) == ts);
        proof {
            lemma_sort_steps_ordered(plan_steps(ts, layers));
        }
        out
    }
}

// ---------------------------------------------------------------------------
// Approvals

pub type PairV = (Seq<char>, Seq<char>);

/// A key/value list collected into a map: later keys overwrite earlier.
pub open spec fn insert_all(ps: Seq<PairV>) -> Seq<PairV>
    decreases ps.len(),
{
    if ps.len() == 0 {
        seq![]
    } else {
        pairs_insert(insert_all(ps.drop_last()), ps.last().0, ps.last().1)
    }
}

pub open spec fn approved_pairs(files: Seq<ApprovedFile>) -> Seq<PairV> {
    files.map_values(|f: ApprovedFile| (f.path@, f.sha256@))
}

/// Each current file's path with the digest of its bytes.
pub open spec fn current_pairs(files: Seq<(String, Vec<u8>)>) -> Seq<PairV> {
    files.map_values(|f: (String, Vec<u8>)| (f.0@, sha256_hex(f.1@)))
}

/// For each approved file (in path order): changed or missing.
pub open spec fn changed_or_missing(approved: Seq<PairV>, current: Seq<PairV>) -> Seq<Seq<char>>
    decreases approved.len(),
{
    if approved.len() == 0 {
        seq![]
    } else {
        let (p, h) = approved.last();
        changed_or_missing(approved.drop_last(), current) + match pairs_get(current, p) {
            Some(a) => if a == h {
                seq![]
            } else {
                seq!["approved file changed: "@ + p]
            },
            None => seq!["approved file missing: "@ + p],
        }
    }
}

/// For each current file (in path order) that was never approved.
pub open spec fn not_approved(current: Seq<PairV>, approved: Seq<PairV>) -> Seq<Seq<char>>
    decreases current.len(),
{
    if current.len() == 0 {
        seq![]
    } else {
        let p = current.last().0;
        not_approved(current.drop_last(), approved) + if pairs_get(approved, p) is None {
            seq!["model file is not approved: "@ + p]
        } else {
            seq![]
        }
    }
}

/// The approval errors: approved files changed or missing, then current
/// files never approved.
pub open spec fn approval_errors(approvals: Approvals, current: Seq<(String, Vec<u8>)>) -> Seq<Seq<char>> {
    let a = insert_all(approved_pairs(approvals.files@));
    let c = insert_all(current_pairs(current));
    changed_or_missing(a, c) + not_approved(c, a)
}

proof fn lemma_insert_all_sorted(ps: Seq<PairV>)
    ensures
        crate::strings::keys_sorted(insert_all(ps)),
    decreases ps.len(),
{
    if ps.len() > 0 {
        lemma_insert_all_sorted(ps.drop_last());
        crate::strings::lemma_pairs_insert_sorted(insert_all(ps.drop_last()), ps.last().0, ps.last().1);
    }
}

/// The map of approved paths to digests.
fn approved_map(files: &Vec<ApprovedFile>) -> (m: KeyMap<String>)
    ensures
        m.wf(),
        m@ == insert_all(approved_pairs(files@)),
{
    let mut m: KeyMap<String> = KeyMap::new();
    let ghost ps = approved_pairs(files@);
    let mut i: usize = 0;
    assert(ps.take(0) =~= Seq::<PairV>::empty());
    while i < files.len()
        invariant
            i <= files.len(),
            ps == approved_pairs(files@),
            m.wf(),
            m@ == insert_all(ps.take(i as int)),
        decreases files.len() - i,
    {
        proof {
            assert(ps.take(i + 1).drop_last() == ps.take(i as int));
            assert(ps.take(i + 1).last() == (files@[i as int].path@, files@[i as int].sha256@));
        }
        m.insert(files[i].path.clone(), files[i].sha256.clone());
        i = i + 1;
    }
    assert(ps.take(files.len() as int) == ps);
    m
}

/// The map of current paths to the digests of their contents.
fn current_map(files: &Vec<(String, Vec<u8>)>) -> (m: KeyMap<String>)
    ensures
        m.wf(),
        m@ == insert_all(current_pairs(files@)),
{
    let mut m: KeyMap<String> = KeyMap::new();
    let ghost ps = current_pairs(files@);
    let mut i: usize = 0;
    assert(ps.take(0) =~= Seq::<PairV>::empty());
    while i < files.len()
        invariant
            i <= files.len(),
            ps == current_pairs(files@),
            m.wf(),
            m@ == insert_all(ps.take(i as int)),
        decreases files.len() - i,
    {
        proof {
            assert(ps.take(i + 1).drop_last() == ps.take(i as int));
            assert(ps.take(i + 1).last() == (files@[i as int].0@, sha256_hex(files@[i as int].1@)));
        }
        let h = sha256_hex_of(files[i].1.as_slice());
        m.insert(files[i].0.clone(), h);
        i = i + 1;
    }
    assert(ps.take(files.len() as int) == ps);
    m
}

impl Project {
    /// Whether the approvals are current for the model and constraint files
    /// as they are now (each given as its project-relative path and its
    /// bytes): not approved at all is one error; otherwise every approved
    /// file must be present with the same digest and every current file
    /// approved. `current` holds exactly when there is no error.
    pub fn approval_status(&self, approvals: &Approvals, current_files: &Vec<(String, Vec<u8>)>) -> (r:
        ApprovalStatus)
        ensures
            r.approved == approvals.approved,
            !approvals.approved ==> !r.current && strs(r.errors@) == seq![
                "models have not been approved"@,
            ],
            approvals.approved ==> strs(r.errors@) == approval_errors(*approvals, current_files@),
            r.current == (approvals.approved && r.errors@.len() == 0),
    {
        if !approvals.approved {
            let mut errors: Vec<String> = Vec::new();
            errors.push(owned("models have not been approved"));
            assert(strs(errors@) =~= seq!["models have not been approved"@]);
            return ApprovalStatus { approved: false, current: false, errors };
        }
        let am = approved_map(&approvals.files);
        let cm = current_map(current_files);
        let ghost a = am@;
        let ghost c = cm@;
        let mut errors: Vec<String> = Vec::new();
        let mut i: usize = 0;
        assert(a.take(0) =~= Seq::<PairV>::empty());
        while i < am.entries.len()
            invariant
                i <= am.entries.len(),
                a == am@,
                c == cm@,
                strs(errors@) == changed_or_missing(a.take(i as int), c),
            decreases am.entries.len() - i,
        {
            let (p, h) = (&am.entries[i].0, &am.entries[i].1);
            proof {
                assert(a.take(i + 1).drop_last() == a.take(i as int));
                assert(a.take(i + 1).last() == (p@, h@));
            }
            let ghost e0 = strs(errors@);
            match cm.get(p.as_str()) {
                Some(actual) => {
                    if !str_eq(actual.as_str(), h.as_str()) {
                        errors.push(cat("approved file changed: ", p.as_str()));
                        assert(strs(errors@) =~= e0 + seq!["approved file changed: "@ + p@]);
                    } else {
                        assert(e0 + Seq::<Seq<char>>::empty() =~= e0);
                    }
                },
                None => {
                    errors.push(cat("approved file missing: ", p.as_str()));
                    assert(strs(errors@) =~= e0 + seq!["approved file missing: "@ + p@]);
                },
            }
            i = i + 1;
        }
        assert(a.take(am.entries.len() as int) == a);
        let ghost e1 = strs(errors@);
        let mut k: usize = 0;
        assert(c.take(0) =~= Seq::<PairV>::empty());
        assert(e1 + Seq::<Seq<char>>::empty() =~= e1);
        while k < cm.entries.len()
            invariant
                k <= cm.entries.len(),
                a == am@,
                c == cm@,
                strs(errors@) == e1 + not_approved(c.take(k as int), a),
            decreases cm.entries.len() - k,
        {
            let p = &cm.entries[k].0;
            proof {
                assert(c.take(k + 1).drop_last() == c.take(k as int));
                assert(c.take(k + 1).last().0 == p@);
            }
            let ghost e0 = strs(errors@);
            if am.get(p.as_str()).is_none() {
                errors.push(cat("model file is not approved: ", p.as_str()));
                assert(strs(errors@) =~= e0 + seq!["model file is not approved: "@ + p@]);
            } else {
                assert(e0 + Seq::<Seq<char>>::empty() =~= e0);
            }
            k = k + 1;
        }
        assert(c.take(cm.entries.len() as int) == c);
        let current = errors.len() == 0;
        ApprovalStatus { approved: true, current, errors }
    }
}

/// The value of the last pair with key `k`, as a map built from the pairs
/// in order holds it.
pub open spec fn last_value(s: Seq<PairV>, k: Seq<char>) -> Option<Seq<char>>
    decreases s.len(),
{
    if s.len() == 0 {
        None
    } else if s.last().0 == k {
        Some(s.last().1)
    } else {
        last_value(s.drop_last(), k)
    }
}

proof fn lemma_insert_all_get(ps: Seq<PairV>, k: Seq<char>)
    ensures
        pairs_get(insert_all(ps), k) == last_value(ps, k),
    decreases ps.len(),
{
    if ps.len() > 0 {
        lemma_insert_all_sorted(ps.drop_last());
        lemma_insert_all_get(ps.drop_last(), k);
        crate::strings::lemma_pairs_get_insert(insert_all(ps.drop_last()), ps.last().0, ps.last().1, k);
    }
}

proof fn lemma_last_value_stable_insert(s: Seq<PairV>, x: PairV, k: Seq<char>)
    ensures
        last_value(stable_insert(s, x, path_lt()), k) == last_value(s.push(x), k),
    decreases s.len(),
{
    assert(s.push(x).drop_last() == s);
    assert(s.push(x).last() == x);
    if s.len() == 0 || !path_lt()(x, s.last()) {
    } else {
        let t = s.drop_last();
        let l = s.last();
        lemma_last_value_stable_insert(t, x, k);
        let r = stable_insert(t, x, path_lt());
        assert(r.push(l).drop_last() == r);
        assert(r.push(l).last() == l);
        assert(t.push(x).drop_last() == t);
        assert(t.push(x).last() == x);
        assert(last_value(s, k) == if l.0 == k {
            Some(l.1)
        } else {
            last_value(t, k)
        });
        crate::order::lemma_lex_irrefl(x.0);
    }
}

proof fn lemma_last_value_sort(ps: Seq<PairV>, k: Seq<char>)
    ensures
        last_value(stable_sort(ps, path_lt()), k) == last_value(ps, k),
    decreases ps.len(),
{
    if ps.len() > 0 {
        let t = ps.drop_last();
        let x = ps.last();
        lemma_last_value_sort(t, k);
        lemma_last_value_stable_insert(stable_sort(t, path_lt()), x, k);
        let st = stable_sort(t, path_lt());
        assert(st.push(x).drop_last() == st);
        assert(st.push(x).last() == x);
    }
}

proof fn lemma_changed_or_missing_empty(a: Seq<PairV>, c: Seq<PairV>)
    ensures
        changed_or_missing(a, c).len() == 0 <==> forall|i: int|
            0 <= i < a.len() ==> pairs_get(c, #[trigger] a[i].0) == Some(a[i].1),
    decreases a.len(),
{
    if a.len() > 0 {
        let t = a.drop_last();
        lemma_changed_or_missing_empty(t, c);
        if forall|i: int| 0 <= i < a.len() ==> pairs_get(c, #[trigger] a[i].0) == Some(a[i].1) {
            assert forall|i: int| 0 <= i < t.len() implies pairs_get(c, #[trigger] t[i].0) == Some(t[i].1) by {
                assert(t[i] == a[i]);
                assert(pairs_get(c, a[i].0) == Some(a[i].1));
            }
            assert(pairs_get(c, a[a.len() - 1].0) == Some(a[a.len() - 1].1));
        }
        if changed_or_missing(a, c).len() == 0 {
            assert forall|i: int| 0 <= i < a.len() implies pairs_get(c, #[trigger] a[i].0) == Some(a[i].1) by {
                if i < t.len() {
                    assert(t[i] == a[i]);
                    assert(pairs_get(c, t[i].0) == Some(t[i].1));
                }
            }
        }
    }
}

proof fn lemma_not_approved_empty(c: Seq<PairV>, a: Seq<PairV>)
    ensures
        not_approved(c, a).len() == 0 <==> forall|i: int|
            0 <= i < c.len() ==> pairs_get(a, #[trigger] c[i].0) is Some,
    decreases c.len(),
{
    if c.len() > 0 {
        let t = c.drop_last();
        lemma_not_approved_empty(t, a);
        if forall|i: int| 0 <= i < c.len() ==> pairs_get(a, #[trigger] c[i].0) is Some {
            assert forall|i: int| 0 <= i < t.len() implies pairs_get(a, #[trigger] t[i].0) is Some by {
                assert(t[i] == c[i]);
                assert(pairs_get(a, c[i].0) is Some);
            }
            assert(pairs_get(a, c[c.len() - 1].0) is Some);
        }
        if not_approved(c, a).len() == 0 {
            assert forall|i: int| 0 <= i < c.len() implies pairs_get(a, #[trigger] c[i].0) is Some by {
                if i < t.len() {
                    assert(t[i] == c[i]);
                    assert(pairs_get(a, t[i].0) is Some);
                }
            }
        }
    }
}

proof fn lemma_sorted_get_self(s: Seq<PairV>, i: int)
    requires
        crate::strings::keys_sorted(s),
        0 <= i < s.len(),
    ensures
        pairs_get(s, s[i].0) == Some(s[i].1),
{
    assert forall|j: int| 0 <= j < i implies s[j].0 != s[i].0 by {
        crate::order::lemma_lex_irrefl(s[i].0);
    }
    crate::strings::lemma_pairs_get_at(s, s[i].0, i);
}

/// Approvals are current exactly when, for every path, the digest approved
/// for it (none if it was not approved) equals the digest of the file there
/// now (none if there is no such file).
pub proof fn lemma_approval_current_iff(approvals: Approvals, current: Seq<(String, Vec<u8>)>)
    ensures
        approval_errors(approvals, current).len() == 0 <==> forall|k: Seq<char>|
            #![trigger last_value(approved_pairs(approvals.files@), k)]
            last_value(approved_pairs(approvals.files@), k) == last_value(current_pairs(current), k),
{
    let ap = approved_pairs(approvals.files@);
    let cp = current_pairs(current);
    let a = insert_all(ap);
    let c = insert_all(cp);
    lemma_insert_all_sorted(ap);
    lemma_insert_all_sorted(cp);
    lemma_changed_or_missing_empty(a, c);
    lemma_not_approved_empty(c, a);
    if forall|k: Seq<char>| #![trigger last_value(ap, k)] last_value(ap, k) == last_value(cp, k) {
        assert forall|i: int| 0 <= i < a.len() implies pairs_get(c, #[trigger] a[i].0) == Some(a[i].1) by {
            lemma_sorted_get_self(a, i);
            lemma_insert_all_get(ap, a[i].0);
            lemma_insert_all_get(cp, a[i].0);
            assert(last_value(ap, a[i].0) == last_value(cp, a[i].0));
        }
        assert forall|i: int| 0 <= i < c.len() implies pairs_get(a, #[trigger] c[i].0) is Some by {
            lemma_sorted_get_self(c, i);
            lemma_insert_all_get(ap, c[i].0);
            lemma_insert_all_get(cp, c[i].0);
            assert(last_value(ap, c[i].0) == last_value(cp, c[i].0));
        }
    }
    if approval_errors(approvals, current).len() == 0 {
        assert forall|k: Seq<char>| #![trigger last_value(ap, k)] last_value(ap, k) == last_value(cp, k) by {
            lemma_insert_all_get(ap, k);
            lemma_insert_all_get(cp, k);
            if pairs_get(a, k) is Some {
                crate::strings::lemma_pairs_get_found(a, k);
                let i = choose|i: int| 0 <= i < a.len() && #[trigger] a[i] == (k, pairs_get(a, k)->0);
                assert(pairs_get(c, a[i].0) == Some(a[i].1));
            } else if pairs_get(c, k) is Some {
                crate::strings::lemma_pairs_get_found(c, k);
                let i = choose|i: int| 0 <= i < c.len() && #[trigger] c[i] == (k, pairs_get(c, k)->0);
                assert(pairs_get(a, c[i].0) is Some);
            }
        }
    }
}

/// Approving files and then checking the approvals against the same files
/// finds them current: a freshly written approval has no error.
pub proof fn lemma_approve_then_current(approvals: Approvals, files: Seq<(String, Vec<u8>)>)
    requires
        approvals.approved,
        files_view(approvals.files@) == stable_sort(current_pairs(files), path_lt()),
    ensures
        approval_errors(approvals, files).len() == 0,
{
    assert(approved_pairs(approvals.files@) =~= files_view(approvals.files@));
    assert forall|k: Seq<char>| #![trigger last_value(approved_pairs(approvals.files@), k)]
        last_value(approved_pairs(approvals.files@), k) == last_value(current_pairs(files), k) by {
        lemma_last_value_sort(current_pairs(files), k);
    }
    lemma_approval_current_iff(approvals, files);
}

/// `join(sep)`.
pub open spec fn join(parts: Seq<Seq<char>>, sep: Seq<char>) -> Seq<char>
    decreases parts.len(),
{
    if parts.len() == 0 {
        seq![]
    } else if parts.len() == 1 {
        parts[0]
    } else {
        join(parts.drop_last(), sep) + sep + parts.last()
    }
}

pub fn join_strings(parts: &Vec<String>, sep: &str) -> (r: String)
    ensures
        r@ == join(strs(parts@), sep@),
{
    let mut r = String::new();
    let mut i: usize = 0;
    assert(strs(parts@).take(0) =~= Seq::<Seq<char>>::empty());
    while i < parts.len()
        invariant
            i <= parts.len(),
            r@ == join(strs(parts@).take(i as int), sep@),
        decreases parts.len() - i,
    {
        proof {
            let t = strs(parts@).take(i + 1);
            assert(t.drop_last() == strs(parts@).take(i as int));
            assert(t.last() == parts@[i as int]@);
            if i == 0 {
                assert(t[0] == parts@[0]@);
            }
        }
        if i > 0 {
            push_str(&mut r, sep);
        } else {
            assert(r@ =~= Seq::<char>::empty());
        }
        push_str(&mut r, parts[i].as_str());
        i = i + 1;
    }
    assert(strs(parts@).take(parts.len() as int) == strs(parts@));
    r
}

/// Order of approved files: by path.
pub open spec fn path_lt() -> spec_fn(PairV, PairV) -> bool {
    |a: PairV, b: PairV| lex_lt(a.0, b.0)
}

impl View for ApprovedFile {
    type V = PairV;

    open spec fn view(&self) -> PairV {
        (self.path@, self.sha256@)
    }
}

pub open spec fn files_view(v: Seq<ApprovedFile>) -> Seq<PairV> {
    v.map_values(|f: ApprovedFile| f@)
}

/// Stable insertion by path.
fn insert_by_path(v: &mut Vec<ApprovedFile>, x: ApprovedFile)
    ensures
        files_view(final(v)@) == stable_insert(files_view(old(v)@), x@, path_lt()),
        final(v)@.len() == old(v)@.len() + 1,
{
    let ghost s = files_view(v@);
    proof {
        lemma_stable_pos(s, x@, path_lt());
    }
    let mut j: usize = v.len();
    assert(s.take(j as int) == s);
    while j > 0 && crate::order::str_lt(x.path.as_str(), v[j - 1].path.as_str())
        invariant
            j <= v.len(),
            s == files_view(v@),
            stable_pos(s, x@, path_lt()) == stable_pos(s.take(j as int), x@, path_lt()),
        decreases j,
    {
        proof {
            assert(s.take(j as int).drop_last() == s.take(j - 1));
            assert(s.take(j as int).last() == s[j - 1]);
        }
        j = j - 1;
    }
    proof {
        if j > 0 {
            assert(s.take(j as int).last() == s[j - 1]);
        }
        assert(stable_pos(s.take(j as int), x@, path_lt()) == j);
    }
    let ghost xv = x@;
    v.insert(j, x);
    assert(files_view(v@) =~= s.insert(j as int, xv));
}

impl Project {
    /// Approve the model and constraint files (each given as its path and
    /// bytes) when validation is clean: record each file's digest, sorted by
    /// path, approved at `approved_at`. Invalid models are refused with the
    /// validation errors.
    pub fn approve(
        &self,
        validation: &ValidationReport,
        files: &Vec<(String, Vec<u8>)>,
        approved_at: String,
    ) -> (r: Result<(Approvals, ApprovalReport), String>)
        ensures
            !validation.ok ==> (r matches Err(e) && e@ == "cannot approve invalid models:\n"@ + join(
                strs(validation.errors@),
                "\n"@,
            )),
            validation.ok ==> (r matches Ok((a, rep)) && a.version == 1 && a.approved
                && opt_view(a.approved_at) == Some(approved_at@) && files_view(a.files@) == stable_sort(
                current_pairs(files@),
                path_lt(),
            ) && rep.approved_files == files@.len() && rep.approvals_path@ == APPROVALS_FILE@),
    {
        if !validation.ok {
            let joined = join_strings(&validation.errors, "\n");
            return Err(cat("cannot approve invalid models:\n", joined.as_str()));
        }
        let ghost ps = current_pairs(files@);
        let mut out: Vec<ApprovedFile> = Vec::new();
        let mut i: usize = 0;
        assert(ps.take(0) =~= Seq::<PairV>::empty());
        assert(files_view(out@) =~= Seq::<PairV>::empty());
        while i < files.len()
            invariant
                i <= files.len(),
                ps == current_pairs(files@),
                files_view(out@) == stable_sort(ps.take(i as int), path_lt()),
                out@.len() == i,
            decreases files.len() - i,
        {
            proof {
                assert(ps.take(i + 1).drop_last() == ps.take(i as int));
                assert(ps.take(i + 1).last() == (files@[i as int].0@, sha256_hex(files@[i as int].1@)));
                lemma_stable_pos(files_view(out@), ps[i as int], path_lt());
            }
            let h = sha256_hex_of(files[i].1.as_slice());
            insert_by_path(&mut out, ApprovedFile { path: files[i].0.clone(), sha256: h });
            i = i + 1;
        }
        assert(ps.take(files.len() as int) == ps);
        let n = out.len();
        let approvals = Approvals {
            version: 1,
            approved: true,
            approved_at: Some(approved_at),
            files: out,
        };
        Ok((approvals, ApprovalReport { approved_files: n, approvals_path: owned(APPROVALS_FILE) }))
    }
}

// ---------------------------------------------------------------------------
// Model registry

pub type FileV = (Seq<char>, ModelKind, ModelSide, Seq<Seq<char>>, Seq<Seq<char>>, Seq<Seq<char>>);

pub type ElemV = (Seq<char>, Seq<char>, ModelKind, ModelSide);

impl View for ModelFile {
    type V = FileV;

    open spec fn view(&self) -> FileV {
        (self.path@, self.kind, self.side, strs(self.ids@), strs(self.refs@), strs(self.rendered_pages@))
    }
}

impl View for ModelElement {
    type V = ElemV;

    open spec fn view(&self) -> ElemV {
        (self.id@, self.file@, self.kind, self.side)
    }
}

pub open spec fn mfiles_view(v: Seq<ModelFile>) -> Seq<FileV> {
    v.map_values(|f: ModelFile| f@)
}

pub open spec fn elems_view(v: Seq<ModelElement>) -> Seq<ElemV> {
    v.map_values(|e: ModelElement| e@)
}

/// The registry entry of one file: its path, kind and side from the path,
/// its distinct `@id`s and `@ref`s (sorted), and its rendered pages.
pub open spec fn file_entry(rel: Seq<char>, content: Seq<char>, pages: Seq<Seq<char>>) -> FileV {
    (
        rel,
        crate::markers::kind_for_path_spec(rel),
        crate::markers::side_for_path_spec(rel),
        crate::cycle::sorted_of(crate::patterns::captures(crate::patterns::Pat::Ident("@id("@), content).to_set()),
        crate::cycle::sorted_of(crate::patterns::captures(crate::patterns::Pat::Ident("@ref("@), content).to_set()),
        pages,
    )
}

pub type SourceV = (Seq<char>, Seq<char>, Seq<Seq<char>>);

pub open spec fn sources_view(v: Seq<(String, String, Vec<String>)>) -> Seq<SourceV> {
    v.map_values(|x: (String, String, Vec<String>)| (x.0@, x.1@, strs(x.2@)))
}

/// The elements of a file entry, one per id.
pub open spec fn entry_elements(f: FileV) -> Seq<ElemV> {
    f.3.map_values(|id: Seq<char>| (id, f.0, f.1, f.2))
}

/// The elements of every file entry, in file order.
pub open spec fn all_elements(fs: Seq<FileV>) -> Seq<ElemV>
    decreases fs.len(),
{
    if fs.len() == 0 {
        seq![]
    } else {
        all_elements(fs.drop_last()) + entry_elements(fs.last())
    }
}

pub open spec fn file_path_lt() -> spec_fn(FileV, FileV) -> bool {
    |a: FileV, b: FileV| lex_lt(a.0, b.0)
}

pub open spec fn elem_id_lt() -> spec_fn(ElemV, ElemV) -> bool {
    |a: ElemV, b: ElemV| lex_lt(a.0, b.0)
}

pub open spec fn entries_of(src: Seq<SourceV>) -> Seq<FileV> {
    src.map_values(|x: SourceV| file_entry(x.0, x.1, x.2))
}

pub(crate) fn insert_file_by_path(v: &mut Vec<ModelFile>, x: ModelFile)
    ensures
        mfiles_view(final(v)@) == stable_insert(mfiles_view(old(v)@), x@, file_path_lt()),
{
    let ghost s = mfiles_view(v@);
    proof {
        lemma_stable_pos(s, x@, file_path_lt());
    }
    let mut j: usize = v.len();
    assert(s.take(j as int) == s);
    while j > 0 && crate::order::str_lt(x.path.as_str(), v[j - 1].path.as_str())
        invariant
            j <= v.len(),
            s == mfiles_view(v@),
            stable_pos(s, x@, file_path_lt()) == stable_pos(s.take(j as int), x@, file_path_lt()),
        decreases j,
    {
        proof {
            assert(s.take(j as int).drop_last() == s.take(j - 1));
            assert(s.take(j as int).last() == s[j - 1]);
        }
        j = j - 1;
    }
    proof {
        if j > 0 {
            assert(s.take(j as int).last() == s[j - 1]);
        }
        assert(stable_pos(s.take(j as int), x@, file_path_lt()) == j);
    }
    let ghost xv = x@;
    v.insert(j, x);
    assert(mfiles_view(v@) =~= s.insert(j as int, xv));
}

fn insert_elem_by_id(v: &mut Vec<ModelElement>, x: ModelElement)
    ensures
        elems_view(final(v)@) == stable_insert(elems_view(old(v)@), x@, elem_id_lt()),
{
    let ghost s = elems_view(v@);
    proof {
        lemma_stable_pos(s, x@, elem_id_lt());
    }
    let mut j: usize = v.len();
    assert(s.take(j as int) == s);
    while j > 0 && crate::order::str_lt(x.id.as_str(), v[j - 1].id.as_str())
        invariant
            j <= v.len(),
            s == elems_view(v@),
            stable_pos(s, x@, elem_id_lt()) == stable_pos(s.take(j as int), x@, elem_id_lt()),
        decreases j,
    {
        proof {
            assert(s.take(j as int).drop_last() == s.take(j - 1));
            assert(s.take(j as int).last() == s[j - 1]);
        }
        j = j - 1;
    }
    proof {
        if j > 0 {
            assert(s.take(j as int).last() == s[j - 1]);
        }
        assert(stable_pos(s.take(j as int), x@, elem_id_lt()) == j);
    }
    let ghost xv = x@;
    v.insert(j, x);
    assert(elems_view(v@) =~= s.insert(j as int, xv));
}


impl Project {
    /// The model registry of the model and constraint files, each given as
    /// its project-relative path, its content and its rendered pages: one
    /// entry per file (sorted by path, stably) and one element per `@id`
    /// (sorted by id, stably).
    pub fn model_registry(&self, sources: &Vec<(String, String, Vec<String>)>) -> (r: ModelRegistry)
        ensures
            mfiles_view(r.files@) == stable_sort(entries_of(sources_view(sources@)), file_path_lt()),
            elems_view(r.ids@) == stable_sort(all_elements(entries_of(sources_view(sources@))), elem_id_lt()),
    {
        let ghost es = entries_of(sources_view(sources@));
        let mut files: Vec<ModelFile> = Vec::new();
        let mut elems: Vec<ModelElement> = Vec::new();
        let mut i: usize = 0;
        assert(es.take(0) =~= Seq::<FileV>::empty());
        assert(mfiles_view(files@) =~= Seq::<FileV>::empty());
        assert(elems_view(elems@) =~= Seq::<ElemV>::empty());
        while i < sources.len()
            invariant
                i <= sources.len(),
                es == entries_of(sources_view(sources@)),
                mfiles_view(files@) == stable_sort(es.take(i as int), file_path_lt()),
                elems_view(elems@) == stable_sort(all_elements(es.take(i as int)), elem_id_lt()),
            decreases sources.len() - i,
        {
            let rel = &sources[i].0;
            let content = sources[i].1.as_str();
            let kind = crate::markers::kind_for_path(rel.as_str());
            let side = crate::markers::side_for_path(rel.as_str());
            let ids = crate::markers::extract_ids(content);
            let refs = crate::markers::extract_refs(content);
            proof {
                crate::cycle::lemma_sorted_of(strs(ids@));
                crate::cycle::lemma_sorted_of(strs(refs@));
            }
            let ghost entry = es[i as int];
            let ghost ev = entry_elements(entry);
            let ghost base = all_elements(es.take(i as int));
            proof {
                assert(es.take(i + 1).drop_last() == es.take(i as int));
                assert(es.take(i + 1).last() == entry);
            }
            let mut k: usize = 0;
            assert(base + ev.take(0) =~= base);
            while k < ids.len()
                invariant
                    k <= ids.len(),
                    strs(ids@) == entry.3,
                    ev == entry_elements(entry),
                    rel@ == entry.0,
                    kind == entry.1,
                    side == entry.2,
                    elems_view(elems@) == stable_sort(base + ev.take(k as int), elem_id_lt()),
                decreases ids.len() - k,
            {
                let el = ModelElement { id: ids[k].clone(), file: rel.clone(), kind, side };
                proof {
                    assert(el@ == ev[k as int]);
                    assert((base + ev.take(k as int)).push(ev[k as int]) =~= base + ev.take(k + 1));
                    crate::order::lemma_stable_sort_push(base + ev.take(k as int), ev[k as int], elem_id_lt());
                }
                insert_elem_by_id(&mut elems, el);
                k = k + 1;
            }
            assert(ev.take(ids.len() as int) == ev);
            let mf = ModelFile {
                path: rel.clone(),
                kind,
                side,
                ids,
                refs,
                rendered_pages: crate::validation::clone_strings(&sources[i].2),
            };
            proof {
                assert(mf@ == entry);
                crate::order::lemma_stable_sort_push(es.take(i as int), entry, file_path_lt());
                assert(es.take(i as int).push(entry) == es.take(i + 1));
                assert(all_elements(es.take(i + 1)) == base + ev);
            }
            insert_file_by_path(&mut files, mf);
            i = i + 1;
        }
        assert(es.take(sources.len() as int) == es);
        ModelRegistry { files, ids: elems }
    }
}

} // verus!
