//! The data model of an MDD project: configuration, trace, approvals, the
//! model registry, and the reports the workflow commands produce.
use vstd::prelude::*;
use crate::strings::{KeyMap, ParamMap};
use crate::text::{chars_of, lower_seq, owned, str_eq, strs, trim};

verus! {

/// The project's own directory, relative to its root.
pub const MDD_DIR: &'static str = ".mdd";

pub const CONFIG_FILE: &'static str = ".mdd/config.yml";

pub const TRACE_FILE: &'static str = ".mdd/trace.yml";

pub const APPROVALS_FILE: &'static str = ".mdd/approvals.yml";

/// Every renderable source tree.
#[derive(Clone, Copy, PartialEq, Eq, Structural, Debug)]
pub enum RenderTree {
    /// `.mdd/models/**/*.puml` (current and objective).
    Models,
    /// `.mdd/cycles/**/<rel>.diff.puml` superposed cycle diffs.
    CycleDiffs,
    /// `.mdd/constraints/*.ocl` (synthesized to a constraints diagram).
    OclConstraints,
    /// `.mdd/map/**/*.puml` accumulated whole-map baseline.
    WholeMap,
    /// `.mdd/deploy/**/*.puml` deployment diagrams.
    Deploy,
    /// `.mdd/rendered/review/*.diff.puml` review-mismatch diffs.
    ReviewDiff,
}

/// The selector of each tree.
pub open spec fn tree_key(t: RenderTree) -> Seq<char> {
    match t {
        RenderTree::Models => "models"@,
        RenderTree::CycleDiffs => "cycle-diffs"@,
        RenderTree::OclConstraints => "ocl"@,
        RenderTree::WholeMap => "map"@,
        RenderTree::Deploy => "deploy"@,
        RenderTree::ReviewDiff => "review"@,
    }
}

/// The tree a (trimmed, lower-cased) selector or alias names.
pub open spec fn tree_of_token(w: Seq<char>) -> Option<RenderTree> {
    if w == "models"@ || w == "model"@ {
        Some(RenderTree::Models)
    } else if w == "cycle-diffs"@ || w == "cycle-diff"@ || w == "cycles"@ || w == "cycle"@ || w
        == "diffs"@ {
        Some(RenderTree::CycleDiffs)
    } else if w == "ocl"@ || w == "constraints"@ || w == "constraint"@ {
        Some(RenderTree::OclConstraints)
    } else if w == "map"@ || w == "whole-map"@ || w == "wholemap"@ {
        Some(RenderTree::WholeMap)
    } else if w == "deploy"@ || w == "deployment"@ {
        Some(RenderTree::Deploy)
    } else if w == "review"@ || w == "review-diff"@ || w == "review-diffs"@ {
        Some(RenderTree::ReviewDiff)
    } else {
        None
    }
}

proof fn lemma_plain_token(w: Seq<char>)
    requires
        w.len() > 0,
        !crate::text::is_ws(w[0]),
        !crate::text::is_ws(w.last()),
        forall|i: int| 0 <= i < w.len() ==> !('A' <= #[trigger] w[i] && w[i] <= 'Z'),
    ensures
        lower_seq(trim(w)) == w,
{
    assert(crate::text::ws_prefix_len(w) == 0);
    assert(w.skip(0) =~= w);
    assert(crate::text::ws_suffix_len(w) == 0);
    assert(w.take(w.len() as int) =~= w);
    assert(lower_seq(w) =~= w);
}

/// Every tree's canonical selector parses back to that tree, and so does
/// any spelling of it that differs only in surrounding whitespace and
/// letter case.
pub proof fn lemma_tree_key_parses(t: RenderTree, spelling: Seq<char>)
    ensures
        tree_of_token(lower_seq(trim(tree_key(t)))) == Some(t),
        lower_seq(trim(spelling)) == tree_key(t) ==> tree_of_token(lower_seq(trim(spelling))) == Some(t),
{
    reveal_strlit("models");
    reveal_strlit("model");
    reveal_strlit("cycle-diffs");
    reveal_strlit("cycle-diff");
    reveal_strlit("cycles");
    reveal_strlit("cycle");
    reveal_strlit("diffs");
    reveal_strlit("ocl");
    reveal_strlit("constraints");
    reveal_strlit("constraint");
    reveal_strlit("map");
    reveal_strlit("whole-map");
    reveal_strlit("wholemap");
    reveal_strlit("deploy");
    reveal_strlit("deployment");
    reveal_strlit("review");
    reveal_strlit("review-diff");
    reveal_strlit("review-diffs");
    lemma_plain_token(tree_key(t));
}

impl RenderTree {
    /// Every tree, in render order.
    pub fn all() -> (r: Vec<RenderTree>)
        ensures
            r@ == seq![
                RenderTree::Models,
                RenderTree::CycleDiffs,
                RenderTree::OclConstraints,
                RenderTree::WholeMap,
                RenderTree::Deploy,
                RenderTree::ReviewDiff,
            ],
    {
        let r = vec![
            RenderTree::Models,
            RenderTree::CycleDiffs,
            RenderTree::OclConstraints,
            RenderTree::WholeMap,
            RenderTree::Deploy,
            RenderTree::ReviewDiff,
        ];
        assert(r@ =~= seq![
            RenderTree::Models,
            RenderTree::CycleDiffs,
            RenderTree::OclConstraints,
            RenderTree::WholeMap,
            RenderTree::Deploy,
            RenderTree::ReviewDiff,
        ]);
        r
    }

    /// Canonical `--only <key>` selector.
    pub fn key(self) -> (r: &'static str)
        ensures
            r@ == tree_key(self),
    {
        match self {
            RenderTree::Models => "models",
            RenderTree::CycleDiffs => "cycle-diffs",
            RenderTree::OclConstraints => "ocl",
            RenderTree::WholeMap => "map",
            RenderTree::Deploy => "deploy",
            RenderTree::ReviewDiff => "review",
        }
    }

    /// Parse a user-supplied tree selector (trimmed, any ASCII case),
    /// accepting a few aliases.
    pub fn parse(token: &str) -> (r: Option<RenderTree>)
        ensures
            r == tree_of_token(lower_seq(trim(token@))),
    {
        let t = crate::text::trim_chars(chars_of(token).as_slice());
        let mut low: Vec<char> = Vec::new();
        let mut i: usize = 0;
        while i < t.len()
            invariant
                i <= t.len(),
                low@ == lower_seq(t@.take(i as int)),
            decreases t.len() - i,
        {
            low.push(crate::text::to_ascii_lower(t[i]));
            i = i + 1;
            assert(lower_seq(t@.take(i as int)) =~= lower_seq(t@.take(i - 1)).push(
                crate::text::lower(t@[i - 1]),
            ));
        }
        assert(t@.take(t.len() as int) == t@);
        let w = crate::text::string_of(low.as_slice());
        let w = w.as_str();
        if str_eq(w, "models") || str_eq(w, "model") {
            Some(RenderTree::Models)
        } else if str_eq(w, "cycle-diffs") || str_eq(w, "cycle-diff") || str_eq(w, "cycles")
            || str_eq(w, "cycle") || str_eq(w, "diffs") {
            Some(RenderTree::CycleDiffs)
        } else if str_eq(w, "ocl") || str_eq(w, "constraints") || str_eq(w, "constraint") {
            Some(RenderTree::OclConstraints)
        } else if str_eq(w, "map") || str_eq(w, "whole-map") || str_eq(w, "wholemap") {
            Some(RenderTree::WholeMap)
        } else if str_eq(w, "deploy") || str_eq(w, "deployment") {
            Some(RenderTree::Deploy)
        } else if str_eq(w, "review") || str_eq(w, "review-diff") || str_eq(w, "review-diffs") {
            Some(RenderTree::ReviewDiff)
        } else {
            None
        }
    }
}

pub struct InitReport {
    pub root: String,
    pub created: Vec<String>,
    pub overwritten: Vec<String>,
    /// State files upgraded in place from an older schema version.
    pub migrated: Vec<String>,
    pub skipped: Vec<String>,
}

/// What to do with a generated file that already exists.
#[derive(Clone, Copy, PartialEq, Eq, Structural, Debug)]
pub enum InitFileConflict {
    Skip,
    Overwrite,
}

pub struct CleanReport {
    pub root: String,
    pub removed: Vec<String>,
    pub skipped: Vec<CleanSkip>,
}

pub struct CleanSkip {
    pub path: String,
    pub reason: String,
}

/// Whether a parity pass blocks (`Error`, the default) or only warns.
#[derive(Clone, Copy, PartialEq, Eq, Structural, Debug)]
pub enum ParityMode {
    Warn,
    Error,
}

pub struct SecurityConfig {
    pub parity_check: ParityMode,
}

pub struct TraceabilityConfig {
    pub parity_check: ParityMode,
}

/// One configured test layer: its runner `framework` and `command`.
pub struct TestLayerConfig {
    pub framework: String,
    pub command: String,
}

impl View for TestLayerConfig {
    type V = (Seq<char>, Seq<char>);

    open spec fn view(&self) -> (Seq<char>, Seq<char>) {
        (self.framework@, self.command@)
    }
}

/// Test configuration: how severe a failing check is, and the per-layer profile.
pub struct TestConfig {
    pub gate: ParityMode,
    pub layers: KeyMap<TestLayerConfig>,
}

pub struct MddConfig {
    pub version: u32,
    pub model_source: String,
    pub constraint_source: String,
    pub rendered_dir: String,
    pub security: SecurityConfig,
    pub traceability: TraceabilityConfig,
    pub test: TestConfig,
}

/// One resolved step of the test plan.
pub struct TestPlanStep {
    pub layer: String,
    pub id: String,
    pub model_id: String,
    pub command: String,
    pub cwd: Option<String>,
    pub expect: TestExpect,
    pub is_gap: bool,
}

/// One per-layer runner recommended by build-file detection.
pub struct DetectedLayer {
    pub layer: String,
    pub framework: String,
    pub command: String,
    pub cwd: Option<String>,
}

pub struct DetectedProfile {
    pub recommendations: Vec<DetectedLayer>,
    pub ambiguities: Vec<String>,
}

/// The exit status of one executed plan step.
pub struct TestRunResult {
    pub id: String,
    pub exit_code: i32,
}

/// The green-gate verdict.
pub struct GreenGateReport {
    pub all_green: bool,
    pub still_red: Vec<String>,
    pub blocking: bool,
}

#[derive(Clone, Copy, PartialEq, Eq, Structural, Debug)]
pub enum TestPhaseResult {
    Fail,
    Pass,
}

/// One observation of running a gap test.
pub struct PhaseRecord {
    pub command: String,
    pub exit_code: i32,
    pub result: TestPhaseResult,
    pub excerpt: String,
    pub at: String,
}

/// One gap test's red and green records.
pub struct GapTest {
    pub id: String,
    pub model_id: String,
    pub layer: TestLayer,
    pub red: Option<PhaseRecord>,
    pub green: Option<PhaseRecord>,
}

/// The per-cycle red-to-green evidence.
pub struct TestEvidence {
    pub version: u32,
    pub cycle: String,
    pub gap_tests: Vec<GapTest>,
}

/// The red-to-green verdict, with the ids that keep it from being satisfied.
pub struct RedGreenReport {
    pub satisfied: bool,
    pub missing_evidence: Vec<String>,
    pub not_red_first: Vec<String>,
    pub still_red: Vec<String>,
}

pub struct TraceLink {
    pub from: String,
    pub to: String,
    pub relation: String,
}

pub struct GeneratedTest {
    pub id: String,
    pub path: String,
    pub model_id: String,
    pub category: Option<String>,
}

pub struct GeneratedUiTest {
    pub id: String,
    pub path: String,
    pub model_id: String,
    pub framework: String,
}

/// The layer a test occupies.
#[derive(Clone, Copy, PartialEq, Eq, Structural, Debug)]
pub enum TestLayer {
    Unit,
    Integration,
    E2e,
    Acceptance,
    Ui,
    Security,
}

pub open spec fn layer_name(l: TestLayer) -> Seq<char> {
    match l {
        TestLayer::Unit => "unit"@,
        TestLayer::Integration => "integration"@,
        TestLayer::E2e => "e2e"@,
        TestLayer::Acceptance => "acceptance"@,
        TestLayer::Ui => "ui"@,
        TestLayer::Security => "security"@,
    }
}

impl TestLayer {
    /// The profile key this layer matches.
    pub fn as_str(self) -> (r: &'static str)
        ensures
            r@ == layer_name(self),
    {
        match self {
            TestLayer::Unit => "unit",
            TestLayer::Integration => "integration",
            TestLayer::E2e => "e2e",
            TestLayer::Acceptance => "acceptance",
            TestLayer::Ui => "ui",
            TestLayer::Security => "security",
        }
    }
}

/// A test's expectation: pass, or fail until its code is written.
#[derive(Clone, Copy, PartialEq, Eq, Structural, Debug)]
pub enum TestExpect {
    Pass,
    RedUntilImplemented,
}

/// One unified test link.
pub struct TestLink {
    pub id: String,
    pub path: String,
    pub model_id: String,
    pub layer: TestLayer,
    pub framework: Option<String>,
    pub expect: TestExpect,
}

pub struct SourceLink {
    pub model_id: String,
    pub path: String,
    pub symbol: Option<String>,
}

pub struct Trace {
    pub version: u32,
    pub links: Vec<TraceLink>,
    pub generated_tests: Vec<GeneratedTest>,
    pub generated_ui_tests: Vec<GeneratedUiTest>,
    /// Unified, kind-agnostic test links.
    pub tests: Vec<TestLink>,
    pub source_links: Vec<SourceLink>,
}

pub struct ApprovedFile {
    pub path: String,
    pub sha256: String,
}

pub struct Approvals {
    pub version: u32,
    pub approved: bool,
    pub approved_at: Option<String>,
    pub files: Vec<ApprovedFile>,
}

#[derive(Clone, Copy, PartialEq, Eq, Structural, Debug)]
pub enum ModelKind {
    UseCase,
    Sequence,
    Domain,
    Mockup,
    State,
    Other,
    Constraint,
}

#[derive(Clone, Copy, PartialEq, Eq, Structural, Debug)]
pub enum ModelSide {
    Current,
    Objective,
    Shared,
}

pub struct ModelFile {
    pub path: String,
    pub kind: ModelKind,
    pub side: ModelSide,
    pub ids: Vec<String>,
    pub refs: Vec<String>,
    pub rendered_pages: Vec<String>,
}

pub struct ModelElement {
    pub id: String,
    pub file: String,
    pub kind: ModelKind,
    pub side: ModelSide,
}

pub struct ModelRegistry {
    pub files: Vec<ModelFile>,
    pub ids: Vec<ModelElement>,
}

pub struct ValidationReport {
    pub ok: bool,
    pub errors: Vec<String>,
    pub warnings: Vec<String>,
    pub registry: ModelRegistry,
}

pub struct ApprovalStatus {
    pub approved: bool,
    pub current: bool,
    pub errors: Vec<String>,
}

pub struct ApprovalReport {
    pub approved_files: usize,
    pub approvals_path: String,
}

pub struct TestGenerationReport {
    pub generated: Vec<String>,
    pub trace_path: String,
}

pub struct CodeGateReport {
    pub ok: bool,
    pub errors: Vec<String>,
    pub warnings: Vec<String>,
}

/// A security marker as compared between the two sides.
pub struct MarkerSummary {
    pub host: String,
    pub stereotype: String,
    pub params: ParamMap,
    pub id: Option<String>,
    pub file: String,
}

pub struct SecurityReviewReport {
    pub matched: bool,
    pub mode: ParityMode,
    pub missing_markers: Vec<MarkerSummary>,
    pub extra_markers: Vec<MarkerSummary>,
    pub diff_puml_paths: Vec<String>,
}

pub struct ForwardError {
    pub model_id: String,
    pub path: String,
    pub symbol: String,
}

pub struct ReverseViolation {
    pub path: String,
    pub symbol: String,
    pub kind: String,
}

/// The outcome of the traceability parity pass.
pub struct TraceabilityReport {
    pub matched: bool,
    pub mode: ParityMode,
    /// The base revision the reverse changeset was computed against.
    pub base: String,
    /// Implementable `@id`s whose source_link points at missing code.
    pub forward_errors: Vec<ForwardError>,
    /// Edited glue with no diagram counterpart (warns).
    pub reverse_bucket_a: Vec<String>,
    /// Edited behaviour-bearing symbols with no diagram counterpart (blocks).
    pub reverse_bucket_b: Vec<ReverseViolation>,
}

pub struct ReviewReport {
    /// Combined gate over the three passes.
    pub matched: bool,
    /// Every objective `@id` (in scope) is present in current.
    pub ids_matched: bool,
    /// The objective `@id`s the open cycle realizes; empty is the whole model.
    pub scope: Vec<String>,
    pub missing_ids: Vec<String>,
    pub extra_ids: Vec<String>,
    pub diff_puml_paths: Vec<String>,
    pub security: SecurityReviewReport,
    pub traceability: TraceabilityReport,
}

pub struct MapDrift {
    pub path: String,
    pub symbol: String,
    pub model_id: String,
}

/// The freshness check.
pub struct MapStatusReport {
    pub fresh: bool,
    pub source_revision: Option<String>,
    pub drift: Vec<MapDrift>,
}

/// One row of the whole-map table of contents.
pub struct TocEntry {
    pub kind: String,
    pub concept_count: usize,
    pub id_count: usize,
}

/// The session-start brief.
pub struct SessionContext {
    pub toc: Vec<TocEntry>,
    pub fresh: bool,
    pub source_revision: Option<String>,
    pub drift: Vec<MapDrift>,
}

pub open spec fn opt_view(o: Option<String>) -> Option<Seq<char>> {
    match o {
        Some(s) => Some(s@),
        None => None,
    }
}

pub fn clone_opt(o: &Option<String>) -> (r: Option<String>)
    ensures
        opt_view(r) == opt_view(*o),
{
    match o {
        Some(s) => Some(s.clone()),
        None => None,
    }
}

impl Default for ParityMode {
    fn default() -> (r: ParityMode)
        ensures
            r == ParityMode::Error,
    {
        ParityMode::Error
    }
}

impl Default for TestExpect {
    fn default() -> (r: TestExpect)
        ensures
            r == TestExpect::Pass,
    {
        TestExpect::Pass
    }
}

impl Default for SecurityConfig {
    fn default() -> (r: SecurityConfig)
        ensures
            r.parity_check == ParityMode::Error,
    {
        SecurityConfig { parity_check: ParityMode::Error }
    }
}

impl Default for TraceabilityConfig {
    fn default() -> (r: TraceabilityConfig)
        ensures
            r.parity_check == ParityMode::Error,
    {
        TraceabilityConfig { parity_check: ParityMode::Error }
    }
}

impl Default for TestConfig {
    fn default() -> (r: TestConfig)
        ensures
            r.gate == ParityMode::Error,
            r.layers@.len() == 0,
            r.layers.wf(),
    {
        TestConfig { gate: ParityMode::Error, layers: KeyMap::new() }
    }
}

impl Default for MddConfig {
    /// Schema version 2, PlantUML models, OCL constraints, every gate an error.
    fn default() -> (r: MddConfig)
        ensures
            r.version == 2,
            r.model_source@ == "plantuml"@,
            r.constraint_source@ == "ocl"@,
            r.rendered_dir@ == ".mdd/rendered"@,
            r.security.parity_check == ParityMode::Error,
            r.traceability.parity_check == ParityMode::Error,
            r.test.gate == ParityMode::Error,
            r.test.layers@.len() == 0,
            r.test.layers.wf(),
    {
        MddConfig {
            version: 2,
            model_source: owned("plantuml"),
            constraint_source: owned("ocl"),
            rendered_dir: owned(".mdd/rendered"),
            security: SecurityConfig::default(),
            traceability: TraceabilityConfig::default(),
            test: TestConfig::default(),
        }
    }
}

impl Default for Trace {
    fn default() -> (r: Trace)
        ensures
            r.version == 1,
            r.links@.len() == 0,
            r.generated_tests@.len() == 0,
            r.generated_ui_tests@.len() == 0,
            r.tests@.len() == 0,
            r.source_links@.len() == 0,
    {
        Trace {
            version: 1,
            links: Vec::new(),
            generated_tests: Vec::new(),
            generated_ui_tests: Vec::new(),
            tests: Vec::new(),
            source_links: Vec::new(),
        }
    }
}

impl Default for Approvals {
    fn default() -> (r: Approvals)
        ensures
            r.version == 1,
            !r.approved,
            r.approved_at is None,
            r.files@.len() == 0,
    {
        Approvals { version: 1, approved: false, approved_at: None, files: Vec::new() }
    }
}

impl View for TestLink {
    type V = (Seq<char>, Seq<char>, Seq<char>, TestLayer, Option<Seq<char>>, TestExpect);

    open spec fn view(&self) -> Self::V {
        (self.id@, self.path@, self.model_id@, self.layer, opt_view(self.framework), self.expect)
    }
}

pub open spec fn links_view(v: Seq<TestLink>) -> Seq<(Seq<char>, Seq<char>, Seq<char>, TestLayer, Option<Seq<char>>, TestExpect)> {
    v.map_values(|t: TestLink| t@)
}

/// The layer a legacy generated test's category projects to (acceptance
/// when absent or unknown).
pub open spec fn category_layer(c: Option<Seq<char>>) -> TestLayer {
    match c {
        Some(s) => if s == "security"@ {
            TestLayer::Security
        } else if s == "unit"@ {
            TestLayer::Unit
        } else if s == "integration"@ {
            TestLayer::Integration
        } else if s == "e2e"@ {
            TestLayer::E2e
        } else if s == "ui"@ {
            TestLayer::Ui
        } else {
            TestLayer::Acceptance
        },
        None => TestLayer::Acceptance,
    }
}

pub open spec fn generated_link(t: GeneratedTest) -> (Seq<char>, Seq<char>, Seq<char>, TestLayer, Option<Seq<char>>, TestExpect) {
    (t.id@, t.path@, t.model_id@, category_layer(opt_view(t.category)), None, TestExpect::Pass)
}

pub open spec fn generated_ui_link(t: GeneratedUiTest) -> (Seq<char>, Seq<char>, Seq<char>, TestLayer, Option<Seq<char>>, TestExpect) {
    (t.id@, t.path@, t.model_id@, TestLayer::Ui, Some(t.framework@), TestExpect::Pass)
}

/// Every test link of a trace: the native links, then the legacy generated
/// tests, then the legacy generated UI tests, all in one shape.
pub open spec fn unified_spec(t: Trace) -> Seq<(Seq<char>, Seq<char>, Seq<char>, TestLayer, Option<Seq<char>>, TestExpect)> {
    links_view(t.tests@) + t.generated_tests@.map_values(|g: GeneratedTest| generated_link(g))
        + t.generated_ui_tests@.map_values(|g: GeneratedUiTest| generated_ui_link(g))
}

fn category_layer_exec(c: &Option<String>) -> (r: TestLayer)
    ensures
        r == category_layer(opt_view(*c)),
{
    match c {
        Some(s) => {
            let s = s.as_str();
            if str_eq(s, "security") {
                TestLayer::Security
            } else if str_eq(s, "unit") {
                TestLayer::Unit
            } else if str_eq(s, "integration") {
                TestLayer::Integration
            } else if str_eq(s, "e2e") {
                TestLayer::E2e
            } else if str_eq(s, "ui") {
                TestLayer::Ui
            } else {
                TestLayer::Acceptance
            }
        },
        None => TestLayer::Acceptance,
    }
}

impl TestLink {
    pub fn copy(&self) -> (r: TestLink)
        ensures
            r@ == self@,
    {
        TestLink {
            id: self.id.clone(),
            path: self.path.clone(),
            model_id: self.model_id.clone(),
            layer: self.layer,
            framework: clone_opt(&self.framework),
            expect: self.expect,
        }
    }
}

impl Trace {
    /// Every test link — native `tests` plus the legacy `generated_tests`
    /// and `generated_ui_tests` — in one unified shape.
    pub fn unified_tests(&self) -> (r: Vec<TestLink>)
        ensures
            links_view(r@) == unified_spec(*self),
    {
        let mut out: Vec<TestLink> = Vec::new();
        let mut i: usize = 0;
        while i < self.tests.len()
            invariant
                i <= self.tests.len(),
                links_view(out@) == links_view(self.tests@.take(i as int)),
            decreases self.tests.len() - i,
        {
            let ghost o0 = links_view(out@);
            let c = self.tests[i].copy();
            assert(c@ == self.tests@[i as int]@);
            out.push(c);
            assert(links_view(out@) =~= o0.push(self.tests@[i as int]@));
            assert(links_view(self.tests@.take(i + 1)) =~= links_view(self.tests@.take(i as int)).push(
                self.tests@[i as int]@,
            ));
            i = i + 1;
        }
        assert(self.tests@.take(self.tests.len() as int) == self.tests@);
        let ghost base = links_view(out@);
        let ghost gens = self.generated_tests@.map_values(|g: GeneratedTest| generated_link(g));
        let mut k: usize = 0;
        assert(base + gens.take(0) =~= base);
        while k < self.generated_tests.len()
            invariant
                k <= self.generated_tests.len(),
                gens == self.generated_tests@.map_values(|g: GeneratedTest| generated_link(g)),
                links_view(out@) == base + gens.take(k as int),
            decreases self.generated_tests.len() - k,
        {
            let t = &self.generated_tests[k];
            let ghost o0 = links_view(out@);
            let link = TestLink {
                id: t.id.clone(),
                path: t.path.clone(),
                model_id: t.model_id.clone(),
                layer: category_layer_exec(&t.category),
                framework: None,
                expect: TestExpect::Pass,
            };
            out.push(link);
            assert(links_view(out@) =~= o0.push(gens[k as int]));
            assert(gens.take(k + 1) =~= gens.take(k as int).push(gens[k as int]));
            k = k + 1;
        }
        assert(gens.take(self.generated_tests.len() as int) == gens);
        let ghost base2 = links_view(out@);
        let ghost uis = self.generated_ui_tests@.map_values(|g: GeneratedUiTest| generated_ui_link(g));
        let mut m: usize = 0;
        assert(base2 + uis.take(0) =~= base2);
        while m < self.generated_ui_tests.len()
            invariant
                m <= self.generated_ui_tests.len(),
                uis == self.generated_ui_tests@.map_values(|g: GeneratedUiTest| generated_ui_link(g)),
                links_view(out@) == base2 + uis.take(m as int),
            decreases self.generated_ui_tests.len() - m,
        {
            let t = &self.generated_ui_tests[m];
            let ghost o0 = links_view(out@);
            let link = TestLink {
                id: t.id.clone(),
                path: t.path.clone(),
                model_id: t.model_id.clone(),
                layer: TestLayer::Ui,
                framework: Some(t.framework.clone()),
                expect: TestExpect::Pass,
            };
            out.push(link);
            assert(links_view(out@) =~= o0.push(uis[m as int]));
            assert(uis.take(m + 1) =~= uis.take(m as int).push(uis[m as int]));
            m = m + 1;
        }
        assert(uis.take(self.generated_ui_tests.len() as int) == uis);
        out
    }
}

} // verus!
