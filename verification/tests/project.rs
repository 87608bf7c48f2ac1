use mdd::gate::RenderState;
use mdd::markers::extract_scope_ids;
use mdd::model::{
    Approvals, ApprovalStatus, GapTest, GeneratedTest, GeneratedUiTest, MddConfig, ModelKind, ModelRegistry, ParityMode,
    PhaseRecord, TestEvidence, TestExpect, TestLayer, TestLayerConfig, TestLink, TestPhaseResult, Trace, TraceLink,
};
use mdd::project::Project;
use mdd::strings::KeyMap;
use mdd::templates::RALPH_PLAN;
use mdd::traceability::ChangedCode;
use mdd::validation::ValidationInput;

fn project() -> Project {
    Project::at("/work/app".to_string())
}

/// The three model files of a minimal valid project.
fn minimal_models() -> Vec<(String, String)> {
    vec![
        (".mdd/models/current/use-cases/login.puml".to_string(), "@startuml\n' @id(USE-LOGIN)\n@enduml\n".to_string()),
        (
            ".mdd/models/current/sequences/login.puml".to_string(),
            "@startuml\n' @id(SEQ-LOGIN)\n' @ref(USE-LOGIN)\n@enduml\n".to_string(),
        ),
        (".mdd/models/current/domain/user.puml".to_string(), "@startuml\n' @id(DOM-USER)\n@enduml\n".to_string()),
    ]
}

/// Write (or overwrite) one model file.
fn put(files: &mut Vec<(String, String)>, path: &str, content: &str) {
    if let Some(entry) = files.iter_mut().find(|(p, _)| p == path) {
        entry.1 = content.to_string();
    } else {
        files.push((path.to_string(), content.to_string()));
    }
}

fn minimal_trace() -> Trace {
    let mut trace = Trace::default();
    trace.links.push(TraceLink {
        from: "USE-LOGIN".to_string(),
        to: "SEQ-LOGIN".to_string(),
        relation: "realizes".to_string(),
    });
    trace
}

fn registry_of(files: &[(String, String)]) -> ModelRegistry {
    let sources: Vec<(String, String, Vec<String>)> =
        files.iter().map(|(p, c)| (p.clone(), c.clone(), Vec::new())).collect();
    project().model_registry(&sources)
}

fn content_of(files: &[(String, String)], path: &str) -> String {
    files.iter().find(|(p, _)| p == path).map(|(_, c)| c.clone()).unwrap_or_default()
}

fn not_approved() -> ApprovalStatus {
    project().approval_status(&Approvals::default(), &Vec::new())
}

fn validation_input(files: &[(String, String)], trace: Trace, config: MddConfig, existing: Vec<String>) -> ValidationInput {
    let registry = registry_of(files);
    let contents: Vec<Option<String>> = registry
        .files
        .iter()
        .map(|f| if f.path.ends_with(".ocl") { None } else { Some(content_of(files, &f.path)) })
        .collect();
    let source_link_errors = trace.source_links.iter().map(|_| None).collect();
    ValidationInput {
        registry,
        contents,
        trace,
        config,
        existing_paths: existing,
        evidence: Vec::new(),
        source_link_errors,
        approval: Some(not_approved()),
        plan: Some(RALPH_PLAN.to_string()),
    }
}

fn validate(files: &[(String, String)]) -> mdd::model::ValidationReport {
    project().validate(validation_input(files, minimal_trace(), MddConfig::default(), Vec::new()))
}

fn login_mockup(model_id: &str, ui_id: &str, route: &str) -> String {
    format!(
        "@startsalt\n' @id({model_id})\n' @ref(USE-LOGIN)\n' @ui-route({route})\n' @ui-viewport(desktop,1280,720)\n' @ui-element({ui_id}, role=button, name=\"Log in\", required=true)\n{{\n  [Log in]\n}}\n@endsalt\n"
    )
}

/// Link a generated Playwright test to a mockup; the path of its file.
fn link_ui_test(trace: &mut Trace, model_id: &str) -> String {
    let path = format!(".mdd/tests/ui/{}.spec.ts", model_id.to_lowercase());
    trace.generated_ui_tests.push(GeneratedUiTest {
        id: format!("UIT-{model_id}"),
        path: path.clone(),
        model_id: model_id.to_string(),
        framework: "playwright".to_string(),
    });
    path
}

fn domain_class(file: &str, id: &str, sec_line: &str) -> (String, String) {
    (
        format!(".mdd/models/current/domain/{file}"),
        format!("@startuml\n' @id({id})\n{sec_line}\nclass {id} {{\n  + value : String\n}}\n@enduml\n"),
    )
}

fn sec_errors(report: &mdd::model::ValidationReport, needle: &str) -> Vec<String> {
    report.errors.iter().filter(|e| e.contains(needle)).cloned().collect()
}

fn validate_with_domain_class(file: &str, id: &str, sec_line: &str) -> mdd::model::ValidationReport {
    let mut files = minimal_models();
    let (p, c) = domain_class(file, id, sec_line);
    put(&mut files, &p, &c);
    validate(&files)
}

fn test_config(gate: ParityMode, layers: &[&str]) -> MddConfig {
    let mut config = MddConfig::default();
    config.test.gate = gate;
    let mut map = KeyMap::new();
    for layer in layers {
        map.insert(layer.to_string(), TestLayerConfig { framework: format!("{layer}-runner"), command: String::new() });
    }
    config.test.layers = map;
    config
}

#[test]
fn validate_fails_without_models() {
    let report = project().validate(validation_input(&[], Trace::default(), MddConfig::default(), Vec::new()));
    assert!(!report.ok);
    assert!(report.errors.iter().any(|error| error.contains("no model or constraint files")));
}

#[test]
fn minimal_models_validate_clean() {
    let report = validate(&minimal_models());
    assert!(report.ok, "errors: {:?}", report.errors);
    assert_eq!(report.registry.files.len(), 3);
    assert_eq!(report.registry.ids.len(), 3);
}

#[test]
fn generate_acceptance_tests_without_approval() {
    let registry = registry_of(&minimal_models());
    let mut trace = minimal_trace();
    let (report, files) = project().generate_acceptance_tests(&registry, &mut trace).unwrap();
    assert_eq!(report.generated.len(), 1);
    assert!(files.iter().any(|(path, _)| path == ".mdd/tests/acceptance/use-login.feature"));
    assert!(trace.generated_tests.iter().any(|test| {
        test.id == "AT-USE-LOGIN" && test.path == ".mdd/tests/acceptance/use-login.feature" && test.model_id == "USE-LOGIN"
    }));
}

#[test]
fn validate_accepts_mockup_contract_with_generated_ui_test() {
    let mut files = minimal_models();
    put(&mut files, ".mdd/models/current/mockups/login.puml", &login_mockup("MCK-LOGIN-FORM", "UIC-LOGIN-SUBMIT", "/login"));
    let mut trace = minimal_trace();
    let path = link_ui_test(&mut trace, "MCK-LOGIN-FORM");
    let report = project().validate(validation_input(&files, trace, MddConfig::default(), vec![path]));
    assert!(report.ok, "errors: {:?}", report.errors);
    assert!(report
        .registry
        .ids
        .iter()
        .any(|element| element.id == "MCK-LOGIN-FORM" && element.kind == ModelKind::Mockup));
}

#[test]
fn validate_reports_unresolved_mockup_refs() {
    let mut files = minimal_models();
    put(
        &mut files,
        ".mdd/models/current/mockups/login.puml",
        "@startsalt\n' @id(MCK-LOGIN-FORM)\n' @ref(USE-MISSING)\n{\n  [Log in]\n}\n@endsalt\n",
    );
    let report = validate(&files);
    assert!(!report.ok);
    assert!(report.errors.iter().any(|error| error.contains("unresolved @ref(USE-MISSING)")));
}

#[test]
fn validate_reports_missing_ui_tests_for_implementation_ready_mockups() {
    let mut files = minimal_models();
    put(&mut files, ".mdd/models/current/mockups/login.puml", &login_mockup("MCK-LOGIN-FORM", "UIC-LOGIN-SUBMIT", "/login"));
    let report = validate(&files);
    assert!(!report.ok);
    assert!(report.errors.iter().any(|error| {
        error.contains("implementation-ready mockup MCK-LOGIN-FORM has no generated Playwright UI test")
    }));
}

#[test]
fn validate_allows_same_id_in_current_and_objective() {
    let mut files = minimal_models();
    put(&mut files, ".mdd/models/objective/use-cases/login.puml", "@startuml\n' @id(USE-LOGIN)\n@enduml\n");
    let report = validate(&files);
    assert!(!report.errors.iter().any(|error| error.contains("duplicate")), "errors: {:?}", report.errors);
}

#[test]
fn validate_reports_duplicate_within_same_side() {
    let mut files = minimal_models();
    put(&mut files, ".mdd/models/current/use-cases/login-copy.puml", "@startuml\n' @id(USE-LOGIN)\n@enduml\n");
    let report = validate(&files);
    assert!(!report.ok);
    assert!(report.errors.iter().any(|error| error.contains("duplicate model ID USE-LOGIN")), "errors: {:?}", report.errors);
}

#[test]
fn code_gate_reports_readiness_gaps_as_warnings() {
    let files = minimal_models();
    let validation = validate(&files);
    let states: Vec<RenderState> = validation.registry.files.iter().map(|_| RenderState::Missing).collect();
    let report = project().code_gate(&validation, &not_approved(), &minimal_trace(), &states);
    assert!(report.ok);
    assert!(report.errors.is_empty());
    assert!(report.warnings.iter().any(|warning| warning.contains("models have not been approved")));
    assert!(report.warnings.iter().any(|warning| warning.contains("use case has no generated acceptance test")));
    assert!(report.warnings.iter().any(|warning| warning.contains("rendered SVG is missing")));
}

#[test]
fn approval_becomes_stale_after_model_change() {
    let files = minimal_models();
    let validation = validate(&files);
    let bytes: Vec<(String, Vec<u8>)> = files.iter().map(|(p, c)| (p.clone(), c.as_bytes().to_vec())).collect();
    let (approvals, report) = project().approve(&validation, &bytes, "2026-01-01T00:00:00Z".to_string()).unwrap();
    assert_eq!(report.approved_files, 3);
    let fresh = project().approval_status(&approvals, &bytes);
    assert!(fresh.approved && fresh.current, "errors: {:?}", fresh.errors);

    let mut changed = bytes.clone();
    changed[2].1 = b"@startuml\n' @id(DOM-USER)\nclass User\n@enduml\n".to_vec();
    let status = project().approval_status(&approvals, &changed);
    assert!(status.approved);
    assert!(!status.current);
    assert_eq!(status.errors, vec!["approved file changed: .mdd/models/current/domain/user.puml".to_string()]);
}

#[test]
fn approval_reports_missing_and_unapproved_files() {
    let files = minimal_models();
    let validation = validate(&files);
    let bytes: Vec<(String, Vec<u8>)> = files.iter().map(|(p, c)| (p.clone(), c.as_bytes().to_vec())).collect();
    let (approvals, _) = project().approve(&validation, &bytes, "t".to_string()).unwrap();
    let mut now = bytes[1..].to_vec();
    now.push((".mdd/models/current/domain/new.puml".to_string(), b"x".to_vec()));
    let status = project().approval_status(&approvals, &now);
    assert!(!status.current);
    assert_eq!(
        status.errors,
        vec![
            "approved file missing: .mdd/models/current/use-cases/login.puml".to_string(),
            "model file is not approved: .mdd/models/current/domain/new.puml".to_string(),
        ]
    );
}

#[test]
fn approve_refuses_invalid_models() {
    let validation = project().validate(validation_input(&[], Trace::default(), MddConfig::default(), Vec::new()));
    let err = match project().approve(&validation, &Vec::new(), "t".to_string()) {
        Err(e) => e,
        Ok(_) => panic!("invalid models are refused"),
    };
    assert!(err.starts_with("cannot approve invalid models:\n"));
    assert!(err.contains("no model or constraint files found"));
}

#[test]
fn unapproved_status_is_one_error() {
    let status = not_approved();
    assert!(!status.approved && !status.current);
    assert_eq!(status.errors, vec!["models have not been approved".to_string()]);
}

/// The objective side requires a guard on USE-LOGIN that the current side
/// does not carry; ids match on both sides.
fn security_mismatch_models() -> Vec<(String, String)> {
    let mut files = minimal_models();
    put(
        &mut files,
        ".mdd/models/objective/use-cases/login.puml",
        "@startuml\n' @id(USE-LOGIN)\n' @sec(stereotype=ByPassing, host=USE-LOGIN, link=/login, allowed=Admin, denied=Anonymous, id=SEC-LOGIN-GUARD)\nusecase \"Log in\" as Login <<ByPassing>>\n@enduml\n",
    );
    put(&mut files, ".mdd/models/objective/sequences/login.puml", "@startuml\n' @id(SEQ-LOGIN)\n@enduml\n");
    put(&mut files, ".mdd/models/objective/domain/user.puml", "@startuml\n' @id(DOM-USER)\n@enduml\n");
    put(
        &mut files,
        ".mdd/models/current/use-cases/login.puml",
        "@startuml\n' @id(USE-LOGIN)\nusecase \"Log in\" as Login\n@enduml\n",
    );
    files
}

/// The whole review of a project: ids, security and traceability.
fn review(files: &[(String, String)], scope: Vec<String>, mode: ParityMode) -> mdd::model::ReviewReport {
    let registry = registry_of(files);
    let contents: Vec<String> = registry.files.iter().map(|f| content_of(files, &f.path)).collect();
    let (security, _) = project().review_security_scoped(&registry, &contents, &scope, mode);
    let trace = minimal_trace();
    let changed = ChangedCode { symbols: Vec::new(), glue: Vec::new() };
    let traceability =
        project().review_traceability(&registry, ParityMode::Error, &trace, "HEAD".to_string(), &Vec::new(), &changed);
    project().review(&registry, &contents, &scope, security, traceability).0
}

#[test]
fn review_blocks_on_security_mismatch_in_error_mode() {
    let files = security_mismatch_models();
    let report = review(&files, Vec::new(), ParityMode::Error);
    assert!(report.ids_matched, "ids missing: {:?}", report.missing_ids);
    assert!(!report.security.matched);
    assert_eq!(report.security.mode, ParityMode::Error);
    assert!(!report.matched, "error-mode security mismatch must block cycle closure");
    assert!(!report.security.diff_puml_paths.is_empty(), "expected a .security.diff.puml to be written");
}

#[test]
fn review_warns_but_passes_on_security_mismatch_in_warn_mode() {
    let files = security_mismatch_models();
    let report = review(&files, Vec::new(), ParityMode::Warn);
    assert!(report.ids_matched);
    assert!(!report.security.matched);
    assert_eq!(report.security.mode, ParityMode::Warn);
    assert!(report.matched, "warn-mode security mismatch must not block cycle closure");
}

#[test]
fn review_security_scopes_to_open_cycle_scope() {
    let files = security_mismatch_models();
    let whole = review(&files, Vec::new(), ParityMode::Error);
    assert!(whole.ids_matched);
    assert!(!whole.security.matched);
    assert!(!whole.matched);

    let scoped = review(&files, vec!["DOM-USER".to_string()], ParityMode::Error);
    assert!(scoped.ids_matched, "missing: {:?}", scoped.missing_ids);
    assert!(scoped.security.matched, "out-of-scope guard must not block a scoped cycle");
    assert!(scoped.matched);
}

#[test]
fn review_security_returns_error_mode_when_config_sets_error() {
    let files = minimal_models();
    let registry = registry_of(&files);
    let contents: Vec<String> = registry.files.iter().map(|f| content_of(&files, &f.path)).collect();
    let mut config = MddConfig::default();
    config.security.parity_check = ParityMode::Error;
    let (report, _) = project().review_security(&registry, &contents, config.security.parity_check);
    assert_eq!(report.mode, ParityMode::Error);
}

#[test]
fn review_scope_excludes_out_of_scope_gaps() {
    let mut files = minimal_models();
    put(
        &mut files,
        ".mdd/models/objective/use-cases/login.puml",
        "@startuml\n' @id(USE-LOGIN)\nusecase \"Log in\" as Login\n@enduml\n",
    );
    put(
        &mut files,
        ".mdd/models/objective/use-cases/checkout.puml",
        "@startuml\n' @id(USE-CHECKOUT)\nusecase \"Check out\" as Checkout\n@enduml\n",
    );
    let whole = review(&files, Vec::new(), ParityMode::Error);
    assert!(!whole.matched);
    assert_eq!(whole.missing_ids, vec!["USE-CHECKOUT".to_string()]);
    assert!(whole.scope.is_empty());

    let scoped = review(&files, vec!["USE-LOGIN".to_string()], ParityMode::Error);
    assert!(scoped.ids_matched);
    assert!(scoped.missing_ids.is_empty());
    assert_eq!(scoped.scope, vec!["USE-LOGIN".to_string()]);
}

#[test]
fn extract_scope_ids_parses_comma_list() {
    let plan = "# Ralph plan\n- [ ] foo @scope(USE-A, SEQ-B)\n- [ ] bar\n- [x] baz @scope(DOM-C)\n";
    let ids = extract_scope_ids(plan);
    assert_eq!(ids, vec!["DOM-C".to_string(), "SEQ-B".to_string(), "USE-A".to_string()]);
}

#[test]
fn validate_silent_on_plan_without_scope() {
    let report = validate(&minimal_models());
    assert!(
        !report.warnings.iter().any(|w| w.contains("@scope")),
        "no @scope in PLAN must produce no scope warnings: {:?}",
        report.warnings
    );
}

#[test]
fn validate_warns_on_plan_scope_gaps_when_scope_present() {
    let mut files = minimal_models();
    put(
        &mut files,
        ".mdd/models/objective/use-cases/login.puml",
        "@startuml\n' @id(USE-LOGIN)\nusecase \"Log in\" as L\n@enduml\n",
    );
    let mut input = validation_input(&files, minimal_trace(), MddConfig::default(), Vec::new());
    input.plan = Some("# Ralph plan\n- [ ] do a thing @scope(USE-NOPE)\n".to_string());
    let report = project().validate(input);
    assert!(report.ok, "scope rules are WARNING, never blocking");
    assert!(report.warnings.iter().any(|w| w.contains("unknown objective @id USE-NOPE")), "warnings: {:?}", report.warnings);
    assert!(
        report.warnings.iter().any(|w| w.contains("does not cover objective @id USE-LOGIN")),
        "warnings: {:?}",
        report.warnings
    );
}

#[test]
fn validate_accepts_encrypt_on_class_with_algorithm_and_scope() {
    let report = validate_with_domain_class(
        "secret.puml",
        "DOM-SECRET",
        "' @sec(stereotype=Encrypt, host=DOM-SECRET, algorithm=AES-256-GCM, scope=at_rest, field=value, id=SEC-SECRET-ENCRYPT)",
    );
    assert!(sec_errors(&report, "Encrypt").is_empty(), "errors: {:?}", report.errors);
}

#[test]
fn validate_rejects_encrypt_missing_algorithm() {
    let report = validate_with_domain_class(
        "secret.puml",
        "DOM-SECRET",
        "' @sec(stereotype=Encrypt, host=DOM-SECRET, scope=at_rest, field=value, id=SEC-SECRET-ENCRYPT)",
    );
    let errors = sec_errors(&report, "Encrypt");
    assert!(!report.ok);
    assert!(errors.iter().any(|e| e.contains("algorithm")), "errors: {:?}", errors);
}

#[test]
fn validate_rejects_encrypt_with_invalid_scope() {
    let report = validate_with_domain_class(
        "secret.puml",
        "DOM-SECRET",
        "' @sec(stereotype=Encrypt, host=DOM-SECRET, algorithm=AES-256-GCM, scope=somewhere, field=value, id=SEC-SECRET-ENCRYPT)",
    );
    let errors = sec_errors(&report, "Encrypt");
    assert!(!report.ok);
    assert!(errors.iter().any(|e| e.contains("scope=somewhere")), "errors: {:?}", errors);
}

#[test]
fn validate_accepts_buffer_overflow_with_max_length() {
    let report = validate_with_domain_class(
        "input.puml",
        "DOM-USER-INPUT",
        "' @sec(stereotype=BufferOverflow, host=DOM-USER-INPUT, field=value, max_length=64, id=SEC-INPUT-LEN)",
    );
    assert!(sec_errors(&report, "BufferOverflow").is_empty(), "errors: {:?}", report.errors);
}

#[test]
fn validate_rejects_buffer_overflow_missing_max_length() {
    let report = validate_with_domain_class(
        "input.puml",
        "DOM-USER-INPUT",
        "' @sec(stereotype=BufferOverflow, host=DOM-USER-INPUT, field=value, id=SEC-INPUT-LEN)",
    );
    assert!(!report.ok);
    assert!(sec_errors(&report, "BufferOverflow").iter().any(|e| e.contains("max_length")), "errors: {:?}", report.errors);
}

#[test]
fn validate_accepts_sql_injection_with_sink_and_sanitizer() {
    let report = validate_with_domain_class(
        "search.puml",
        "DOM-SEARCH-QUERY",
        "' @sec(stereotype=SqlInjection, host=DOM-SEARCH-QUERY, field=query, sink=BookRepository::find_by_title, sanitizer=parameterized, id=SEC-SEARCH-SQLI)",
    );
    assert!(sec_errors(&report, "SqlInjection").is_empty(), "errors: {:?}", report.errors);
}

#[test]
fn validate_rejects_sql_injection_missing_sanitizer() {
    let report = validate_with_domain_class(
        "search.puml",
        "DOM-SEARCH-QUERY",
        "' @sec(stereotype=SqlInjection, host=DOM-SEARCH-QUERY, field=query, sink=BookRepository::find_by_title, id=SEC-SEARCH-SQLI)",
    );
    assert!(!report.ok);
    assert!(sec_errors(&report, "SqlInjection").iter().any(|e| e.contains("sanitizer")), "errors: {:?}", report.errors);
}

#[test]
fn validate_accepts_flooding_on_use_case_with_max_rate() {
    let mut files = minimal_models();
    put(
        &mut files,
        ".mdd/models/current/use-cases/login.puml",
        "@startuml\n' @id(USE-LOGIN)\n' @sec(stereotype=Flooding, host=USE-LOGIN, link=/login, max_rate=100, window=1s, action=throttle, id=SEC-LOGIN-FLOOD)\nusecase \"Log in\" as Login <<Flooding>>\n@enduml\n",
    );
    let report = validate(&files);
    assert!(sec_errors(&report, "Flooding").is_empty(), "errors: {:?}", report.errors);
}

#[test]
fn validate_rejects_flooding_without_rate_or_concurrent() {
    let mut files = minimal_models();
    put(
        &mut files,
        ".mdd/models/current/use-cases/login.puml",
        "@startuml\n' @id(USE-LOGIN)\n' @sec(stereotype=Flooding, host=USE-LOGIN, link=/login, window=1s, id=SEC-LOGIN-FLOOD)\nusecase \"Log in\" as Login <<Flooding>>\n@enduml\n",
    );
    let report = validate(&files);
    assert!(!report.ok);
    assert!(
        sec_errors(&report, "Flooding").iter().any(|e| e.contains("max_rate") && e.contains("max_concurrent")),
        "errors: {:?}",
        report.errors
    );
}

#[test]
fn validate_accepts_expiration_with_ttl() {
    let report = validate_with_domain_class(
        "session.puml",
        "DOM-SESSION",
        "' @sec(stereotype=Expiration, host=DOM-SESSION, field=token, ttl=15m, renewal=false, id=SEC-SESSION-TTL)",
    );
    assert!(sec_errors(&report, "Expiration").is_empty(), "errors: {:?}", report.errors);
}

#[test]
fn validate_rejects_expiration_missing_ttl() {
    let report = validate_with_domain_class(
        "session.puml",
        "DOM-SESSION",
        "' @sec(stereotype=Expiration, host=DOM-SESSION, field=token, id=SEC-SESSION-TTL)",
    );
    assert!(!report.ok);
    assert!(sec_errors(&report, "Expiration").iter().any(|e| e.contains("ttl")), "errors: {:?}", report.errors);
}

#[test]
fn unified_tests_projects_legacy_arrays() {
    let mut trace = Trace::default();
    trace.tests.push(TestLink {
        id: "UT-DOM-USER".to_string(),
        path: "src/user.rs".to_string(),
        model_id: "DOM-USER".to_string(),
        layer: TestLayer::Unit,
        framework: Some("cargo-test".to_string()),
        expect: TestExpect::RedUntilImplemented,
    });
    trace.generated_tests.push(GeneratedTest {
        id: "AT-USE-LOGIN".to_string(),
        path: ".mdd/tests/acceptance/use-login.feature".to_string(),
        model_id: "USE-LOGIN".to_string(),
        category: None,
    });
    trace.generated_tests.push(GeneratedTest {
        id: "SECT-SEC-X".to_string(),
        path: ".mdd/tests/acceptance/sec-x.feature".to_string(),
        model_id: "SEC-X".to_string(),
        category: Some("security".to_string()),
    });
    trace.generated_ui_tests.push(GeneratedUiTest {
        id: "UIT-MCK-LOGIN".to_string(),
        path: ".mdd/tests/ui/login.spec.ts".to_string(),
        model_id: "MCK-LOGIN".to_string(),
        framework: "playwright".to_string(),
    });
    let unified = trace.unified_tests();
    assert_eq!(unified.len(), 4);
    assert!(unified
        .iter()
        .any(|t| t.id == "UT-DOM-USER" && t.layer == TestLayer::Unit && t.expect == TestExpect::RedUntilImplemented));
    assert!(unified.iter().any(|t| t.id == "AT-USE-LOGIN" && t.layer == TestLayer::Acceptance));
    assert!(unified.iter().any(|t| t.id == "SECT-SEC-X" && t.layer == TestLayer::Security));
    assert!(unified
        .iter()
        .any(|t| t.id == "UIT-MCK-LOGIN" && t.layer == TestLayer::Ui && t.framework.as_deref() == Some("playwright")));
}

#[test]
fn validate_coverage_inert_without_configured_layers() {
    let report = validate(&minimal_models());
    assert!(report.ok, "errors: {:?}", report.errors);
    assert!(
        !report.warnings.iter().any(|w| w.contains("no linked")),
        "coverage must be inert with no configured layers: {:?}",
        report.warnings
    );
}

#[test]
fn validate_coverage_warns_when_layers_configured_and_gate_warn() {
    let files = minimal_models();
    let config = test_config(ParityMode::Warn, &["unit", "integration", "e2e"]);
    let report = project().validate(validation_input(&files, minimal_trace(), config, Vec::new()));
    assert!(report.ok, "warn gate never blocks: {:?}", report.errors);
    assert!(report.warnings.iter().any(|w| w.contains("DOM-USER") && w.contains("unit")));
    assert!(report.warnings.iter().any(|w| w.contains("SEQ-LOGIN") && w.contains("integration")));
}

#[test]
fn validate_coverage_blocks_when_layers_configured_and_gate_error() {
    let files = minimal_models();
    let config = test_config(ParityMode::Error, &["unit", "integration", "e2e"]);
    let report = project().validate(validation_input(&files, minimal_trace(), config, Vec::new()));
    assert!(!report.ok, "uncovered ids must block under gate=error");
    assert!(report.errors.iter().any(|e| e.contains("DOM-USER") && e.contains("no linked unit test")));
}

#[test]
fn validate_rejects_test_link_with_unconfigured_layer() {
    let files = minimal_models();
    let test_path = ".mdd/tests/acceptance/user.feature";
    let mut trace = minimal_trace();
    trace.tests.push(TestLink {
        id: "SECT-DOM-USER".to_string(),
        path: test_path.to_string(),
        model_id: "DOM-USER".to_string(),
        layer: TestLayer::Security,
        framework: None,
        expect: TestExpect::Pass,
    });
    let config = test_config(ParityMode::Warn, &["unit"]);
    let report = project().validate(validation_input(&files, trace, config, vec![test_path.to_string()]));
    assert!(!report.ok);
    assert!(report
        .errors
        .iter()
        .any(|e| e.contains("SECT-DOM-USER") && e.contains("not in the configured test profile")));
}

#[test]
fn validate_rejects_test_link_with_missing_file() {
    let files = minimal_models();
    let mut trace = minimal_trace();
    trace.tests.push(TestLink {
        id: "UT-DOM-USER".to_string(),
        path: "crates/does/not/exist.rs".to_string(),
        model_id: "DOM-USER".to_string(),
        layer: TestLayer::Unit,
        framework: None,
        expect: TestExpect::Pass,
    });
    let report = project().validate(validation_input(&files, trace, MddConfig::default(), Vec::new()));
    assert!(!report.ok);
    assert!(report.errors.iter().any(|e| e.contains("test file is missing") && e.contains("exist.rs")));
}

fn phase(result: TestPhaseResult, exit_code: i32) -> PhaseRecord {
    PhaseRecord {
        command: "cargo test".to_string(),
        exit_code,
        result,
        excerpt: "…".to_string(),
        at: "2026-05-25T00:00:00Z".to_string(),
    }
}

#[test]
fn red_green_gate_satisfied_only_on_fail_then_pass() {
    let evidence = TestEvidence {
        version: 1,
        cycle: "0025".to_string(),
        gap_tests: vec![GapTest {
            id: "UT-DOM-USER".to_string(),
            model_id: "DOM-USER".to_string(),
            layer: TestLayer::Unit,
            red: Some(phase(TestPhaseResult::Fail, 101)),
            green: Some(phase(TestPhaseResult::Pass, 0)),
        }],
    };
    let gap = vec!["UT-DOM-USER".to_string()];
    let rep = project().evaluate_red_green_gate(Some(&evidence), &gap);
    assert!(rep.satisfied);
    assert!(project().evaluate_red_green_gate(None, &Vec::new()).satisfied);
    let rep = project().evaluate_red_green_gate(None, &gap);
    assert!(!rep.satisfied);
    assert_eq!(rep.missing_evidence, gap);
}

#[test]
fn red_green_gate_flags_vacuous_red_and_still_red() {
    let evidence = TestEvidence {
        version: 1,
        cycle: "0025".to_string(),
        gap_tests: vec![GapTest {
            id: "UT-X".to_string(),
            model_id: "DOM-USER".to_string(),
            layer: TestLayer::Unit,
            red: Some(phase(TestPhaseResult::Pass, 0)),
            green: None,
        }],
    };
    let rep = project().evaluate_red_green_gate(Some(&evidence), &vec!["UT-X".to_string()]);
    assert!(!rep.satisfied);
    assert_eq!(rep.not_red_first, vec!["UT-X".to_string()]);
    assert_eq!(rep.still_red, vec!["UT-X".to_string()]);
}

#[test]
fn validate_rejects_malformed_red_phase_in_evidence() {
    let files = minimal_models();
    let mut input = validation_input(&files, minimal_trace(), MddConfig::default(), Vec::new());
    let evidence = TestEvidence {
        version: 1,
        cycle: "0025".to_string(),
        gap_tests: vec![GapTest {
            id: "UT-DOM-USER".to_string(),
            model_id: "DOM-USER".to_string(),
            layer: TestLayer::Unit,
            red: Some(PhaseRecord {
                command: "cargo test".to_string(),
                exit_code: 0,
                result: TestPhaseResult::Pass,
                excerpt: String::new(),
                at: String::new(),
            }),
            green: None,
        }],
    };
    input.evidence = vec![("0025".to_string(), Ok(evidence))];
    let report = project().validate(input);
    assert!(!report.ok);
    assert!(report.errors.iter().any(|e| e.contains("red phase must be a failure") && e.contains("0025")));
}

fn contents_in_order(files: &[(String, String)], registry: &ModelRegistry) -> Vec<String> {
    registry.files.iter().map(|f| content_of(files, &f.path)).collect()
}

#[test]
fn generate_security_tests_writes_gherkin_and_trace_entry() {
    let mut files = minimal_models();
    put(
        &mut files,
        ".mdd/models/objective/use-cases/login.puml",
        "@startuml\n' @id(USE-LOGIN)\n' @sec(stereotype=ByPassing, host=USE-LOGIN, link=/login, allowed=Admin|Editor, denied=Anonymous, id=SEC-LOGIN-GUARD)\nusecase \"Log in\" as Login\n@enduml\n",
    );
    let registry = registry_of(&files);
    let contents = contents_in_order(&files, &registry);
    let mut trace = minimal_trace();
    let (report, written) = project().generate_security_tests(&registry, &contents, &mut trace).unwrap();
    assert_eq!(report.generated, vec![".mdd/tests/acceptance/sec-login-guard.feature"]);
    assert_eq!(written.len(), 1);
    assert_eq!(written[0].0, ".mdd/tests/acceptance/sec-login-guard.feature");
    let content = &written[0].1;
    assert!(content.contains("@security:ByPassing"));
    assert!(content.contains("@host:USE-LOGIN"));
    assert!(content.contains("Scenario: Admin can reach /login"));
    assert!(content.contains("Scenario: Editor can reach /login"));
    assert!(content.contains("Scenario: Anonymous is denied access to /login"));
    let entry = trace.generated_tests.iter().find(|t| t.id == "SECT-SEC-LOGIN-GUARD").expect("trace entry exists");
    assert_eq!(entry.model_id, "SEC-LOGIN-GUARD");
    assert_eq!(entry.path, ".mdd/tests/acceptance/sec-login-guard.feature");
    assert_eq!(entry.category.as_deref(), Some("security"));
}

#[test]
fn generate_security_tests_skips_markers_without_id_or_link() {
    let mut files = minimal_models();
    put(
        &mut files,
        ".mdd/models/objective/use-cases/login.puml",
        "@startuml\n' @id(USE-LOGIN)\n' @sec(stereotype=ByPassing, host=USE-LOGIN, link=/login, allowed=Admin)\nusecase \"Log in\" as Login\n@enduml\n",
    );
    put(
        &mut files,
        ".mdd/models/objective/use-cases/admin.puml",
        "@startuml\n' @id(USE-ADMIN)\n' @sec(stereotype=ByPassing, host=USE-ADMIN, allowed=Admin, id=SEC-ADMIN)\nusecase \"Admin\" as Admin\n@enduml\n",
    );
    let registry = registry_of(&files);
    let contents = contents_in_order(&files, &registry);
    let mut trace = minimal_trace();
    let err = match project().generate_security_tests(&registry, &contents, &mut trace) {
        Err(e) => e,
        Ok(_) => panic!("no marker is implementation-ready"),
    };
    assert!(err.contains("no implementation-ready security markers"), "unexpected error: {err}");
    assert!(trace.generated_tests.is_empty());
}

#[test]
fn generate_ui_tests_from_salt_mockup_contract() {
    let sources = vec![(
        ".mdd/models/current/mockups/login.puml".to_string(),
        login_mockup("MCK-LOGIN-FORM", "UIC-LOGIN-SUBMIT", "/login"),
    )];
    let mut trace = minimal_trace();
    let (report, written) = project().generate_ui_tests(&sources, &MddConfig::default(), &mut trace).unwrap();
    assert_eq!(report.generated, vec![".mdd/tests/ui/mck-login-form.spec.ts"]);
    let content = &written[0].1;
    assert!(content.contains("page.goto('/login')"));
    assert!(content.contains("page.getByRole('button', { name: 'Log in' })"));
    assert!(trace.generated_ui_tests.iter().any(|test| {
        test.id == "UIT-MCK-LOGIN-FORM"
            && test.path == ".mdd/tests/ui/mck-login-form.spec.ts"
            && test.model_id == "MCK-LOGIN-FORM"
            && test.framework == "playwright"
    }));
}

#[test]
fn generate_ui_tests_refuses_without_mockups() {
    let mut trace = minimal_trace();
    let err = match project().generate_ui_tests(&Vec::new(), &MddConfig::default(), &mut trace) {
        Err(e) => e,
        Ok(_) => panic!("nothing to generate"),
    };
    assert_eq!(err, "no mockup model IDs found");
}

fn run(id: &str, exit_code: i32) -> mdd::model::TestRunResult {
    mdd::model::TestRunResult { id: id.to_string(), exit_code }
}

#[test]
fn evaluate_green_gate_blocks_under_error_warns_under_warn() {
    let results = vec![run("UT-A", 0), run("UT-B", 1)];
    let rep = project().evaluate_green_gate(&MddConfig::default(), &Vec::new(), &results);
    assert!(!rep.all_green);
    assert_eq!(rep.still_red, vec!["UT-B".to_string()]);
    assert!(rep.blocking);
    let rep = project().evaluate_green_gate(&test_config(ParityMode::Warn, &[]), &Vec::new(), &results);
    assert!(!rep.all_green);
    assert!(!rep.blocking, "warn gate never blocks");
    assert!(project().evaluate_green_gate(&MddConfig::default(), &Vec::new(), &vec![run("UT-A", 0)]).all_green);
}

fn planned(id: &str) -> mdd::model::TestPlanStep {
    mdd::model::TestPlanStep {
        layer: "unit".to_string(),
        id: id.to_string(),
        model_id: "DOM-A".to_string(),
        command: "cargo test".to_string(),
        cwd: None,
        expect: mdd::model::TestExpect::Pass,
        is_gap: false,
    }
}

#[test]
fn green_gate_counts_planned_tests_without_a_result_as_still_red() {
    let plan = vec![planned("UT-A"), planned("UT-B"), planned("UT-C")];
    let rep = project().evaluate_green_gate(&MddConfig::default(), &plan, &vec![run("UT-A", 0), run("UT-B", 2)]);
    assert_eq!(rep.still_red, vec!["UT-B".to_string(), "UT-C".to_string()]);
    assert!(!rep.all_green);
    assert!(rep.blocking);
    let none = project().evaluate_green_gate(&MddConfig::default(), &plan, &Vec::new());
    assert_eq!(none.still_red, vec!["UT-A".to_string(), "UT-B".to_string(), "UT-C".to_string()]);
    assert!(!none.all_green);
    let all = project().evaluate_green_gate(&MddConfig::default(), &plan, &vec![run("UT-C", 0), run("UT-A", 0), run("UT-B", 0)]);
    assert!(all.all_green);
    assert!(all.still_red.is_empty());
}

#[test]
fn test_plan_resolves_configured_layers_and_flags_gaps() {
    let mut config = MddConfig::default();
    let mut layers = KeyMap::new();
    layers.insert(
        "unit".to_string(),
        TestLayerConfig { framework: "cargo-test".to_string(), command: "cargo test --lib".to_string() },
    );
    layers.insert(
        "integration".to_string(),
        TestLayerConfig { framework: "cargo-test".to_string(), command: "cargo test --test '*'".to_string() },
    );
    config.test.layers = layers;
    let mut trace = minimal_trace();
    for (id, path, model, layer, expect) in [
        ("IT-SEQ-LOGIN", "i.rs", "SEQ-LOGIN", TestLayer::Integration, TestExpect::Pass),
        ("UT-DOM-USER", "u.rs", "DOM-USER", TestLayer::Unit, TestExpect::RedUntilImplemented),
        ("UIT-MCK-X", "x.spec.ts", "DOM-USER", TestLayer::Ui, TestExpect::Pass),
    ] {
        trace.tests.push(TestLink {
            id: id.to_string(),
            path: path.to_string(),
            model_id: model.to_string(),
            layer,
            framework: None,
            expect,
        });
    }
    let plan = project().test_plan(&config, &trace);
    assert_eq!(plan.len(), 2);
    assert_eq!(plan[0].id, "UT-DOM-USER");
    assert_eq!(plan[0].layer, "unit");
    assert_eq!(plan[0].command, "cargo test --lib");
    assert!(plan[0].is_gap, "red-until-implemented step is a gap");
    assert_eq!(plan[1].id, "IT-SEQ-LOGIN");
    assert!(!plan[1].is_gap);
}

#[test]
fn resolve_ui_framework_prefers_profile_over_playwright_default() {
    assert_eq!(project().resolve_ui_framework(&MddConfig::default()), "playwright");
    let mut config = MddConfig::default();
    let mut layers = KeyMap::new();
    layers.insert("ui".to_string(), TestLayerConfig { framework: "cypress".to_string(), command: String::new() });
    config.test.layers = layers;
    assert_eq!(project().resolve_ui_framework(&config), "cypress");
}

#[test]
fn detect_test_profile_recommends_from_build_files_and_flags_ambiguity() {
    let files = mdd::profile::BuildFiles {
        cargo_toml: true,
        package_json: Some("{\"devDependencies\":{\"vitest\":\"1\",\"@playwright/test\":\"1\"}}".to_string()),
        pyproject_toml: false,
        setup_py: false,
        go_mod: false,
    };
    let profile = project().detect_test_profile(&files);
    assert!(profile.recommendations.iter().any(|r| r.layer == "unit" && r.framework == "cargo-test"));
    assert!(profile.recommendations.iter().any(|r| r.layer == "ui" && r.framework == "playwright"));
    assert!(profile.ambiguities.iter().any(|a| a.contains("multiple unit-test frameworks")));
}

#[test]
fn context_lists_whole_map_table_of_contents() {
    let entries = vec![
        ("use-cases/sample.puml".to_string(), "@startuml\n' @id(USE-SAMPLE)\n@enduml\n".to_string()),
        ("domain/sample.puml".to_string(), "@startuml\n' @id(DOM-SAMPLE)\n' @id(DOM-OTHER)\n@enduml\n".to_string()),
    ];
    let changed = ChangedCode { symbols: Vec::new(), glue: Vec::new() };
    let ctx = project().session_context(&entries, None, &minimal_trace(), &changed);
    assert!(ctx.fresh);
    assert!(ctx.source_revision.is_none());
    let uc = ctx.toc.iter().find(|e| e.kind == "use-cases").unwrap();
    assert_eq!((uc.concept_count, uc.id_count), (1, 1));
    let dom = ctx.toc.iter().find(|e| e.kind == "domain").unwrap();
    assert_eq!((dom.concept_count, dom.id_count), (1, 2));
}

#[test]
fn context_reports_empty_map_and_no_baseline_on_fresh_init() {
    let changed = ChangedCode { symbols: Vec::new(), glue: Vec::new() };
    let ctx = project().session_context(&Vec::new(), None, &minimal_trace(), &changed);
    assert!(ctx.toc.is_empty());
    assert!(ctx.fresh);
    assert!(ctx.drift.is_empty());
}

#[test]
fn map_status_reports_drift_of_linked_symbols() {
    let mut trace = minimal_trace();
    trace.source_links.push(mdd::model::SourceLink {
        model_id: "DOM-USER".to_string(),
        path: "crates/x/src/user.rs".to_string(),
        symbol: Some("User".to_string()),
    });
    let changed = ChangedCode {
        symbols: vec![mdd::traceability::SymbolSpan {
            path: "crates/x/src/user.rs".to_string(),
            symbol: "User".to_string(),
            line_start: 1,
            line_end: 5,
            kind: "struct".to_string(),
        }],
        glue: Vec::new(),
    };
    let report = project().map_status(Some("abc123".to_string()), &trace, &changed);
    assert!(!report.fresh);
    assert_eq!(report.drift.len(), 1);
    assert_eq!(report.drift[0].model_id, "DOM-USER");
    let fresh = project().map_status(None, &trace, &changed);
    assert!(fresh.fresh && fresh.drift.is_empty());
}

#[test]
fn traceability_is_advisory_under_warn() {
    let files = security_mismatch_models();
    let registry = registry_of(&files);
    let trace = minimal_trace();
    let changed = ChangedCode {
        symbols: vec![mdd::traceability::SymbolSpan {
            path: "crates/x/src/lib.rs".to_string(),
            symbol: "untracked".to_string(),
            line_start: 1,
            line_end: 3,
            kind: "fn".to_string(),
        }],
        glue: Vec::new(),
    };
    let strict =
        project().review_traceability(&registry, ParityMode::Error, &trace, "HEAD".to_string(), &Vec::new(), &changed);
    assert_eq!(strict.reverse_bucket_b.len(), 1);
    assert!(!strict.matched);
    let advisory =
        project().review_traceability(&registry, ParityMode::Warn, &trace, "HEAD".to_string(), &Vec::new(), &changed);
    assert_eq!(advisory.reverse_bucket_b.len(), 1);
    assert!(advisory.matched, "under warn the traceability pass always matches");
}
