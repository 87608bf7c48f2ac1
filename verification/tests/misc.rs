use mdd::agent::{agent_instructions, instruction_path, pre_code_hooks, AgentKind};
use mdd::cycle::{Cycle, CycleManifest, CycleStatus, EntryPoint};
use mdd::markers::{extract_descs, extract_ids, extract_refs, slugify};
use mdd::model::{ModelKind, RenderTree};
use mdd::project::Project;
use mdd::traceability::symbol_matches;
use mdd::viewer::{kind_label, short_path};

fn project() -> Project {
    Project::at("/work/app".to_string())
}

fn cycle(number: u32, status: CycleStatus, scope: &[&str]) -> Cycle {
    Cycle {
        manifest: CycleManifest {
            number,
            slug: "slice".into(),
            entry: EntryPoint::Generate,
            description: String::new(),
            status,
            opened_at: String::new(),
            closed_at: None,
            touched_files: vec![],
            scope: scope.iter().map(|s| s.to_string()).collect(),
        },
        dir: format!(".mdd/cycles/{number:04}"),
        before_dir: format!(".mdd/cycles/{number:04}/before"),
        after_dir: None,
    }
}

#[test]
fn scan_missing_dir_is_empty() {
    let reg = project().cycle_registry(vec![]);
    assert!(reg.cycles.is_empty());
    assert!(reg.latest().is_none());
}

#[test]
fn cycle_registry_sorts_by_number_and_scopes_to_open_cycle() {
    let reg = project().cycle_registry(vec![
        cycle(3, CycleStatus::Open, &["USE-B", "DOM-A"]),
        cycle(1, CycleStatus::Open, &["USE-Z"]),
        cycle(2, CycleStatus::Closed, &["SEQ-C"]),
    ]);
    let numbers: Vec<u32> = reg.cycles.iter().map(|c| c.number()).collect();
    assert_eq!(numbers, vec![1, 2, 3]);
    assert_eq!(reg.open_cycle_scope(), vec!["DOM-A".to_string(), "USE-B".to_string()]);
    let closed = project().cycle_registry(vec![cycle(2, CycleStatus::Closed, &["SEQ-C"])]);
    assert!(closed.open_cycle_scope().is_empty());
}

#[test]
fn symbol_match_is_symmetric_on_examples() {
    for (a, b) in [("Project::review", "review"), ("apply_theme", "register_fonts"), ("a::b::c", "b::c")] {
        assert_eq!(symbol_matches(a, b), symbol_matches(b, a));
    }
    assert!(symbol_matches("x", "x"));
}

#[test]
fn render_tree_keys_parse_back() {
    for tree in RenderTree::all() {
        assert_eq!(RenderTree::parse(tree.key()), Some(tree));
    }
    assert_eq!(RenderTree::parse("  Cycles "), Some(RenderTree::CycleDiffs));
    assert_eq!(RenderTree::parse("constraint"), Some(RenderTree::OclConstraints));
    assert_eq!(RenderTree::parse("nope"), None);
}

#[test]
fn rendered_svg_path_mirrors_model_tree() {
    let p = project();
    assert_eq!(
        p.rendered_svg_path(".mdd/models/current/domain/user.puml"),
        "/work/app/.mdd/rendered/models/current/domain/user.svg"
    );
    assert_eq!(p.rendered_svg_path("constraints/rules.ocl"), "/work/app/.mdd/rendered/constraints/rules.svg");
    assert_eq!(
        p.rendered_mirror_path(".mdd/rendered/review/login.diff.puml"),
        "/work/app/.mdd/rendered/review/login.diff.svg"
    );
    assert_eq!(p.rendered_mirror_path(".mdd/map/a.puml"), "/work/app/.mdd/rendered/map/a.svg");
}

#[test]
fn model_files_leave_out_constraints() {
    let files = vec![
        ".mdd/models/current/domain/user.puml".to_string(),
        ".mdd/constraints/rules.ocl".to_string(),
        ".mdd/models/current/domain/notes.txt".to_string(),
    ];
    assert_eq!(project().model_files(&files), vec![".mdd/models/current/domain/user.puml".to_string()]);
    assert_eq!(
        project().render_sources(RenderTree::OclConstraints, &files),
        vec![".mdd/constraints/rules.ocl".to_string()]
    );
}

#[test]
fn rendered_pages_list_base_then_numbered() {
    let listing = vec![
        "user_002.svg".to_string(),
        "user.svg".to_string(),
        "other.svg".to_string(),
        "user_001.svg".to_string(),
    ];
    let pages = project().rendered_pages_for(".mdd/models/current/domain/user.puml", Some(&listing));
    assert_eq!(
        pages,
        vec![
            "models/current/domain/user.svg".to_string(),
            "models/current/domain/user_001.svg".to_string(),
            "models/current/domain/user_002.svg".to_string(),
        ]
    );
    assert!(project().rendered_pages_for(".mdd/models/current/domain/user.puml", None).is_empty());
    assert!(project().rendered_pages_for("src/user.puml", Some(&listing)).is_empty());
}

#[test]
fn traceability_base_is_latest_open_cycle_base() {
    let manifests = vec![
        ("0001".to_string(), Some("open".to_string()), Some("aaa".to_string())),
        ("0003".to_string(), Some("closed".to_string()), Some("ccc".to_string())),
        ("0002".to_string(), Some("open".to_string()), Some("bbb".to_string())),
    ];
    assert_eq!(project().traceability_base(&manifests), "bbb");
    assert_eq!(project().traceability_base(&vec![]), "HEAD");
}

#[test]
fn map_source_revision_prefers_trimmed_explicit() {
    let p = project();
    assert_eq!(p.map_source_revision(false, Some("x".into()), Some("y".into())), None);
    assert_eq!(p.map_source_revision(true, Some("  abc ".into()), Some("y".into())), Some("abc".to_string()));
    assert_eq!(p.map_source_revision(true, Some("   ".into()), Some("y".into())), Some("y".to_string()));
    assert_eq!(p.map_source_revision(true, None, None), None);
}

#[test]
fn agent_kinds_parse_and_name_their_files() {
    assert_eq!(AgentKind::parse("codex").unwrap(), AgentKind::Codex);
    assert_eq!(
        AgentKind::parse("vim").unwrap_err(),
        "unknown agent `vim`; expected cursor, codex, or generic"
    );
    assert_eq!(instruction_path(AgentKind::Cursor), ".mdd/docs/cursor-mdd.md");
    assert!(agent_instructions(AgentKind::Generic).starts_with("# Model-Driven Development Instructions for Generic agent\n"));
}

#[test]
fn pre_code_hooks_are_sorted_names() {
    let entries = vec![
        ("zeta".to_string(), "pre-code check".to_string()),
        ("alpha".to_string(), "pre-code".to_string()),
        ("beta".to_string(), "post-code".to_string()),
    ];
    assert_eq!(pre_code_hooks(&entries), vec!["alpha".to_string(), "zeta".to_string()]);
}

#[test]
fn viewer_labels_and_short_paths() {
    assert_eq!(kind_label(ModelKind::State), "state machine");
    assert_eq!(short_path(".mdd/models/current/domain/user.puml"), "current/domain/user.puml");
    assert_eq!(short_path(".mdd/constraints/a.ocl"), "constraints/a.ocl");
    assert_eq!(short_path(".mdd/deploy/aca.puml"), "deploy/aca.puml");
    assert_eq!(short_path("README.md"), "README.md");
}

#[test]
fn markers_extract_ids_refs_and_descriptions() {
    let doc = "@startuml\n' @id(USE-B)\n' @id(USE-A)\n' @ref(DOM-X)\n' @desc(USE-A, \"Logs \\\"in\\\"\")\n@enduml\n";
    assert_eq!(extract_ids(doc), vec!["USE-A".to_string(), "USE-B".to_string()]);
    assert_eq!(extract_refs(doc), vec!["DOM-X".to_string()]);
    let descs = extract_descs(doc);
    assert_eq!(descs.get("USE-A").map(|s| s.as_str()), Some("Logs \"in\""));
    assert_eq!(slugify("USE-Login Form"), "use-login-form");
}

#[test]
fn desc_markers_follow_the_pattern() {
    let doc = "' @desc( USE-A , \"say \\\"hi\\\" \\\\ there\" )\n\
               ' @desc(USE-B, \"broken \\\n\")\n\
               ' @desc(USE-C,\"x\") @desc(USE-C, \"y\")\n\
               ' @desc(, \"no id\")\n";
    let descs = extract_descs(doc);
    assert_eq!(descs.get("USE-A").map(|s| s.as_str()), Some("say \"hi\" \\ there"));
    assert!(descs.get("USE-B").is_none(), "a backslash before a line feed ends no match");
    assert_eq!(descs.get("USE-C").map(|s| s.as_str()), Some("y"));
    assert_eq!(descs.entries.len(), 2);
}
