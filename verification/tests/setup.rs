use mdd::digest::hash_str;
use mdd::model::{InitFileConflict, InitReport};
use mdd::project::Project;
use mdd::setup::{
    generated_file_removal, managed_block_meta, managed_block_removal, managed_block_update, record_init,
    regenerable_outcome, render_managed_block, seeded_outcome, state_outcome, tree_removal, BlockRemoval, BlockWrite,
    CleanStep, InitOutcome, InitStep, StateKind,
};
use mdd::templates::AGENTS_ENTRYPOINT;

fn project() -> Project {
    Project::at("/work/app".to_string())
}

fn empty_report() -> InitReport {
    InitReport {
        root: "/work/app".to_string(),
        created: vec![],
        overwritten: vec![],
        migrated: vec![],
        skipped: vec![],
    }
}

/// Carry out the init plan on an empty directory.
fn init_fresh() -> (Vec<InitStep>, InitReport) {
    let steps = project().init();
    let mut report = empty_report();
    for step in &steps {
        match step {
            InitStep::Dir(_) => {}
            InitStep::State(p, _) => record_init(&mut report, p, state_outcome(false, 0, true, 2)),
            InitStep::Regenerable(p, _) => {
                record_init(&mut report, p, regenerable_outcome(false, false, InitFileConflict::Skip))
            }
            InitStep::Seeded(p, _) => record_init(&mut report, p, seeded_outcome(false)),
            InitStep::Block(p, kind, body) => {
                let block = render_managed_block(kind, body).unwrap();
                match managed_block_update(None, &block) {
                    BlockWrite::Create(_) => record_init(&mut report, p, InitOutcome::Created),
                    _ => panic!("a missing file is created"),
                }
            }
        }
    }
    (steps, report)
}

fn has_dir(steps: &[InitStep], d: &str) -> bool {
    steps.iter().any(|s| matches!(s, InitStep::Dir(p) if p == d))
}

#[test]
fn init_creates_expected_structure() {
    let (steps, report) = init_fresh();
    assert!(report.created.contains(&".mdd/config.yml".to_string()));
    assert!(report.overwritten.is_empty());
    assert!(report.skipped.is_empty());
    assert!(has_dir(&steps, ".mdd/models/current/use-cases"));
    assert!(has_dir(&steps, ".mdd/models/current/mockups"));
    assert!(has_dir(&steps, ".mdd/models/current/states"));
    assert!(has_dir(&steps, ".mdd/models/objective/use-cases"));
    assert!(has_dir(&steps, ".mdd/models/objective/states"));
    assert!(steps.iter().any(|s| matches!(s, InitStep::State(p, StateKind::Trace) if p == ".mdd/trace.yml")));
    assert!(steps.iter().any(|s| matches!(s, InitStep::State(p, StateKind::Approvals) if p == ".mdd/approvals.yml")));
    assert!(has_dir(&steps, ".mdd/tests/ui"));
    assert!(has_dir(&steps, ".mdd/ralph"));
    assert!(steps.iter().any(|s| matches!(s, InitStep::Seeded(p, _) if p == ".mdd/ralph/PLAN.md")));
    assert!(report.created.contains(&".mdd/ralph/PLAN.md".to_string()));
}

#[test]
fn init_plan_installs_every_workflow_skill() {
    let steps = project().init();
    for name in ["mdd-map", "mdd-generate", "mdd-implement", "mdd-review", "mdd-render"] {
        let path = format!(".codex/skills/{name}/SKILL.md");
        assert!(steps.iter().any(|s| matches!(s, InitStep::Regenerable(p, c) if *p == path && c.starts_with("---\n"))), "{path}");
    }
}

#[test]
fn clean_removes_init_artifacts() {
    let steps = project().clean();
    assert!(matches!(&steps[0], CleanStep::RemoveTree(p) if p == ".mdd"));
    assert_eq!(tree_removal(true), None);
    assert!(steps.iter().any(|s| matches!(s, CleanStep::RemoveBlock(p) if p == "AGENTS.md")));
    assert!(steps.iter().any(|s| matches!(s, CleanStep::RemoveEmptyDir(p) if p == ".codex")));
    // Each skill file init writes is removed when unmodified.
    for step in &project().init() {
        if let InitStep::Regenerable(p, content) = step {
            if p.starts_with(".codex/skills/") {
                assert!(steps.iter().any(|s| matches!(s, CleanStep::RemoveGenerated(q, c) if q == p && c == content)));
                assert_eq!(generated_file_removal(false, false, &Ok(content.clone()), content), None);
            }
        }
    }
    // Nothing but the managed block is taken from AGENTS.md.
    assert!(!steps.iter().any(|s| matches!(s, CleanStep::RemoveTree(p) | CleanStep::RemoveGenerated(p, _) if p == "AGENTS.md")));
}

#[test]
fn tree_removal_refuses_a_file() {
    assert_eq!(tree_removal(false), Some("expected a directory created by mdd init".to_string()));
}

#[test]
fn clean_skips_modified_generated_files_without_force() {
    assert_eq!(
        generated_file_removal(false, false, &Ok("edited".to_string()), "template"),
        Some("content differs from the generated mdd init template".to_string())
    );
    assert_eq!(generated_file_removal(false, true, &Ok("edited".to_string()), "template"), None);
    assert_eq!(
        generated_file_removal(true, true, &Ok(String::new()), "template"),
        Some("expected a file created by mdd init".to_string())
    );
    assert_eq!(
        generated_file_removal(false, false, &Err("denied".to_string()), "t"),
        Some("could not verify generated content (denied); use --force to remove".to_string())
    );
}

#[test]
fn init_outcomes_never_overwrite_state_or_seeded_files() {
    assert_eq!(state_outcome(false, 0, false, 2), InitOutcome::Created);
    assert_eq!(state_outcome(true, 2, true, 2), InitOutcome::Skipped);
    assert_eq!(state_outcome(true, 3, true, 2), InitOutcome::Skipped);
    assert_eq!(state_outcome(true, 1, false, 2), InitOutcome::Skipped);
    assert_eq!(state_outcome(true, 1, true, 2), InitOutcome::Migrated);
    assert_eq!(seeded_outcome(true), InitOutcome::Skipped);
    assert_eq!(regenerable_outcome(true, false, InitFileConflict::Overwrite), InitOutcome::Overwritten);
    assert_eq!(regenerable_outcome(true, false, InitFileConflict::Skip), InitOutcome::Skipped);
    assert_eq!(regenerable_outcome(true, true, InitFileConflict::Overwrite), InitOutcome::Skipped);
}

fn agents_block() -> String {
    render_managed_block("agents-entrypoint", AGENTS_ENTRYPOINT).unwrap()
}

#[test]
fn rendered_block_has_sentinels_and_digest() {
    let block = render_managed_block("agents-entrypoint", "hello").unwrap();
    let expected = format!(
        "<!-- mdd:begin -->\n<!-- mdd:meta {{\"tool\":\"mdd\",\"schema\":1,\"kind\":\"agents-entrypoint\",\"content_sha256\":\"{}\"}} -->\nhello\n<!-- mdd:end -->\n",
        hash_str("hello")
    );
    assert_eq!(block, expected);
    assert_eq!(hash_str("").len(), 64);
    assert_eq!(hash_str(""), "e3b0c44298fc1c149afbf4c8996fb92427ae41e4649b934ca495991b7852b855");
}

#[test]
fn init_appends_block_to_existing_files() {
    let block = agents_block();
    match managed_block_update(Some("# Mine\n"), &block) {
        BlockWrite::Update(s) => assert_eq!(s, format!("# Mine\n\n{block}")),
        _ => panic!("expected an update"),
    }
    match managed_block_update(Some("# Mine"), &block) {
        BlockWrite::Update(s) => assert_eq!(s, format!("# Mine\n\n{block}")),
        _ => panic!("expected an update"),
    }
    match managed_block_update(Some(""), &block) {
        BlockWrite::Update(s) => assert_eq!(s, block),
        _ => panic!("expected an update"),
    }
}

#[test]
fn init_reinit_replaces_block_in_place() {
    let old = render_managed_block("agents-entrypoint", "old body").unwrap();
    let new = agents_block();
    let file = format!("# Top\n\n{old}\n# Bottom\n");
    let updated = match managed_block_update(Some(&file), &new) {
        BlockWrite::Update(s) => s,
        _ => panic!("expected an update"),
    };
    assert_eq!(updated, format!("# Top\n\n{new}\n# Bottom\n"));
    // A second run changes nothing.
    assert!(matches!(managed_block_update(Some(&updated), &new), BlockWrite::Unchanged));
}

#[test]
fn clean_preserves_user_content_around_block() {
    let block = agents_block();
    let file = format!("# Mine\n\n{block}");
    let meta = managed_block_meta(&file).unwrap();
    assert!(meta.contains(&hash_str(AGENTS_ENTRYPOINT)));
    match managed_block_removal(&file, false, Some(hash_str(AGENTS_ENTRYPOINT))) {
        BlockRemoval::Rewrite(s) => assert_eq!(s, "# Mine\n"),
        _ => panic!("expected a rewrite"),
    }
}

#[test]
fn clean_deletes_file_holding_only_the_block() {
    let block = agents_block();
    assert!(matches!(managed_block_removal(&block, false, Some(hash_str(AGENTS_ENTRYPOINT))), BlockRemoval::DeleteFile));
}

#[test]
fn clean_skips_hand_edited_block_without_force() {
    let block = agents_block().replace("MDD", "XYZ");
    let file = format!("# Mine\n\n{block}");
    assert!(matches!(managed_block_removal(&file, false, Some(hash_str(AGENTS_ENTRYPOINT))), BlockRemoval::Modified));
    assert!(matches!(managed_block_removal(&file, true, None), BlockRemoval::Rewrite(_)));
}

#[test]
fn clean_leaves_files_without_markers_untouched() {
    assert!(matches!(managed_block_removal("# Mine\n", true, None), BlockRemoval::NoBlock));
    assert_eq!(managed_block_meta("# Mine\n"), None);
}

#[test]
fn managed_block_kind_is_written_as_a_json_string() {
    let block = render_managed_block("a\"b\\c\nd\u{1}", "body").unwrap();
    assert!(block.contains("\"kind\":\"a\\\"b\\\\c\\nd\\u0001\""), "{block}");
    let plain = render_managed_block("agents-entrypoint", "body").unwrap();
    assert!(plain.contains("\"kind\":\"agents-entrypoint\""));
}
