use mdd::cycle::{annotate_cycle_diff_puml, diff_documents, element_keys, removed_ghost_keyword, Cycle, CycleManifest, CycleRegistry, CycleStatus, EntryPoint};

#[test]
fn diff_partitions_into_disjoint_buckets() {
    let before = "@startuml\n' @id(DOM-A)\nclass A\nclass Gone\n@enduml\n";
    let after = "@startuml\n' @id(DOM-A)\nclass A\nclass New\n@enduml\n";
    let diff = diff_documents("domain/x.puml", before, after);
    assert!(diff.added.contains(&"el:New".to_string()));
    assert!(diff.removed.contains(&"el:Gone".to_string()));
    assert!(diff.unchanged.contains(&"id:DOM-A".to_string()));
    for a in &diff.added {
        assert!(!diff.removed.contains(a) && !diff.unchanged.contains(a));
    }
    assert!(!diff.is_empty(), "a real add/remove is not is_empty()");
}

#[test]
fn unchanged_only_diff_is_empty() {
    let doc = "@startuml\n' @id(DOM-A)\nclass A\nclass B\n@enduml\n";
    let diff = diff_documents("domain/x.puml", doc, doc);
    assert!(diff.added.is_empty() && diff.removed.is_empty());
    assert!(!diff.unchanged.is_empty());
    assert!(diff.is_empty());
}

#[test]
fn annotate_marks_added_and_removed() {
    let before = "@startuml\n' @id(USE-OLD)\nusecase \"Old\" as Old\n@enduml\n";
    let after = "@startuml\n' @id(USE-NEW)\nusecase \"New\" as New\n@enduml\n";
    let out = annotate_cycle_diff_puml(after, before);
    assert!(out.contains("<<added>>"));
    assert!(out.contains("RemovedByCycle0 <<removed>>"));
    assert!(out.contains("card \"Old\" as RemovedByCycle0 <<removed>>"));
    assert!(out.contains("skinparam"));
}

#[test]
fn annotate_removed_in_sequence_uses_participant_not_card() {
    let before = "@startuml\nparticipant \"Old\" as Old\nparticipant \"Keep\" as Keep\n@enduml\n";
    let after = "@startuml\nparticipant \"Keep\" as Keep\n@enduml\n";
    let out = annotate_cycle_diff_puml(after, before);
    assert!(out.contains("participant \"Old\" as RemovedByCycle0 <<removed>>"));
    assert!(!out.contains("card \""));
}

#[test]
fn annotate_removed_in_state_uses_state_keyword() {
    let before = "@startuml\n[*] --> A\nstate A\nstate Gone\n@enduml\n";
    let after = "@startuml\n[*] --> A\nstate A\n@enduml\n";
    let out = annotate_cycle_diff_puml(after, before);
    assert!(out.contains("state \"Gone\" as RemovedByCycle0 <<removed>>"));
    assert!(!out.contains("card \""));
}

#[test]
fn annotate_salt_skips_removed_injection() {
    let before = "@startsalt\n' @id(MCK-OLD)\n{\n  [Old]\n}\n@endsalt\n";
    let after = "@startsalt\n' @id(MCK-NEW)\n{\n  [New]\n}\n@endsalt\n";
    let out = annotate_cycle_diff_puml(after, before);
    assert!(!out.contains("RemovedByCycle"));
    assert!(!out.contains("card \""));
}

#[test]
fn annotate_injects_added_before_brace() {
    let before = "@startuml\n@enduml\n";
    let after = "@startuml\n' @id(DOM-N)\nclass Node {\n}\n@enduml\n";
    let out = annotate_cycle_diff_puml(after, before);
    assert!(out.contains("class Node <<added>> {\n"));
}

fn manifest(number: u32, status: CycleStatus) -> CycleManifest {
    CycleManifest {
        number,
        slug: "x".into(),
        entry: EntryPoint::Generate,
        description: String::new(),
        status,
        opened_at: String::new(),
        closed_at: None,
        touched_files: vec![],
        scope: vec![],
    }
}

fn cycle(number: u32, status: CycleStatus) -> Cycle {
    Cycle {
        manifest: manifest(number, status),
        dir: format!(".mdd/cycles/{number:04}"),
        before_dir: format!(".mdd/cycles/{number:04}/before"),
        after_dir: None,
    }
}

#[test]
fn diff_puml_rel_mirrors_model_path_under_cycle() {
    let c = cycle(2, CycleStatus::Closed);
    assert_eq!(
        c.diff_puml_rel(".mdd/models/current/domain/canvas-view.puml").as_deref(),
        Some(".mdd/cycles/0002/domain/canvas-view.diff.puml")
    );
    assert_eq!(
        c.diff_puml_rel(".mdd/models/objective/use-cases/cycle-tracking.puml").as_deref(),
        Some(".mdd/cycles/0002/use-cases/cycle-tracking.diff.puml")
    );
    assert_eq!(c.diff_puml_rel("crates/foo.rs"), None);
}

#[test]
fn cycle_label_and_status() {
    let c = cycle(1, CycleStatus::Open);
    assert_eq!(c.label(), "Cycle 0001 — x (open)");
    assert!(!c.is_closed());
    assert_eq!(c.number(), 1);
    let d = cycle(12345, CycleStatus::Closed);
    assert_eq!(d.label(), "Cycle 12345 — x (closed)");
    assert!(d.is_closed());
}

#[test]
fn registry_lookup_and_latest() {
    let empty = CycleRegistry { cycles: vec![] };
    assert!(empty.latest().is_none());
    let reg = CycleRegistry { cycles: vec![cycle(1, CycleStatus::Closed), cycle(3, CycleStatus::Open)] };
    assert_eq!(reg.cycle(3).unwrap().number(), 3);
    assert!(reg.cycle(2).is_none());
    assert_eq!(reg.latest().unwrap().number(), 3);
}

#[test]
fn element_keys_cover_ids_aliases_labels_and_names() {
    let doc = "@startuml\n' @id(UC-1)\nactor \"Shop Owner\" as Owner\nclass \"Quoted\"\nclass Plain<T>\n// class Hidden\nnote \"x\"\n\n@enduml\n";
    let keys = element_keys(doc);
    assert_eq!(keys, vec!["el:Owner", "el:Plain", "el:Quoted", "id:UC-1"]);
}

#[test]
fn ghost_keyword_by_diagram_type() {
    assert_eq!(removed_ghost_keyword("@startsalt\n{\n}\n@endsalt\n"), None);
    assert_eq!(removed_ghost_keyword("@startuml\n[*] --> A\n@enduml\n"), Some("state"));
    assert_eq!(removed_ghost_keyword("@startuml\n' [*]\nqueue Q\n@enduml\n"), Some("participant"));
    assert_eq!(removed_ghost_keyword("@startuml\nclass A\n@enduml\n"), Some("card"));
}
