use mdd::architecture::{check, diff, ArchitectureSpec, Component, Decision, ViolationKind};

fn decision(id: &str, title: &str, status: &str) -> Decision {
    Decision {
        id: id.into(),
        title: title.into(),
        status: status.into(),
        date: String::new(),
        context: String::new(),
        decision: String::new(),
        consequences: String::new(),
        supersedes: None,
        superseded_by: None,
    }
}

fn spec(decisions: Vec<Decision>, components: Vec<Component>) -> ArchitectureSpec {
    ArchitectureSpec { components, decisions, constraints: vec![] }
}

#[test]
fn parse_empty_template_is_empty() {
    let s = spec(vec![], vec![]);
    assert!(s.is_empty());
    assert!(!spec(vec![decision("AD-0001", "A", "accepted")], vec![]).is_empty());
}

#[test]
fn diff_partitions_added_removed_changed() {
    let base = spec(vec![decision("AD-0001", "A", "accepted"), decision("AD-0002", "B", "accepted")], vec![]);
    let head = spec(
        vec![
            decision("AD-0001", "A", "accepted"),
            decision("AD-0002", "B changed", "accepted"),
            decision("AD-0003", "C", "accepted"),
        ],
        vec![],
    );
    let d = diff(&base, &head);
    assert_eq!(d.added_decisions, vec!["AD-0003".to_string()]);
    assert!(d.removed_decisions.is_empty());
    assert_eq!(d.changed_decisions, vec!["AD-0002".to_string()]);
    assert!(!d.is_empty());
}

#[test]
fn diff_of_identical_specs_is_empty() {
    let s = spec(vec![decision("AD-0001", "", "accepted")], vec![]);
    assert!(diff(&s, &s).is_empty());
}

#[test]
fn diff_later_duplicate_id_wins() {
    let base = spec(vec![decision("AD-1", "old", "accepted"), decision("AD-1", "new", "accepted")], vec![]);
    let head = spec(vec![decision("AD-1", "new", "accepted")], vec![]);
    assert!(diff(&base, &head).is_empty());
    let d = diff(&head, &base);
    assert!(d.is_empty());
}

#[test]
fn check_flags_bad_status_and_unlinked_supersede() {
    let s = spec(vec![decision("AD-0001", "", "bogus"), decision("AD-0002", "", "superseded")], vec![]);
    let v = check(&s, &vec![]);
    assert!(v.iter().any(|x| x.kind == ViolationKind::DecisionMissingStatus && x.subject == "AD-0001"));
    assert!(v.iter().any(|x| x.kind == ViolationKind::SupersededMissingSuccessor && x.subject == "AD-0002"));
    assert_eq!(
        v[0].message,
        "decision AD-0001 has invalid or missing status \"bogus\" (expected one of [\"proposed\", \"accepted\", \"superseded\", \"deprecated\"])"
    );
    assert_eq!(v[1].message, "superseded decision AD-0002 has no superseded_by");
}

#[test]
fn check_accepts_superseded_with_successor() {
    let mut d = decision("AD-1", "", "superseded");
    d.superseded_by = Some("AD-2".into());
    let mut blank = decision("AD-3", "", "superseded");
    blank.superseded_by = Some("   ".into());
    let v = check(&spec(vec![d, blank], vec![]), &vec![]);
    assert_eq!(v.len(), 1);
    assert_eq!(v[0].subject, "AD-3");
}

fn component(id: &str, owns: &[&str], deps: &[&str]) -> Component {
    Component {
        id: id.into(),
        name: String::new(),
        kind: String::new(),
        description: String::new(),
        owns: owns.iter().map(|s| s.to_string()).collect(),
        depends_on: deps.iter().map(|s| s.to_string()).collect(),
        tech: String::new(),
    }
}

#[test]
fn check_flags_unresolved_component_ref_and_passes_when_resolved() {
    let s = spec(vec![], vec![component("CMP-API", &["DOM-TASK"], &["CMP-DB"])]);
    let none = check(&s, &vec![]);
    assert_eq!(none.iter().filter(|x| x.kind == ViolationKind::ComponentRefUnresolved).count(), 2);
    assert_eq!(none[0].message, "component CMP-API references unknown model @id DOM-TASK");
    let known = vec!["CMP-DB".to_string(), "DOM-TASK".to_string()];
    assert!(check(&s, &known).iter().all(|x| x.kind != ViolationKind::ComponentRefUnresolved));
}

#[test]
fn summary_counts_decisions_by_status() {
    let s = spec(
        vec![decision("A", "", "accepted"), decision("B", "", "proposed"), decision("C", "", "accepted")],
        vec![component("X", &[], &[])],
    );
    let sum = s.summary();
    assert_eq!(sum.components, 1);
    assert_eq!(sum.decisions, 3);
    assert_eq!(sum.constraints, 0);
    assert_eq!(sum.decisions_by_status.entries, vec![("accepted".to_string(), 2), ("proposed".to_string(), 1)]);
}
