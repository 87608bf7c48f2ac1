use mdd::graph::GraphData;
use mdd::model::{ModelElement, ModelFile, ModelKind, ModelRegistry, ModelSide, Trace, TraceLink};
use mdd::viewer::TreeNode;

fn registry(elements: &[(&str, ModelKind, &str)]) -> ModelRegistry {
    ModelRegistry {
        files: Vec::new(),
        ids: elements
            .iter()
            .map(|(id, kind, file)| ModelElement {
                id: (*id).to_string(),
                file: (*file).to_string(),
                kind: *kind,
                side: ModelSide::Current,
            })
            .collect(),
    }
}

fn trace(links: &[(&str, &str, &str)]) -> Trace {
    let mut t = Trace::default();
    t.links = links
        .iter()
        .map(|(from, to, rel)| TraceLink {
            from: (*from).to_string(),
            to: (*to).to_string(),
            relation: (*rel).to_string(),
        })
        .collect();
    t
}

fn index(data: &GraphData, id: &str) -> usize {
    *data.by_id.get(id).unwrap()
}

#[test]
fn build_counts_nodes_from_registry_and_synthetic_endpoints() {
    let reg = registry(&[("A", ModelKind::UseCase, "a.puml"), ("B", ModelKind::Sequence, "b.puml")]);
    let tr = trace(&[("A", "B", "realizes"), ("A", "C", "implemented_by")]);
    let data = GraphData::build(&reg, &tr);
    assert_eq!(data.node_count(), 3, "A, B, and synthetic C");
    assert_eq!(data.edge_count(), 2);
    assert!(data.by_id.get("A").is_some());
    assert!(data.by_id.get("C").is_some());
}

#[test]
fn build_dedups_endpoints_across_links() {
    let reg = registry(&[("A", ModelKind::UseCase, "a.puml")]);
    let tr = trace(&[("A", "B", "r"), ("A", "B", "r"), ("B", "C", "r")]);
    let data = GraphData::build(&reg, &tr);
    assert_eq!(data.node_count(), 3);
    assert_eq!(data.edge_count(), 3);
}

fn chain() -> GraphData {
    let reg = registry(&[
        ("A", ModelKind::UseCase, "a.puml"),
        ("B", ModelKind::Sequence, "b.puml"),
        ("C", ModelKind::Sequence, "c.puml"),
        ("D", ModelKind::Domain, "d.puml"),
    ]);
    let tr = trace(&[("A", "B", "r"), ("B", "C", "r"), ("C", "D", "r")]);
    GraphData::build(&reg, &tr)
}

#[test]
fn neighbors_within_depth_one_returns_immediate_neighbors() {
    let data = chain();
    let a = index(&data, "A");
    let one_hop = data.neighbors_within(a, 1);
    assert_eq!(one_hop.len(), 2, "self + B");
    assert!(one_hop.contains(&index(&data, "B")));
    assert!(!one_hop.contains(&index(&data, "C")));
}

#[test]
fn neighbors_within_depth_two_walks_further() {
    let data = chain();
    let a = index(&data, "A");
    let two_hop = data.neighbors_within(a, 2);
    assert_eq!(two_hop.len(), 3, "A, B, C");
    assert!(!two_hop.contains(&index(&data, "D")));
}

#[test]
fn neighbors_within_handles_isolated_node() {
    let reg = registry(&[("A", ModelKind::UseCase, "a.puml")]);
    let tr = trace(&[]);
    let data = GraphData::build(&reg, &tr);
    let a = index(&data, "A");
    let set = data.neighbors_within(a, 3);
    assert_eq!(set.len(), 1);
    assert!(set.contains(&a));
}

#[test]
fn neighbors_within_walks_edges_both_ways_and_outside_nodes_stay_alone() {
    let data = chain();
    let d = index(&data, "D");
    let mut all = data.neighbors_within(d, 10);
    all.sort();
    assert_eq!(all, vec![0, 1, 2, 3]);
    assert_eq!(data.neighbors_within(99, 2), vec![99]);
    assert_eq!(data.neighbors_within(d, 0), vec![d]);
}

#[test]
fn later_duplicate_id_points_at_its_last_node() {
    let reg = registry(&[("A", ModelKind::UseCase, "a.puml"), ("A", ModelKind::Domain, "b.puml")]);
    let data = GraphData::build(&reg, &trace(&[]));
    assert_eq!(data.node_count(), 2);
    assert_eq!(index(&data, "A"), 1);
}

fn file(path: &str, kind: ModelKind) -> ModelFile {
    ModelFile {
        path: path.to_string(),
        kind,
        side: ModelSide::Current,
        ids: vec![],
        refs: vec![],
        rendered_pages: vec![],
    }
}

#[test]
fn tree_nests_files_under_sorted_directories() {
    let files = vec![
        file(".mdd/models/objective/use-cases/login.puml", ModelKind::UseCase),
        file(".mdd/models/current/domain/user.puml", ModelKind::Domain),
        file(".mdd/models/current/domain/order.puml", ModelKind::Domain),
        file(".mdd/constraints/rules.ocl", ModelKind::Constraint),
    ];
    let tree = TreeNode::build(&files, None);
    let names: Vec<&str> = tree.dirs.iter().map(|(n, _)| n.as_str()).collect();
    assert_eq!(names, vec!["constraints", "current", "objective"]);
    assert!(tree.files.is_empty());
    let current = &tree.dirs[1].1;
    let domain = &current.dirs[0].1;
    assert_eq!(current.dirs[0].0, "domain");
    let labels: Vec<&str> = domain.files.iter().map(|f| f.label.as_str()).collect();
    assert_eq!(labels, vec!["user.puml", "order.puml"]);
    assert_eq!(domain.files[0].kind, "domain");
    assert_eq!(domain.files[0].path, ".mdd/models/current/domain/user.puml");
    assert_eq!(tree.dirs[0].1.files[0].kind, "constraint");
}

#[test]
fn tree_uses_the_given_kind_and_keeps_top_level_files() {
    let files = vec![file("deploy.puml", ModelKind::Other), file(".mdd/deploy/aca/app.puml", ModelKind::Other)];
    let tree = TreeNode::build(&files, Some("deployment"));
    assert_eq!(tree.files.len(), 1);
    assert_eq!(tree.files[0].label, "deploy.puml");
    assert_eq!(tree.files[0].kind, "deployment");
    assert_eq!(tree.dirs[0].0, "deploy");
    assert_eq!(tree.dirs[0].1.dirs[0].0, "aca");
    assert_eq!(tree.dirs[0].1.dirs[0].1.files[0].kind, "deployment");
}
