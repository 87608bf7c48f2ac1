use mdd::traceability::{glue_label, innermost_symbol, is_behaviour_kind, parse_hunk_new_range, parse_unified_diff, symbol_matches, SymbolSpan};

#[test]
fn symbol_matching_tolerates_both_forms() {
    assert!(symbol_matches("Project::review", "review"));
    assert!(symbol_matches("review", "Project::review"));
    assert!(symbol_matches("apply_theme", "apply_theme"));
    assert!(!symbol_matches("apply_theme", "register_fonts"));
}

#[test]
fn parses_unified_diff_new_ranges() {
    let diff = "diff --git a/crates/x/src/lib.rs b/crates/x/src/lib.rs\n--- a/crates/x/src/lib.rs\n+++ b/crates/x/src/lib.rs\n@@ -10,0 +11,2 @@ fn foo\n+a\n+b\n@@ -20 +22 @@\n+c\n";
    let map = parse_unified_diff(diff);
    let ranges = map.get("crates/x/src/lib.rs").unwrap();
    assert_eq!(ranges, &vec![(11, 12), (22, 22)]);
}

#[test]
fn unified_diff_ignores_non_src_and_non_rs() {
    let diff = "+++ b/crates/x/examples/e.rs\n@@ -0,0 +1 @@\n+x\n+++ b/README.md\n@@ -0,0 +1 @@\n+y\n";
    assert!(parse_unified_diff(diff).is_empty());
}

#[test]
fn unified_diff_skips_zero_count_hunks_and_deleted_files() {
    let diff = "+++ b/a/src/lib.rs\n@@ -5,2 +4,0 @@\n+++ /dev/null\n@@ -1 +1 @@\n";
    assert!(parse_unified_diff(diff).is_empty());
}

#[test]
fn unified_diff_groups_ranges_per_file_sorted_by_path() {
    let diff = "+++ b/z/src/b.rs\n@@ -1 +3,2 @@\n+++ b/a/src/a.rs\n@@ -1 +7 @@\n+++ b/z/src/b.rs\n@@ -9 +9,3 @@\n";
    let map = parse_unified_diff(diff);
    assert_eq!(map.len(), 2);
    assert_eq!(map.entries[0].0, "a/src/a.rs");
    assert_eq!(map.entries[0].1, vec![(7, 7)]);
    assert_eq!(map.entries[1].0, "z/src/b.rs");
    assert_eq!(map.entries[1].1, vec![(3, 4), (9, 11)]);
}

#[test]
fn hunk_header_new_range_forms() {
    assert_eq!(parse_hunk_new_range("-10,0 +11,2 @@ fn foo"), Some((11, 2)));
    assert_eq!(parse_hunk_new_range("-20 +22 @@"), Some((22, 1)));
    assert_eq!(parse_hunk_new_range("-1 ++5,3,9 @@"), Some((5, 3)));
    assert_eq!(parse_hunk_new_range("-1 +x,2 @@"), None);
    assert_eq!(parse_hunk_new_range("-1,2 @@"), None);
}

#[test]
fn behaviour_kinds() {
    for k in ["fn", "struct", "enum", "trait", "type"] {
        assert!(is_behaviour_kind(k));
    }
    for k in ["const", "static", "variant", "glue", ""] {
        assert!(!is_behaviour_kind(k));
    }
}

fn span(symbol: &str, a: usize, b: usize) -> SymbolSpan {
    SymbolSpan { path: "x/src/lib.rs".into(), symbol: symbol.into(), line_start: a, line_end: b, kind: "fn".into() }
}

#[test]
fn innermost_symbol_prefers_smallest_span_first_on_ties() {
    let symbols = vec![span("Outer", 1, 20), span("Outer::inner", 5, 8), span("Outer::twin", 5, 8)];
    assert_eq!(innermost_symbol(&symbols, 6), Some(1));
    assert_eq!(innermost_symbol(&symbols, 2), Some(0));
    assert_eq!(innermost_symbol(&symbols, 30), None);
}

#[test]
fn glue_labels() {
    assert_eq!(glue_label("  use std::fmt;"), "import");
    assert_eq!(glue_label("pub use a::b;"), "import");
    assert_eq!(glue_label("// note"), "comment");
    assert_eq!(glue_label(" * doc"), "comment");
    assert_eq!(glue_label("#[derive(Debug)]"), "attribute");
    assert_eq!(glue_label("pub mod x;"), "module");
    assert_eq!(glue_label("   "), "blank");
    assert_eq!(glue_label("let x = 1;"), "glue");
}
