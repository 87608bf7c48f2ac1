use mdd::hooks::{strip_session_hook, upsert_session_hook, HookEntry, HookGroup, SessionHooks};
use mdd::symbols::{extract_symbols, extract_symbols_from_source, AttrMeta, RustAttr, RustItem, RustItemKind, RustPath};

#[test]
fn extracts_free_fn_struct_and_impl_method() {
    let src = "struct Foo;\n\nfn bare() {}\n\nimpl Foo {\n    fn method(&self) {}\n}\n";
    let syms = extract_symbols_from_source("crates/x/src/lib.rs", src);
    assert!(syms.iter().any(|s| s.symbol == "Foo" && s.kind == "struct"));
    assert!(syms.iter().any(|s| s.symbol == "bare" && s.kind == "fn"));
    assert!(syms.iter().any(|s| s.symbol == "Foo::method" && s.kind == "fn"));
}

#[test]
fn skips_test_items() {
    let src = "#[test]\nfn t() {}\n\n#[cfg(test)]\nmod tests {\n    fn helper() {}\n}\n";
    let syms = extract_symbols_from_source("crates/x/src/lib.rs", src);
    assert!(syms.is_empty(), "test items must not be indexed: {}", syms.len());
}

#[test]
fn source_spans_enums_and_unparsable_files() {
    let src = "enum Color {\n    Red,\n    Blue,\n}\nconst LIMIT: u32 = 3;\n";
    let syms = extract_symbols_from_source("a/src/lib.rs", src);
    let got: Vec<(&str, &str, usize, usize)> =
        syms.iter().map(|s| (s.symbol.as_str(), s.kind.as_str(), s.line_start, s.line_end)).collect();
    assert_eq!(
        got,
        vec![("Color", "enum", 1, 4), ("Color::Red", "variant", 2, 2), ("Color::Blue", "variant", 3, 3), ("LIMIT", "const", 5, 5)]
    );
    assert!(extract_symbols_from_source("a/src/lib.rs", "fn broken( {").is_empty());
}

fn path(name: &str) -> RustPath {
    RustPath { leading_colon: false, segments: vec![(name.to_string(), false)] }
}

fn item(kind: RustItemKind, ident: &str, start: usize, end: usize) -> RustItem {
    RustItem {
        kind,
        ident: ident.to_string(),
        attrs: Vec::new(),
        start_line: start,
        end_line: end,
        content: None,
        self_type: None,
        variants: Vec::new(),
    }
}

#[test]
fn items_of_free_fn_struct_and_impl_method() {
    // struct Foo;\n\nfn bare() {}\n\nimpl Foo {\n    fn method(&self) {}\n}\n
    let mut imp = item(RustItemKind::Impl, "", 5, 7);
    imp.self_type = Some("Foo".to_string());
    imp.content = Some(vec![item(RustItemKind::Fn, "method", 6, 6)]);
    let items = vec![item(RustItemKind::Struct, "Foo", 1, 1), item(RustItemKind::Fn, "bare", 3, 3), imp];
    let syms = extract_symbols("crates/x/src/lib.rs", &items);
    assert!(syms.iter().any(|s| s.symbol == "Foo" && s.kind == "struct"));
    assert!(syms.iter().any(|s| s.symbol == "bare" && s.kind == "fn"));
    assert!(syms.iter().any(|s| s.symbol == "Foo::method" && s.kind == "fn"));
    assert_eq!(syms.len(), 3);
    assert_eq!((syms[2].line_start, syms[2].line_end), (6, 6));
    assert_eq!(syms[0].path, "crates/x/src/lib.rs");
}

#[test]
fn test_items_are_skipped_from_items() {
    // #[test]\nfn t() {}\n\n#[cfg(test)]\nmod tests {\n    fn helper() {}\n}\n
    let mut t = item(RustItemKind::Fn, "t", 1, 2);
    t.attrs = vec![RustAttr { path: path("test"), meta: AttrMeta::Path }];
    let mut m = item(RustItemKind::Mod, "tests", 4, 7);
    m.attrs = vec![RustAttr { path: path("cfg"), meta: AttrMeta::List("test".to_string()) }];
    m.content = Some(vec![item(RustItemKind::Fn, "helper", 6, 6)]);
    let syms = extract_symbols("crates/x/src/lib.rs", &vec![t, m]);
    assert!(syms.is_empty(), "test items must not be indexed");
}

#[test]
fn enum_variants_and_plain_modules_are_indexed() {
    let mut e = item(RustItemKind::Enum, "Color", 1, 4);
    e.variants = vec![("Red".to_string(), 2, 2), ("Blue".to_string(), 3, 3)];
    let mut m = item(RustItemKind::Mod, "inner", 6, 9);
    let mut c = item(RustItemKind::Const, "LIMIT", 7, 7);
    c.attrs = vec![RustAttr { path: path("doc"), meta: AttrMeta::NameValue }];
    m.content = Some(vec![c, item(RustItemKind::Other, "", 8, 8)]);
    let mut imp = item(RustItemKind::Impl, "", 10, 14);
    let mut tf = item(RustItemKind::Fn, "check", 12, 13);
    tf.attrs = vec![RustAttr { path: path("test"), meta: AttrMeta::Path }];
    imp.content = Some(vec![item(RustItemKind::Fn, "go", 11, 11), tf]);
    let syms = extract_symbols("a/src/lib.rs", &vec![e, m, imp]);
    let names: Vec<(&str, &str)> = syms.iter().map(|s| (s.symbol.as_str(), s.kind.as_str())).collect();
    assert_eq!(
        names,
        vec![("Color", "enum"), ("Color::Red", "variant"), ("Color::Blue", "variant"), ("LIMIT", "const"), ("go", "fn")]
    );
    // `#[foo::test]` and `#[test::<x>]` are not test markers.
    let mut f = item(RustItemKind::Fn, "kept", 1, 1);
    f.attrs = vec![RustAttr {
        path: RustPath { leading_colon: false, segments: vec![("foo".to_string(), false), ("test".to_string(), false)] },
        meta: AttrMeta::Path,
    }];
    assert_eq!(extract_symbols("a/src/lib.rs", &vec![f]).len(), 1);
}

fn hook(kind: &str, command: &str, origin: usize) -> HookEntry {
    HookEntry { kind: Some(kind.to_string()), command: Some(command.to_string()), origin: Some(origin) }
}

fn commands(h: &SessionHooks) -> Vec<Vec<String>> {
    match &h.session_start {
        Some(gs) => gs
            .iter()
            .map(|g| match &g.hooks {
                Some(hs) => hs.iter().map(|x| x.command.clone().unwrap_or_default()).collect(),
                None => Vec::new(),
            })
            .collect(),
        None => Vec::new(),
    }
}

#[test]
fn session_hook_is_added_once_and_user_hooks_stay() {
    let mut h = SessionHooks { session_start: None };
    assert!(upsert_session_hook(&mut h, "mdd context"));
    assert_eq!(commands(&h), vec![vec!["mdd context".to_string()]]);
    assert!(!upsert_session_hook(&mut h, "mdd context"), "second upsert is a no-op");
    assert_eq!(commands(&h), vec![vec!["mdd context".to_string()]]);

    let mut user = SessionHooks {
        session_start: Some(vec![HookGroup { hooks: Some(vec![hook("command", "echo hi", 0)]), origin: Some(0) }]),
    };
    assert!(upsert_session_hook(&mut user, "mdd context"));
    assert_eq!(commands(&user), vec![vec!["echo hi".to_string()], vec!["mdd context".to_string()]]);
}

#[test]
fn session_hook_strip_is_surgical() {
    let mut h = SessionHooks {
        session_start: Some(vec![
            HookGroup { hooks: Some(vec![hook("command", "echo hi", 0), hook("command", "mdd context", 1)]), origin: Some(0) },
            HookGroup { hooks: Some(vec![hook("command", "mdd context", 2)]), origin: Some(1) },
            HookGroup { hooks: None, origin: Some(2) },
        ]),
    };
    assert!(strip_session_hook(&mut h, "mdd context"));
    assert_eq!(commands(&h), vec![vec!["echo hi".to_string()], Vec::new()]);
    let gs = h.session_start.as_ref().unwrap();
    assert_eq!(gs[0].origin, Some(0));
    assert_eq!(gs[1].origin, Some(2));
    assert!(!strip_session_hook(&mut h, "mdd context"));

    let mut only = SessionHooks { session_start: None };
    upsert_session_hook(&mut only, "mdd context");
    assert!(strip_session_hook(&mut only, "mdd context"));
    assert!(only.session_start.is_none(), "an emptied SessionStart list is dropped");
    assert!(!strip_session_hook(&mut only, "mdd context"));
}
