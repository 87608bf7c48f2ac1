//! The symbol index of a Rust source file: which items of its syntax tree
//! are recorded, under which name and kind, and which are skipped as test
//! code. The tree is given as plain values, one `RustItem` per item.
use vstd::prelude::*;
use crate::text::{cat3, contains, owned, str_contains, str_eq};
use crate::traceability::{SpanV, SymbolSpan, span_view, spans_view};
use syn::spanned::Spanned;

verus! {

/// A path as written in an attribute: whether it starts with `::`, and
/// each segment's name with whether it carries generic arguments.
pub struct RustPath {
    pub leading_colon: bool,
    pub segments: Vec<(String, bool)>,
}

/// The form of an attribute: a bare path, a path with a token list (the
/// tokens as text), or a `name = value` pair.
pub enum AttrMeta {
    Path,
    List(String),
    NameValue,
}

/// An outer attribute of an item.
pub struct RustAttr {
    pub path: RustPath,
    pub meta: AttrMeta,
}

/// The kinds of item the index looks at; every other item is `Other`.
#[derive(Clone, Copy, PartialEq, Eq, Structural, Debug)]
pub enum RustItemKind {
    Fn,
    Struct,
    Enum,
    Trait,
    Type,
    Const,
    Static,
    Mod,
    Impl,
    Other,
}

/// One item of a syntax tree with its 1-based first and last lines.
/// `ident` is the item's name (empty for an impl block). `content` holds a
/// module's inline items, or an impl block's functions; `self_type` is the
/// last segment of an impl block's type when that type is a path;
/// `variants` are an enum's variants with their lines.
pub struct RustItem {
    pub kind: RustItemKind,
    pub ident: String,
    pub attrs: Vec<RustAttr>,
    pub start_line: usize,
    pub end_line: usize,
    pub content: Option<Vec<RustItem>>,
    pub self_type: Option<String>,
    pub variants: Vec<(String, usize, usize)>,
}

/// The path is exactly the single plain segment `name`.
pub open spec fn path_is(p: RustPath, name: Seq<char>) -> bool {
    !p.leading_colon && p.segments@.len() == 1 && p.segments@[0].0@ == name && !p.segments@[0].1
}

/// A test marker: `#[test]`, or `#[cfg(...)]` whose tokens mention `test`.
pub open spec fn attr_is_test(a: RustAttr) -> bool {
    match a.meta {
        AttrMeta::Path => path_is(a.path, "test"@),
        AttrMeta::List(t) => path_is(a.path, "cfg"@) && contains(t@, "test"@),
        AttrMeta::NameValue => false,
    }
}

/// Some attribute marks test code.
pub open spec fn any_test(attrs: Seq<RustAttr>) -> bool {
    exists|i: int| 0 <= i < attrs.len() && attr_is_test(#[trigger] attrs[i])
}

/// One recorded symbol.
pub open spec fn sym(path: Seq<char>, name: Seq<char>, it: RustItem, kind: Seq<char>) -> SpanV {
    (path, name, it.start_line, it.end_line, kind)
}

/// An enum's variants, each as `Enum::Variant`.
pub open spec fn variant_syms(path: Seq<char>, e: Seq<char>, vs: Seq<(String, usize, usize)>) -> Seq<SpanV> {
    vs.map_values(|v: (String, usize, usize)| (path, e + "::"@ + v.0@, v.1, v.2, "variant"@))
}

/// A method's name: `Type::method` when the impl's type is a path, else the
/// bare name.
pub open spec fn method_name(ty: Option<String>, name: Seq<char>) -> Seq<char> {
    match ty {
        Some(t) => t@ + "::"@ + name,
        None => name,
    }
}

/// The non-test functions of an impl block, in order.
pub open spec fn impl_fn_syms(path: Seq<char>, ty: Option<String>, fns: Seq<RustItem>) -> Seq<SpanV>
    decreases fns.len(),
{
    if fns.len() == 0 {
        seq![]
    } else {
        let f = fns.last();
        impl_fn_syms(path, ty, fns.drop_last()) + if f.kind == RustItemKind::Fn && !any_test(f.attrs@) {
            seq![sym(path, method_name(ty, f.ident@), f, "fn"@)]
        } else {
            seq![]
        }
    }
}

/// The name of a kind that is recorded as a single leaf symbol.
pub open spec fn leaf_kind(k: RustItemKind) -> Option<Seq<char>> {
    match k {
        RustItemKind::Struct => Some("struct"@),
        RustItemKind::Trait => Some("trait"@),
        RustItemKind::Type => Some("type"@),
        RustItemKind::Const => Some("const"@),
        RustItemKind::Static => Some("static"@),
        _ => None,
    }
}

/// The symbols of a list of items, in order, inside test code or not:
/// - a function unless it, or what encloses it, is test code;
/// - a struct, trait, type alias, constant or static outside test code;
/// - an enum outside test code, then each of its variants;
/// - the items of an inline module, which is test code when it is marked
///   so or lies in test code;
/// - the non-test functions of an impl block that is neither marked as
///   test code nor lies in it.
pub open spec fn symbols_of(path: Seq<char>, items: Seq<RustItem>, in_test: bool) -> Seq<SpanV>
    decreases items,
{
    if items.len() == 0 {
        seq![]
    } else {
        let it = items.last();
        let rest = symbols_of(path, items.drop_last(), in_test);
        rest + match it.kind {
            RustItemKind::Fn => if !in_test && !any_test(it.attrs@) {
                seq![sym(path, it.ident@, it, "fn"@)]
            } else {
                seq![]
            },
            RustItemKind::Enum => if !in_test {
                seq![sym(path, it.ident@, it, "enum"@)] + variant_syms(path, it.ident@, it.variants@)
            } else {
                seq![]
            },
            RustItemKind::Mod => match it.content {
                Some(c) => symbols_of(path, c@, in_test || any_test(it.attrs@)),
                None => seq![],
            },
            RustItemKind::Impl => if in_test || any_test(it.attrs@) {
                seq![]
            } else {
                match it.content {
                    Some(c) => impl_fn_syms(path, it.self_type, c@),
                    None => seq![],
                }
            },
            _ => match leaf_kind(it.kind) {
                Some(k) => if !in_test {
                    seq![sym(path, it.ident@, it, k)]
                } else {
                    seq![]
                },
                None => seq![],
            },
        }
    }
}

fn path_is_exec(p: &RustPath, name: &str) -> (b: bool)
    ensures
        b == path_is(*p, name@),
{
    !p.leading_colon && p.segments.len() == 1 && str_eq(p.segments[0].0.as_str(), name) && !p.segments[0].1
}

fn attr_is_test_exec(a: &RustAttr) -> (b: bool)
    ensures
        b == attr_is_test(*a),
{
    proof {
        reveal_strlit("test");
        reveal_strlit("cfg");
    }
    match &a.meta {
        AttrMeta::Path => path_is_exec(&a.path, "test"),
        AttrMeta::List(t) => path_is_exec(&a.path, "cfg") && str_contains(t.as_str(), "test"),
        AttrMeta::NameValue => false,
    }
}

fn any_test_exec(attrs: &Vec<RustAttr>) -> (b: bool)
    ensures
        b == any_test(attrs@),
{
    let mut i: usize = 0;
    while i < attrs.len()
        invariant
            i <= attrs.len(),
            forall|q: int| 0 <= q < i ==> !attr_is_test(#[trigger] attrs@[q]),
        decreases attrs.len() - i,
    {
        if attr_is_test_exec(&attrs[i]) {
            return true;
        }
        i = i + 1;
    }
    false
}

fn push_sym(out: &mut Vec<SymbolSpan>, path: &str, name: String, it: &RustItem, kind: &str)
    ensures
        spans_view(final(out)@) == spans_view(old(out)@).push(sym(path@, name@, *it, kind@)),
{
    let ghost o0 = spans_view(out@);
    out.push(SymbolSpan {
        path: owned(path),
        symbol: name,
        line_start: it.start_line,
        line_end: it.end_line,
        kind: owned(kind),
    });
    assert(spans_view(out@) =~= o0.push(sym(path@, name@, *it, kind@)));
}

fn push_impl_fns(out: &mut Vec<SymbolSpan>, path: &str, ty: &Option<String>, fns: &Vec<RustItem>)
    ensures
        spans_view(final(out)@) == spans_view(old(out)@) + impl_fn_syms(path@, *ty, fns@),
{
    let ghost o0 = spans_view(out@);
    let mut i: usize = 0;
    assert(o0 + impl_fn_syms(path@, *ty, fns@.take(0)) =~= o0);
    while i < fns.len()
        invariant
            i <= fns.len(),
            spans_view(out@) == o0 + impl_fn_syms(path@, *ty, fns@.take(i as int)),
        decreases fns.len() - i,
    {
        proof {
            assert(fns@.take(i + 1).drop_last() =~= fns@.take(i as int));
            assert(fns@.take(i + 1).last() == fns@[i as int]);
        }
        let f = &fns[i];
        if f.kind == RustItemKind::Fn && !any_test_exec(&f.attrs) {
            let name = match ty {
                Some(t) => cat3(t.as_str(), "::", f.ident.as_str()),
                None => f.ident.clone(),
            };
            push_sym(out, path, name, f, "fn");
            proof {
                reveal_strlit("fn");
                reveal_strlit("::");
            }
            assert(spans_view(out@) =~= o0 + impl_fn_syms(path@, *ty, fns@.take(i + 1)));
        } else {
            assert(spans_view(out@) =~= o0 + impl_fn_syms(path@, *ty, fns@.take(i + 1)));
        }
        i = i + 1;
    }
    assert(fns@.take(fns.len() as int) =~= fns@);
}

fn push_variants(out: &mut Vec<SymbolSpan>, path: &str, e: &str, vs: &Vec<(String, usize, usize)>)
    ensures
        spans_view(final(out)@) == spans_view(old(out)@) + variant_syms(path@, e@, vs@),
{
    let ghost o0 = spans_view(out@);
    let mut i: usize = 0;
    assert(o0 + variant_syms(path@, e@, vs@.take(0)) =~= o0);
    while i < vs.len()
        invariant
            i <= vs.len(),
            spans_view(out@) == o0 + variant_syms(path@, e@, vs@.take(i as int)),
        decreases vs.len() - i,
    {
        let ghost before = spans_view(out@);
        out.push(SymbolSpan {
            path: owned(path),
            symbol: cat3(e, "::", vs[i].0.as_str()),
            line_start: vs[i].1,
            line_end: vs[i].2,
            kind: owned("variant"),
        });
        proof {
            reveal_strlit("::");
            reveal_strlit("variant");
            let x = (path@, e@ + "::"@ + vs@[i as int].0@, vs@[i as int].1, vs@[i as int].2, "variant"@);
            assert(spans_view(out@) =~= before.push(x));
            assert(variant_syms(path@, e@, vs@.take(i + 1)) =~= variant_syms(path@, e@, vs@.take(i as int)).push(x));
        }
        assert(spans_view(out@) =~= o0 + variant_syms(path@, e@, vs@.take(i + 1)));
        i = i + 1;
    }
    assert(vs@.take(vs.len() as int) =~= vs@);
}

fn leaf_kind_exec(k: RustItemKind) -> (r: Option<&'static str>)
    ensures
        match r {
            Some(s) => leaf_kind(k) == Some(s@),
            None => leaf_kind(k) is None,
        },
{
    match k {
        RustItemKind::Struct => Some("struct"),
        RustItemKind::Trait => Some("trait"),
        RustItemKind::Type => Some("type"),
        RustItemKind::Const => Some("const"),
        RustItemKind::Static => Some("static"),
        _ => None,
    }
}

/// Append the symbols of `items` (see `symbols_of`) to `out`.
pub fn collect_symbols(out: &mut Vec<SymbolSpan>, path: &str, items: &Vec<RustItem>, in_test: bool)
    ensures
        spans_view(final(out)@) == spans_view(old(out)@) + symbols_of(path@, items@, in_test),
    decreases items@,
{
    let ghost o0 = spans_view(out@);
    let mut i: usize = 0;
    assert(o0 + symbols_of(path@, items@.take(0), in_test) =~= o0);
    while i < items.len()
        invariant
            i <= items.len(),
            spans_view(out@) == o0 + symbols_of(path@, items@.take(i as int), in_test),
        decreases items.len() - i,
    {
        proof {
            assert(items@.take(i + 1).drop_last() =~= items@.take(i as int));
            assert(items@.take(i + 1).last() == items@[i as int]);
        }
        let it = &items[i];
        match it.kind {
            RustItemKind::Fn => {
                if !in_test && !any_test_exec(&it.attrs) {
                    push_sym(out, path, it.ident.clone(), it, "fn");
                    proof {
                        reveal_strlit("fn");
                    }
                }
            },
            RustItemKind::Enum => {
                if !in_test {
                    push_sym(out, path, it.ident.clone(), it, "enum");
                    push_variants(out, path, it.ident.as_str(), &it.variants);
                    proof {
                        reveal_strlit("enum");
                    }
                }
            },
            RustItemKind::Mod => {
                match &it.content {
                    Some(c) => {
                        let t = in_test || any_test_exec(&it.attrs);
                        proof {
                            assert(decreases_to!(items@ => items@[i as int]));
                        }
                        collect_symbols(out, path, c, t);
                    },
                    None => {},
                }
            },
            RustItemKind::Impl => {
                if !(in_test || any_test_exec(&it.attrs)) {
                    match &it.content {
                        Some(c) => push_impl_fns(out, path, &it.self_type, c),
                        None => {},
                    }
                }
            },
            _ => {
                match leaf_kind_exec(it.kind) {
                    Some(k) => {
                        if !in_test {
                            push_sym(out, path, it.ident.clone(), it, k);
                        }
                    },
                    None => {},
                }
            },
        }
        assert(spans_view(out@) =~= o0 + symbols_of(path@, items@.take(i + 1), in_test));
        i = i + 1;
    }
    assert(items@.take(items.len() as int) =~= items@);
}

/// The symbol index of a source file given as its top-level items: its
/// non-test functions, types, traits, constants, statics and enum variants
/// with their line spans (see `symbols_of`).
pub fn extract_symbols(path: &str, items: &Vec<RustItem>) -> (r: Vec<SymbolSpan>)
    ensures
        spans_view(r@) == symbols_of(path@, items@, false),
{
    let mut out: Vec<SymbolSpan> = Vec::new();
    collect_symbols(&mut out, path, items, false);
    assert(spans_view(out@) =~= symbols_of(path@, items@, false));
    out
}

// ---------------------------------------------------------------------------
// Parsing a source file with `syn`

/// `syn::Item`, carried opaquely.
#[verifier::external_type_specification]
#[verifier::external_body]
pub struct ExSynItem(syn::Item);

/// `syn::ImplItem`, carried opaquely.
#[verifier::external_type_specification]
#[verifier::external_body]
pub struct ExSynImplItem(syn::ImplItem);

/// `syn::ItemEnum`, carried opaquely.
#[verifier::external_type_specification]
#[verifier::external_body]
pub struct ExSynItemEnum(syn::ItemEnum);

/// `syn::ItemMod`, carried opaquely.
#[verifier::external_type_specification]
#[verifier::external_body]
pub struct ExSynItemMod(syn::ItemMod);

/// `syn::ItemImpl`, carried opaquely.
#[verifier::external_type_specification]
#[verifier::external_body]
pub struct ExSynItemImpl(syn::ItemImpl);

/// `syn::Attribute`, carried opaquely.
#[verifier::external_type_specification]
#[verifier::external_body]
pub struct ExSynAttribute(syn::Attribute);

/// `proc_macro2::Span`, carried opaquely.
#[verifier::external_type_specification]
#[verifier::external_body]
pub struct ExSpan(proc_macro2::Span);

/// The top-level items `syn::parse_file` finds in a source text, as
/// `RustItem`s; none when the text does not parse as a Rust file.
pub uninterp spec fn rust_items(source: Seq<char>) -> Option<Seq<RustItem>>;

pub open spec fn opt_items(r: Option<Vec<RustItem>>) -> Option<Seq<RustItem>> {
    match r {
        Some(v) => Some(v@),
        None => None,
    }
}

/// `syn::parse_file` on a source text, its items converted one for one
/// (see `rust_item_of`). The result is named: what syn parses is not
/// restated here.
#[verifier::external_body]
fn parse_rust_items(source: &str) -> (r: Option<Vec<RustItem>>)
    ensures
        opt_items(r) == rust_items(source@),
{
    match syn::parse_file(source) {
        Ok(file) => Some(file.items.iter().map(rust_item_of).collect()),
        Err(_) => None,
    }
}

/// Converts an item of syn's tree: functions, structs, enums, modules and
/// impl blocks here, the other kinds in `rust_item_rest`.
#[verifier::external_body]
fn rust_item_of(item: &syn::Item) -> RustItem {
    match item {
        syn::Item::Fn(f) => leaf_of(RustItemKind::Fn, f.sig.ident.to_string(), &f.attrs, f.span()),
        syn::Item::Struct(s) => leaf_of(RustItemKind::Struct, s.ident.to_string(), &s.attrs, s.span()),
        syn::Item::Enum(e) => enum_of(e),
        syn::Item::Mod(m) => mod_of(m),
        syn::Item::Impl(i) => impl_of(i),
        other => rust_item_rest(other),
    }
}

/// Converts traits, type aliases, constants, statics and every other item.
#[verifier::external_body]
fn rust_item_rest(item: &syn::Item) -> RustItem {
    match item {
        syn::Item::Trait(t) => leaf_of(RustItemKind::Trait, t.ident.to_string(), &t.attrs, t.span()),
        syn::Item::Type(t) => leaf_of(RustItemKind::Type, t.ident.to_string(), &t.attrs, t.span()),
        syn::Item::Const(c) => leaf_of(RustItemKind::Const, c.ident.to_string(), &c.attrs, c.span()),
        syn::Item::Static(s) => leaf_of(RustItemKind::Static, s.ident.to_string(), &s.attrs, s.span()),
        other => leaf_of(RustItemKind::Other, String::new(), &Vec::new(), other.span()),
    }
}

/// An item with its kind, name, attributes and the lines of its span.
#[verifier::external_body]
fn leaf_of(kind: RustItemKind, ident: String, attrs: &Vec<syn::Attribute>, span: proc_macro2::Span) -> RustItem {
    RustItem {
        kind,
        ident,
        attrs: attrs.iter().map(attr_of).collect(),
        start_line: span.start().line,
        end_line: span.end().line,
        content: None,
        self_type: None,
        variants: Vec::new(),
    }
}

/// Converts an attribute: its path's segments and its form.
#[verifier::external_body]
fn attr_of(a: &syn::Attribute) -> RustAttr {
    let p = a.path();
    let segments = p.segments.iter().map(|s| (s.ident.to_string(), !s.arguments.is_none())).collect();
    let meta = match &a.meta {
        syn::Meta::Path(_) => AttrMeta::Path,
        syn::Meta::List(l) => AttrMeta::List(l.tokens.to_string()),
        syn::Meta::NameValue(_) => AttrMeta::NameValue,
    };
    RustAttr { path: RustPath { leading_colon: p.leading_colon.is_some(), segments }, meta }
}

/// Converts an enum with its variants and their lines.
#[verifier::external_body]
fn enum_of(e: &syn::ItemEnum) -> RustItem {
    let mut it = leaf_of(RustItemKind::Enum, e.ident.to_string(), &e.attrs, e.span());
    it.variants = e.variants.iter().map(|v| (v.ident.to_string(), v.span().start().line, v.span().end().line)).collect();
    it
}

/// Converts a module with its inline items, if it has them.
#[verifier::external_body]
fn mod_of(m: &syn::ItemMod) -> RustItem {
    let mut it = leaf_of(RustItemKind::Mod, m.ident.to_string(), &m.attrs, m.span());
    it.content = m.content.as_ref().map(|(_, inner)| inner.iter().map(rust_item_of).collect());
    it
}

/// Converts an impl block: the last segment of its type when that is a
/// path, and each of its items.
#[verifier::external_body]
fn impl_of(i: &syn::ItemImpl) -> RustItem {
    let mut it = leaf_of(RustItemKind::Impl, String::new(), &i.attrs, i.span());
    it.self_type = match &*i.self_ty {
        syn::Type::Path(tp) => tp.path.segments.last().map(|s| s.ident.to_string()),
        _ => None,
    };
    it.content = Some(i.items.iter().map(impl_item_of).collect());
    it
}

/// Converts an item of an impl block: a function, or any other item.
#[verifier::external_body]
fn impl_item_of(x: &syn::ImplItem) -> RustItem {
    match x {
        syn::ImplItem::Fn(m) => leaf_of(RustItemKind::Fn, m.sig.ident.to_string(), &m.attrs, m.span()),
        other => leaf_of(RustItemKind::Other, String::new(), &Vec::new(), other.span()),
    }
}

/// The symbol index of a Rust source file (see `symbols_of`); a file that
/// does not parse has no symbols.
pub fn extract_symbols_from_source(path: &str, source: &str) -> (r: Vec<SymbolSpan>)
    ensures
        match rust_items(source@) {
            Some(items) => spans_view(r@) == symbols_of(path@, items, false),
            None => r@.len() == 0,
        },
{
    match parse_rust_items(source) {
        Some(items) => extract_symbols(path, &items),
        None => Vec::new(),
    }
}

} // verus!
