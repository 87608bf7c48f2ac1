//! Freshness of the whole-map: which linked symbols drifted since the map's
//! baseline, the map's table of contents, and the session-start brief.
use vstd::prelude::*;
use crate::cycle::sorted_of;
use crate::markers::extract_ids;
use crate::model::{MapDrift, MapStatusReport, SessionContext, SourceLink, TocEntry, Trace, opt_view};
use crate::order::{
    insert_sorted, lemma_lex_asym, lemma_lex_irrefl, lemma_lex_total, lemma_lex_trans, lex_lt, sorted_contains,
    str_lt, strictly_sorted,
};
use crate::patterns::{Pat, captures};
use crate::project::Project;
use crate::review::{LinkV, covers, pairs_view, slinks_view};
use crate::strings::{KeyMap, pairs_get};
use crate::text::{find_char_exec, find_char_from, lemma_find_char_from_range, owned, chars_of, str_eq, string_of_range, strs};
use crate::traceability::{ChangedCode, SymbolSpan, symbol_matches};

verus! {

/// A drifted symbol: path, symbol, the model id whose link points at it.
pub type DriftV = (Seq<char>, Seq<char>, Seq<char>);

pub open spec fn drifts_view(v: Seq<MapDrift>) -> Seq<DriftV> {
    v.map_values(|d: MapDrift| (d.path@, d.symbol@, d.model_id@))
}

/// Order by path, then symbol, then model id.
pub open spec fn drift_lt(a: DriftV, b: DriftV) -> bool {
    lex_lt(a.0, b.0) || (a.0 == b.0 && (lex_lt(a.1, b.1) || (a.1 == b.1 && lex_lt(a.2, b.2))))
}

pub open spec fn drift_sorted(s: Seq<DriftV>) -> bool {
    forall|i: int, j: int| 0 <= i < j < s.len() ==> drift_lt(s[i], s[j])
}

proof fn lemma_drift_trans(a: DriftV, b: DriftV, c: DriftV)
    requires
        drift_lt(a, b),
        drift_lt(b, c),
    ensures
        drift_lt(a, c),
{
    if lex_lt(a.0, b.0) {
        if lex_lt(b.0, c.0) {
            lemma_lex_trans(a.0, b.0, c.0);
        }
    } else if lex_lt(b.0, c.0) {
    } else {
        if lex_lt(a.1, b.1) {
            if lex_lt(b.1, c.1) {
                lemma_lex_trans(a.1, b.1, c.1);
            }
        } else if lex_lt(b.1, c.1) {
        } else {
            lemma_lex_trans(a.2, b.2, c.2);
        }
    }
}

proof fn lemma_drift_asym(a: DriftV, b: DriftV)
    requires
        drift_lt(a, b),
    ensures
        !drift_lt(b, a),
        a != b,
{
    lemma_lex_irrefl(a.0);
    lemma_lex_irrefl(a.1);
    lemma_lex_irrefl(a.2);
    if lex_lt(a.0, b.0) {
        lemma_lex_asym(a.0, b.0);
    } else if lex_lt(a.1, b.1) {
        lemma_lex_asym(a.1, b.1);
    } else {
        lemma_lex_asym(a.2, b.2);
    }
}

/// The drift a freshness check reports is fixed by which drifts there are:
/// two lists sorted by path, symbol and model id with the same elements are
/// the same list. So `map_status` and `session_context`, which report the
/// same drifts in that order, agree on the same inputs.
pub proof fn lemma_drift_list_unique(a: Seq<DriftV>, b: Seq<DriftV>)
    requires
        drift_sorted(a),
        drift_sorted(b),
        a.to_set() == b.to_set(),
    ensures
        a == b,
    decreases a.len() + b.len(),
{
    if a.len() == 0 {
        if b.len() > 0 {
            assert(b.to_set().contains(b[0]));
        }
        assert(a =~= b);
    } else if b.len() == 0 {
        assert(a.to_set().contains(a[0]));
    } else {
        assert(b.to_set().contains(a[0]));
        assert(a.to_set().contains(b[0]));
        let ka = choose|k: int| 0 <= k < b.len() && b[k] == a[0];
        let kb = choose|k: int| 0 <= k < a.len() && a[k] == b[0];
        if a[0] != b[0] {
            assert(ka > 0 && kb > 0);
            assert(drift_lt(b[0], b[ka]));
            assert(drift_lt(a[0], a[kb]));
            lemma_drift_asym(a[0], b[0]);
        }
        let a1 = a.drop_first();
        let b1 = b.drop_first();
        assert forall|e: DriftV| a1.to_set().contains(e) implies b1.to_set().contains(e) by {
            let k = choose|k: int| 0 <= k < a1.len() && a1[k] == e;
            assert(a[k + 1] == e);
            assert(drift_lt(a[0], e));
            lemma_drift_asym(a[0], e);
            assert(b.to_set().contains(e));
            let j = choose|j: int| 0 <= j < b.len() && b[j] == e;
            assert(j != 0);
            assert(b1[j - 1] == e);
        }
        assert forall|e: DriftV| b1.to_set().contains(e) implies a1.to_set().contains(e) by {
            let k = choose|k: int| 0 <= k < b1.len() && b1[k] == e;
            assert(b[k + 1] == e);
            assert(drift_lt(b[0], e));
            lemma_drift_asym(b[0], e);
            assert(a.to_set().contains(e));
            let j = choose|j: int| 0 <= j < a.len() && a[j] == e;
            assert(j != 0);
            assert(a1[j - 1] == e);
        }
        assert(a1.to_set() =~= b1.to_set());
        assert forall|i: int, j: int| 0 <= i < j < a1.len() implies drift_lt(a1[i], a1[j]) by {
            assert(a1[i] == a[i + 1] && a1[j] == a[j + 1]);
        }
        assert forall|i: int, j: int| 0 <= i < j < b1.len() implies drift_lt(b1[i], b1[j]) by {
            assert(b1[i] == b[i + 1] && b1[j] == b[j + 1]);
        }
        lemma_drift_list_unique(a1, b1);
        assert(a[0] == b[0]);
        assert(a.len() == b.len());
        assert forall|i: int| 0 <= i < a.len() implies a[i] == b[i] by {
            if i > 0 {
                assert(a[i] == a1[i - 1]);
                assert(b[i] == b1[i - 1]);
            }
        }
        assert(a =~= b);
    }
}

proof fn lemma_drift_total(a: DriftV, b: DriftV)
    ensures
        a == b || drift_lt(a, b) || drift_lt(b, a),
{
    lemma_lex_total(a.0, b.0);
    lemma_lex_total(a.1, b.1);
    lemma_lex_total(a.2, b.2);
}

fn drift_lt_exec(a: &MapDrift, b: &MapDrift) -> (r: bool)
    ensures
        r == drift_lt((a.path@, a.symbol@, a.model_id@), (b.path@, b.symbol@, b.model_id@)),
{
    str_lt(a.path.as_str(), b.path.as_str()) || (str_eq(a.path.as_str(), b.path.as_str()) && (str_lt(
        a.symbol.as_str(),
        b.symbol.as_str(),
    ) || (str_eq(a.symbol.as_str(), b.symbol.as_str()) && str_lt(a.model_id.as_str(), b.model_id.as_str()))))
}

fn drift_eq_exec(a: &MapDrift, b: &MapDrift) -> (r: bool)
    ensures
        r == ((a.path@, a.symbol@, a.model_id@) == (b.path@, b.symbol@, b.model_id@)),
{
    str_eq(a.path.as_str(), b.path.as_str()) && str_eq(a.symbol.as_str(), b.symbol.as_str()) && str_eq(
        a.model_id.as_str(),
        b.model_id.as_str(),
    )
}

/// Insert into a sorted, duplicate-free list of drifts.
fn insert_drift(v: &mut Vec<MapDrift>, x: MapDrift)
    requires
        drift_sorted(drifts_view(old(v)@)),
    ensures
        drift_sorted(drifts_view(final(v)@)),
        drifts_view(final(v)@).to_set() == drifts_view(old(v)@).to_set().insert((x.path@, x.symbol@, x.model_id@)),
{
    let ghost s = drifts_view(v@);
    let ghost xv = (x.path@, x.symbol@, x.model_id@);
    let mut i: usize = 0;
    let mut stop = false;
    while i < v.len() && !stop
        invariant
            v@ == old(v)@,
            s == drifts_view(v@),
            drift_sorted(s),
            xv == (x.path@, x.symbol@, x.model_id@),
            i <= v.len(),
            forall|k: int| 0 <= k < i ==> drift_lt(s[k], xv),
            stop ==> i < v.len() && drift_lt(xv, s[i as int]),
        decreases v.len() - i + (if stop { 0int } else { 1int }),
    {
        if drift_lt_exec(&v[i], &x) {
            i = i + 1;
        } else {
            if drift_eq_exec(&v[i], &x) {
                proof {
                    assert(s.to_set().insert(xv) =~= s.to_set()) by {
                        assert(s[i as int] == xv);
                    }
                }
                return;
            }
            proof {
                lemma_drift_total(s[i as int], xv);
            }
            stop = true;
        }
    }
    proof {
        assert forall|k: int| i <= k < s.len() implies drift_lt(xv, s[k]) by {
            if k > i {
                lemma_drift_trans(xv, s[i as int], s[k]);
            }
        }
    }
    v.insert(i, x);
    proof {
        let ns = drifts_view(v@);
        assert(ns =~= s.insert(i as int, xv));
        assert forall|a: int, b: int| 0 <= a < b < ns.len() implies drift_lt(ns[a], ns[b]) by {
            if b < i {
            } else if a < i && b == i {
            } else if a < i && b > i {
                assert(ns[b] == s[b - 1]);
            } else if a == i {
                assert(ns[b] == s[b - 1]);
            } else {
                assert(ns[a] == s[a - 1]);
                assert(ns[b] == s[b - 1]);
            }
        }
        assert(ns.to_set() =~= s.to_set().insert(xv)) by {
            assert forall|e: DriftV| ns.to_set().contains(e) implies s.to_set().insert(xv).contains(e) by {
                let k = choose|k: int| 0 <= k < ns.len() && ns[k] == e;
                if k < i {
                    assert(s[k] == e);
                } else if k > i {
                    assert(s[k - 1] == e);
                }
            }
            assert forall|e: DriftV| s.to_set().insert(xv).contains(e) implies ns.to_set().contains(e) by {
                if e == xv {
                    assert(ns[i as int] == e);
                } else {
                    let k = choose|k: int| 0 <= k < s.len() && s[k] == e;
                    if k < i {
                        assert(ns[k] == e);
                    } else {
                        assert(ns[k + 1] == e);
                    }
                }
            }
        }
    }
}

/// The drifts of one changed symbol: one per source link that covers it.
pub open spec fn symbol_drift(s: SymbolSpan, links: Seq<LinkV>) -> Set<DriftV>
    decreases links.len(),
{
    if links.len() == 0 {
        Set::empty()
    } else {
        let l = links.last();
        symbol_drift(s, links.drop_last()) + (if covers(l, s) {
            set![(s.path@, s.symbol@, l.0)]
        } else {
            Set::empty()
        })
    }
}

/// The drifts of the changed symbols.
pub open spec fn drift_set(syms: Seq<SymbolSpan>, links: Seq<LinkV>) -> Set<DriftV>
    decreases syms.len(),
{
    if syms.len() == 0 {
        Set::empty()
    } else {
        drift_set(syms.drop_last(), links) + symbol_drift(syms.last(), links)
    }
}

proof fn lemma_symbol_drift_members(s: SymbolSpan, links: Seq<LinkV>, d: DriftV)
    ensures
        symbol_drift(s, links).contains(d) <==> exists|k: int|
            0 <= k < links.len() && links[k].1 == s.path@ && (match links[k].2 {
                Some(x) => crate::traceability::symbols_match(s.symbol@, x),
                None => true,
            }) && d == (s.path@, s.symbol@, #[trigger] links[k].0),
    decreases links.len(),
{
    if links.len() > 0 {
        lemma_symbol_drift_members(s, links.drop_last(), d);
        let l = links.last();
        if symbol_drift(s, links).contains(d) && !symbol_drift(s, links.drop_last()).contains(d) {
            assert(links[links.len() - 1] == l);
        }
        if exists|k: int|
            0 <= k < links.len() && links[k].1 == s.path@ && (match links[k].2 {
                Some(x) => crate::traceability::symbols_match(s.symbol@, x),
                None => true,
            }) && d == (s.path@, s.symbol@, #[trigger] links[k].0) {
            let k = choose|k: int|
                0 <= k < links.len() && links[k].1 == s.path@ && (match links[k].2 {
                    Some(x) => crate::traceability::symbols_match(s.symbol@, x),
                    None => true,
                }) && d == (s.path@, s.symbol@, #[trigger] links[k].0);
            if k < links.len() - 1 {
                assert(links.drop_last()[k] == links[k]);
            }
        }
    }
}

proof fn lemma_drift_set_members(syms: Seq<SymbolSpan>, links: Seq<LinkV>, d: DriftV)
    ensures
        drift_set(syms, links).contains(d) <==> exists|i: int|
            0 <= i < syms.len() && symbol_drift(#[trigger] syms[i], links).contains(d),
    decreases syms.len(),
{
    if syms.len() > 0 {
        lemma_drift_set_members(syms.drop_last(), links, d);
        if exists|i: int| 0 <= i < syms.len() && symbol_drift(#[trigger] syms[i], links).contains(d) {
            let i = choose|i: int| 0 <= i < syms.len() && symbol_drift(#[trigger] syms[i], links).contains(d);
            if i < syms.len() - 1 {
                assert(syms.drop_last()[i] == syms[i]);
            }
        }
        if drift_set(syms, links).contains(d) && !drift_set(syms.drop_last(), links).contains(d) {
            assert(syms[syms.len() - 1] == syms.last());
        }
    }
}

/// What the freshness check reports as drift: a changed symbol together
/// with the model id of a source link into its file that names no symbol
/// (the whole file) or names that symbol (either name may be the other's
/// `Type::`-qualified form), and nothing else. So a whole-file link into a
/// changed file always makes the map stale.
pub proof fn lemma_drift_is_linked_changes(syms: Seq<SymbolSpan>, links: Seq<LinkV>, d: DriftV)
    ensures
        drift_set(syms, links).contains(d) <==> exists|i: int, k: int|
            0 <= i < syms.len() && 0 <= k < links.len() && links[k].1 == syms[i].path@ && (match links[k].2 {
                Some(x) => crate::traceability::symbols_match(syms[i].symbol@, x),
                None => true,
            }) && d == (#[trigger] syms[i].path@, syms[i].symbol@, #[trigger] links[k].0),
        forall|i: int, k: int|
            0 <= i < syms.len() && 0 <= k < links.len() && links[k].1 == syms[i].path@ && links[k].2 is None
                ==> drift_set(syms, links).contains((#[trigger] syms[i].path@, syms[i].symbol@, #[trigger] links[k].0)),
{
    lemma_drift_set_members(syms, links, d);
    if drift_set(syms, links).contains(d) {
        let i = choose|i: int| 0 <= i < syms.len() && symbol_drift(#[trigger] syms[i], links).contains(d);
        lemma_symbol_drift_members(syms[i], links, d);
    }
    if exists|i: int, k: int|
        0 <= i < syms.len() && 0 <= k < links.len() && links[k].1 == syms[i].path@ && (match links[k].2 {
            Some(x) => crate::traceability::symbols_match(syms[i].symbol@, x),
            None => true,
        }) && d == (#[trigger] syms[i].path@, syms[i].symbol@, #[trigger] links[k].0) {
        let (i, k) = choose|i: int, k: int|
            0 <= i < syms.len() && 0 <= k < links.len() && links[k].1 == syms[i].path@ && (match links[k].2 {
                Some(x) => crate::traceability::symbols_match(syms[i].symbol@, x),
                None => true,
            }) && d == (#[trigger] syms[i].path@, syms[i].symbol@, #[trigger] links[k].0);
        lemma_symbol_drift_members(syms[i], links, d);
    }
    assert forall|i: int, k: int|
        0 <= i < syms.len() && 0 <= k < links.len() && links[k].1 == syms[i].path@ && links[k].2 is None
            implies drift_set(syms, links).contains((#[trigger] syms[i].path@, syms[i].symbol@, #[trigger] links[k].0)) by {
        let e = (syms[i].path@, syms[i].symbol@, links[k].0);
        lemma_symbol_drift_members(syms[i], links, e);
        lemma_drift_set_members(syms, links, e);
    }
}

fn push_symbol_drift(out: &mut Vec<MapDrift>, s: &SymbolSpan, links: &Vec<SourceLink>)
    requires
        drift_sorted(drifts_view(old(out)@)),
    ensures
        drift_sorted(drifts_view(final(out)@)),
        drifts_view(final(out)@).to_set() == drifts_view(old(out)@).to_set() + symbol_drift(*s, slinks_view(links@)),
{
    let ghost lv = slinks_view(links@);
    let ghost o0 = drifts_view(out@).to_set();
    let mut k: usize = 0;
    assert(o0 + symbol_drift(*s, lv.take(0)) =~= o0);
    while k < links.len()
        invariant
            k <= links.len(),
            lv == slinks_view(links@),
            drift_sorted(drifts_view(out@)),
            drifts_view(out@).to_set() == o0 + symbol_drift(*s, lv.take(k as int)),
        decreases links.len() - k,
    {
        proof {
            assert(lv.take(k + 1).drop_last() == lv.take(k as int));
            assert(lv.take(k + 1).last() == lv[k as int]);
        }
        let l = &links[k];
        let hit = str_eq(l.path.as_str(), s.path.as_str()) && match &l.symbol {
            Some(x) => symbol_matches(s.symbol.as_str(), x.as_str()),
            None => true,
        };
        assert(lv[k as int] == (l.model_id@, l.path@, opt_view(l.symbol)));
        if hit {
            let d = MapDrift { path: s.path.clone(), symbol: s.symbol.clone(), model_id: l.model_id.clone() };
            insert_drift(out, d);
            assert(drifts_view(out@).to_set() =~= o0 + symbol_drift(*s, lv.take(k + 1)));
        } else {
            assert(drifts_view(out@).to_set() =~= o0 + symbol_drift(*s, lv.take(k + 1)));
        }
        k = k + 1;
    }
    assert(lv.take(links.len() as int) == lv);
}

impl Project {
    /// Whether the diagrams are still current with the code: with no map
    /// baseline the map is fresh; otherwise every changed symbol (since the
    /// baseline) that a source link points at has drifted, listed once per
    /// (path, symbol, model id), in that order.
    pub fn map_status(&self, source_revision: Option<String>, trace: &Trace, changed: &ChangedCode) -> (r:
        MapStatusReport)
        ensures
            source_revision is None ==> r.fresh && r.source_revision is None && r.drift@.len() == 0,
            source_revision is Some ==> {
                &&& r.source_revision == source_revision
                &&& drift_sorted(drifts_view(r.drift@))
                &&& drifts_view(r.drift@).to_set() == drift_set(changed.symbols@, slinks_view(trace.source_links@))
                &&& r.fresh == (r.drift@.len() == 0)
            },
    {
        match source_revision {
            None => MapStatusReport { fresh: true, source_revision: None, drift: Vec::new() },
            Some(rev) => {
                let ghost syms = changed.symbols@;
                let ghost lv = slinks_view(trace.source_links@);
                let mut drift: Vec<MapDrift> = Vec::new();
                let mut i: usize = 0;
                assert(drifts_view(drift@).to_set() =~= drift_set(syms.take(0), lv));
                while i < changed.symbols.len()
                    invariant
                        i <= changed.symbols.len(),
                        syms == changed.symbols@,
                        lv == slinks_view(trace.source_links@),
                        drift_sorted(drifts_view(drift@)),
                        drifts_view(drift@).to_set() == drift_set(syms.take(i as int), lv),
                    decreases changed.symbols.len() - i,
                {
                    proof {
                        assert(syms.take(i + 1).drop_last() == syms.take(i as int));
                        assert(syms.take(i + 1).last() == syms[i as int]);
                    }
                    push_symbol_drift(&mut drift, &changed.symbols[i], &trace.source_links);
                    i = i + 1;
                }
                assert(syms.take(changed.symbols.len() as int) == syms);
                let fresh = drift.len() == 0;
                MapStatusReport { fresh, source_revision: Some(rev), drift }
            },
        }
    }
}

// ---------------------------------------------------------------------------
// Table of contents

/// The concept kinds in reading order.
pub open spec fn kind_order() -> Seq<Seq<char>> {
    seq!["use-cases"@, "sequences"@, "domain"@, "components"@, "mockups"@, "states"@]
}

fn kind_at(i: usize) -> (r: &'static str)
    requires
        i < 6,
    ensures
        r@ == kind_order()[i as int],
{
    match i {
        0 => "use-cases",
        1 => "sequences",
        2 => "domain",
        3 => "components",
        4 => "mockups",
        _ => "states",
    }
}

fn is_canonical(k: &str) -> (b: bool)
    ensures
        b == kind_order().contains(k@),
{
    let b = str_eq(k, "use-cases") || str_eq(k, "sequences") || str_eq(k, "domain") || str_eq(k, "components")
        || str_eq(k, "mockups") || str_eq(k, "states");
    proof {
        let ko = kind_order();
        if b {
            if k@ == "use-cases"@ {
                assert(ko[0] == k@);
            } else if k@ == "sequences"@ {
                assert(ko[1] == k@);
            } else if k@ == "domain"@ {
                assert(ko[2] == k@);
            } else if k@ == "components"@ {
                assert(ko[3] == k@);
            } else if k@ == "mockups"@ {
                assert(ko[4] == k@);
            } else {
                assert(ko[5] == k@);
            }
        } else {
            assert forall|w: int| 0 <= w < ko.len() implies ko[w] != k@ by {
                if w == 0 {
                } else if w == 1 {
                } else if w == 2 {
                } else if w == 3 {
                } else if w == 4 {
                } else {
                }
            }
        }
    }
    b
}

/// The concept kind of a diagram: its first directory under the map (or
/// its own name when it lies directly there).
pub open spec fn kind_of(rel: Seq<char>) -> Seq<char> {
    match find_char_from(rel, '/', 0) {
        Some(i) => rel.take(i),
        None => rel,
    }
}

fn kind_of_exec(rel: &str) -> (r: String)
    ensures
        r@ == kind_of(rel@),
{
    let cs = chars_of(rel);
    match find_char_exec(cs.as_slice(), '/', 0) {
        Some(i) => {
            proof {
                lemma_find_char_from_range(rel@, '/', 0);
            }
            let r = string_of_range(cs.as_slice(), 0, i);
            assert(rel@.take(i as int) =~= rel@.subrange(0, i as int));
            r
        },
        None => owned(rel),
    }
}

/// The number of distinct `@id`s of a diagram.
pub open spec fn id_count(content: Seq<char>) -> nat {
    captures(Pat::Ident("@id("@), content).to_set().len()
}

/// Diagrams of a kind.
pub open spec fn kind_files(es: Seq<(Seq<char>, Seq<char>)>, k: Seq<char>) -> nat
    decreases es.len(),
{
    if es.len() == 0 {
        0
    } else {
        kind_files(es.drop_last(), k) + (if kind_of(es.last().0) == k {
            1nat
        } else {
            0nat
        })
    }
}

/// `@id`s of the diagrams of a kind.
pub open spec fn kind_ids(es: Seq<(Seq<char>, Seq<char>)>, k: Seq<char>) -> nat
    decreases es.len(),
{
    if es.len() == 0 {
        0
    } else {
        kind_ids(es.drop_last(), k) + (if kind_of(es.last().0) == k {
            id_count(es.last().1)
        } else {
            0nat
        })
    }
}

/// `@id`s of every diagram.
pub open spec fn all_ids(es: Seq<(Seq<char>, Seq<char>)>) -> nat
    decreases es.len(),
{
    if es.len() == 0 {
        0
    } else {
        all_ids(es.drop_last()) + id_count(es.last().1)
    }
}

/// The kinds that have diagrams.
pub open spec fn kinds_present(es: Seq<(Seq<char>, Seq<char>)>) -> Set<Seq<char>> {
    es.map_values(|e: (Seq<char>, Seq<char>)| kind_of(e.0)).to_set()
}

pub type TocV = (Seq<char>, nat, nat);

pub open spec fn toc_view(v: Seq<TocEntry>) -> Seq<TocV> {
    v.map_values(|t: TocEntry| (t.kind@, t.concept_count as nat, t.id_count as nat))
}

pub open spec fn toc_row(es: Seq<(Seq<char>, Seq<char>)>, k: Seq<char>) -> TocV {
    (k, kind_files(es, k), kind_ids(es, k))
}

/// The table of contents: a row per kind present, the canonical kinds
/// first in reading order, then the others alphabetically.
pub open spec fn toc_spec(es: Seq<(Seq<char>, Seq<char>)>) -> Seq<TocV> {
    let present = kinds_present(es);
    kind_order().filter(|k: Seq<char>| present.contains(k)).map_values(|k: Seq<char>| toc_row(es, k)) + sorted_of(
        present.difference(kind_order().to_set()),
    ).map_values(|k: Seq<char>| toc_row(es, k))
}

proof fn lemma_kind_bounds(es: Seq<(Seq<char>, Seq<char>)>, k: Seq<char>)
    ensures
        kind_files(es, k) <= es.len(),
        kind_ids(es, k) <= all_ids(es),
        kind_files(es, k) == 0 ==> kind_ids(es, k) == 0,
    decreases es.len(),
{
    if es.len() > 0 {
        lemma_kind_bounds(es.drop_last(), k);
    }
}

proof fn lemma_present(es: Seq<(Seq<char>, Seq<char>)>, k: Seq<char>)
    ensures
        kinds_present(es).contains(k) <==> kind_files(es, k) > 0,
    decreases es.len(),
{
    let f = |e: (Seq<char>, Seq<char>)| kind_of(e.0);
    if es.len() == 0 {
    } else {
        lemma_present(es.drop_last(), k);
        assert(es.map_values(f) =~= es.drop_last().map_values(f).push(f(es.last())));
        es.drop_last().map_values(f).lemma_push_to_set_commute(f(es.last()));
    }
}

proof fn lemma_sorted_len(s: Seq<Seq<char>>)
    requires
        strictly_sorted(s),
    ensures
        s.len() == s.to_set().len(),
{
    assert(s.no_duplicates()) by {
        assert forall|i: int, j: int| 0 <= i < s.len() && 0 <= j < s.len() && i != j implies s[i] != s[j] by {
            if i < j {
                lemma_lex_asym(s[i], s[j]);
            } else {
                lemma_lex_asym(s[j], s[i]);
            }
        }
    }
    s.unique_seq_to_set();
}

/// Per-kind counters, kept by kind.
fn count_kinds(entries: &Vec<(String, String)>) -> (r: KeyMap<(usize, usize)>)
    requires
        all_ids(pairs_view(entries@)) <= usize::MAX,
    ensures
        r.wf(),
        forall|k: Seq<char>|
            #![trigger pairs_get(r@, k)]
            pairs_get(r@, k) == (if kinds_present(pairs_view(entries@)).contains(k) {
                Some((kind_files(pairs_view(entries@), k) as usize, kind_ids(pairs_view(entries@), k) as usize))
            } else {
                None
            }),
        forall|i: int| 0 <= i < r@.len() ==> kinds_present(pairs_view(entries@)).contains(#[trigger] r@[i].0),
{
    let ghost es = pairs_view(entries@);
    let n: usize = entries.len();
    assert(es.len() == n);
    let mut m: KeyMap<(usize, usize)> = KeyMap::new();
    let mut i: usize = 0;
    while i < entries.len()
        invariant
            i <= entries.len(),
            es == pairs_view(entries@),
            es.len() == entries@.len(),
            es.len() <= usize::MAX,
            all_ids(es) <= usize::MAX,
            m.wf(),
            forall|k: Seq<char>|
                #![trigger pairs_get(m@, k)]
                pairs_get(m@, k) == (if kinds_present(es.take(i as int)).contains(k) {
                    Some((kind_files(es.take(i as int), k) as usize, kind_ids(es.take(i as int), k) as usize))
                } else {
                    None
                }),
            forall|j: int| 0 <= j < m@.len() ==> kinds_present(es.take(i as int)).contains(#[trigger] m@[j].0),
        decreases entries.len() - i,
    {
        let ghost pre = es.take(i as int);
        let ghost post = es.take(i + 1);
        proof {
            assert(post.drop_last() == pre);
            assert(post.last() == es[i as int]);
        }
        let kind = kind_of_exec(entries[i].0.as_str());
        let ids = extract_ids(entries[i].1.as_str());
        proof {
            lemma_sorted_len(strs(ids@));
            assert(es[i as int] == (entries@[i as int].0@, entries@[i as int].1@));
            assert(ids@.len() == id_count(es[i as int].1));
            lemma_kind_bounds(pre, kind@);
            lemma_all_ids_prefix(es, i as int);
            lemma_present(pre, kind@);
            lemma_present(post, kind@);
            lemma_kind_bounds(post, kind@);
            crate::strings::lemma_pairs_get_insert(m@, kind@, (0usize, 0usize), kind@);
        }
        let ghost fk = kind_files(post, kind@);
        let ghost ik = kind_ids(post, kind@);
        let (f0, i0): (usize, usize) = match m.get(kind.as_str()) {
            Some(v) => *v,
            None => (0, 0),
        };
        proof {
            lemma_kind_bounds(es.take(i as int), kind@);
            assert(all_ids(post) <= all_ids(es)) by {
                lemma_all_ids_prefix(es, i + 1);
            }
        }
        assert(f0 + 1 == fk);
        assert(i0 + ids.len() == ik);
        let nv: (usize, usize) = (f0 + 1, i0 + ids.len());
        let ghost m0 = m@;
        m.insert(kind, nv);
        proof {
            let f = |e: (Seq<char>, Seq<char>)| kind_of(e.0);
            assert(post.map_values(f) =~= pre.map_values(f).push(f(es[i as int])));
            pre.map_values(f).lemma_push_to_set_commute(f(es[i as int]));
            assert forall|k: Seq<char>| #![trigger pairs_get(m@, k)]
                pairs_get(m@, k) == (if kinds_present(post).contains(k) {
                    Some((kind_files(post, k) as usize, kind_ids(post, k) as usize))
                } else {
                    None
                }) by {
                crate::strings::lemma_pairs_get_insert(m0, kind@, nv, k);
                lemma_present(pre, k);
                lemma_present(post, k);
            }
            lemma_pairs_insert_keys_in(m0, kind@, nv);
            assert forall|j: int| 0 <= j < m@.len() implies kinds_present(post).contains(#[trigger] m@[j].0) by {
                if m@[j].0 != kind@ {
                    let q = choose|q: int| 0 <= q < m0.len() && m0[q].0 == m@[j].0;
                    assert(kinds_present(pre).contains(m0[q].0));
                }
            }
        }
        i = i + 1;
    }
    assert(es.take(entries.len() as int) == es);
    m
}

proof fn lemma_all_ids_prefix(es: Seq<(Seq<char>, Seq<char>)>, n: int)
    requires
        0 <= n <= es.len(),
    ensures
        all_ids(es.take(n)) <= all_ids(es),
    decreases es.len() - n,
{
    if n < es.len() {
        lemma_all_ids_prefix(es, n + 1);
        assert(es.take(n + 1).drop_last() == es.take(n));
    } else {
        assert(es.take(n) == es);
    }
}

/// The keys after an insert are the old keys and the inserted one.
proof fn lemma_pairs_insert_keys_in<V>(s: Seq<(Seq<char>, V)>, k: Seq<char>, v: V)
    ensures
        forall|j: int|
            0 <= j < crate::strings::pairs_insert(s, k, v).len() ==> (#[trigger] crate::strings::pairs_insert(
                s,
                k,
                v,
            )[j]).0 == k || exists|q: int| 0 <= q < s.len() && s[q].0 == crate::strings::pairs_insert(s, k, v)[j].0,
    decreases s.len(),
{
    let r = crate::strings::pairs_insert(s, k, v);
    if s.len() == 0 {
    } else if s[0].0 == k {
        assert forall|j: int| 0 <= j < r.len() implies (#[trigger] r[j]).0 == k || exists|q: int|
            0 <= q < s.len() && s[q].0 == r[j].0 by {
            if j > 0 {
                assert(r[j] == s[j]);
            }
        }
    } else if lex_lt(k, s[0].0) {
        assert forall|j: int| 0 <= j < r.len() implies (#[trigger] r[j]).0 == k || exists|q: int|
            0 <= q < s.len() && s[q].0 == r[j].0 by {
            if j > 0 {
                assert(r[j] == s[j - 1]);
            }
        }
    } else {
        let t = s.drop_first();
        lemma_pairs_insert_keys_in(t, k, v);
        let rt = crate::strings::pairs_insert(t, k, v);
        assert forall|j: int| 0 <= j < r.len() implies (#[trigger] r[j]).0 == k || exists|q: int|
            0 <= q < s.len() && s[q].0 == r[j].0 by {
            if j == 0 {
                assert(r[0] == s[0]);
            } else {
                assert(r[j] == rt[j - 1]);
                if rt[j - 1].0 != k {
                    let q = choose|q: int| 0 <= q < t.len() && t[q].0 == rt[j - 1].0;
                    assert(s[q + 1] == t[q]);
                }
            }
        }
    }
}

impl Project {
    /// The whole-map table of contents from its diagrams, each given as its
    /// path under the map directory and its content: a row per concept
    /// kind present (diagrams and distinct `@id`s counted), the canonical
    /// kinds first in reading order, then any other kind alphabetically.
    pub fn map_toc(&self, entries: &Vec<(String, String)>) -> (r: Vec<TocEntry>)
        requires
            all_ids(pairs_view(entries@)) <= usize::MAX,
        ensures
            toc_view(r@) == toc_spec(pairs_view(entries@)),
    {
        let ghost es = pairs_view(entries@);
        let n: usize = entries.len();
        assert(es.len() == n);
        let counts = count_kinds(entries);
        let ghost present = kinds_present(es);
        let ghost canon = kind_order().filter(|k: Seq<char>| present.contains(k));
        let ghost pred = |k: Seq<char>| present.contains(k);
        let ghost row = |k: Seq<char>| toc_row(es, k);
        let mut toc: Vec<TocEntry> = Vec::new();
        let mut i: usize = 0;
        assert(kind_order().take(0).filter(pred) =~= Seq::<Seq<char>>::empty()) by {
            reveal(Seq::filter);
        }
        assert(toc_view(toc@) =~= Seq::<TocV>::empty());
        while i < 6
            invariant
                i <= 6,
                es == pairs_view(entries@),
                present == kinds_present(es),
                pred == (|k: Seq<char>| present.contains(k)),
                row == (|k: Seq<char>| toc_row(es, k)),
                es.len() <= usize::MAX,
                counts.wf(),
                forall|k: Seq<char>|
                    #![trigger pairs_get(counts@, k)]
                    pairs_get(counts@, k) == (if present.contains(k) {
                        Some((kind_files(es, k) as usize, kind_ids(es, k) as usize))
                    } else {
                        None
                    }),
                all_ids(es) <= usize::MAX,
                toc_view(toc@) == kind_order().take(i as int).filter(pred).map_values(row),
            decreases 6 - i,
        {
            let k = kind_at(i);
            proof {
                assert(kind_order().take(i + 1) == kind_order().take(i as int).push(kind_order()[i as int]));
                kind_order().take(i as int).lemma_filter_push(kind_order()[i as int], pred);
                lemma_kind_bounds(es, k@);
                lemma_present(es, k@);
            }
            match counts.get(k) {
                Some(v) => {
                    let ghost t0 = toc_view(toc@);
                    toc.push(TocEntry { kind: owned(k), concept_count: v.0, id_count: v.1 });
                    proof {
                        let fl = kind_order().take(i as int).filter(pred);
                        assert(fl.push(k@).map_values(row) =~= fl.map_values(row).push(row(k@)));
                        assert(toc_view(toc@) =~= t0.push(row(k@)));
                    }
                },
                None => {},
            }
            i = i + 1;
        }
        assert(kind_order().take(6) =~= kind_order());
        let ghost head = toc_view(toc@);
        // the other kinds, alphabetically (the map's keys are in order)
        let ghost rest_set = present.difference(kind_order().to_set());
        let mut others: Vec<String> = Vec::new();
        let mut j: usize = 0;
        while j < counts.entries.len()
            invariant
                j <= counts.entries.len(),
                counts.wf(),
                strictly_sorted(strs(others@)),
                strs(others@).to_set() == counts@.take(j as int).map_values(|e: (Seq<char>, (usize, usize))| e.0).to_set().filter(
                    |k: Seq<char>| !kind_order().contains(k),
                ),
            decreases counts.entries.len() - j,
        {
            let key = &counts.entries[j].0;
            let ghost kk = counts@[j as int].0;
            assert(key@ == kk);
            let canonical = is_canonical(key.as_str());
            let ghost ks = counts@.take(j + 1).map_values(|e: (Seq<char>, (usize, usize))| e.0);
            let ghost ks0 = counts@.take(j as int).map_values(|e: (Seq<char>, (usize, usize))| e.0);
            proof {
                assert(ks =~= ks0.push(kk));
                ks0.lemma_push_to_set_commute(kk);
            }
            if !canonical {
                proof {
                    assert forall|p: int| 0 <= p < strs(others@).len() implies lex_lt(strs(others@)[p], kk) by {
                        let e = strs(others@)[p];
                        assert(strs(others@).to_set().contains(e));
                        let w = choose|w: int| 0 <= w < ks0.len() && ks0[w] == e;
                        assert(counts@[w].0 == e);
                        assert(lex_lt(counts@[w].0, counts@[j as int].0));
                    }
                    crate::order::lemma_push_sorted(strs(others@), kk);
                }
                let ghost o0 = strs(others@);
                others.push(key.clone());
                proof {
                    assert(strs(others@) =~= o0.push(kk));
                    o0.lemma_push_to_set_commute(kk);
                    assert(strs(others@).to_set() =~= ks.to_set().filter(|k: Seq<char>| !kind_order().contains(k)));
                }
            } else {
                assert(strs(others@).to_set() =~= ks.to_set().filter(|k: Seq<char>| !kind_order().contains(k)));
            }
            j = j + 1;
        }
        proof {
            assert(counts@.take(counts.entries.len() as int) =~= counts@);
            let ks = counts@.map_values(|e: (Seq<char>, (usize, usize))| e.0);
            assert(strs(others@).to_set() =~= rest_set) by {
                assert forall|k: Seq<char>| strs(others@).to_set().contains(k) implies rest_set.contains(k) by {
                    let w = choose|w: int| 0 <= w < ks.len() && ks[w] == k;
                    assert(present.contains(counts@[w].0));
                }
                assert forall|k: Seq<char>| rest_set.contains(k) implies strs(others@).to_set().contains(k) by {
                    assert(pairs_get(counts@, k) is Some);
                    lemma_pairs_get_some_index(counts@, k);
                    let w = choose|w: int| 0 <= w < counts@.len() && counts@[w].0 == k;
                    assert(ks[w] == k);
                }
            }
            crate::cycle::lemma_sorted_of(strs(others@));
        }
        let ghost ov = strs(others@);
        let mut m: usize = 0;
        while m < others.len()
            invariant
                m <= others.len(),
                ov == strs(others@),
                ov == sorted_of(rest_set),
                ov.to_set() == rest_set,
                rest_set == present.difference(kind_order().to_set()),
                es == pairs_view(entries@),
                present == kinds_present(es),
                row == (|k: Seq<char>| toc_row(es, k)),
                es.len() <= usize::MAX,
                counts.wf(),
                forall|k: Seq<char>|
                    #![trigger pairs_get(counts@, k)]
                    pairs_get(counts@, k) == (if present.contains(k) {
                        Some((kind_files(es, k) as usize, kind_ids(es, k) as usize))
                    } else {
                        None
                    }),
                all_ids(es) <= usize::MAX,
                toc_view(toc@) == head + ov.take(m as int).map_values(row),
            decreases others.len() - m,
        {
            let k = others[m].as_str();
            proof {
                assert(ov.to_set().contains(ov[m as int]));
                lemma_kind_bounds(es, k@);
            }
            match counts.get(k) {
                Some(v) => {
                    let ghost t0 = toc_view(toc@);
                    toc.push(TocEntry { kind: owned(k), concept_count: v.0, id_count: v.1 });
                    proof {
                        assert(k@ == ov[m as int]);
                        assert(toc_view(toc@) =~= t0.push(row(k@)));
                        assert(ov.take(m + 1) =~= ov.take(m as int).push(ov[m as int]));
                        assert(ov.take(m + 1).map_values(row) =~= ov.take(m as int).map_values(row).push(row(ov[m as int])));
                        assert(toc_view(toc@) =~= head + ov.take(m + 1).map_values(row));
                    }
                },
                None => {
                    assert(false);
                },
            }
            m = m + 1;
        }
        assert(ov.take(others.len() as int) =~= ov);
        toc
    }

    /// The session-start brief: the map's table of contents and the
    /// freshness verdict (see `map_toc` and `map_status`).
    pub fn session_context(
        &self,
        entries: &Vec<(String, String)>,
        source_revision: Option<String>,
        trace: &Trace,
        changed: &ChangedCode,
    ) -> (r: SessionContext)
        requires
            all_ids(pairs_view(entries@)) <= usize::MAX,
        ensures
            toc_view(r.toc@) == toc_spec(pairs_view(entries@)),
            source_revision is None ==> r.fresh && r.source_revision is None && r.drift@.len() == 0,
            source_revision is Some ==> {
                &&& r.source_revision == source_revision
                &&& drift_sorted(drifts_view(r.drift@))
                &&& drifts_view(r.drift@).to_set() == drift_set(changed.symbols@, slinks_view(trace.source_links@))
                &&& r.fresh == (r.drift@.len() == 0)
            },
    {
        let toc = self.map_toc(entries);
        let status = self.map_status(source_revision, trace, changed);
        SessionContext { toc, fresh: status.fresh, source_revision: status.source_revision, drift: status.drift }
    }
}

proof fn lemma_pairs_get_some_index<V>(s: Seq<(Seq<char>, V)>, k: Seq<char>)
    requires
        pairs_get(s, k) is Some,
    ensures
        exists|w: int| 0 <= w < s.len() && s[w].0 == k,
    decreases s.len(),
{
    if s[0].0 == k {
        assert(s[0].0 == k);
    } else {
        lemma_pairs_get_some_index(s.drop_first(), k);
        let w = choose|w: int| 0 <= w < s.drop_first().len() && s.drop_first()[w].0 == k;
        assert(s[w + 1].0 == k);
    }
}

} // verus!
