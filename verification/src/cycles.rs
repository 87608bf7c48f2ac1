//! The cycle registry as a whole: its order, the open cycle's scope, the
//! snapshot diffs of a cycle, and the cycles that changed a diagram.
use vstd::prelude::*;
use crate::cycle::{Cycle, CycleDiff, CycleRegistry, CycleStatus, diff_documents, doc_keys, lemma_sorted_of, sorted_of};
use crate::order::{insert_sorted, lemma_stable_pos, lemma_stable_sort_push, stable_insert, stable_pos, stable_sort, strictly_sorted};
use crate::project::Project;
use crate::review::pairs_view;
use crate::strings::sorted_unique;
use crate::text::{find_char_exec, find_char_from, lemma_find_char_from_range, chars_of, starts_with, str_eq, str_starts_with, string_of_range, strs, owned};

verus! {

/// Order cycles by number.
pub open spec fn number_lt() -> spec_fn(Cycle, Cycle) -> bool {
    |a: Cycle, b: Cycle| a.manifest.number < b.manifest.number
}

fn insert_cycle(v: &mut Vec<Cycle>, x: Cycle)
    ensures
        final(v)@ == stable_insert(old(v)@, x, number_lt()),
{
    let ghost s = v@;
    proof {
        lemma_stable_pos(s, x, number_lt());
    }
    let mut j: usize = v.len();
    assert(s.take(j as int) == s);
    while j > 0 && x.manifest.number < v[j - 1].manifest.number
        invariant
            j <= v.len(),
            s == v@,
            stable_pos(s, x, number_lt()) == stable_pos(s.take(j as int), x, number_lt()),
        decreases j,
    {
        proof {
            assert(s.take(j as int).drop_last() == s.take(j - 1));
            assert(s.take(j as int).last() == s[j - 1]);
        }
        j = j - 1;
    }
    proof {
        if j > 0 {
            assert(s.take(j as int).last() == s[j - 1]);
        }
        assert(stable_pos(s.take(j as int), x, number_lt()) == j);
    }
    v.insert(j, x);
}

/// Cycles in nondecreasing number order.
pub open spec fn numbers_sorted(s: Seq<Cycle>) -> bool {
    forall|i: int, j: int| 0 <= i < j < s.len() ==> s[i].manifest.number <= s[j].manifest.number
}

proof fn lemma_pos_bounds(s: Seq<Cycle>, x: Cycle)
    ensures
        forall|k: int|
            stable_pos(s, x, number_lt()) <= k < s.len() ==> x.manifest.number < #[trigger] s[k].manifest.number,
        stable_pos(s, x, number_lt()) > 0 ==> s[stable_pos(s, x, number_lt()) - 1].manifest.number
            <= x.manifest.number,
    decreases s.len(),
{
    if s.len() == 0 || !(number_lt())(x, s.last()) {
    } else {
        lemma_pos_bounds(s.drop_last(), x);
        lemma_stable_pos(s.drop_last(), x, number_lt());
        let p = stable_pos(s.drop_last(), x, number_lt());
        assert forall|k: int| p <= k < s.len() implies x.manifest.number < #[trigger] s[k].manifest.number by {
            if k < s.len() - 1 {
                assert(s[k] == s.drop_last()[k]);
            }
        }
        if p > 0 {
            assert(s[p - 1] == s.drop_last()[p - 1]);
        }
    }
}

proof fn lemma_insert_keeps_order(s: Seq<Cycle>, x: Cycle)
    requires
        numbers_sorted(s),
    ensures
        numbers_sorted(stable_insert(s, x, number_lt())),
        stable_insert(s, x, number_lt()).len() == s.len() + 1,
        forall|e: Cycle| stable_insert(s, x, number_lt()).contains(e) <==> (s.contains(e) || e == x),
{
    lemma_stable_pos(s, x, number_lt());
    lemma_pos_bounds(s, x);
    let p = stable_pos(s, x, number_lt());
    let r = s.insert(p, x);
    assert forall|i: int, j: int| 0 <= i < j < r.len() implies r[i].manifest.number <= r[j].manifest.number by {
        if j < p {
        } else if j == p {
            if i < p {
                assert(s[i].manifest.number <= s[p - 1].manifest.number);
            }
        } else if i < p {
            assert(r[j] == s[j - 1]);
        } else if i == p {
            assert(r[j] == s[j - 1]);
        } else {
            assert(r[i] == s[i - 1] && r[j] == s[j - 1]);
        }
    }
    assert forall|e: Cycle| r.contains(e) <==> (s.contains(e) || e == x) by {
        if r.contains(e) {
            let k = choose|k: int| 0 <= k < r.len() && r[k] == e;
            if k < p {
                assert(s[k] == e);
            } else if k > p {
                assert(s[k - 1] == e);
            }
        }
        if s.contains(e) {
            let k = choose|k: int| 0 <= k < s.len() && s[k] == e;
            if k < p {
                assert(r[k] == e);
            } else {
                assert(r[k + 1] == e);
            }
        }
        if e == x {
            assert(r[p] == e);
        }
    }
}

proof fn lemma_sort_facts(cs: Seq<Cycle>)
    ensures
        numbers_sorted(stable_sort(cs, number_lt())),
        stable_sort(cs, number_lt()).len() == cs.len(),
        forall|e: Cycle| stable_sort(cs, number_lt()).contains(e) <==> cs.contains(e),
    decreases cs.len(),
{
    if cs.len() > 0 {
        let rest = cs.drop_last();
        lemma_sort_facts(rest);
        lemma_insert_keeps_order(stable_sort(rest, number_lt()), cs.last());
        assert forall|e: Cycle| cs.contains(e) <==> (rest.contains(e) || e == cs.last()) by {
            if cs.contains(e) {
                let k = choose|k: int| 0 <= k < cs.len() && cs[k] == e;
                if k < cs.len() - 1 {
                    assert(rest[k] == e);
                }
            }
            if rest.contains(e) {
                let k = choose|k: int| 0 <= k < rest.len() && rest[k] == e;
                assert(cs[k] == e);
            }
        }
    } else {
        assert(stable_sort(cs, number_lt()) =~= Seq::<Cycle>::empty());
    }
}

/// The registry orders the scanned cycles by number and keeps each of
/// them, so its latest cycle is one of them and carries the greatest
/// number.
pub proof fn lemma_latest_is_greatest(cs: Seq<Cycle>)
    requires
        cs.len() > 0,
    ensures
        cs.contains(stable_sort(cs, number_lt()).last()),
        forall|i: int| 0 <= i < cs.len() ==> #[trigger] cs[i].manifest.number <= stable_sort(cs, number_lt()).last().manifest.number,
{
    lemma_sort_facts(cs);
    let r = stable_sort(cs, number_lt());
    assert(r.contains(r.last()));
    assert forall|i: int| 0 <= i < cs.len() implies #[trigger] cs[i].manifest.number <= r.last().manifest.number by {
        assert(cs.contains(cs[i]));
        let k = choose|k: int| 0 <= k < r.len() && r[k] == cs[i];
        if k < r.len() - 1 {
            assert(r[k].manifest.number <= r[r.len() - 1].manifest.number);
        }
    }
}

impl Project {
    /// The registry of the cycles scanned under `.mdd/cycles/`, ordered by
    /// number (stably).
    pub fn cycle_registry(&self, cycles: Vec<Cycle>) -> (r: CycleRegistry)
        ensures
            r.cycles@ == stable_sort(cycles@, number_lt()),
    {
        CycleRegistry::from_cycles(cycles)
    }
}

impl CycleRegistry {
    /// The registry of the scanned cycles, ordered by number (stably).
    pub fn from_cycles(cycles: Vec<Cycle>) -> (r: CycleRegistry)
        ensures
            r.cycles@ == stable_sort(cycles@, number_lt()),
    {
        let ghost cv = cycles@;
        let n: usize = cycles.len();
        let mut sorted: Vec<Cycle> = Vec::new();
        let mut rest = cycles;
        let mut k: usize = 0;
        assert(sorted@ =~= stable_sort(cv.take(0), number_lt()));
        assert(cv.skip(0) == cv);
        while rest.len() > 0
            invariant
                k <= cv.len(),
                cv.len() == n,
                rest@ == cv.skip(k as int),
                sorted@ == stable_sort(cv.take(k as int), number_lt()),
            decreases rest.len(),
        {
            let c = rest.remove(0);
            proof {
                assert(c == cv[k as int]);
                assert(cv.take(k + 1) == cv.take(k as int).push(cv[k as int]));
                lemma_stable_sort_push(cv.take(k as int), cv[k as int], number_lt());
                assert(rest@ =~= cv.skip(k + 1));
            }
            insert_cycle(&mut sorted, c);
            k = k + 1;
        }
        assert(cv.take(k as int) =~= cv);
        CycleRegistry { cycles: sorted }
    }
}

/// The open cycle with the greatest number (the last of them when several
/// share it).
pub open spec fn open_max(cs: Seq<Cycle>) -> Option<int>
    decreases cs.len(),
{
    if cs.len() == 0 {
        None
    } else {
        let prev = open_max(cs.drop_last());
        let c = cs.last();
        if c.manifest.status != CycleStatus::Open {
            prev
        } else {
            match prev {
                None => Some(cs.len() - 1),
                Some(j) => if cs[j].manifest.number <= c.manifest.number {
                    Some(cs.len() - 1)
                } else {
                    prev
                },
            }
        }
    }
}

proof fn lemma_open_max_range(cs: Seq<Cycle>)
    ensures
        open_max(cs) matches Some(j) ==> 0 <= j < cs.len(),
    decreases cs.len(),
{
    if cs.len() > 0 {
        lemma_open_max_range(cs.drop_last());
    }
}

impl CycleRegistry {
    /// The parity scope of the open cycle: the `scope` of the open cycle
    /// with the greatest number, sorted and distinct; empty (the whole
    /// model) when no cycle is open.
    pub fn open_cycle_scope(&self) -> (r: Vec<String>)
        ensures
            strictly_sorted(strs(r@)),
            strs(r@).to_set() == match open_max(self.cycles@) {
                Some(j) => strs(self.cycles@[j].manifest.scope@).to_set(),
                None => Set::empty(),
            },
    {
        let ghost cs = self.cycles@;
        let mut best: Option<usize> = None;
        let mut i: usize = 0;
        while i < self.cycles.len()
            invariant
                i <= self.cycles.len(),
                cs == self.cycles@,
                match open_max(cs.take(i as int)) {
                    Some(j) => best is Some && best.unwrap() as int == j,
                    None => best is None,
                },
                best matches Some(b) ==> b < i,
            decreases self.cycles.len() - i,
        {
            proof {
                assert(cs.take(i + 1).drop_last() == cs.take(i as int));
                assert(cs.take(i + 1).last() == cs[i as int]);
                lemma_open_max_range(cs.take(i as int));
            }
            let c = &self.cycles[i];
            if c.manifest.status == CycleStatus::Open {
                match best {
                    None => {
                        best = Some(i);
                    },
                    Some(b) => {
                        assert(cs.take(i as int)[b as int] == cs[b as int]);
                        if self.cycles[b].manifest.number <= c.manifest.number {
                            best = Some(i);
                        }
                    },
                }
            }
            i = i + 1;
        }
        assert(cs.take(self.cycles.len() as int) == cs);
        proof {
            lemma_open_max_range(cs);
        }
        match best {
            Some(b) => sorted_unique(&self.cycles[b].manifest.scope),
            None => {
                let r: Vec<String> = Vec::new();
                assert(strs(r@).to_set() =~= Set::<Seq<char>>::empty());
                r
            },
        }
    }
}

// ---------------------------------------------------------------------------
// Snapshot diffs

/// A diagram diff: diagram, unchanged, added, removed.
pub type DiffV = (Seq<char>, Seq<Seq<char>>, Seq<Seq<char>>, Seq<Seq<char>>);

pub open spec fn diff_view(d: CycleDiff) -> DiffV {
    (d.diagram@, strs(d.unchanged@), strs(d.added@), strs(d.removed@))
}

pub open spec fn diffs_view(v: Seq<CycleDiff>) -> Seq<DiffV> {
    v.map_values(|d: CycleDiff| diff_view(d))
}

/// The diff of one diagram between two documents (see `diff_documents`).
pub open spec fn diff_spec(name: Seq<char>, before: Seq<char>, after: Seq<char>) -> DiffV {
    let kb = doc_keys(before);
    let ka = doc_keys(after);
    (name, sorted_of(kb.intersect(ka)), sorted_of(ka.difference(kb)), sorted_of(kb.difference(ka)))
}

/// The content of the first snapshot file with the name (empty when none).
pub open spec fn doc_named(fs: Seq<(Seq<char>, Seq<char>)>, name: Seq<char>) -> Seq<char>
    decreases fs.len(),
{
    if fs.len() == 0 {
        seq![]
    } else if fs[0].0 == name {
        fs[0].1
    } else {
        doc_named(fs.drop_first(), name)
    }
}

pub open spec fn names_of(fs: Seq<(Seq<char>, Seq<char>)>) -> Set<Seq<char>> {
    fs.map_values(|f: (Seq<char>, Seq<char>)| f.0).to_set()
}

/// The diffs of a cycle's snapshots, each given as (name, content) pairs:
/// one per diagram name on either side (sorted), skipping a diagram with no
/// identity on either side.
pub open spec fn snapshot_diffs(before: Seq<(Seq<char>, Seq<char>)>, after: Seq<(Seq<char>, Seq<char>)>) -> Seq<DiffV> {
    sorted_of(names_of(before) + names_of(after)).map_values(
        |n: Seq<char>| diff_spec(n, doc_named(before, n), doc_named(after, n)),
    ).filter(|d: DiffV| !(d.1.len() == 0 && d.2.len() == 0 && d.3.len() == 0))
}

fn doc_named_exec(fs: &Vec<(String, String)>, name: &str) -> (r: String)
    ensures
        r@ == doc_named(pairs_view(fs@), name@),
{
    let ghost fv = pairs_view(fs@);
    let mut i: usize = 0;
    assert(fv.skip(0) == fv);
    while i < fs.len()
        invariant
            i <= fs.len(),
            fv == pairs_view(fs@),
            doc_named(fv, name@) == doc_named(fv.skip(i as int), name@),
        decreases fs.len() - i,
    {
        let ghost t = fv.skip(i as int);
        assert(t[0] == fv[i as int]);
        assert(t.drop_first() == fv.skip(i + 1));
        if str_eq(fs[i].0.as_str(), name) {
            return fs[i].1.clone();
        }
        i = i + 1;
    }
    String::new()
}

fn push_names(out: &mut Vec<String>, fs: &Vec<(String, String)>)
    requires
        strictly_sorted(strs(old(out)@)),
    ensures
        strictly_sorted(strs(final(out)@)),
        strs(final(out)@).to_set() == strs(old(out)@).to_set() + names_of(pairs_view(fs@)),
{
    let ghost o0 = strs(out@).to_set();
    let ghost ns = pairs_view(fs@).map_values(|f: (Seq<char>, Seq<char>)| f.0);
    let mut i: usize = 0;
    assert(o0 + ns.take(0).to_set() =~= o0);
    while i < fs.len()
        invariant
            i <= fs.len(),
            ns == pairs_view(fs@).map_values(|f: (Seq<char>, Seq<char>)| f.0),
            strictly_sorted(strs(out@)),
            strs(out@).to_set() == o0 + ns.take(i as int).to_set(),
        decreases fs.len() - i,
    {
        insert_sorted(out, fs[i].0.clone());
        proof {
            assert(ns.take(i + 1) =~= ns.take(i as int).push(ns[i as int]));
            ns.take(i as int).lemma_push_to_set_commute(ns[i as int]);
            assert(strs(out@).to_set() =~= o0 + ns.take(i + 1).to_set());
        }
        i = i + 1;
    }
    assert(ns.take(fs.len() as int) == ns);
}

/// The diagram diffs of a cycle, from its `before/` and `after/` snapshots
/// (each file's name relative to its snapshot, and its content): see
/// `snapshot_diffs`.
pub fn cycle_diffs(before: &Vec<(String, String)>, after: &Vec<(String, String)>) -> (r: Vec<CycleDiff>)
    ensures
        diffs_view(r@) == snapshot_diffs(pairs_view(before@), pairs_view(after@)),
{
    let mut names: Vec<String> = Vec::new();
    push_names(&mut names, before);
    push_names(&mut names, after);
    let ghost bv = pairs_view(before@);
    let ghost av = pairs_view(after@);
    proof {
        assert(strs(names@).to_set() =~= names_of(bv) + names_of(av));
        lemma_sorted_of(strs(names@));
    }
    let ghost nv = strs(names@);
    let ghost f = |n: Seq<char>| diff_spec(n, doc_named(bv, n), doc_named(av, n));
    let ghost pred = |d: DiffV| !(d.1.len() == 0 && d.2.len() == 0 && d.3.len() == 0);
    let mut out: Vec<CycleDiff> = Vec::new();
    let mut i: usize = 0;
    assert(nv.map_values(f).take(0).filter(pred) =~= Seq::<DiffV>::empty()) by {
        reveal(Seq::filter);
    }
    assert(diffs_view(out@) =~= Seq::<DiffV>::empty());
    while i < names.len()
        invariant
            i <= names.len(),
            nv == strs(names@),
            bv == pairs_view(before@),
            av == pairs_view(after@),
            f == (|n: Seq<char>| diff_spec(n, doc_named(bv, n), doc_named(av, n))),
            pred == (|d: DiffV| !(d.1.len() == 0 && d.2.len() == 0 && d.3.len() == 0)),
            diffs_view(out@) == nv.map_values(f).take(i as int).filter(pred),
        decreases names.len() - i,
    {
        let name = names[i].as_str();
        let b = doc_named_exec(before, name);
        let a = doc_named_exec(after, name);
        let d = diff_documents(name, b.as_str(), a.as_str());
        proof {
            lemma_sorted_of(strs(d.unchanged@));
            lemma_sorted_of(strs(d.added@));
            lemma_sorted_of(strs(d.removed@));
            assert(diff_view(d) == f(nv[i as int]));
            let m = nv.map_values(f);
            assert(m.take(i + 1) == m.take(i as int).push(m[i as int]));
            m.take(i as int).lemma_filter_push(m[i as int], pred);
        }
        if d.unchanged.len() > 0 || d.added.len() > 0 || d.removed.len() > 0 {
            let ghost o0 = diffs_view(out@);
            out.push(d);
            assert(diffs_view(out@) =~= o0.push(nv.map_values(f)[i as int]));
        }
        i = i + 1;
    }
    assert(nv.map_values(f).take(names.len() as int) == nv.map_values(f));
    out
}

/// The diagram key of a model file: its path under its side's directory.
pub open spec fn model_key(model_rel: Seq<char>) -> Option<Seq<char>> {
    if starts_with(model_rel, ".mdd/models/"@) {
        let under = model_rel.skip(12);
        match find_char_from(under, '/', 0) {
            Some(i) => Some(under.skip(i + 1)),
            None => None,
        }
    } else {
        None
    }
}

fn model_key_exec(model_rel: &str) -> (r: Option<String>)
    ensures
        opt_str(r) == model_key(model_rel@),
{
    proof {
        reveal_strlit(".mdd/models/");
    }
    if !str_starts_with(model_rel, ".mdd/models/") {
        return None;
    }
    let cs = chars_of(model_rel);
    let under = string_of_range(cs.as_slice(), 12, cs.len());
    let us = chars_of(under.as_str());
    assert(us@ == model_rel@.skip(12));
    match find_char_exec(us.as_slice(), '/', 0) {
        Some(i) => {
            proof {
                lemma_find_char_from_range(us@, '/', 0);
            }
            Some(string_of_range(us.as_slice(), i + 1, us.len()))
        },
        None => None,
    }
}

pub open spec fn opt_str(o: Option<String>) -> Option<Seq<char>> {
    match o {
        Some(s) => Some(s@),
        None => None,
    }
}

/// A cycle changed the diagram: one of its diffs is for the key and added
/// or removed something.
pub open spec fn changed_in(diffs: Seq<DiffV>, key: Seq<char>) -> bool {
    exists|k: int| 0 <= k < diffs.len() && (#[trigger] diffs[k]).0 == key && !(diffs[k].2.len() == 0 && diffs[k].3.len() == 0)
}

/// The numbers of the cycles (given with their diffs) that changed the key.
pub open spec fn changing_cycles(cs: Seq<Cycle>, diffs: Seq<Seq<DiffV>>, key: Seq<char>) -> Seq<u32>
    decreases cs.len(),
{
    if cs.len() == 0 {
        seq![]
    } else {
        changing_cycles(cs.drop_last(), diffs, key) + (if changed_in(diffs[cs.len() - 1], key) {
            seq![cs.last().manifest.number]
        } else {
            seq![]
        })
    }
}

pub open spec fn u32_lt() -> spec_fn(u32, u32) -> bool {
    |a: u32, b: u32| a < b
}

fn insert_u32(v: &mut Vec<u32>, x: u32)
    ensures
        final(v)@ == stable_insert(old(v)@, x, u32_lt()),
{
    let ghost s = v@;
    proof {
        lemma_stable_pos(s, x, u32_lt());
    }
    let mut j: usize = v.len();
    assert(s.take(j as int) == s);
    while j > 0 && x < v[j - 1]
        invariant
            j <= v.len(),
            s == v@,
            stable_pos(s, x, u32_lt()) == stable_pos(s.take(j as int), x, u32_lt()),
        decreases j,
    {
        proof {
            assert(s.take(j as int).drop_last() == s.take(j - 1));
            assert(s.take(j as int).last() == s[j - 1]);
        }
        j = j - 1;
    }
    proof {
        if j > 0 {
            assert(s.take(j as int).last() == s[j - 1]);
        }
        assert(stable_pos(s.take(j as int), x, u32_lt()) == j);
    }
    v.insert(j, x);
}

fn any_changed(diffs: &Vec<CycleDiff>, key: &str) -> (b: bool)
    ensures
        b == changed_in(diffs_view(diffs@), key@),
{
    let ghost dv = diffs_view(diffs@);
    let mut i: usize = 0;
    while i < diffs.len()
        invariant
            i <= diffs.len(),
            dv == diffs_view(diffs@),
            forall|k: int| 0 <= k < i ==> !((#[trigger] dv[k]).0 == key@ && !(dv[k].2.len() == 0 && dv[k].3.len() == 0)),
        decreases diffs.len() - i,
    {
        assert(dv[i as int] == diff_view(diffs@[i as int]));
        if str_eq(diffs[i].diagram.as_str(), key) && !diffs[i].is_empty() {
            return true;
        }
        i = i + 1;
    }
    false
}

impl Project {
    /// The cycles (ascending) that changed a model file, `per_cycle`
    /// holding the diagram diffs of each registry cycle, in registry order:
    /// those with a diff for the file's key (its path under its side's
    /// directory) that added or removed something. None for a path outside
    /// `.mdd/models/<side>/`.
    pub fn cycles_with_diff_for(&self, registry: &CycleRegistry, per_cycle: &Vec<Vec<CycleDiff>>, model_rel: &str) -> (r:
        Vec<u32>)
        requires
            per_cycle@.len() == registry.cycles@.len(),
        ensures
            r@ == match model_key(model_rel@) {
                Some(key) => stable_sort(
                    changing_cycles(
                        registry.cycles@,
                        per_cycle@.map_values(|ds: Vec<CycleDiff>| diffs_view(ds@)),
                        key,
                    ),
                    u32_lt(),
                ),
                None => Seq::<u32>::empty(),
            },
    {
        let key = match model_key_exec(model_rel) {
            Some(k) => k,
            None => {
                return Vec::new();
            },
        };
        let ghost cs = registry.cycles@;
        let ghost dv = per_cycle@.map_values(|ds: Vec<CycleDiff>| diffs_view(ds@));
        let mut sel: Vec<u32> = Vec::new();
        let mut i: usize = 0;
        while i < registry.cycles.len()
            invariant
                i <= registry.cycles.len(),
                per_cycle@.len() == registry.cycles@.len(),
                cs == registry.cycles@,
                dv == per_cycle@.map_values(|ds: Vec<CycleDiff>| diffs_view(ds@)),
                sel@ == changing_cycles(cs.take(i as int), dv, key@),
            decreases registry.cycles.len() - i,
        {
            proof {
                assert(cs.take(i + 1).drop_last() == cs.take(i as int));
                assert(cs.take(i + 1).last() == cs[i as int]);
                assert(dv[i as int] == diffs_view(per_cycle@[i as int]@));
            }
            if any_changed(&per_cycle[i], key.as_str()) {
                sel.push(registry.cycles[i].manifest.number);
            }
            i = i + 1;
        }
        assert(cs.take(registry.cycles.len() as int) == cs);
        let ghost sv = sel@;
        let mut out: Vec<u32> = Vec::new();
        let mut k: usize = 0;
        assert(out@ =~= stable_sort(sv.take(0), u32_lt()));
        while k < sel.len()
            invariant
                k <= sel.len(),
                sv == sel@,
                out@ == stable_sort(sv.take(k as int), u32_lt()),
            decreases sel.len() - k,
        {
            proof {
                assert(sv.take(k + 1) == sv.take(k as int).push(sv[k as int]));
                lemma_stable_sort_push(sv.take(k as int), sv[k as int], u32_lt());
            }
            insert_u32(&mut out, sel[k]);
            k = k + 1;
        }
        assert(sv.take(sel.len() as int) == sv);
        out
    }
}

} // verus!
