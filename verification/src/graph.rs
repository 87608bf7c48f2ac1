//! The model graph of the viewer: one node per model element (and per
//! trace-link endpoint that names no element), one undirected edge per
//! trace link, held in a `petgraph` stable graph; and the nodes within a
//! number of hops of a node.
use vstd::prelude::*;
use crate::model::{ModelKind, ModelRegistry, Trace, TraceLink};
use crate::strings::{KeyMap, pairs_get, pairs_insert};
use petgraph::stable_graph::{NodeIndex, StableGraph};
use petgraph::Undirected;

verus! {

#[verifier::external_type_specification]
#[verifier::external_body]
#[verifier::reject_recursive_types(N)]
#[verifier::reject_recursive_types(E)]
#[verifier::reject_recursive_types(Ty)]
#[verifier::reject_recursive_types(Ix)]
pub struct ExStableGraph<N, E, Ty, Ix>(StableGraph<N, E, Ty, Ix>);

#[verifier::external_type_specification]
#[verifier::external_body]
pub struct ExUndirected(Undirected);

/// A node of the model graph: an element's id, kind and file.
pub struct NodeAttr {
    pub id: String,
    pub kind: ModelKind,
    pub file: String,
}

/// An edge of the model graph: the trace link's relation.
pub struct EdgeAttr {
    pub relation: String,
}

pub type NodeV = (Seq<char>, ModelKind, Seq<char>);

pub type EdgeV = (int, int, Seq<char>);

impl View for NodeAttr {
    type V = NodeV;

    open spec fn view(&self) -> NodeV {
        (self.id@, self.kind, self.file@)
    }
}

/// The node slots of a graph, by index: the node's record, or nothing where
/// a node was removed.
pub uninterp spec fn node_slots(g: StableGraph<NodeAttr, EdgeAttr, Undirected, u32>) -> Seq<Option<NodeV>>;

/// The edge slots of a graph, by index: the two endpoints' indices and the
/// relation, or nothing where an edge was removed.
pub uninterp spec fn edge_slots(g: StableGraph<NodeAttr, EdgeAttr, Undirected, u32>) -> Seq<Option<EdgeV>>;

/// No slot is vacant.
pub open spec fn all_some<T>(s: Seq<Option<T>>) -> bool {
    forall|j: int| 0 <= j < s.len() ==> #[trigger] s[j] is Some
}

/// The number of occupied slots.
pub open spec fn occupied<T>(s: Seq<Option<T>>) -> nat
    decreases s.len(),
{
    if s.len() == 0 {
        0
    } else {
        occupied(s.drop_last()) + if s.last() is Some {
            1nat
        } else {
            0nat
        }
    }
}

/// `StableGraph::default`: a graph without nodes or edges.
#[verifier::external_body]
fn graph_empty() -> (g: StableGraph<NodeAttr, EdgeAttr, Undirected, u32>)
    ensures
        node_slots(g) == Seq::<Option<NodeV>>::empty(),
        edge_slots(g) == Seq::<Option<EdgeV>>::empty(),
{
    StableGraph::default()
}

/// `StableGraph::add_node` on a graph without a vacant node slot: the node
/// takes a new slot at the end, whose index is returned; the edges stay.
/// It panics once the `u32` index is exhausted, which `requires` rules out.
#[verifier::external_body]
fn graph_add_node(g: &mut StableGraph<NodeAttr, EdgeAttr, Undirected, u32>, n: NodeAttr) -> (i: usize)
    requires
        all_some(node_slots(*old(g))),
        node_slots(*old(g)).len() < 0xFFFF_FFFF,
    ensures
        i == node_slots(*old(g)).len(),
        node_slots(*final(g)) == node_slots(*old(g)).push(Some(n@)),
        edge_slots(*final(g)) == edge_slots(*old(g)),
{
    g.add_node(n).index()
}

/// `StableGraph::add_edge` between two present nodes on a graph without a
/// vacant edge slot: the edge takes a new slot at the end; the nodes stay.
/// It panics for a missing endpoint or once the `u32` index is exhausted,
/// which `requires` rules out.
#[verifier::external_body]
fn graph_add_edge(g: &mut StableGraph<NodeAttr, EdgeAttr, Undirected, u32>, a: usize, b: usize, e: EdgeAttr)
    requires
        a < node_slots(*old(g)).len(),
        b < node_slots(*old(g)).len(),
        node_slots(*old(g))[a as int] is Some,
        node_slots(*old(g))[b as int] is Some,
        node_slots(*old(g)).len() <= 0xFFFF_FFFF,
        all_some(edge_slots(*old(g))),
        edge_slots(*old(g)).len() < 0xFFFF_FFFF,
    ensures
        node_slots(*final(g)) == node_slots(*old(g)),
        edge_slots(*final(g)) == edge_slots(*old(g)).push(Some((a as int, b as int, e.relation@))),
{
    g.add_edge(NodeIndex::new(a), NodeIndex::new(b), e);
}

/// The first endpoint of an edge slot (none: -1).
pub open spec fn src_of(o: Option<EdgeV>) -> int {
    match o {
        Some(e) => e.0,
        None => -1,
    }
}

/// The second endpoint of an edge slot (none: -1).
pub open spec fn dst_of(o: Option<EdgeV>) -> int {
    match o {
        Some(e) => e.1,
        None => -1,
    }
}

/// Node `x` shares an edge with node `u`.
pub open spec fn adjacent(es: Seq<Option<EdgeV>>, u: int, x: int) -> bool {
    exists|k: int|
        0 <= k < es.len() && #[trigger] es[k] is Some && ((src_of(es[k]) == u && dst_of(es[k]) == x) || (dst_of(es[k]) == u
            && src_of(es[k]) == x))
}

/// `StableGraph::neighbors` of a node of an undirected graph, each as its
/// index: every node sharing an edge with it, and nothing else (a node
/// joined by several edges may come more than once; the order is left
/// unsaid).
#[verifier::external_body]
fn graph_neighbors(g: &StableGraph<NodeAttr, EdgeAttr, Undirected, u32>, a: usize) -> (r: Vec<usize>)
    requires
        a < node_slots(*g).len(),
        node_slots(*g).len() <= 0xFFFF_FFFF,
    ensures
        forall|t: int| 0 <= t < r@.len() ==> adjacent(edge_slots(*g), a as int, #[trigger] r@[t] as int),
        forall|x: int| adjacent(edge_slots(*g), a as int, x) ==> exists|t: int| 0 <= t < r@.len() && #[trigger] r@[t] == x,
{
    g.neighbors(NodeIndex::new(a)).map(|n| n.index()).collect()
}

/// `StableGraph::node_count`: the number of present nodes.
#[verifier::external_body]
fn graph_node_count(g: &StableGraph<NodeAttr, EdgeAttr, Undirected, u32>) -> (r: usize)
    ensures
        r == occupied(node_slots(*g)),
{
    g.node_count()
}

/// `StableGraph::edge_count`: the number of present edges.
#[verifier::external_body]
fn graph_edge_count(g: &StableGraph<NodeAttr, EdgeAttr, Undirected, u32>) -> (r: usize)
    ensures
        r == occupied(edge_slots(*g)),
{
    g.edge_count()
}

proof fn lemma_occupied_all<T>(s: Seq<Option<T>>)
    requires
        all_some(s),
    ensures
        occupied(s) == s.len(),
    decreases s.len(),
{
    if s.len() > 0 {
        assert(all_some(s.drop_last())) by {
            assert forall|j: int| 0 <= j < s.drop_last().len() implies #[trigger] s.drop_last()[j] is Some by {
                assert(s.drop_last()[j] == s[j]);
            }
        }
        lemma_occupied_all(s.drop_last());
        assert(s.last() == s[s.len() - 1]);
    }
}

// ---------------------------------------------------------------------------
// Building the graph

/// The nodes, the edges and the index of each id while the graph is built.
pub type GState = (Seq<NodeV>, Seq<EdgeV>, Seq<(Seq<char>, usize)>);

/// One node per element, in order; an id seen again points at its last node.
pub open spec fn add_elements(ids: Seq<crate::model::ModelElement>) -> GState
    decreases ids.len(),
{
    if ids.len() == 0 {
        (seq![], seq![], seq![])
    } else {
        let s = add_elements(ids.drop_last());
        let e = ids.last();
        (s.0.push((e.id@, e.kind, e.file@)), s.1, pairs_insert(s.2, e.id@, s.0.len() as usize))
    }
}

/// A node for an id that has none yet (of kind `Other`, in no file).
pub open spec fn ensure_node(s: GState, id: Seq<char>) -> GState {
    if pairs_get(s.2, id) is Some {
        s
    } else {
        (s.0.push((id, ModelKind::Other, seq![])), s.1, pairs_insert(s.2, id, s.0.len() as usize))
    }
}

/// A trace link: its endpoints' nodes, then an edge between them.
pub open spec fn add_link(s: GState, l: TraceLink) -> GState {
    let s2 = ensure_node(ensure_node(s, l.from@), l.to@);
    (s2.0, s2.1.push((pairs_get(s2.2, l.from@)->0 as int, pairs_get(s2.2, l.to@)->0 as int, l.relation@)), s2.2)
}

pub open spec fn add_links(s: GState, links: Seq<TraceLink>) -> GState
    decreases links.len(),
{
    if links.len() == 0 {
        s
    } else {
        add_link(add_links(s, links.drop_last()), links.last())
    }
}

/// The graph of a registry and a trace.
pub open spec fn graph_spec(ids: Seq<crate::model::ModelElement>, links: Seq<TraceLink>) -> GState {
    add_links(add_elements(ids), links)
}

pub struct GraphData {
    pub graph: StableGraph<NodeAttr, EdgeAttr, Undirected, u32>,
    pub by_id: KeyMap<usize>,
}

/// Every value of the index lies below `n`.
pub open spec fn index_below(m: Seq<(Seq<char>, usize)>, n: int) -> bool {
    forall|j: int| 0 <= j < m.len() ==> (#[trigger] m[j]).1 < n
}

/// Every edge joins nodes below `n`.
pub open spec fn edges_below(es: Seq<EdgeV>, n: int) -> bool {
    forall|j: int| 0 <= j < es.len() ==> 0 <= (#[trigger] es[j]).0 < n && 0 <= es[j].1 < n
}

pub open spec fn somes<T>(s: Seq<T>) -> Seq<Option<T>> {
    s.map_values(|x: T| Some(x))
}

impl GraphData {
    /// No vacant slot, every edge between present nodes, and the index
    /// pointing at present nodes.
    pub open spec fn wf(&self) -> bool {
        let ns = node_slots(self.graph);
        let es = edge_slots(self.graph);
        &&& all_some(ns)
        &&& all_some(es)
        &&& ns.len() <= 0xFFFF_FFFF
        &&& forall|j: int|
            0 <= j < es.len() ==> 0 <= src_of(#[trigger] es[j]) < ns.len() && 0 <= dst_of(es[j]) < ns.len()
        &&& self.by_id.wf()
        &&& index_below(self.by_id@, ns.len() as int)
    }
}

proof fn lemma_insert_below(m: Seq<(Seq<char>, usize)>, k: Seq<char>, v: usize, n: int)
    requires
        index_below(m, n),
        crate::strings::keys_sorted(m),
        v < n,
    ensures
        index_below(pairs_insert(m, k, v), n),
    decreases m.len(),
{
    if m.len() > 0 && m[0].0 != k && !crate::order::lex_lt(k, m[0].0) {
        let t = m.drop_first();
        assert(crate::strings::keys_sorted(t)) by {
            assert forall|a: int, b: int| 0 <= a < b < t.len() implies crate::order::lex_lt(t[a].0, t[b].0) by {
                assert(t[a] == m[a + 1] && t[b] == m[b + 1]);
            }
        }
        assert(index_below(t, n)) by {
            assert forall|j: int| 0 <= j < t.len() implies (#[trigger] t[j]).1 < n by {
                assert(t[j] == m[j + 1]);
            }
        }
        lemma_insert_below(t, k, v, n);
        let r = pairs_insert(m, k, v);
        assert(r == seq![m[0]] + pairs_insert(t, k, v));
        assert forall|j: int| 0 <= j < r.len() implies (#[trigger] r[j]).1 < n by {
            if j > 0 {
                assert(r[j] == pairs_insert(t, k, v)[j - 1]);
            }
        }
    } else if m.len() > 0 && m[0].0 == k {
        let r = pairs_insert(m, k, v);
        assert forall|j: int| 0 <= j < r.len() implies (#[trigger] r[j]).1 < n by {
            if j > 0 {
                assert(r[j] == m[j]);
            }
        }
    } else if m.len() > 0 {
        let r = pairs_insert(m, k, v);
        assert forall|j: int| 0 <= j < r.len() implies (#[trigger] r[j]).1 < n by {
            if j > 0 {
                assert(r[j] == m[j - 1]);
            }
        }
    }
}

proof fn lemma_get_below(m: Seq<(Seq<char>, usize)>, k: Seq<char>, n: int)
    requires
        index_below(m, n),
    ensures
        pairs_get(m, k) matches Some(v) ==> v < n,
    decreases m.len(),
{
    if m.len() > 0 && m[0].0 != k {
        let t = m.drop_first();
        assert(index_below(t, n)) by {
            assert forall|j: int| 0 <= j < t.len() implies (#[trigger] t[j]).1 < n by {
                assert(t[j] == m[j + 1]);
            }
        }
        lemma_get_below(t, k, n);
    }
}

/// The graph's state stays consistent: the index points below the node
/// count, every edge joins nodes below it, and the index is sorted.
pub open spec fn state_ok(s: GState) -> bool {
    &&& index_below(s.2, s.0.len() as int)
    &&& edges_below(s.1, s.0.len() as int)
    &&& crate::strings::keys_sorted(s.2)
}

proof fn lemma_ensure_node_ok(s: GState, id: Seq<char>)
    requires
        state_ok(s),
        s.0.len() < 0xFFFF_FFFF,
    ensures
        state_ok(ensure_node(s, id)),
        ensure_node(s, id).0.len() <= s.0.len() + 1,
        ensure_node(s, id).1 == s.1,
        pairs_get(ensure_node(s, id).2, id) is Some,
{
    if pairs_get(s.2, id) is None {
        let n = s.0.len() as int;
        assert(index_below(s.2, n + 1)) by {
            assert forall|j: int| 0 <= j < s.2.len() implies (#[trigger] s.2[j]).1 < n + 1 by {
                assert(s.2[j].1 < n);
            }
        }
        lemma_insert_below(s.2, id, n as usize, n + 1);
        crate::strings::lemma_pairs_insert_sorted(s.2, id, n as usize);
        crate::strings::lemma_pairs_get_insert(s.2, id, n as usize, id);
        assert forall|j: int| 0 <= j < s.1.len() implies 0 <= (#[trigger] s.1[j]).0 < n + 1 && 0 <= s.1[j].1 < n + 1 by {
            assert(0 <= s.1[j].0 < n && 0 <= s.1[j].1 < n);
        }
    }
}

impl GraphData {
    /// The model graph: a node per registry element (an id seen again
    /// points at its last node), then per trace link a node of kind `Other`
    /// for each endpoint not seen yet, and an edge carrying the relation.
    pub fn build(registry: &ModelRegistry, trace: &Trace) -> (r: GraphData)
        requires
            registry.ids@.len() + 2 * trace.links@.len() < 0xFFFF_FFFF,
        ensures
            r.wf(),
            node_slots(r.graph) == somes(graph_spec(registry.ids@, trace.links@).0),
            edge_slots(r.graph) == somes(graph_spec(registry.ids@, trace.links@).1),
            r.by_id@ == graph_spec(registry.ids@, trace.links@).2,
    {
        let mut graph = graph_empty();
        let mut by_id: KeyMap<usize> = KeyMap::new();
        let ghost ids = registry.ids@;
        let ghost links = trace.links@;
        assert(ids.take(0) =~= Seq::<crate::model::ModelElement>::empty());
        assert(somes(Seq::<NodeV>::empty()) =~= Seq::<Option<NodeV>>::empty());
        assert(somes(Seq::<EdgeV>::empty()) =~= Seq::<Option<EdgeV>>::empty());
        let mut i: usize = 0;
        while i < registry.ids.len()
            invariant
                i <= registry.ids.len(),
                ids == registry.ids@,
                ids.len() + 2 * trace.links@.len() < 0xFFFF_FFFF,
                node_slots(graph) == somes(add_elements(ids.take(i as int)).0),
                edge_slots(graph) == somes(add_elements(ids.take(i as int)).1),
                by_id@ == add_elements(ids.take(i as int)).2,
                by_id.wf(),
                add_elements(ids.take(i as int)).0.len() == i,
                add_elements(ids.take(i as int)).1.len() == 0,
                state_ok(add_elements(ids.take(i as int))),
            decreases registry.ids.len() - i,
        {
            let ghost s = add_elements(ids.take(i as int));
            proof {
                assert(ids.take(i + 1).drop_last() == ids.take(i as int));
                assert(ids.take(i + 1).last() == ids[i as int]);
                assert(all_some(node_slots(graph))) by {
                    assert forall|j: int| 0 <= j < node_slots(graph).len() implies #[trigger] node_slots(graph)[j] is Some by {
                        assert(somes(s.0)[j] == Some(s.0[j]));
                    }
                }
            }
            let e = &registry.ids[i];
            let idx = graph_add_node(&mut graph, NodeAttr { id: e.id.clone(), kind: e.kind, file: e.file.clone() });
            by_id.insert(e.id.clone(), idx);
            proof {
                let s2 = add_elements(ids.take(i + 1));
                assert(node_slots(graph) =~= somes(s2.0));
                assert forall|j: int| 0 <= j < s.2.len() implies (#[trigger] s.2[j]).1 < i + 1 by {
                    assert(s.2[j].1 < i);
                }
                lemma_insert_below(s.2, ids[i as int].id@, i, i + 1);
                crate::strings::lemma_pairs_insert_sorted(s.2, ids[i as int].id@, i);
            }
            i = i + 1;
        }
        assert(ids.take(ids.len() as int) =~= ids);
        let ghost base = add_elements(ids);
        assert(links.take(0) =~= Seq::<TraceLink>::empty());
        let mut k: usize = 0;
        while k < trace.links.len()
            invariant
                k <= trace.links.len(),
                links == trace.links@,
                base == add_elements(ids),
                base.0.len() == ids.len(),
                ids.len() + 2 * links.len() < 0xFFFF_FFFF,
                node_slots(graph) == somes(add_links(base, links.take(k as int)).0),
                edge_slots(graph) == somes(add_links(base, links.take(k as int)).1),
                by_id@ == add_links(base, links.take(k as int)).2,
                by_id.wf(),
                add_links(base, links.take(k as int)).0.len() <= ids.len() + 2 * k,
                add_links(base, links.take(k as int)).1.len() == k,
                state_ok(add_links(base, links.take(k as int))),
            decreases trace.links.len() - k,
        {
            let ghost s = add_links(base, links.take(k as int));
            let l = &trace.links[k];
            proof {
                assert(links.take(k + 1).drop_last() == links.take(k as int));
                assert(links.take(k + 1).last() == links[k as int]);
            }
            let a = self::endpoint(&mut graph, &mut by_id, &l.from, Ghost(s));
            let ghost s1 = ensure_node(s, l.from@);
            proof {
                lemma_ensure_node_ok(s, l.from@);
            }
            let b = self::endpoint(&mut graph, &mut by_id, &l.to, Ghost(s1));
            let ghost s2 = ensure_node(s1, l.to@);
            proof {
                lemma_ensure_node_ok(s1, l.to@);
                lemma_get_below(s2.2, l.from@, s2.0.len() as int);
                lemma_get_below(s2.2, l.to@, s2.0.len() as int);
                if pairs_get(s1.2, l.from@) is Some && s2 != s1 {
                    crate::strings::lemma_pairs_get_insert(s1.2, l.to@, s1.0.len() as usize, l.from@);
                }
                assert(all_some(edge_slots(graph))) by {
                    assert forall|j: int| 0 <= j < edge_slots(graph).len() implies #[trigger] edge_slots(graph)[j] is Some by {
                        assert(somes(s2.1)[j] == Some(s2.1[j]));
                    }
                }
                assert(node_slots(graph)[a as int] == Some(s2.0[a as int]));
                assert(node_slots(graph)[b as int] == Some(s2.0[b as int]));
            }
            graph_add_edge(&mut graph, a, b, EdgeAttr { relation: l.relation.clone() });
            proof {
                let s3 = add_links(base, links.take(k + 1));
                assert(s3 == add_link(s, links[k as int]));
                assert(edge_slots(graph) =~= somes(s3.1));
                assert(edges_below(s3.1, s3.0.len() as int)) by {
                    assert forall|j: int| 0 <= j < s3.1.len() implies 0 <= (#[trigger] s3.1[j]).0 < s3.0.len() && 0 <= s3.1[j].1 < s3.0.len() by {
                        if j < s2.1.len() {
                            assert(s3.1[j] == s2.1[j]);
                        }
                    }
                }
            }
            k = k + 1;
        }
        assert(links.take(links.len() as int) =~= links);
        let r = GraphData { graph, by_id };
        proof {
            let s = graph_spec(ids, links);
            assert forall|j: int| 0 <= j < node_slots(r.graph).len() implies #[trigger] node_slots(r.graph)[j] is Some by {
                assert(somes(s.0)[j] == Some(s.0[j]));
            }
            assert forall|j: int| 0 <= j < edge_slots(r.graph).len() implies #[trigger] edge_slots(r.graph)[j] is Some by {
                assert(somes(s.1)[j] == Some(s.1[j]));
            }
            assert forall|j: int| 0 <= j < edge_slots(r.graph).len() implies 0 <= src_of(#[trigger] edge_slots(r.graph)[j])
                < node_slots(r.graph).len() && 0 <= dst_of(edge_slots(r.graph)[j]) < node_slots(r.graph).len() by {
                assert(somes(s.1)[j] == Some(s.1[j]));
            }
        }
        r
    }
}

// ---------------------------------------------------------------------------
// The neighbourhood of a node

/// The nodes sharing an edge with a node of `b`.
pub open spec fn reach(es: Seq<Option<EdgeV>>, b: Set<int>) -> Set<int> {
    Set::new(|x: int| exists|u: int| b.contains(u) && #[trigger] adjacent(es, u, x))
}

/// The nodes at most `k` hops from `s`.
pub open spec fn ball(es: Seq<Option<EdgeV>>, s: int, k: nat) -> Set<int>
    decreases k,
{
    if k == 0 {
        set![s]
    } else {
        ball(es, s, (k - 1) as nat) + reach(es, ball(es, s, (k - 1) as nat))
    }
}

/// The nodes fewer than `k` hops from `s`.
pub open spec fn inner(es: Seq<Option<EdgeV>>, s: int, k: nat) -> Set<int> {
    if k == 0 {
        Set::empty()
    } else {
        ball(es, s, (k - 1) as nat)
    }
}

/// The values of a list, as a set.
pub open spec fn as_set(v: Seq<usize>) -> Set<int> {
    Set::new(|x: int| exists|t: int| 0 <= t < v.len() && v[t] == x)
}

proof fn lemma_as_set_push(v: Seq<usize>, x: usize)
    ensures
        as_set(v.push(x)) == as_set(v).insert(x as int),
{
    assert forall|y: int| #[trigger] as_set(v.push(x)).contains(y) <==> as_set(v).insert(x as int).contains(y) by {
        if as_set(v.push(x)).contains(y) {
            let t = choose|t: int| 0 <= t < v.push(x).len() && v.push(x)[t] == y;
            if t < v.len() {
                assert(v[t] == y);
            }
        }
        if as_set(v).contains(y) {
            let t = choose|t: int| 0 <= t < v.len() && v[t] == y;
            assert(v.push(x)[t] == y);
        }
        if y == x {
            assert(v.push(x)[v.len() as int] == y);
        }
    }
    assert(as_set(v.push(x)) =~= as_set(v).insert(x as int));
}

proof fn lemma_as_set_take(v: Seq<usize>, i: int)
    requires
        0 <= i < v.len(),
    ensures
        as_set(v.take(i + 1)) == as_set(v.take(i)).insert(v[i] as int),
{
    assert(v.take(i + 1) == v.take(i).push(v[i]));
    lemma_as_set_push(v.take(i), v[i]);
}

/// Nodes of an edge lie below the node count.
pub open spec fn edges_within(es: Seq<Option<EdgeV>>, n: int) -> bool {
    forall|j: int| 0 <= j < es.len() ==> (#[trigger] es[j] is Some ==> 0 <= src_of(es[j]) < n && 0 <= dst_of(es[j]) < n)
}

proof fn lemma_adjacent_below(es: Seq<Option<EdgeV>>, n: int, u: int, x: int)
    requires
        edges_within(es, n),
        adjacent(es, u, x),
    ensures
        0 <= x < n,
        0 <= u < n,
{
    let k = choose|k: int|
        0 <= k < es.len() && #[trigger] es[k] is Some && ((src_of(es[k]) == u && dst_of(es[k]) == x) || (dst_of(es[k]) == u
            && src_of(es[k]) == x));
    assert(es[k] is Some);
}

proof fn lemma_ball_below(es: Seq<Option<EdgeV>>, s: int, k: nat, n: int)
    requires
        edges_within(es, n),
        0 <= s < n,
    ensures
        forall|x: int| #[trigger] ball(es, s, k).contains(x) ==> 0 <= x < n,
    decreases k,
{
    if k > 0 {
        lemma_ball_below(es, s, (k - 1) as nat, n);
        assert forall|x: int| #[trigger] ball(es, s, k).contains(x) implies 0 <= x < n by {
            if reach(es, ball(es, s, (k - 1) as nat)).contains(x) {
                let u = choose|u: int| ball(es, s, (k - 1) as nat).contains(u) && #[trigger] adjacent(es, u, x);
                lemma_adjacent_below(es, n, u, x);
            }
        }
    }
}

/// A node that no edge touches stays alone at every radius.
proof fn lemma_ball_isolated(es: Seq<Option<EdgeV>>, s: int, k: nat, n: int)
    requires
        edges_within(es, n),
        s >= n,
    ensures
        ball(es, s, k) == set![s],
    decreases k,
{
    if k > 0 {
        lemma_ball_isolated(es, s, (k - 1) as nat, n);
        assert(reach(es, set![s]) =~= Set::<int>::empty()) by {
            assert forall|x: int| !reach(es, set![s]).contains(x) by {
                if reach(es, set![s]).contains(x) {
                    let u = choose|u: int| set![s].contains(u) && #[trigger] adjacent(es, u, x);
                    lemma_adjacent_below(es, n, u, x);
                }
            }
        }
        assert(ball(es, s, k) =~= set![s]);
    }
}

/// One more hop adds the neighbours of the newest layer.
proof fn lemma_ball_step(es: Seq<Option<EdgeV>>, s: int, d: nat, f: Set<int>)
    requires
        f == ball(es, s, d).difference(inner(es, s, d)),
    ensures
        ball(es, s, d + 1) == ball(es, s, d) + reach(es, f),
{
    let b = ball(es, s, d);
    assert(ball(es, s, d + 1) == b + reach(es, b));
    assert forall|x: int| #[trigger] (b + reach(es, b)).contains(x) <==> (b + reach(es, f)).contains(x) by {
        if reach(es, b).contains(x) && !b.contains(x) {
            let u = choose|u: int| b.contains(u) && #[trigger] adjacent(es, u, x);
            if d > 0 && inner(es, s, d).contains(u) {
                assert(reach(es, inner(es, s, d)).contains(x));
            } else {
                assert(f.contains(u));
            }
        }
        if reach(es, f).contains(x) {
            let u = choose|u: int| f.contains(u) && #[trigger] adjacent(es, u, x);
            assert(b.contains(u));
        }
    }
    assert(ball(es, s, d + 1) =~= b + reach(es, f));
}

proof fn lemma_reach_insert(es: Seq<Option<EdgeV>>, b: Set<int>, u: int)
    ensures
        reach(es, b.insert(u)) == reach(es, b) + reach(es, set![u]),
{
    assert forall|x: int| #[trigger] reach(es, b.insert(u)).contains(x) <==> (reach(es, b) + reach(es, set![u])).contains(x) by {
        if reach(es, b.insert(u)).contains(x) {
            let w = choose|w: int| b.insert(u).contains(w) && #[trigger] adjacent(es, w, x);
            if w == u {
                assert(set![u].contains(w));
            } else {
                assert(b.contains(w));
            }
        }
        if reach(es, b).contains(x) {
            let w = choose|w: int| b.contains(w) && #[trigger] adjacent(es, w, x);
            assert(b.insert(u).contains(w));
        }
        if reach(es, set![u]).contains(x) {
            let w = choose|w: int| set![u].contains(w) && #[trigger] adjacent(es, w, x);
            assert(b.insert(u).contains(w));
        }
    }
    assert(reach(es, b.insert(u)) =~= reach(es, b) + reach(es, set![u]));
}

/// A node is within any number of hops of itself, and more hops never
/// lose a node.
pub proof fn lemma_ball_grows(es: Seq<Option<EdgeV>>, s: int, k: nat)
    ensures
        ball(es, s, k).contains(s),
        ball(es, s, k).subset_of(ball(es, s, k + 1)),
    decreases k,
{
    if k > 0 {
        lemma_ball_grows(es, s, (k - 1) as nat);
    }
    assert(ball(es, s, k + 1) == ball(es, s, k) + reach(es, ball(es, s, k)));
}

impl GraphData {
    /// The number of nodes.
    pub fn node_count(&self) -> (r: usize)
        ensures
            r == occupied(node_slots(self.graph)),
    {
        graph_node_count(&self.graph)
    }

    /// The number of edges.
    pub fn edge_count(&self) -> (r: usize)
        ensures
            r == occupied(edge_slots(self.graph)),
    {
        graph_edge_count(&self.graph)
    }

    /// The nodes at most `hops` edges away from `start` (itself included),
    /// each once; a node not in the graph has only itself.
    pub fn neighbors_within(&self, start: usize, hops: usize) -> (r: Vec<usize>)
        requires
            self.wf(),
        ensures
            as_set(r@) == ball(edge_slots(self.graph), start as int, hops as nat),
            r@.no_duplicates(),
    {
        let ghost es = edge_slots(self.graph);
        let ghost ns = node_slots(self.graph);
        proof {
            lemma_occupied_all(ns);
            assert(edges_within(es, ns.len() as int));
        }
        let n = graph_node_count(&self.graph);
        if start >= n {
            let r = vec![start];
            proof {
                lemma_ball_isolated(es, start as int, hops as nat, n as int);
                assert(as_set(r@) =~= set![start as int]) by {
                    assert(r@[0] == start);
                }
            }
            return r;
        }
        let mut visited: Vec<bool> = Vec::new();
        let mut z: usize = 0;
        while z < n
            invariant
                z <= n,
                visited@.len() == z,
                forall|x: int| 0 <= x < z ==> !visited@[x],
            decreases n - z,
        {
            visited.push(false);
            z = z + 1;
        }
        visited.set(start, true);
        let mut result: Vec<usize> = vec![start];
        let mut frontier: Vec<usize> = vec![start];
        proof {
            assert(as_set(result@) =~= set![start as int]) by {
                assert(result@[0] == start);
            }
            assert(as_set(frontier@) =~= set![start as int]) by {
                assert(frontier@[0] == start);
            }
            assert(ball(es, start as int, 0) == set![start as int]);
            assert(set![start as int].difference(Set::<int>::empty()) =~= set![start as int]);
        }
        let mut d: usize = 0;
        while d < hops
            invariant
                self.wf(),
                es == edge_slots(self.graph),
                ns == node_slots(self.graph),
                n == ns.len(),
                start < n,
                edges_within(es, n as int),
                d <= hops,
                visited@.len() == n,
                forall|x: int| 0 <= x < n ==> (visited@[x] <==> #[trigger] ball(es, start as int, d as nat).contains(x)),
                as_set(result@) == ball(es, start as int, d as nat),
                result@.no_duplicates(),
                as_set(frontier@) == ball(es, start as int, d as nat).difference(inner(es, start as int, d as nat)),
                forall|t: int| 0 <= t < frontier@.len() ==> #[trigger] frontier@[t] < n,
            decreases hops - d,
        {
            let ghost b = ball(es, start as int, d as nat);
            proof {
                lemma_ball_below(es, start as int, d as nat, n as int);
            }
            let mut next: Vec<usize> = Vec::new();
            let mut i: usize = 0;
            assert(as_set(frontier@.take(0)) =~= Set::<int>::empty());
            assert(reach(es, Set::<int>::empty()) =~= Set::<int>::empty());
            assert(as_set(next@) =~= Set::<int>::empty());
            assert(b + Set::<int>::empty() =~= b);
            assert(b.difference(b) =~= Set::<int>::empty());
            while i < frontier.len()
                invariant
                    self.wf(),
                    es == edge_slots(self.graph),
                    ns == node_slots(self.graph),
                    n == ns.len(),
                    edges_within(es, n as int),
                    b == ball(es, start as int, d as nat),
                    forall|x: int| #[trigger] b.contains(x) ==> 0 <= x < n,
                    i <= frontier.len(),
                    forall|t: int| 0 <= t < frontier@.len() ==> #[trigger] frontier@[t] < n,
                    visited@.len() == n,
                    forall|x: int| 0 <= x < n ==> (visited@[x] <==> #[trigger] (b + reach(es, as_set(frontier@.take(i as int)))).contains(x)),
                    as_set(result@) == b + reach(es, as_set(frontier@.take(i as int))),
                    result@.no_duplicates(),
                    as_set(next@) == (b + reach(es, as_set(frontier@.take(i as int)))).difference(b),
                    next@.no_duplicates(),
                    forall|t: int| 0 <= t < next@.len() ==> #[trigger] next@[t] < n,
                decreases frontier.len() - i,
            {
                let u = frontier[i];
                let nbrs = graph_neighbors(&self.graph, u);
                let ghost c0 = b + reach(es, as_set(frontier@.take(i as int)));
                let mut j: usize = 0;
                assert(as_set(nbrs@.take(0)) =~= Set::<int>::empty());
                assert(c0 + Set::<int>::empty() =~= c0);
                while j < nbrs.len()
                    invariant
                        es == edge_slots(self.graph),
                        n == ns.len(),
                        edges_within(es, n as int),
                        u < n,
                        b == ball(es, start as int, d as nat),
                        forall|x: int| #[trigger] b.contains(x) ==> 0 <= x < n,
                        c0 == b + reach(es, as_set(frontier@.take(i as int))),
                        forall|t: int| 0 <= t < nbrs@.len() ==> adjacent(es, u as int, #[trigger] nbrs@[t] as int),
                        j <= nbrs.len(),
                        visited@.len() == n,
                        forall|x: int| 0 <= x < n ==> (visited@[x] <==> #[trigger] (c0 + as_set(nbrs@.take(j as int))).contains(x)),
                        as_set(result@) == c0 + as_set(nbrs@.take(j as int)),
                        result@.no_duplicates(),
                        as_set(next@) == (c0 + as_set(nbrs@.take(j as int))).difference(b),
                        next@.no_duplicates(),
                        forall|t: int| 0 <= t < next@.len() ==> #[trigger] next@[t] < n,
                    decreases nbrs.len() - j,
                {
                    let x = nbrs[j];
                    proof {
                        assert(adjacent(es, u as int, nbrs@[j as int] as int));
                        lemma_adjacent_below(es, n as int, u as int, x as int);
                        lemma_as_set_take(nbrs@, j as int);
                    }
                    let ghost cj = c0 + as_set(nbrs@.take(j as int));
                    if !visited[x] {
                        let ghost r0 = result@;
                        let ghost n0 = next@;
                        visited.set(x, true);
                        next.push(x);
                        result.push(x);
                        proof {
                            lemma_as_set_push(r0, x);
                            lemma_as_set_push(n0, x);
                            assert(!cj.contains(x as int));
                            assert forall|a: int, c: int| 0 <= a < c < result@.len() implies result@[a] != result@[c] by {
                                if c == result@.len() - 1 {
                                    if result@[a] == result@[c] {
                                        assert(as_set(r0).contains(x as int));
                                    }
                                }
                            }
                            assert forall|a: int, c: int| 0 <= a < c < next@.len() implies next@[a] != next@[c] by {
                                if c == next@.len() - 1 {
                                    if next@[a] == next@[c] {
                                        assert(as_set(n0).contains(x as int));
                                    }
                                }
                            }
                            assert(cj.insert(x as int) =~= c0 + as_set(nbrs@.take(j + 1)));
                            assert(cj.difference(b).insert(x as int) =~= (c0 + as_set(nbrs@.take(j + 1))).difference(b));
                        }
                    } else {
                        proof {
                            assert(cj.contains(x as int));
                            assert(cj =~= c0 + as_set(nbrs@.take(j + 1)));
                        }
                    }
                    j = j + 1;
                }
                proof {
                    assert(nbrs@.take(nbrs@.len() as int) =~= nbrs@);
                    assert(as_set(nbrs@) =~= reach(es, set![u as int])) by {
                        assert forall|x: int| #[trigger] as_set(nbrs@).contains(x) <==> reach(es, set![u as int]).contains(x) by {
                            if as_set(nbrs@).contains(x) {
                                let t = choose|t: int| 0 <= t < nbrs@.len() && nbrs@[t] == x;
                                assert(adjacent(es, u as int, nbrs@[t] as int));
                                assert(set![u as int].contains(u as int));
                            }
                            if reach(es, set![u as int]).contains(x) {
                                let w = choose|w: int| set![u as int].contains(w) && #[trigger] adjacent(es, w, x);
                                assert(w == u);
                                let t = choose|t: int| 0 <= t < nbrs@.len() && #[trigger] nbrs@[t] == x;
                            }
                        }
                    }
                    lemma_as_set_take(frontier@, i as int);
                    lemma_reach_insert(es, as_set(frontier@.take(i as int)), u as int);
                    assert(c0 + as_set(nbrs@) =~= b + reach(es, as_set(frontier@.take(i + 1))));
                }
                i = i + 1;
            }
            proof {
                assert(frontier@.take(frontier@.len() as int) =~= frontier@);
                lemma_ball_step(es, start as int, d as nat, as_set(frontier@));
                assert(inner(es, start as int, (d + 1) as nat) == b);
            }
            frontier = next;
            d = d + 1;
        }
        result
    }
}

/// The node of an id, added (of kind `Other`, in no file) when it has none.
fn endpoint(
    graph: &mut StableGraph<NodeAttr, EdgeAttr, Undirected, u32>,
    by_id: &mut KeyMap<usize>,
    id: &String,
    Ghost(s): Ghost<GState>,
) -> (r: usize)
    requires
        node_slots(*old(graph)) == somes(s.0),
        edge_slots(*old(graph)) == somes(s.1),
        old(by_id)@ == s.2,
        old(by_id).wf(),
        state_ok(s),
        s.0.len() < 0xFFFF_FFFF,
    ensures
        node_slots(*final(graph)) == somes(ensure_node(s, id@).0),
        edge_slots(*final(graph)) == somes(ensure_node(s, id@).1),
        final(by_id)@ == ensure_node(s, id@).2,
        final(by_id).wf(),
        pairs_get(ensure_node(s, id@).2, id@) == Some(r),
        r < ensure_node(s, id@).0.len(),
{
    proof {
        lemma_ensure_node_ok(s, id@);
        lemma_get_below(s.2, id@, s.0.len() as int);
    }
    match by_id.get(id.as_str()) {
        Some(v) => *v,
        None => {
            proof {
                assert(all_some(node_slots(*graph))) by {
                    assert forall|j: int| 0 <= j < node_slots(*graph).len() implies #[trigger] node_slots(*graph)[j] is Some by {
                        assert(somes(s.0)[j] == Some(s.0[j]));
                    }
                }
            }
            let node = NodeAttr { id: id.clone(), kind: ModelKind::Other, file: crate::text::owned("") };
            proof {
                reveal_strlit("");
                assert(node@ == (id@, ModelKind::Other, Seq::<char>::empty()));
            }
            let ghost g0 = node_slots(*graph);
            let idx = graph_add_node(graph, node);
            assert(node_slots(*graph) == g0.push(Some((id@, ModelKind::Other, Seq::<char>::empty()))));
            by_id.insert(id.clone(), idx);
            proof {
                crate::strings::lemma_pairs_get_insert(s.2, id@, idx, id@);
                assert(node_slots(*graph) =~= somes(ensure_node(s, id@).0));
            }
            idx
        },
    }
}

} // verus!
