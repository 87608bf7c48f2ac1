//! The architecture source of truth (`.mdd/architecture/*.yml`): its entities,
//! a structural diff of two specs, and the architecture invariants.
use vstd::prelude::*;
use crate::order::{filter_by_membership, lemma_push_sorted, lex_lt, sorted_contains, strictly_sorted};
use crate::strings::{KeyMap, keys_sorted, pairs_get, pairs_insert, sorted_unique};
use crate::text::{cat, cat3, owned, push_str, str_eq, strs};

verus! {

/// Where the architecture source of truth lives.
pub const ARCH_DIR: &'static str = ".mdd/architecture";

pub struct Component {
    pub id: String,
    pub name: String,
    pub kind: String,
    pub description: String,
    pub owns: Vec<String>,
    pub depends_on: Vec<String>,
    pub tech: String,
}

pub struct Decision {
    pub id: String,
    pub title: String,
    pub status: String,
    pub date: String,
    pub context: String,
    pub decision: String,
    pub consequences: String,
    pub supersedes: Option<String>,
    pub superseded_by: Option<String>,
}

pub struct Constraint {
    pub id: String,
    pub rule: String,
    pub applies_to: Vec<String>,
    pub rationale: String,
}

pub open spec fn opt_view(o: Option<String>) -> Option<Seq<char>> {
    match o {
        Some(s) => Some(s@),
        None => None,
    }
}

impl View for Component {
    type V = (Seq<char>, Seq<char>, Seq<char>, Seq<char>, Seq<Seq<char>>, Seq<Seq<char>>, Seq<char>);

    open spec fn view(&self) -> Self::V {
        (
            self.id@,
            self.name@,
            self.kind@,
            self.description@,
            strs(self.owns@),
            strs(self.depends_on@),
            self.tech@,
        )
    }
}

impl View for Decision {
    type V = (
        Seq<char>,
        Seq<char>,
        Seq<char>,
        Seq<char>,
        Seq<char>,
        Seq<char>,
        Seq<char>,
        Option<Seq<char>>,
        Option<Seq<char>>,
    );

    open spec fn view(&self) -> Self::V {
        (
            self.id@,
            self.title@,
            self.status@,
            self.date@,
            self.context@,
            self.decision@,
            self.consequences@,
            opt_view(self.supersedes),
            opt_view(self.superseded_by),
        )
    }
}

impl View for Constraint {
    type V = (Seq<char>, Seq<char>, Seq<Seq<char>>, Seq<char>);

    open spec fn view(&self) -> Self::V {
        (self.id@, self.rule@, strs(self.applies_to@), self.rationale@)
    }
}

/// Equality of two string lists.
pub fn strings_eq(a: &Vec<String>, b: &Vec<String>) -> (r: bool)
    ensures
        r == (strs(a@) == strs(b@)),
{
    if a.len() != b.len() {
        assert(strs(a@).len() != strs(b@).len());
        return false;
    }
    let mut i: usize = 0;
    while i < a.len()
        invariant
            a.len() == b.len(),
            i <= a.len(),
            forall|k: int| 0 <= k < i ==> a@[k]@ == b@[k]@,
        decreases a.len() - i,
    {
        if !str_eq(a[i].as_str(), b[i].as_str()) {
            assert(strs(a@)[i as int] != strs(b@)[i as int]);
            return false;
        }
        i = i + 1;
    }
    assert(strs(a@) =~= strs(b@));
    true
}

/// Equality of two optional strings.
pub fn opt_str_eq(a: &Option<String>, b: &Option<String>) -> (r: bool)
    ensures
        r == (opt_view(*a) == opt_view(*b)),
{
    match (a, b) {
        (Some(x), Some(y)) => str_eq(x.as_str(), y.as_str()),
        (None, None) => true,
        _ => false,
    }
}

/// An entity of the architecture spec, identified by its `id`.
pub trait Identified: Sized {
    spec fn key(&self) -> Seq<char>;

    /// Every field equal.
    spec fn same(&self, other: &Self) -> bool;

    fn id_ref(&self) -> (r: &String)
        ensures
            r@ == self.key(),
    ;

    fn same_as(&self, other: &Self) -> (b: bool)
        ensures
            b == self.same(other),
    ;

    proof fn lemma_same_refl(&self)
        ensures
            self.same(self),
    ;
}

impl Identified for Component {
    open spec fn key(&self) -> Seq<char> {
        self.id@
    }

    open spec fn same(&self, other: &Self) -> bool {
        self@ == other@
    }

    fn id_ref(&self) -> (r: &String) {
        &self.id
    }

    fn same_as(&self, other: &Self) -> (b: bool) {
        str_eq(self.id.as_str(), other.id.as_str()) && str_eq(self.name.as_str(), other.name.as_str())
            && str_eq(self.kind.as_str(), other.kind.as_str()) && str_eq(
            self.description.as_str(),
            other.description.as_str(),
        ) && strings_eq(&self.owns, &other.owns) && strings_eq(&self.depends_on, &other.depends_on)
            && str_eq(self.tech.as_str(), other.tech.as_str())
    }

    proof fn lemma_same_refl(&self) {
    }
}

impl Identified for Decision {
    open spec fn key(&self) -> Seq<char> {
        self.id@
    }

    open spec fn same(&self, other: &Self) -> bool {
        self@ == other@
    }

    fn id_ref(&self) -> (r: &String) {
        &self.id
    }

    fn same_as(&self, other: &Self) -> (b: bool) {
        str_eq(self.id.as_str(), other.id.as_str()) && str_eq(self.title.as_str(), other.title.as_str())
            && str_eq(self.status.as_str(), other.status.as_str()) && str_eq(
            self.date.as_str(),
            other.date.as_str(),
        ) && str_eq(self.context.as_str(), other.context.as_str()) && str_eq(
            self.decision.as_str(),
            other.decision.as_str(),
        ) && str_eq(self.consequences.as_str(), other.consequences.as_str()) && opt_str_eq(
            &self.supersedes,
            &other.supersedes,
        ) && opt_str_eq(&self.superseded_by, &other.superseded_by)
    }

    proof fn lemma_same_refl(&self) {
    }
}

impl Identified for Constraint {
    open spec fn key(&self) -> Seq<char> {
        self.id@
    }

    open spec fn same(&self, other: &Self) -> bool {
        self@ == other@
    }

    fn id_ref(&self) -> (r: &String) {
        &self.id
    }

    fn same_as(&self, other: &Self) -> (b: bool) {
        str_eq(self.id.as_str(), other.id.as_str()) && str_eq(self.rule.as_str(), other.rule.as_str())
            && strings_eq(&self.applies_to, &other.applies_to) && str_eq(
            self.rationale.as_str(),
            other.rationale.as_str(),
        )
    }

    proof fn lemma_same_refl(&self) {
    }
}

/// The ids of a list of entities, in order.
pub open spec fn keys_of<T: Identified>(items: Seq<T>) -> Seq<Seq<char>> {
    items.map_values(|x: T| x.key())
}

/// The set of ids of a list of entities.
pub open spec fn id_set<T: Identified>(items: Seq<T>) -> Set<Seq<char>> {
    keys_of(items).to_set()
}

/// Index of the last entity with id `k` among the first `n` (later
/// duplicates win, as when collecting into a map).
pub open spec fn last_with_id<T: Identified>(items: Seq<T>, k: Seq<char>, n: int) -> Option<int>
    decreases n,
{
    if n <= 0 || n > items.len() {
        None
    } else if items[n - 1].key() == k {
        Some(n - 1)
    } else {
        last_with_id(items, k, n - 1)
    }
}

/// Ids present in both lists whose last entities differ.
pub open spec fn changed_ids<T: Identified>(base: Seq<T>, head: Seq<T>) -> Set<Seq<char>> {
    id_set(base).intersect(id_set(head)).filter(
        |k: Seq<char>|
            match (last_with_id(base, k, base.len() as int), last_with_id(head, k, head.len() as int)) {
                (Some(i), Some(j)) => !base[i].same(&head[j]),
                _ => false,
            },
    )
}

proof fn lemma_last_with_id<T: Identified>(items: Seq<T>, k: Seq<char>, n: int)
    requires
        0 <= n <= items.len(),
    ensures
        last_with_id(items, k, n) matches Some(i) ==> 0 <= i < n && items[i].key() == k,
        last_with_id(items, k, n) is None ==> forall|i: int| 0 <= i < n ==> items[i].key() != k,
    decreases n,
{
    if n > 0 && items[n - 1].key() != k {
        lemma_last_with_id(items, k, n - 1);
    }
}

fn ids_of<T: Identified>(items: &Vec<T>) -> (r: Vec<String>)
    ensures
        strs(r@) == keys_of(items@),
{
    let mut r: Vec<String> = Vec::new();
    let mut i: usize = 0;
    while i < items.len()
        invariant
            i <= items.len(),
            r@.len() == i,
            forall|j: int| 0 <= j < i ==> #[trigger] r@[j]@ == items@[j].key(),
        decreases items.len() - i,
    {
        let id = items[i].id_ref().clone();
        r.push(id);
        i = i + 1;
    }
    assert(strs(r@) =~= keys_of(items@)) by {
        assert forall|j: int| 0 <= j < r@.len() implies strs(r@)[j] == keys_of(items@)[j] by {
            assert(r@[j]@ == items@[j].key());
        }
    }
    r
}

fn last_index_with_id<T: Identified>(items: &Vec<T>, k: &str) -> (r: Option<usize>)
    ensures
        match r {
            Some(i) => last_with_id(items@, k@, items@.len() as int) == Some(i as int),
            None => last_with_id(items@, k@, items@.len() as int) is None,
        },
{
    let mut n: usize = items.len();
    while n > 0
        invariant
            n <= items.len(),
            last_with_id(items@, k@, items@.len() as int) == last_with_id(items@, k@, n as int),
        decreases n,
    {
        if str_eq(items[n - 1].id_ref().as_str(), k) {
            return Some(n - 1);
        }
        n = n - 1;
    }
    None
}

/// Partition two id-keyed lists into the sorted ids (added, removed,
/// changed): added are in `head` only, removed in `base` only, changed in
/// both with differing (last) entities.
pub fn partition_by_id<T: Identified>(base: &Vec<T>, head: &Vec<T>) -> (r: (
    Vec<String>,
    Vec<String>,
    Vec<String>,
))
    ensures
        strictly_sorted(strs(r.0@)),
        strictly_sorted(strs(r.1@)),
        strictly_sorted(strs(r.2@)),
        strs(r.0@).to_set() == id_set(head@).difference(id_set(base@)),
        strs(r.1@).to_set() == id_set(base@).difference(id_set(head@)),
        strs(r.2@).to_set() == changed_ids(base@, head@),
{
    let bids = sorted_unique(&ids_of(base));
    let hids = sorted_unique(&ids_of(head));
    let ghost sb = id_set(base@);
    let ghost sh = id_set(head@);
    let ghost hs = strs(hids@);
    let ghost pred = |k: Seq<char>|
        match (last_with_id(base@, k, base@.len() as int), last_with_id(head@, k, head@.len() as int)) {
            (Some(i), Some(j)) => !base@[i].same(&head@[j]),
            _ => false,
        };
    let mut added: Vec<String> = Vec::new();
    let mut changed: Vec<String> = Vec::new();
    let mut i: usize = 0;
    while i < hids.len()
        invariant
            i <= hids.len(),
            hs == strs(hids@),
            strictly_sorted(hs),
            strs(bids@).to_set() == sb,
            hs.to_set() == sh,
            sb == id_set(base@),
            sh == id_set(head@),
            pred == (|k: Seq<char>|
                match (last_with_id(base@, k, base@.len() as int), last_with_id(head@, k, head@.len() as int)) {
                    (Some(i), Some(j)) => !base@[i].same(&head@[j]),
                    _ => false,
                }),
            strictly_sorted(strs(added@)),
            strictly_sorted(strs(changed@)),
            strs(added@).to_set() == hs.take(i as int).to_set().filter(|k: Seq<char>| !sb.contains(k)),
            strs(changed@).to_set() == hs.take(i as int).to_set().filter(|k: Seq<char>| sb.contains(k) && pred(k)),
            strs(added@).len() > 0 ==> exists|k: int| 0 <= k < i && strs(added@).last() == hs[k],
            strs(changed@).len() > 0 ==> exists|k: int| 0 <= k < i && strs(changed@).last() == hs[k],
        decreases hids.len() - i,
    {
        let k = &hids[i];
        let ghost x = hs[i as int];
        let ghost a0 = strs(added@);
        let ghost c0 = strs(changed@);
        proof {
            assert(hs.take(i + 1) == hs.take(i as int).push(x));
            hs.take(i as int).lemma_push_to_set_commute(x);
            if a0.len() > 0 {
                let w = choose|w: int| 0 <= w < i && a0.last() == hs[w];
                assert(lex_lt(hs[w], x));
            }
            if c0.len() > 0 {
                let w = choose|w: int| 0 <= w < i && c0.last() == hs[w];
                assert(lex_lt(hs[w], x));
            }
        }
        let in_base = sorted_contains(&bids, k.as_str());
        if !in_base {
            proof {
                lemma_push_sorted(a0, x);
            }
            added.push(k.clone());
            proof {
                assert(strs(added@) =~= a0.push(x));
                a0.lemma_push_to_set_commute(x);
                assert(strs(added@).to_set() =~= hs.take(i + 1).to_set().filter(|k: Seq<char>| !sb.contains(k)));
                assert(strs(changed@).to_set() =~= hs.take(i + 1).to_set().filter(|k: Seq<char>| sb.contains(k) && pred(k)));
                assert(strs(added@).last() == hs[i as int]);
                if c0.len() > 0 {
                    let w = choose|w: int| 0 <= w < i && c0.last() == hs[w];
                    assert(0 <= w < i + 1);
                }
            }
        } else {
            let bi = last_index_with_id(base, k.as_str());
            let hi = last_index_with_id(head, k.as_str());
            proof {
                lemma_last_with_id(base@, x, base@.len() as int);
                lemma_last_with_id(head@, x, head@.len() as int);
                assert(sb.contains(x));
                let w = choose|w: int| 0 <= w < keys_of(base@).len() && keys_of(base@)[w] == x;
                assert(base@[w].key() == x);
                assert(sh.contains(x));
                let v = choose|v: int| 0 <= v < keys_of(head@).len() && keys_of(head@)[v] == x;
                assert(head@[v].key() == x);
            }
            let differs = match (bi, hi) {
                (Some(p), Some(q)) => !base[p].same_as(&head[q]),
                _ => false,
            };
            assert(differs == pred(x));
            if differs {
                proof {
                    lemma_push_sorted(c0, x);
                }
                changed.push(k.clone());
                proof {
                    assert(strs(changed@) =~= c0.push(x));
                    c0.lemma_push_to_set_commute(x);
                    assert(strs(changed@).last() == hs[i as int]);
                }
            }
            proof {
                assert(strs(added@).to_set() =~= hs.take(i + 1).to_set().filter(|k: Seq<char>| !sb.contains(k)));
                assert(strs(changed@).to_set() =~= hs.take(i + 1).to_set().filter(|k: Seq<char>| sb.contains(k) && pred(k)));
                if a0.len() > 0 {
                    let w = choose|w: int| 0 <= w < i && a0.last() == hs[w];
                    assert(0 <= w < i + 1);
                }
                if c0.len() > 0 && !differs {
                    let w = choose|w: int| 0 <= w < i && c0.last() == hs[w];
                    assert(0 <= w < i + 1);
                }
            }
        }
        i = i + 1;
    }
    let removed = filter_by_membership(&bids, &hids, false);
    proof {
        assert(hs.take(hids.len() as int) == hs);
        assert(strs(added@).to_set() =~= sh.difference(sb));
        assert(strs(removed@).to_set() =~= sb.difference(sh));
        assert(strs(changed@).to_set() =~= changed_ids(base@, head@));
    }
    (added, removed, changed)
}

/// A structured diff of two specs, partitioned by entity and id.
pub struct ArchDiff {
    pub added_components: Vec<String>,
    pub removed_components: Vec<String>,
    pub changed_components: Vec<String>,
    pub added_decisions: Vec<String>,
    pub removed_decisions: Vec<String>,
    pub changed_decisions: Vec<String>,
    pub added_constraints: Vec<String>,
    pub removed_constraints: Vec<String>,
    pub changed_constraints: Vec<String>,
}

impl ArchDiff {
    pub open spec fn empty_spec(&self) -> bool {
        &&& self.added_components@.len() == 0
        &&& self.removed_components@.len() == 0
        &&& self.changed_components@.len() == 0
        &&& self.added_decisions@.len() == 0
        &&& self.removed_decisions@.len() == 0
        &&& self.changed_decisions@.len() == 0
        &&& self.added_constraints@.len() == 0
        &&& self.removed_constraints@.len() == 0
        &&& self.changed_constraints@.len() == 0
    }

    pub fn is_empty(&self) -> (b: bool)
        ensures
            b == self.empty_spec(),
    {
        self.added_components.len() == 0 && self.removed_components.len() == 0
            && self.changed_components.len() == 0 && self.added_decisions.len() == 0
            && self.removed_decisions.len() == 0 && self.changed_decisions.len() == 0
            && self.added_constraints.len() == 0 && self.removed_constraints.len() == 0
            && self.changed_constraints.len() == 0
    }
}

/// The parsed architecture source of truth.
pub struct ArchitectureSpec {
    pub components: Vec<Component>,
    pub decisions: Vec<Decision>,
    pub constraints: Vec<Constraint>,
}

/// Counts for the architecture status, with the decisions counted by status.
pub struct ArchSummary {
    pub components: usize,
    pub decisions: usize,
    pub constraints: usize,
    pub decisions_by_status: KeyMap<usize>,
}

/// The three buckets of one entity list are the sorted sets of added,
/// removed and changed ids.
pub open spec fn partitioned<T: Identified>(
    base: Seq<T>,
    head: Seq<T>,
    added: Seq<Seq<char>>,
    removed: Seq<Seq<char>>,
    changed: Seq<Seq<char>>,
) -> bool {
    &&& strictly_sorted(added)
    &&& strictly_sorted(removed)
    &&& strictly_sorted(changed)
    &&& added.to_set() == id_set(head).difference(id_set(base))
    &&& removed.to_set() == id_set(base).difference(id_set(head))
    &&& changed.to_set() == changed_ids(base, head)
}

/// The number of decisions per status, in status order.
pub open spec fn status_counts(statuses: Seq<Seq<char>>) -> Seq<(Seq<char>, usize)>
    decreases statuses.len(),
{
    if statuses.len() == 0 {
        seq![]
    } else {
        let m = status_counts(statuses.drop_last());
        let k = statuses.last();
        pairs_insert(
            m,
            k,
            match pairs_get(m, k) {
                Some(n) => (n + 1) as usize,
                None => 1usize,
            },
        )
    }
}

pub open spec fn statuses_of(ds: Seq<Decision>) -> Seq<Seq<char>> {
    ds.map_values(|d: Decision| d.status@)
}

proof fn lemma_status_counts(statuses: Seq<Seq<char>>)
    requires
        statuses.len() <= usize::MAX,
    ensures
        keys_sorted(status_counts(statuses)),
        forall|q: Seq<char>|
            match #[trigger] pairs_get(status_counts(statuses), q) {
                Some(n) => 1 <= n <= statuses.len(),
                None => true,
            },
    decreases statuses.len(),
{
    if statuses.len() > 0 {
        let m = status_counts(statuses.drop_last());
        let k = statuses.last();
        lemma_status_counts(statuses.drop_last());
        let v: usize = match pairs_get(m, k) {
            Some(n) => (n + 1) as usize,
            None => 1usize,
        };
        crate::strings::lemma_pairs_insert_sorted(m, k, v);
        assert forall|q: Seq<char>|
            match #[trigger] pairs_get(status_counts(statuses), q) {
                Some(n) => 1 <= n <= statuses.len(),
                None => true,
            } by {
            crate::strings::lemma_pairs_get_insert(m, k, v, q);
        }
    }
}

/// A known decision status.
pub open spec fn valid_status(s: Seq<char>) -> bool {
    s == "proposed"@ || s == "accepted"@ || s == "superseded"@ || s == "deprecated"@
}

#[derive(Clone, Copy, PartialEq, Eq, Structural, Debug)]
pub enum ViolationKind {
    /// A decision's status is missing or not a known value.
    DecisionMissingStatus,
    /// A superseded decision names no successor.
    SupersededMissingSuccessor,
    /// A component's owns/depends_on id is not a model `@id`.
    ComponentRefUnresolved,
}

pub struct ArchViolation {
    pub kind: ViolationKind,
    pub subject: String,
    pub message: String,
}

impl View for ArchViolation {
    type V = (ViolationKind, Seq<char>, Seq<char>);

    open spec fn view(&self) -> Self::V {
        (self.kind, self.subject@, self.message@)
    }
}

pub open spec fn violations_view(v: Seq<ArchViolation>) -> Seq<(ViolationKind, Seq<char>, Seq<char>)> {
    v.map_values(|x: ArchViolation| x@)
}

/// The violations of one decision.
pub open spec fn decision_violations(d: Decision) -> Seq<(ViolationKind, Seq<char>, Seq<char>)> {
    let bad_status = if !valid_status(d.status@) {
        seq![
            (
                ViolationKind::DecisionMissingStatus,
                d.id@,
                "decision "@ + d.id@ + " has invalid or missing status "@ + crate::text::debug_string(
                    d.status@,
                ) + " (expected one of [\"proposed\", \"accepted\", \"superseded\", \"deprecated\"])"@,
            ),
        ]
    } else {
        seq![]
    };
    let successor = match d.superseded_by {
        Some(s) => s@,
        None => seq![],
    };
    let unlinked = if d.status@ == "superseded"@ && crate::text::trim(successor).len() == 0 {
        seq![
            (
                ViolationKind::SupersededMissingSuccessor,
                d.id@,
                "superseded decision "@ + d.id@ + " has no superseded_by"@,
            ),
        ]
    } else {
        seq![]
    };
    bad_status + unlinked
}

/// The violations of a component's references to model ids.
pub open spec fn ref_violations(
    id: Seq<char>,
    refs: Seq<Seq<char>>,
    valid: Seq<Seq<char>>,
) -> Seq<(ViolationKind, Seq<char>, Seq<char>)>
    decreases refs.len(),
{
    if refs.len() == 0 {
        seq![]
    } else {
        let r = refs.last();
        ref_violations(id, refs.drop_last(), valid) + if valid.contains(r) {
            seq![]
        } else {
            seq![
                (
                    ViolationKind::ComponentRefUnresolved,
                    id,
                    "component "@ + id + " references unknown model @id "@ + r,
                ),
            ]
        }
    }
}

/// Every violation of the architecture invariants: per decision (status,
/// then successor), then per component reference, in order.
pub open spec fn check_spec(
    ds: Seq<Decision>,
    cs: Seq<Component>,
    valid: Seq<Seq<char>>,
) -> Seq<(ViolationKind, Seq<char>, Seq<char>)>
    decreases ds.len() + cs.len(),
{
    if cs.len() > 0 {
        let c = cs.last();
        check_spec(ds, cs.drop_last(), valid) + ref_violations(
            c.id@,
            strs(c.owns@) + strs(c.depends_on@),
            valid,
        )
    } else if ds.len() > 0 {
        check_spec(ds.drop_last(), cs, valid) + decision_violations(ds.last())
    } else {
        seq![]
    }
}

proof fn lemma_same_refl_partition<T: Identified>(items: Seq<T>)
    ensures
        changed_ids(items, items) == Set::<Seq<char>>::empty(),
{
    assert forall|k: Seq<char>| !(#[trigger] changed_ids(items, items).contains(k)) by {
        match last_with_id(items, k, items.len() as int) {
            Some(i) => {
                lemma_last_with_id(items, k, items.len() as int);
                items[i].lemma_same_refl();
            },
            None => {},
        }
    }
    assert(changed_ids(items, items) =~= Set::<Seq<char>>::empty());
}

proof fn lemma_empty_sorted(s: Seq<Seq<char>>)
    requires
        s.to_set() == Set::<Seq<char>>::empty(),
    ensures
        s.len() == 0,
{
    if s.len() > 0 {
        assert(s.to_set().contains(s[0]));
    }
}

proof fn lemma_self_partition_empty<T: Identified>(
    items: Seq<T>,
    a: Seq<Seq<char>>,
    r: Seq<Seq<char>>,
    c: Seq<Seq<char>>,
)
    requires
        partitioned(items, items, a, r, c),
    ensures
        a.len() == 0 && r.len() == 0 && c.len() == 0,
{
    lemma_same_refl_partition(items);
    assert(id_set(items).difference(id_set(items)) =~= Set::<Seq<char>>::empty());
    lemma_empty_sorted(a);
    lemma_empty_sorted(r);
    lemma_empty_sorted(c);
}

/// Structurally diff `base` to `head`: per entity kind, the sorted ids
/// added, removed and changed. A spec diffed against itself is empty.
pub fn diff(base: &ArchitectureSpec, head: &ArchitectureSpec) -> (d: ArchDiff)
    ensures
        partitioned(
            base.components@,
            head.components@,
            strs(d.added_components@),
            strs(d.removed_components@),
            strs(d.changed_components@),
        ),
        partitioned(
            base.decisions@,
            head.decisions@,
            strs(d.added_decisions@),
            strs(d.removed_decisions@),
            strs(d.changed_decisions@),
        ),
        partitioned(
            base.constraints@,
            head.constraints@,
            strs(d.added_constraints@),
            strs(d.removed_constraints@),
            strs(d.changed_constraints@),
        ),
        base == head ==> d.empty_spec(),
{
    let (added_components, removed_components, changed_components) = partition_by_id(
        &base.components,
        &head.components,
    );
    let (added_decisions, removed_decisions, changed_decisions) = partition_by_id(
        &base.decisions,
        &head.decisions,
    );
    let (added_constraints, removed_constraints, changed_constraints) = partition_by_id(
        &base.constraints,
        &head.constraints,
    );
    let d = ArchDiff {
        added_components,
        removed_components,
        changed_components,
        added_decisions,
        removed_decisions,
        changed_decisions,
        added_constraints,
        removed_constraints,
        changed_constraints,
    };
    proof {
        if base == head {
            lemma_self_partition_empty(
                base.components@,
                strs(d.added_components@),
                strs(d.removed_components@),
                strs(d.changed_components@),
            );
            lemma_self_partition_empty(
                base.decisions@,
                strs(d.added_decisions@),
                strs(d.removed_decisions@),
                strs(d.changed_decisions@),
            );
            lemma_self_partition_empty(
                base.constraints@,
                strs(d.added_constraints@),
                strs(d.removed_constraints@),
                strs(d.changed_constraints@),
            );
        }
    }
    d
}

impl ArchitectureSpec {
    pub open spec fn empty_spec(&self) -> bool {
        self.components@.len() == 0 && self.decisions@.len() == 0 && self.constraints@.len() == 0
    }

    pub fn is_empty(&self) -> (b: bool)
        ensures
            b == self.empty_spec(),
    {
        self.components.len() == 0 && self.decisions.len() == 0 && self.constraints.len() == 0
    }

    /// Counts of each entity kind, and of decisions per status.
    pub fn summary(&self) -> (s: ArchSummary)
        ensures
            s.components == self.components@.len(),
            s.decisions == self.decisions@.len(),
            s.constraints == self.constraints@.len(),
            s.decisions_by_status.wf(),
            s.decisions_by_status@ == status_counts(statuses_of(self.decisions@)),
    {
        let mut by_status: KeyMap<usize> = KeyMap::new();
        let mut i: usize = 0;
        let ghost all = statuses_of(self.decisions@);
        assert(all.take(0) =~= Seq::<Seq<char>>::empty());
        while i < self.decisions.len()
            invariant
                i <= self.decisions.len(),
                all == statuses_of(self.decisions@),
                by_status.wf(),
                by_status@ == status_counts(all.take(i as int)),
            decreases self.decisions.len() - i,
        {
            let st = &self.decisions[i].status;
            proof {
                assert(all.take(i + 1).drop_last() == all.take(i as int));
                assert(all.take(i + 1).last() == st@);
                lemma_status_counts(all.take(i + 1));
                lemma_status_counts(all.take(i as int));
            }
            let n: usize = match by_status.get(st.as_str()) {
                Some(c) => {
                    assert(*c <= i);
                    *c + 1
                },
                None => 1,
            };
            by_status.insert(st.clone(), n);
            i = i + 1;
        }
        assert(all.take(self.decisions.len() as int) == all);
        ArchSummary {
            components: self.components.len(),
            decisions: self.decisions.len(),
            constraints: self.constraints.len(),
            decisions_by_status: by_status,
        }
    }
}

fn push_violation(v: &mut Vec<ArchViolation>, x: ArchViolation)
    ensures
        violations_view(final(v)@) == violations_view(old(v)@).push(x@),
{
    let ghost v0 = v@;
    v.push(x);
    assert(violations_view(v@) =~= violations_view(v0).push(x@));
}

fn is_valid_status(s: &str) -> (b: bool)
    ensures
        b == valid_status(s@),
{
    str_eq(s, "proposed") || str_eq(s, "accepted") || str_eq(s, "superseded") || str_eq(
        s,
        "deprecated",
    )
}

/// The violations of one decision, appended to `v`.
fn check_decision(d: &Decision, v: &mut Vec<ArchViolation>)
    ensures
        violations_view(final(v)@) == violations_view(old(v)@) + decision_violations(*d),
{
    let ghost v0 = violations_view(v@);
    if !is_valid_status(d.status.as_str()) {
        let mut msg = cat3("decision ", d.id.as_str(), " has invalid or missing status ");
        let q = crate::text::debug_quote(d.status.as_str());
        push_str(&mut msg, q.as_str());
        push_str(
            &mut msg,
            " (expected one of [\"proposed\", \"accepted\", \"superseded\", \"deprecated\"])",
        );
        push_violation(
            v,
            ArchViolation {
                kind: ViolationKind::DecisionMissingStatus,
                subject: d.id.clone(),
                message: msg,
            },
        );
    }
    let ghost v1 = violations_view(v@);
    let successor = match &d.superseded_by {
        Some(s) => crate::text::trim_str(s.as_str()),
        None => String::new(),
    };
    proof {
        if d.superseded_by is None {
            assert(crate::text::trim(Seq::<char>::empty()) =~= Seq::<char>::empty()) by {
                crate::text::lemma_ws_prefix_len_bound(Seq::<char>::empty());
            }
        }
    }
    if str_eq(d.status.as_str(), "superseded") && crate::text::chars_of(successor.as_str()).len()
        == 0 {
        let msg = cat3("superseded decision ", d.id.as_str(), " has no superseded_by");
        push_violation(
            v,
            ArchViolation {
                kind: ViolationKind::SupersededMissingSuccessor,
                subject: d.id.clone(),
                message: msg,
            },
        );
    }
    assert(violations_view(v@) =~= v0 + decision_violations(*d));
}

/// The unresolved references among `refs`, appended to `v`.
fn check_refs(
    id: &String,
    refs: &Vec<String>,
    valid: &Vec<String>,
    v: &mut Vec<ArchViolation>,
)
    ensures
        violations_view(final(v)@) == violations_view(old(v)@) + ref_violations(
            id@,
            strs(refs@),
            strs(valid@),
        ),
{
    let ghost v0 = violations_view(v@);
    let mut k: usize = 0;
    assert(strs(refs@).take(0) =~= Seq::<Seq<char>>::empty());
    assert(v0 + Seq::<(ViolationKind, Seq<char>, Seq<char>)>::empty() =~= v0);
    while k < refs.len()
        invariant
            k <= refs.len(),
            violations_view(v@) == v0 + ref_violations(id@, strs(refs@).take(k as int), strs(valid@)),
        decreases refs.len() - k,
    {
        proof {
            let t = strs(refs@).take(k + 1);
            assert(t.drop_last() == strs(refs@).take(k as int));
            assert(t.last() == refs@[k as int]@);
        }
        let r = &refs[k];
        if !sorted_contains(valid, r.as_str()) {
            let mut msg = cat3("component ", id.as_str(), " references unknown model @id ");
            push_str(&mut msg, r.as_str());
            push_violation(
                v,
                ArchViolation {
                    kind: ViolationKind::ComponentRefUnresolved,
                    subject: id.clone(),
                    message: msg,
                },
            );
        }
        proof {
            let t = strs(refs@).take(k + 1);
            assert(ref_violations(id@, t, strs(valid@)) == ref_violations(
                id@,
                t.drop_last(),
                strs(valid@),
            ) + (if strs(valid@).contains(t.last()) {
                seq![]
            } else {
                seq![
                    (
                        ViolationKind::ComponentRefUnresolved,
                        id@,
                        "component "@ + id@ + " references unknown model @id "@ + t.last(),
                    ),
                ]
            }));
        }
        k = k + 1;
    }
    assert(strs(refs@).take(refs.len() as int) == strs(refs@));
}

proof fn lemma_ref_violations_append(
    id: Seq<char>,
    a: Seq<Seq<char>>,
    b: Seq<Seq<char>>,
    valid: Seq<Seq<char>>,
)
    ensures
        ref_violations(id, a + b, valid) == ref_violations(id, a, valid) + ref_violations(
            id,
            b,
            valid,
        ),
    decreases b.len(),
{
    if b.len() == 0 {
        assert(a + b =~= a);
    } else {
        lemma_ref_violations_append(id, a, b.drop_last(), valid);
        assert((a + b).drop_last() =~= a + b.drop_last());
        assert((a + b).last() == b.last());
    }
}

/// Check the architecture invariants over a spec: every decision has a
/// known status, every superseded decision names a successor, and every id
/// a component owns or depends on is one of `valid_model_ids`.
pub fn check(spec: &ArchitectureSpec, valid_model_ids: &Vec<String>) -> (v: Vec<ArchViolation>)
    ensures
        violations_view(v@) == check_spec(
            spec.decisions@,
            spec.components@,
            strs(valid_model_ids@),
        ),
{
    let mut v: Vec<ArchViolation> = Vec::new();
    let ghost valid = strs(valid_model_ids@);
    let ghost ds = spec.decisions@;
    let ghost cs = spec.components@;
    let mut i: usize = 0;
    assert(violations_view(v@) =~= Seq::<(ViolationKind, Seq<char>, Seq<char>)>::empty());
    assert(ds.take(0) =~= Seq::<Decision>::empty());
    while i < spec.decisions.len()
        invariant
            i <= spec.decisions.len(),
            ds == spec.decisions@,
            valid == strs(valid_model_ids@),
            violations_view(v@) == check_spec(ds.take(i as int), Seq::<Component>::empty(), valid),
        decreases spec.decisions.len() - i,
    {
        proof {
            assert(ds.take(i + 1).drop_last() == ds.take(i as int));
            assert(ds.take(i + 1).last() == ds[i as int]);
        }
        check_decision(&spec.decisions[i], &mut v);
        i = i + 1;
    }
    assert(ds.take(ds.len() as int) == ds);
    let mut j: usize = 0;
    assert(cs.take(0) =~= Seq::<Component>::empty());
    while j < spec.components.len()
        invariant
            j <= spec.components.len(),
            ds == spec.decisions@,
            cs == spec.components@,
            valid == strs(valid_model_ids@),
            violations_view(v@) == check_spec(ds, cs.take(j as int), valid),
        decreases spec.components.len() - j,
    {
        let c = &spec.components[j];
        proof {
            assert(cs.take(j + 1).drop_last() == cs.take(j as int));
            assert(cs.take(j + 1).last() == cs[j as int]);
            lemma_ref_violations_append(c.id@, strs(c.owns@), strs(c.depends_on@), valid);
        }
        let ghost v0 = violations_view(v@);
        check_refs(&c.id, &c.owns, valid_model_ids, &mut v);
        let ghost v1 = violations_view(v@);
        check_refs(&c.id, &c.depends_on, valid_model_ids, &mut v);
        proof {
            let a = ref_violations(c.id@, strs(c.owns@), valid);
            let b = ref_violations(c.id@, strs(c.depends_on@), valid);
            assert(v1 == v0 + a);
            assert(violations_view(v@) == v1 + b);
            assert((v0 + a) + b =~= v0 + (a + b));
            assert(check_spec(ds, cs.take(j + 1), valid) == check_spec(ds, cs.take(j as int), valid)
                + ref_violations(c.id@, strs(c.owns@) + strs(c.depends_on@), valid));
            assert(violations_view(v@) =~= v0 + ref_violations(
                c.id@,
                strs(c.owns@) + strs(c.depends_on@),
                valid,
            ));
        }
        j = j + 1;
    }
    assert(cs.take(cs.len() as int) == cs);
    v
}

} // verus!
