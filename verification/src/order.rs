//! Lexicographic order on text (the order of `String`'s `Ord`, which compares
//! by code point) and sorted, duplicate-free string lists — the shape of the
//! `BTreeSet<String>` values the library produces.
use vstd::prelude::*;
use crate::text::{chars_of, str_eq, strs};

verus! {

/// `a < b` in the order of `String`'s `Ord`.
pub open spec fn lex_lt(a: Seq<char>, b: Seq<char>) -> bool
    decreases a.len(),
{
    if a.len() == 0 {
        b.len() > 0
    } else if b.len() == 0 {
        false
    } else if a[0] < b[0] {
        true
    } else if a[0] == b[0] {
        lex_lt(a.drop_first(), b.drop_first())
    } else {
        false
    }
}

/// Strictly increasing: sorted and free of duplicates.
pub open spec fn strictly_sorted(s: Seq<Seq<char>>) -> bool {
    forall|i: int, j: int| 0 <= i < j < s.len() ==> lex_lt(s[i], s[j])
}

pub proof fn lemma_lex_irrefl(a: Seq<char>)
    ensures
        !lex_lt(a, a),
    decreases a.len(),
{
    if a.len() > 0 {
        lemma_lex_irrefl(a.drop_first());
    }
}

pub proof fn lemma_lex_trans(a: Seq<char>, b: Seq<char>, c: Seq<char>)
    requires
        lex_lt(a, b),
        lex_lt(b, c),
    ensures
        lex_lt(a, c),
    decreases a.len(),
{
    if a.len() > 0 && b.len() > 0 && c.len() > 0 {
        if a[0] == b[0] && b[0] == c[0] {
            lemma_lex_trans(a.drop_first(), b.drop_first(), c.drop_first());
        }
    }
}

pub proof fn lemma_lex_total(a: Seq<char>, b: Seq<char>)
    ensures
        a == b || lex_lt(a, b) || lex_lt(b, a),
    decreases a.len(),
{
    if a.len() > 0 && b.len() > 0 {
        if a[0] == b[0] {
            lemma_lex_total(a.drop_first(), b.drop_first());
            if a.drop_first() == b.drop_first() {
                assert(a =~= seq![a[0]] + a.drop_first());
                assert(b =~= seq![b[0]] + b.drop_first());
            }
        } else {
        }
    } else if a.len() == 0 && b.len() == 0 {
        assert(a =~= b);
    }
}

pub proof fn lemma_lex_asym(a: Seq<char>, b: Seq<char>)
    requires
        lex_lt(a, b),
    ensures
        !lex_lt(b, a),
        a != b,
{
    lemma_lex_irrefl(a);
    if lex_lt(b, a) {
        lemma_lex_trans(a, b, a);
    }
}

/// Whether `a` sorts strictly before `b`.
pub fn chars_lt(a: &[char], b: &[char]) -> (r: bool)
    ensures
        r == lex_lt(a@, b@),
{
    let mut i: usize = 0;
    assert(a@.skip(0) == a@ && b@.skip(0) == b@);
    while i < a.len() && i < b.len()
        invariant
            i <= a.len(),
            i <= b.len(),
            forall|k: int| 0 <= k < i ==> a@[k] == b@[k],
            lex_lt(a@, b@) == lex_lt(a@.skip(i as int), b@.skip(i as int)),
        decreases a.len() - i,
    {
        assert(a@.skip(i as int)[0] == a@[i as int]);
        assert(b@.skip(i as int)[0] == b@[i as int]);
        if a[i] < b[i] {
            return true;
        }
        if a[i] != b[i] {
            return false;
        }
        assert(a@.skip(i as int).drop_first() == a@.skip(i + 1));
        assert(b@.skip(i as int).drop_first() == b@.skip(i + 1));
        i = i + 1;
    }
    i == a.len() && i < b.len()
}

/// Whether `a` sorts strictly before `b`.
pub fn str_lt(a: &str, b: &str) -> (r: bool)
    ensures
        r == lex_lt(a@, b@),
{
    let va = chars_of(a);
    let vb = chars_of(b);
    chars_lt(va.as_slice(), vb.as_slice())
}

/// Insert `x` into a strictly sorted list, keeping it strictly sorted; the
/// set of elements gains `x` (a no-op when `x` is present).
pub fn insert_sorted(v: &mut Vec<String>, x: String)
    requires
        strictly_sorted(strs(old(v)@)),
    ensures
        strictly_sorted(strs(final(v)@)),
        strs(final(v)@).to_set() == strs(old(v)@).to_set().insert(x@),
{
    let ghost old_s = strs(v@);
    let mut i: usize = 0;
    let mut stop = false;
    while i < v.len() && !stop
        invariant
            v@ == old(v)@,
            old_s == strs(v@),
            strictly_sorted(old_s),
            i <= v.len(),
            forall|k: int| 0 <= k < i ==> lex_lt(old_s[k], x@),
            stop ==> i < v.len() && lex_lt(x@, old_s[i as int]),
        decreases v.len() - i + (if stop { 0int } else { 1int }),
    {
        if str_lt(v[i].as_str(), x.as_str()) {
            i = i + 1;
        } else {
            if str_eq(v[i].as_str(), x.as_str()) {
                proof {
                    assert(old_s.to_set().insert(x@) =~= old_s.to_set()) by {
                        assert(old_s[i as int] == x@);
                    }
                }
                return;
            }
            proof {
                lemma_lex_total(old_s[i as int], x@);
            }
            stop = true;
        }
    }
    // x sorts before v[i..] and after v[..i]
    proof {
        assert forall|k: int| i <= k < old_s.len() implies lex_lt(x@, old_s[k]) by {
            if k > i {
                lemma_lex_trans(x@, old_s[i as int], old_s[k]);
            }
        }
    }
    v.insert(i, x);
    proof {
        let ns = strs(v@);
        assert(ns =~= old_s.insert(i as int, x@));
        assert forall|a: int, b: int| 0 <= a < b < ns.len() implies lex_lt(ns[a], ns[b]) by {
            if b < i {
            } else if a < i && b == i {
            } else if a < i && b > i {
                assert(ns[b] == old_s[b - 1]);
            } else if a == i {
                assert(ns[b] == old_s[b - 1]);
            } else {
                assert(ns[a] == old_s[a - 1]);
                assert(ns[b] == old_s[b - 1]);
            }
        }
        assert(ns.to_set() =~= old_s.to_set().insert(x@)) by {
            assert forall|e: Seq<char>| ns.to_set().contains(e) implies old_s.to_set().insert(
                x@,
            ).contains(e) by {
                let k = choose|k: int| 0 <= k < ns.len() && ns[k] == e;
                if k < i {
                    assert(old_s[k] == e);
                } else if k > i {
                    assert(old_s[k - 1] == e);
                }
            }
            assert forall|e: Seq<char>| old_s.to_set().insert(x@).contains(e) implies ns.to_set().contains(
                e,
            ) by {
                if e == x@ {
                    assert(ns[i as int] == e);
                } else {
                    let k = choose|k: int| 0 <= k < old_s.len() && old_s[k] == e;
                    if k < i {
                        assert(ns[k] == e);
                    } else {
                        assert(ns[k + 1] == e);
                    }
                }
            }
        }
    }
}

/// Whether a strictly sorted list contains `x`.
pub fn sorted_contains(v: &Vec<String>, x: &str) -> (r: bool)
    ensures
        r == strs(v@).contains(x@),
{
    let mut i: usize = 0;
    while i < v.len()
        invariant
            i <= v.len(),
            forall|k: int| 0 <= k < i ==> strs(v@)[k] != x@,
        decreases v.len() - i,
    {
        if str_eq(v[i].as_str(), x) {
            assert(strs(v@)[i as int] == x@);
            return true;
        }
        i = i + 1;
    }
    false
}

/// Two strictly sorted sequences with the same elements are equal.
pub proof fn lemma_sorted_unique(a: Seq<Seq<char>>, b: Seq<Seq<char>>)
    requires
        strictly_sorted(a),
        strictly_sorted(b),
        a.to_set() == b.to_set(),
    ensures
        a == b,
    decreases a.len() + b.len(),
{
    if a.len() == 0 {
        if b.len() > 0 {
            assert(b.to_set().contains(b[0]));
        }
        assert(a =~= b);
    } else if b.len() == 0 {
        assert(a.to_set().contains(a[0]));
    } else {
        // the minimum of each is the first element
        assert(b.to_set().contains(a[0]));
        assert(a.to_set().contains(b[0]));
        let ka = choose|k: int| 0 <= k < b.len() && b[k] == a[0];
        let kb = choose|k: int| 0 <= k < a.len() && a[k] == b[0];
        if ka > 0 {
            if kb > 0 {
                lemma_lex_asym(b[0], b[ka]);
                lemma_lex_asym(a[0], a[kb]);
            }
        }
        if a[0] != b[0] {
            if ka > 0 && kb > 0 {
                assert(lex_lt(b[0], a[0]));
                assert(lex_lt(a[0], b[0]));
                lemma_lex_asym(a[0], b[0]);
            } else if ka == 0 {
            } else {
            }
        }
        assert(a[0] == b[0]);
        let a1 = a.drop_first();
        let b1 = b.drop_first();
        assert forall|e: Seq<char>| a1.to_set().contains(e) implies b1.to_set().contains(e) by {
            let k = choose|k: int| 0 <= k < a1.len() && a1[k] == e;
            assert(a[k + 1] == e);
            assert(lex_lt(a[0], e));
            assert(b.to_set().contains(e));
            let j = choose|j: int| 0 <= j < b.len() && b[j] == e;
            if j == 0 {
                lemma_lex_irrefl(e);
            }
            assert(b1[j - 1] == e);
        }
        assert forall|e: Seq<char>| b1.to_set().contains(e) implies a1.to_set().contains(e) by {
            let k = choose|k: int| 0 <= k < b1.len() && b1[k] == e;
            assert(b[k + 1] == e);
            assert(lex_lt(b[0], e));
            assert(a.to_set().contains(e));
            let j = choose|j: int| 0 <= j < a.len() && a[j] == e;
            if j == 0 {
                lemma_lex_irrefl(e);
            }
            assert(a1[j - 1] == e);
        }
        assert(a1.to_set() =~= b1.to_set());
        lemma_sorted_unique(a1, b1);
        assert(a =~= seq![a[0]] + a1);
        assert(b =~= seq![b[0]] + b1);
    }
}

/// The elements of strictly sorted `a` whose membership in `b` is `keep`,
/// in order.
pub fn filter_by_membership(a: &Vec<String>, b: &Vec<String>, keep: bool) -> (r: Vec<String>)
    requires
        strictly_sorted(strs(a@)),
    ensures
        strictly_sorted(strs(r@)),
        strs(r@).to_set() == strs(a@).to_set().filter(|x: Seq<char>| strs(b@).contains(x) == keep),
{
    let mut r: Vec<String> = Vec::new();
    let mut i: usize = 0;
    let ghost sa = strs(a@);
    let ghost f = |x: Seq<char>| strs(b@).contains(x) == keep;
    while i < a.len()
        invariant
            i <= a.len(),
            sa == strs(a@),
            strictly_sorted(sa),
            strictly_sorted(strs(r@)),
            f == (|x: Seq<char>| strs(b@).contains(x) == keep),
            strs(r@).to_set() == sa.take(i as int).to_set().filter(f),
            strs(r@).len() > 0 ==> exists|k: int| 0 <= k < i && strs(r@).last() == sa[k],
        decreases a.len() - i,
    {
        let inb = sorted_contains(b, a[i].as_str());
        let ghost r0 = strs(r@);
        if inb == keep {
            proof {
                if r0.len() > 0 {
                    let k = choose|k: int| 0 <= k < i && r0.last() == sa[k];
                    assert(lex_lt(sa[k], sa[i as int]));
                    assert forall|p: int, q: int| 0 <= p < q < r0.len() + 1 implies lex_lt(
                        r0.push(sa[i as int])[p],
                        r0.push(sa[i as int])[q],
                    ) by {
                        if q == r0.len() {
                            if p < r0.len() - 1 {
                                lemma_lex_trans(r0[p], r0.last(), sa[i as int]);
                            }
                        }
                    }
                }
            }
            r.push(a[i].clone());
            proof {
                assert(strs(r@) =~= r0.push(sa[i as int]));
                r0.lemma_push_to_set_commute(sa[i as int]);
                assert(strs(r@).last() == sa[i as int]);
            }
        }
        proof {
            let x = sa[i as int];
            assert(sa.take(i + 1) == sa.take(i as int).push(x));
            sa.take(i as int).lemma_push_to_set_commute(x);
            assert(sa.take(i + 1).to_set().filter(f) =~= (if f(x) {
                sa.take(i as int).to_set().filter(f).insert(x)
            } else {
                sa.take(i as int).to_set().filter(f)
            }));
            if inb != keep {
                assert(strs(r@) == r0);
                if r0.len() > 0 {
                    let k = choose|k: int| 0 <= k < i && r0.last() == sa[k];
                    assert(0 <= k < i + 1);
                }
            }
        }
        i = i + 1;
    }
    assert(sa.take(a.len() as int) == sa);
    r
}

/// Appending an element greater than the last keeps a list strictly sorted.
pub proof fn lemma_push_sorted(r: Seq<Seq<char>>, x: Seq<char>)
    requires
        strictly_sorted(r),
        r.len() > 0 ==> lex_lt(r.last(), x),
    ensures
        strictly_sorted(r.push(x)),
{
    assert forall|p: int, q: int| 0 <= p < q < r.len() + 1 implies lex_lt(r.push(x)[p], r.push(x)[q]) by {
        if q == r.len() && p < r.len() - 1 {
            lemma_lex_trans(r[p], r.last(), x);
        }
    }
}

/// Insert a new element into a strictly sorted list.
proof fn insert_new_sorted(q: Seq<Seq<char>>, x: Seq<char>) -> (r: Seq<Seq<char>>)
    requires
        strictly_sorted(q),
        !q.contains(x),
    ensures
        strictly_sorted(r),
        r.to_set() == q.to_set().insert(x),
    decreases q.len(),
{
    if q.len() == 0 {
        let r = seq![x];
        assert(r.to_set() =~= q.to_set().insert(x)) by {
            assert(r[0] == x);
        }
        r
    } else if lex_lt(q.last(), x) {
        lemma_push_sorted(q, x);
        let r = q.push(x);
        assert forall|e: Seq<char>| r.to_set().contains(e) <==> q.to_set().insert(x).contains(e) by {
            if r.contains(e) {
                let j = choose|j: int| 0 <= j < r.len() && r[j] == e;
                if j < q.len() {
                    assert(q[j] == e);
                }
            }
            if q.contains(e) {
                let j = choose|j: int| 0 <= j < q.len() && q[j] == e;
                assert(r[j] == e);
            }
            if e == x {
                assert(r[q.len() as int] == e);
            }
        }
        assert(r.to_set() =~= q.to_set().insert(x));
        r
    } else {
        let d = q.drop_last();
        let l = q.last();
        lemma_lex_total(l, x);
        assert(q[q.len() - 1] == l);
        assert(l != x);
        assert(lex_lt(x, l));
        assert(strictly_sorted(d)) by {
            assert forall|i: int, j: int| 0 <= i < j < d.len() implies lex_lt(d[i], d[j]) by {
                assert(d[i] == q[i] && d[j] == q[j]);
            }
        }
        assert(!d.contains(x)) by {
            if d.contains(x) {
                let j = choose|j: int| 0 <= j < d.len() && d[j] == x;
                assert(q[j] == x);
            }
        }
        let r0 = insert_new_sorted(d, x);
        let r = r0.push(l);
        assert forall|e: Seq<char>| r0.to_set().contains(e) implies lex_lt(e, l) by {
            if e != x {
                assert(d.to_set().contains(e));
                let j = choose|j: int| 0 <= j < d.len() && d[j] == e;
                assert(q[j] == e);
            }
        }
        assert(strictly_sorted(r)) by {
            assert forall|i: int, j: int| 0 <= i < j < r.len() implies lex_lt(r[i], r[j]) by {
                if j == r.len() - 1 {
                    assert(r0.to_set().contains(r0[i]));
                } else {
                    assert(r[i] == r0[i] && r[j] == r0[j]);
                }
            }
        }
        assert forall|e: Seq<char>| r.to_set().contains(e) <==> q.to_set().insert(x).contains(e) by {
            if r.contains(e) {
                let j = choose|j: int| 0 <= j < r.len() && r[j] == e;
                if j < r0.len() {
                    assert(r0[j] == e);
                    assert(r0.to_set().contains(e));
                    if e != x {
                        let m = choose|m: int| 0 <= m < d.len() && d[m] == e;
                        assert(q[m] == e);
                    }
                }
            }
            if q.contains(e) {
                let j = choose|j: int| 0 <= j < q.len() && q[j] == e;
                if j == q.len() - 1 {
                    assert(r[r.len() - 1] == e);
                } else {
                    assert(d[j] == e);
                    assert(r0.to_set().contains(e));
                    let m = choose|m: int| 0 <= m < r0.len() && r0[m] == e;
                    assert(r[m] == e);
                }
            }
            if e == x {
                assert(r0.to_set().contains(e));
                let m = choose|m: int| 0 <= m < r0.len() && r0[m] == e;
                assert(r[m] == e);
            }
        }
        assert(r.to_set() =~= q.to_set().insert(x));
        r
    }
}

/// Every list of strings has a strictly sorted list with the same elements.
pub proof fn sorted_listing(s: Seq<Seq<char>>) -> (q: Seq<Seq<char>>)
    ensures
        strictly_sorted(q),
        q.to_set() == s.to_set(),
    decreases s.len(),
{
    if s.len() == 0 {
        let q = Seq::<Seq<char>>::empty();
        assert(q.to_set() =~= s.to_set());
        q
    } else {
        let d = s.drop_last();
        let x = s.last();
        let q0 = sorted_listing(d);
        assert(s.to_set() =~= d.to_set().insert(x)) by {
            assert forall|e: Seq<char>| s.to_set().contains(e) <==> d.to_set().insert(x).contains(e) by {
                if s.contains(e) {
                    let j = choose|j: int| 0 <= j < s.len() && s[j] == e;
                    if j < d.len() {
                        assert(d[j] == e);
                    }
                }
                if d.contains(e) {
                    let j = choose|j: int| 0 <= j < d.len() && d[j] == e;
                    assert(s[j] == e);
                }
                if e == x {
                    assert(s[s.len() - 1] == e);
                }
            }
        }
        if q0.to_set().contains(x) {
            assert(q0.to_set() =~= q0.to_set().insert(x));
            q0
        } else {
            insert_new_sorted(q0, x)
        }
    }
}

/// Insert `x` after every element it does not sort before (stable).
pub open spec fn stable_insert<T>(s: Seq<T>, x: T, lt: spec_fn(T, T) -> bool) -> Seq<T>
    decreases s.len(),
{
    if s.len() == 0 || !lt(x, s.last()) {
        s.push(x)
    } else {
        stable_insert(s.drop_last(), x, lt).push(s.last())
    }
}

/// Insertion sort: the stable sort of `s` by `lt`.
pub open spec fn stable_sort<T>(s: Seq<T>, lt: spec_fn(T, T) -> bool) -> Seq<T>
    decreases s.len(),
{
    if s.len() == 0 {
        seq![]
    } else {
        stable_insert(stable_sort(s.drop_last(), lt), s.last(), lt)
    }
}

/// Where `stable_insert` places `x`.
pub open spec fn stable_pos<T>(s: Seq<T>, x: T, lt: spec_fn(T, T) -> bool) -> int
    decreases s.len(),
{
    if s.len() == 0 || !lt(x, s.last()) {
        s.len() as int
    } else {
        stable_pos(s.drop_last(), x, lt)
    }
}

pub proof fn lemma_stable_pos<T>(s: Seq<T>, x: T, lt: spec_fn(T, T) -> bool)
    ensures
        0 <= stable_pos(s, x, lt) <= s.len(),
        stable_insert(s, x, lt) == s.insert(stable_pos(s, x, lt), x),
    decreases s.len(),
{
    if s.len() == 0 || !lt(x, s.last()) {
        assert(s.push(x) =~= s.insert(s.len() as int, x));
    } else {
        lemma_stable_pos(s.drop_last(), x, lt);
        let p = stable_pos(s.drop_last(), x, lt);
        assert(stable_insert(s.drop_last(), x, lt).push(s.last()) =~= s.insert(p, x));
    }
}

/// The stable sort of a sequence, extended by one element at a time.
pub proof fn lemma_stable_sort_push<T>(s: Seq<T>, x: T, lt: spec_fn(T, T) -> bool)
    ensures
        stable_sort(s.push(x), lt) == stable_insert(stable_sort(s, lt), x, lt),
{
    assert(s.push(x).drop_last() == s);
}

} // verus!
