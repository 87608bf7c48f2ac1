//! String operations built on the text primitives: replacement, sorted
//! de-duplication, sorted key/value maps, and decimal numbers.
use vstd::prelude::*;
use crate::order::{chars_lt, insert_sorted, lemma_lex_asym, lemma_lex_total, lemma_lex_trans, lemma_sorted_unique, lex_lt, strictly_sorted};
use crate::text::{chars_of, find_from, lemma_find_from_range, occurs_at, str_eq, string_of, strs};

verus! {

/// `str::replace`: every non-overlapping occurrence of `from` (scanned left
/// to right) replaced by `to`.
pub open spec fn replace(s: Seq<char>, from: Seq<char>, to: Seq<char>) -> Seq<char>
    decreases s.len(),
{
    if from.len() == 0 {
        s
    } else {
        match find_from(s, from, 0) {
            Some(i) => if 0 <= i && i + from.len() <= s.len() {
                s.take(i) + to + replace(s.skip(i + from.len()), from, to)
            } else {
                s
            },
            None => s,
        }
    }
}

proof fn lemma_find_shift(s: Seq<char>, p: Seq<char>, pos: int, j: int)
    requires
        0 <= pos <= s.len(),
        0 <= j,
    ensures
        find_from(s, p, pos + j) matches Some(i) ==> find_from(s.skip(pos), p, j) == Some(i - pos),
        find_from(s, p, pos + j) is None ==> find_from(s.skip(pos), p, j) is None,
    decreases s.len() + 1 - (pos + j),
{
    let t = s.skip(pos);
    if pos + j + p.len() > s.len() {
    } else {
        assert(occurs_at(t, p, j) == occurs_at(s, p, pos + j)) by {
            assert(t.subrange(j, j + p.len()) =~= s.subrange(pos + j, pos + j + p.len()));
        }
        if !occurs_at(s, p, pos + j) {
            lemma_find_shift(s, p, pos, j + 1);
        }
    }
}

/// Appends `s[from..to]` to `r`.
fn push_range(r: &mut Vec<char>, s: &[char], from: usize, to: usize)
    requires
        from <= to <= s.len(),
    ensures
        final(r)@ == old(r)@ + s@.subrange(from as int, to as int),
{
    let mut k = from;
    while k < to
        invariant
            from <= k <= to <= s.len(),
            r@ == old(r)@ + s@.subrange(from as int, k as int),
        decreases to - k,
    {
        r.push(s[k]);
        k = k + 1;
        assert(s@.subrange(from as int, k as int) == s@.subrange(from as int, k - 1).push(
            s@[k - 1],
        ));
    }
}

/// `str::replace` on characters (non-empty `from`).
#[verifier::spinoff_prover]
#[verifier::rlimit(30)]
pub fn replace_chars(s: &[char], from: &[char], to: &[char]) -> (r: Vec<char>)
    requires
        from.len() > 0,
    ensures
        r@ == replace(s@, from@, to@),
{
    let mut r: Vec<char> = Vec::new();
    let mut pos: usize = 0;
    assert(s@.skip(0) == s@);
    assert(r@ + s@ =~= s@);
    loop
        invariant
            pos <= s.len(),
            from.len() > 0,
            replace(s@, from@, to@) == r@ + replace(s@.skip(pos as int), from@, to@),
        decreases s.len() - pos,
    {
        let ghost rest = s@.skip(pos as int);
        proof {
            lemma_find_from_range(s@, from@, pos as int);
            lemma_find_shift(s@, from@, pos as int, 0);
        }
        match crate::text::find_from_exec(s, from, pos) {
            Some(i) => {
                let ghost r0 = r@;
                push_range(&mut r, s, pos, i);
                let mut t: usize = 0;
                let ghost r1 = r@;
                while t < to.len()
                    invariant
                        t <= to.len(),
                        r@ == r1 + to@.take(t as int),
                    decreases to.len() - t,
                {
                    r.push(to[t]);
                    t = t + 1;
                    assert(to@.take(t as int) == to@.take(t - 1).push(to@[t - 1]));
                }
                proof {
                    assert(to@.take(to.len() as int) == to@);
                    assert(rest.take(i - pos) =~= s@.subrange(pos as int, i as int));
                    assert(rest.skip(i - pos + from.len()) =~= s@.skip(i + from.len()));
                    assert(r@ == r0 + rest.take(i - pos) + to@);
                }
                pos = i + from.len();
            },
            None => {
                push_range(&mut r, s, pos, s.len());
                proof {
                    assert(rest =~= s@.subrange(pos as int, s.len() as int));
                }
                return r;
            },
        }
    }
}

/// `str::replace` on strings (non-empty `from`).
pub fn replace_str(s: &str, from: &str, to: &str) -> (r: String)
    requires
        from@.len() > 0,
    ensures
        r@ == replace(s@, from@, to@),
{
    let vs = chars_of(s);
    let vf = chars_of(from);
    let vt = chars_of(to);
    let v = replace_chars(vs.as_slice(), vf.as_slice(), vt.as_slice());
    string_of(v.as_slice())
}

/// Sorted, duplicate-free copy of `v` (what collecting into a `BTreeSet`
/// yields).
pub fn sorted_unique(v: &Vec<String>) -> (r: Vec<String>)
    ensures
        strictly_sorted(strs(r@)),
        strs(r@).to_set() == strs(v@).to_set(),
{
    let mut r: Vec<String> = Vec::new();
    let mut i: usize = 0;
    while i < v.len()
        invariant
            i <= v.len(),
            strictly_sorted(strs(r@)),
            strs(r@).to_set() == strs(v@.take(i as int)).to_set(),
        decreases v.len() - i,
    {
        insert_sorted(&mut r, v[i].clone());
        proof {
            assert(strs(v@.take(i + 1)) =~= strs(v@.take(i as int)).push(v@[i as int]@));
            strs(v@.take(i as int)).lemma_push_to_set_commute(v@[i as int]@);
        }
        i = i + 1;
    }
    assert(v@.take(v.len() as int) == v@);
    r
}

// ---------------------------------------------------------------------------
// Sorted key/value maps (the `BTreeMap<String, String>` of marker parameters)

/// `BTreeMap::insert` on a key-sorted list of pairs: overwrite the value of an
/// existing key, else add the pair in key order.
pub open spec fn pairs_insert<V>(s: Seq<(Seq<char>, V)>, k: Seq<char>, v: V) -> Seq<(Seq<char>, V)>
    decreases s.len(),
{
    if s.len() == 0 {
        seq![(k, v)]
    } else if s[0].0 == k {
        seq![(k, v)] + s.drop_first()
    } else if lex_lt(k, s[0].0) {
        seq![(k, v)] + s
    } else {
        seq![s[0]] + pairs_insert(s.drop_first(), k, v)
    }
}

/// `BTreeMap::get` on a key-sorted list of pairs.
pub open spec fn pairs_get<V>(s: Seq<(Seq<char>, V)>, k: Seq<char>) -> Option<V>
    decreases s.len(),
{
    if s.len() == 0 {
        None
    } else if s[0].0 == k {
        Some(s[0].1)
    } else {
        pairs_get(s.drop_first(), k)
    }
}

/// Keys strictly increasing.
pub open spec fn keys_sorted<V>(s: Seq<(Seq<char>, V)>) -> bool {
    forall|i: int, j: int| 0 <= i < j < s.len() ==> lex_lt(s[i].0, s[j].0)
}

/// A map from strings kept sorted by key, as a `BTreeMap<String, V>`
/// iterates.
#[derive(Clone)]
pub struct KeyMap<V> {
    pub entries: Vec<(String, V)>,
}

/// The string-to-string map of marker parameters.
pub type ParamMap = KeyMap<String>;

impl<V: View> View for KeyMap<V> {
    type V = Seq<(Seq<char>, V::V)>;

    open spec fn view(&self) -> Seq<(Seq<char>, V::V)> {
        self.entries@.map_values(|e: (String, V)| (e.0@, e.1@))
    }
}

pub proof fn lemma_pairs_insert_sorted<V>(s: Seq<(Seq<char>, V)>, k: Seq<char>, v: V)
    requires
        keys_sorted(s),
    ensures
        keys_sorted(pairs_insert(s, k, v)),
        pairs_insert(s, k, v).len() > 0,
        pairs_insert(s, k, v)[0].0 == k || (s.len() > 0 && pairs_insert(s, k, v)[0].0 == s[0].0),
    decreases s.len(),
{
    if s.len() == 0 {
    } else if s[0].0 == k {
        let r = pairs_insert(s, k, v);
        assert forall|i: int, j: int| 0 <= i < j < r.len() implies lex_lt(r[i].0, r[j].0) by {
            assert(r[j] == s[j]);
            if i > 0 {
                assert(r[i] == s[i]);
            }
        }
    } else if lex_lt(k, s[0].0) {
        let r = pairs_insert(s, k, v);
        assert forall|i: int, j: int| 0 <= i < j < r.len() implies lex_lt(r[i].0, r[j].0) by {
            assert(r[j] == s[j - 1]);
            if i > 0 {
                assert(r[i] == s[i - 1]);
            } else if j > 1 {
                lemma_lex_trans(k, s[0].0, s[j - 1].0);
            }
        }
    } else {
        lemma_lex_total(k, s[0].0);
        let t = s.drop_first();
        assert(keys_sorted(t)) by {
            assert forall|i: int, j: int| 0 <= i < j < t.len() implies lex_lt(t[i].0, t[j].0) by {
                assert(t[i] == s[i + 1]);
                assert(t[j] == s[j + 1]);
            }
        }
        lemma_pairs_insert_sorted(t, k, v);
        let it = pairs_insert(t, k, v);
        let r = pairs_insert(s, k, v);
        assert(r == seq![s[0]] + it);
        assert forall|i: int, j: int| 0 <= i < j < r.len() implies lex_lt(r[i].0, r[j].0) by {
            if i > 0 {
                assert(r[i] == it[i - 1]);
                assert(r[j] == it[j - 1]);
            } else {
                assert(r[j] == it[j - 1]);
                // every key of `it` is k or a key of t, all after s[0]
                lemma_pairs_insert_keys(t, k, v);
                if it[j - 1].0 == k {
                } else {
                    let m = choose|m: int| 0 <= m < t.len() && t[m].0 == it[j - 1].0;
                    assert(t[m] == s[m + 1]);
                }
            }
        }
    }
}

proof fn lemma_pairs_insert_keys<V>(s: Seq<(Seq<char>, V)>, k: Seq<char>, v: V)
    ensures
        forall|j: int|
            0 <= j < pairs_insert(s, k, v).len() ==> (pairs_insert(s, k, v)[j].0 == k || exists|
                m: int,
            | 0 <= m < s.len() && s[m].0 == pairs_insert(s, k, v)[j].0),
    decreases s.len(),
{
    let r = pairs_insert(s, k, v);
    if s.len() == 0 {
    } else if s[0].0 == k {
        assert forall|j: int| 0 <= j < r.len() implies (r[j].0 == k || exists|m: int|
            0 <= m < s.len() && s[m].0 == r[j].0) by {
            if j > 0 {
                assert(r[j] == s[j]);
            }
        }
    } else if lex_lt(k, s[0].0) {
        assert forall|j: int| 0 <= j < r.len() implies (r[j].0 == k || exists|m: int|
            0 <= m < s.len() && s[m].0 == r[j].0) by {
            if j > 0 {
                assert(r[j] == s[j - 1]);
            }
        }
    } else {
        let t = s.drop_first();
        lemma_pairs_insert_keys(t, k, v);
        assert forall|j: int| 0 <= j < r.len() implies (r[j].0 == k || exists|m: int|
            0 <= m < s.len() && s[m].0 == r[j].0) by {
            if j == 0 {
                assert(s[0].0 == r[0].0);
            } else {
                assert(r[j] == pairs_insert(t, k, v)[j - 1]);
                if r[j].0 != k {
                    let m = choose|m: int| 0 <= m < t.len() && t[m].0 == r[j].0;
                    assert(s[m + 1] == t[m]);
                }
            }
        }
    }
}

impl<V: View> KeyMap<V> {
    pub open spec fn wf(&self) -> bool {
        keys_sorted(self@)
    }

    pub fn new() -> (m: KeyMap<V>)
        ensures
            m@ == Seq::<(Seq<char>, V::V)>::empty(),
            m.wf(),
    {
        let m = KeyMap { entries: Vec::new() };
        assert(m@ =~= Seq::<(Seq<char>, V::V)>::empty());
        m
    }

    pub fn len(&self) -> (n: usize)
        ensures
            n == self@.len(),
    {
        self.entries.len()
    }

    pub fn is_empty(&self) -> (b: bool)
        ensures
            b == (self@.len() == 0),
    {
        self.entries.len() == 0
    }

    /// `BTreeMap::insert`.
    pub fn insert(&mut self, k: String, v: V)
        requires
            old(self).wf(),
        ensures
            final(self).wf(),
            final(self)@ == pairs_insert(old(self)@, k@, v@),
    {
        proof {
            lemma_pairs_insert_sorted(self@, k@, v@);
        }
        let ghost s0 = self@;
        let mut i: usize = 0;
        let kv = chars_of(k.as_str());
        assert(s0.skip(0) == s0);
        assert(s0.take(0) + pairs_insert(s0, k@, v@) =~= pairs_insert(s0, k@, v@));
        while i < self.entries.len()
            invariant
                self@ == s0,
                s0 == old(self)@,
                self.wf(),
                i <= self.entries.len(),
                kv@ == k@,
                pairs_insert(s0, k@, v@) == s0.take(i as int) + pairs_insert(
                    s0.skip(i as int),
                    k@,
                    v@,
                ),
            decreases self.entries.len() - i,
        {
            let ki = chars_of(self.entries[i].0.as_str());
            let ghost t = s0.skip(i as int);
            assert(t[0] == s0[i as int]);
            assert(t.drop_first() == s0.skip(i + 1));
            if crate::text::chars_eq(ki.as_slice(), kv.as_slice()) {
                proof {
                    assert(pairs_insert(t, k@, v@) == seq![(k@, v@)] + t.drop_first());
                }
                self.entries.set(i, (k, v));
                proof {
                    assert(self@ =~= s0.take(i as int) + pairs_insert(t, k@, v@));
                    assert(self@ == pairs_insert(s0, k@, v@));
                    assert(s0 == old(self)@);
                    lemma_pairs_insert_sorted(s0, k@, v@);
                }
                return;
            }
            if chars_lt(kv.as_slice(), ki.as_slice()) {
                proof {
                    assert(pairs_insert(t, k@, v@) == seq![(k@, v@)] + t);
                }
                self.entries.insert(i, (k, v));
                proof {
                    assert(self@ =~= s0.take(i as int) + pairs_insert(t, k@, v@));
                    assert(self@ == pairs_insert(s0, k@, v@));
                    assert(s0 == old(self)@);
                    lemma_pairs_insert_sorted(s0, k@, v@);
                }
                return;
            }
            proof {
                assert(s0.take(i + 1) == s0.take(i as int).push(s0[i as int]));
                assert(pairs_insert(t, k@, v@) == seq![t[0]] + pairs_insert(t.drop_first(), k@, v@));
                assert(s0.take(i as int) + pairs_insert(t, k@, v@) =~= s0.take(i + 1)
                    + pairs_insert(s0.skip(i + 1), k@, v@));
            }
            i = i + 1;
        }
        proof {
            assert(s0.skip(i as int) =~= Seq::<(Seq<char>, V::V)>::empty());
            assert(s0.take(i as int) == s0);
        }
        self.entries.push((k, v));
        proof {
            assert(self@ =~= s0 + seq![(k@, v@)]);
        }
    }

    /// `BTreeMap::get`.
    pub fn get(&self, k: &str) -> (r: Option<&V>)
        ensures
            match r {
                Some(v) => pairs_get(self@, k@) == Some(v@),
                None => pairs_get(self@, k@) is None,
            },
    {
        let mut i: usize = 0;
        assert(self@.skip(0) == self@);
        while i < self.entries.len()
            invariant
                i <= self.entries.len(),
                pairs_get(self@, k@) == pairs_get(self@.skip(i as int), k@),
            decreases self.entries.len() - i,
        {
            let ghost t = self@.skip(i as int);
            assert(t[0] == self@[i as int]);
            assert(t.drop_first() == self@.skip(i + 1));
            if str_eq(self.entries[i].0.as_str(), k) {
                return Some(&self.entries[i].1);
            }
            i = i + 1;
        }
        None
    }
}

impl<T> KeyMap<Vec<T>> {
    /// `map.entry(k).or_default().push(x)`.
    pub fn push_to(&mut self, k: String, x: T)
        requires
            old(self).wf(),
        ensures
            final(self).wf(),
            final(self)@ == pairs_insert(
                old(self)@,
                k@,
                match pairs_get(old(self)@, k@) {
                    Some(v) => v.push(x),
                    None => seq![x],
                },
            ),
    {
        let mut i: usize = 0;
        let ghost s0 = self@;
        assert(self@.skip(0) == self@);
        while i < self.entries.len()
            invariant
                i <= self.entries.len(),
                self@ == s0,
                s0 == old(self)@,
                self.wf(),
                forall|j: int| 0 <= j < i ==> s0[j].0 != k@,
            decreases self.entries.len() - i,
        {
            if str_eq(self.entries[i].0.as_str(), k.as_str()) {
                let (key, mut vals) = self.entries.remove(i);
                proof {
                    lemma_pairs_get_at(s0, k@, i as int);
                    assert(vals@ == s0[i as int].1);
                }
                vals.push(x);
                self.entries.insert(i, (key, vals));
                proof {
                    let nv = s0[i as int].1.push(x);
                    lemma_pairs_insert_at(s0, k@, nv, i as int);
                    assert(self@ =~= s0.update(i as int, (k@, nv)));
                    lemma_pairs_insert_sorted(s0, k@, nv);
                }
                return;
            }
            i = i + 1;
        }
        proof {
            lemma_pairs_get_absent(s0, k@);
        }
        let mut one: Vec<T> = Vec::new();
        one.push(x);
        assert(one@ =~= seq![x]);
        self.insert(k, one);
    }
}

pub proof fn lemma_pairs_get_at<V>(s: Seq<(Seq<char>, V)>, k: Seq<char>, i: int)
    requires
        0 <= i < s.len(),
        s[i].0 == k,
        forall|j: int| 0 <= j < i ==> s[j].0 != k,
    ensures
        pairs_get(s, k) == Some(s[i].1),
    decreases i,
{
    if i > 0 {
        lemma_pairs_get_at(s.drop_first(), k, i - 1);
    }
}

/// A key that `get` finds stands in the list with the value found.
pub proof fn lemma_pairs_get_found<V>(s: Seq<(Seq<char>, V)>, k: Seq<char>)
    requires
        pairs_get(s, k) is Some,
    ensures
        exists|i: int| 0 <= i < s.len() && #[trigger] s[i] == (k, pairs_get(s, k)->0),
    decreases s.len(),
{
    if s[0].0 == k {
        assert(s[0] == (k, pairs_get(s, k)->0));
    } else {
        lemma_pairs_get_found(s.drop_first(), k);
        let i = choose|i: int| 0 <= i < s.drop_first().len() && #[trigger] s.drop_first()[i] == (k, pairs_get(s.drop_first(), k)->0);
        assert(s[i + 1] == s.drop_first()[i]);
    }
}

proof fn lemma_pairs_get_absent<V>(s: Seq<(Seq<char>, V)>, k: Seq<char>)
    requires
        forall|j: int| 0 <= j < s.len() ==> s[j].0 != k,
    ensures
        pairs_get(s, k) is None,
    decreases s.len(),
{
    if s.len() > 0 {
        lemma_pairs_get_absent(s.drop_first(), k);
    }
}

proof fn lemma_pairs_insert_at<V>(s: Seq<(Seq<char>, V)>, k: Seq<char>, v: V, i: int)
    requires
        0 <= i < s.len(),
        s[i].0 == k,
        forall|j: int| 0 <= j < i ==> s[j].0 != k,
        keys_sorted(s),
    ensures
        pairs_insert(s, k, v) == s.update(i, (k, v)),
    decreases i,
{
    if i == 0 {
        assert(pairs_insert(s, k, v) =~= s.update(0, (k, v)));
    } else {
        let t = s.drop_first();
        assert(keys_sorted(t)) by {
            assert forall|a: int, b: int| 0 <= a < b < t.len() implies lex_lt(t[a].0, t[b].0) by {
                assert(t[a] == s[a + 1]);
                assert(t[b] == s[b + 1]);
            }
        }
        assert(lex_lt(s[0].0, s[i].0));
        lemma_lex_asym(s[0].0, k);
        lemma_pairs_insert_at(t, k, v, i - 1);
        assert(pairs_insert(s, k, v) =~= s.update(i, (k, v)));
    }
}

/// What `get` finds after an `insert`.
pub proof fn lemma_pairs_get_insert<V>(s: Seq<(Seq<char>, V)>, k: Seq<char>, v: V, q: Seq<char>)
    requires
        keys_sorted(s),
    ensures
        pairs_get(pairs_insert(s, k, v), q) == (if q == k {
            Some(v)
        } else {
            pairs_get(s, q)
        }),
    decreases s.len(),
{
    let r = pairs_insert(s, k, v);
    if s.len() == 0 {
        assert(r == seq![(k, v)]);
        assert(r.drop_first().len() == 0);
    } else if s[0].0 == k {
        assert(r == seq![(k, v)] + s.drop_first());
        assert(r[0] == (k, v));
        assert(r.drop_first() == s.drop_first());
    } else if lex_lt(k, s[0].0) {
        assert(r == seq![(k, v)] + s);
        assert(r[0] == (k, v));
        assert(r.drop_first() == s);
        if q != k {
            if q == s[0].0 {
            } else {
                assert(pairs_get(r.drop_first(), q) == pairs_get(s, q));
            }
        }
    } else {
        let t = s.drop_first();
        assert(keys_sorted(t)) by {
            assert forall|i: int, j: int| 0 <= i < j < t.len() implies lex_lt(t[i].0, t[j].0) by {
                assert(t[i] == s[i + 1]);
                assert(t[j] == s[j + 1]);
            }
        }
        lemma_pairs_get_insert(t, k, v, q);
        assert(r == seq![s[0]] + pairs_insert(t, k, v));
        assert(r[0] == s[0]);
        assert(r.drop_first() == pairs_insert(t, k, v));
    }
}

// ---------------------------------------------------------------------------
// Decimal numbers

/// Value of a string of ASCII digits.
pub open spec fn digits_value(s: Seq<char>) -> nat
    decreases s.len(),
{
    if s.len() == 0 {
        0
    } else {
        digits_value(s.drop_last()) * 10 + ((s.last() as u32 - '0' as u32) as nat)
    }
}

pub open spec fn is_digit(c: char) -> bool {
    '0' <= c && c <= '9'
}

pub open spec fn all_digits(s: Seq<char>) -> bool {
    forall|i: int| 0 <= i < s.len() ==> is_digit(#[trigger] s[i])
}

/// `u32::from_str` / `usize::from_str` with the type's maximum `max`: an
/// optional `+`, then one or more ASCII digits, whose value is at most `max`.
pub open spec fn parse_uint_spec(s: Seq<char>, max: nat) -> Option<nat> {
    let d = if s.len() > 0 && s[0] == '+' {
        s.drop_first()
    } else {
        s
    };
    if d.len() > 0 && all_digits(d) && digits_value(d) <= max {
        Some(digits_value(d))
    } else {
        None
    }
}

/// `str::parse::<u32>`.
pub open spec fn parse_u32_spec(s: Seq<char>) -> Option<u32> {
    match parse_uint_spec(s, u32::MAX as nat) {
        Some(n) => Some(n as u32),
        None => None,
    }
}

/// `str::parse::<usize>`.
pub open spec fn parse_usize_spec(s: Seq<char>) -> Option<usize> {
    match parse_uint_spec(s, usize::MAX as nat) {
        Some(n) => Some(n as usize),
        None => None,
    }
}

pub fn parse_u32(s: &str) -> (r: Option<u32>)
    ensures
        r == parse_u32_spec(s@),
{
    match parse_uint(s, 4294967295u64) {
        Some(n) => Some(n as u32),
        None => None,
    }
}

pub fn parse_usize(s: &str) -> (r: Option<usize>)
    ensures
        r == parse_usize_spec(s@),
{
    match parse_uint(s, usize::MAX as u64) {
        Some(n) => Some(n as usize),
        None => None,
    }
}

/// Parses an unsigned decimal no larger than `max`.
pub fn parse_uint(s: &str, max: u64) -> (r: Option<u64>)
    ensures
        match r {
            Some(n) => parse_uint_spec(s@, max as nat) == Some(n as nat),
            None => parse_uint_spec(s@, max as nat) is None,
        },
{
    let v = chars_of(s);
    let mut i: usize = 0;
    if v.len() > 0 && v[0] == '+' {
        i = 1;
    }
    let ghost d = if s@.len() > 0 && s@[0] == '+' {
        s@.drop_first()
    } else {
        s@
    };
    assert(d == v@.skip(i as int));
    if i >= v.len() {
        return None;
    }
    let start = i;
    let mut acc: u64 = 0;
    while i < v.len()
        invariant
            start <= i <= v.len(),
            d == v@.skip(start as int),
            v@ == s@,
            d == (if s@.len() > 0 && s@[0] == '+' {
                s@.drop_first()
            } else {
                s@
            }),
            all_digits(v@.subrange(start as int, i as int)),
            acc == digits_value(v@.subrange(start as int, i as int)),
            acc <= max,
        decreases v.len() - i,
    {
        let c = v[i];
        if !('0' <= c && c <= '9') {
            proof {
                assert(d[i - start] == c);
                assert(!is_digit(d[i - start]));
                assert(!all_digits(d));
            }
            return None;
        }
        let dig: u64 = ((c as u32) - ('0' as u32)) as u64;
        proof {
            let p = v@.subrange(start as int, i + 1);
            assert(p.drop_last() == v@.subrange(start as int, i as int));
            assert(p.last() == c);
        }
        if dig > max || acc > (max - dig) / 10 {
            proof {
                let p = v@.subrange(start as int, i + 1);
                lemma_digits_prefix_le(d, (i + 1 - start) as int);
                assert(d.take((i + 1 - start) as int) =~= p);
                assert(p.drop_last() =~= v@.subrange(start as int, i as int));
                assert(p.last() == c);
                assert(((p.last() as u32 - '0' as u32) as nat) == dig);
                assert(digits_value(p) == digits_value(p.drop_last()) * 10 + dig);
                assert(digits_value(p) == acc * 10 + dig) by (nonlinear_arith)
                    requires
                        digits_value(p) == digits_value(p.drop_last()) * 10 + dig,
                        acc == digits_value(p.drop_last()),
                ;
                assert(acc * 10 + dig > max) by (nonlinear_arith)
                    requires
                        dig > max || acc > (max - dig) / 10,
                        dig <= 9,
                ;
                if all_digits(d) {
                    assert(digits_value(d) >= digits_value(p));
                }
            }
            return None;
        }
        proof {
            assert(acc * 10 + dig <= max) by (nonlinear_arith)
                requires
                    dig <= max,
                    acc <= (max - dig) / 10,
                    dig <= 9,
            ;
            let p = v@.subrange(start as int, i + 1);
            assert(all_digits(p)) by {
                assert forall|k: int| 0 <= k < p.len() implies is_digit(#[trigger] p[k]) by {
                    if k < p.len() - 1 {
                        assert(p[k] == v@.subrange(start as int, i as int)[k]);
                    }
                }
            }
        }
        acc = acc * 10 + dig;
        i = i + 1;
    }
    assert(v@.subrange(start as int, v.len() as int) == d);
    Some(acc)
}

/// Digit strings do not lose value when extended.
proof fn lemma_digits_prefix_le(d: Seq<char>, n: int)
    requires
        0 <= n <= d.len(),
    ensures
        all_digits(d) ==> digits_value(d.take(n)) <= digits_value(d),
    decreases d.len() - n,
{
    if n < d.len() && all_digits(d) {
        lemma_digits_prefix_le(d, n + 1);
        let q = d.take(n + 1);
        assert(q.drop_last() == d.take(n));
        assert(is_digit(d[n]));
        assert(q.last() == d[n]);
    }
    if n == d.len() {
        assert(d.take(n) == d);
    }
}

/// The decimal digits of `n`, without leading zeros (`"0"` for zero).
pub open spec fn decimal(n: nat) -> Seq<char>
    decreases n,
{
    if n < 10 {
        seq![digit_char(n)]
    } else {
        decimal(n / 10).push(digit_char(n % 10))
    }
}

pub open spec fn digit_char(d: nat) -> char {
    if d == 0 { '0' }
    else if d == 1 { '1' }
    else if d == 2 { '2' }
    else if d == 3 { '3' }
    else if d == 4 { '4' }
    else if d == 5 { '5' }
    else if d == 6 { '6' }
    else if d == 7 { '7' }
    else if d == 8 { '8' }
    else { '9' }
}

fn digit_char_exec(d: u64) -> (c: char)
    requires
        d < 10,
    ensures
        c == digit_char(d as nat),
{
    if d == 0 { '0' }
    else if d == 1 { '1' }
    else if d == 2 { '2' }
    else if d == 3 { '3' }
    else if d == 4 { '4' }
    else if d == 5 { '5' }
    else if d == 6 { '6' }
    else if d == 7 { '7' }
    else if d == 8 { '8' }
    else { '9' }
}

/// Decimal digits of `n` (`n.to_string()`).
pub fn decimal_chars(n: u64) -> (r: Vec<char>)
    ensures
        r@ == decimal(n as nat),
    decreases n,
{
    if n < 10 {
        let mut r = Vec::new();
        r.push(digit_char_exec(n));
        assert(r@ =~= seq![digit_char(n as nat)]);
        r
    } else {
        let mut r = decimal_chars(n / 10);
        r.push(digit_char_exec(n % 10));
        r
    }
}

/// `format!("{n}")`.
pub fn decimal_string(n: u64) -> (r: String)
    ensures
        r@ == decimal(n as nat),
{
    let v = decimal_chars(n);
    string_of(v.as_slice())
}

/// `format!("{n:0w$}")`: the decimal digits of `n` left-padded with `'0'` to
/// at least `w` characters.
pub open spec fn zero_padded(n: nat, w: nat) -> Seq<char> {
    let d = decimal(n);
    if d.len() >= w {
        d
    } else {
        Seq::new((w - d.len()) as nat, |i: int| '0') + d
    }
}

pub fn zero_padded_string(n: u64, w: usize) -> (r: String)
    ensures
        r@ == zero_padded(n as nat, w as nat),
{
    let d = decimal_chars(n);
    let mut out: Vec<char> = Vec::new();
    if d.len() < w {
        let pad = w - d.len();
        let mut k: usize = 0;
        while k < pad
            invariant
                k <= pad,
                out@ == Seq::new(k as nat, |i: int| '0'),
            decreases pad - k,
        {
            out.push('0');
            k = k + 1;
            assert(out@ =~= Seq::new(k as nat, |i: int| '0'));
        }
    }
    let ghost pre = out@;
    let mut j: usize = 0;
    while j < d.len()
        invariant
            j <= d.len(),
            out@ == pre + d@.take(j as int),
        decreases d.len() - j,
    {
        out.push(d[j]);
        j = j + 1;
        assert(d@.take(j as int) == d@.take(j - 1).push(d@[j - 1]));
    }
    assert(d@.take(d.len() as int) == d@);
    if d.len() >= w {
        assert(pre =~= Seq::<char>::empty());
        assert(out@ =~= d@);
    }
    string_of(out.as_slice())
}

} // verus!
