//! A bidirectional table that gives each distinct value a small, stable index.
use itertools::Itertools;
use std::collections::HashMap;
use vstd::prelude::*;

verus! {

broadcast use vstd::std_specs::hash::group_hash_axioms;

/// The sequence that results from interning `v` into a table holding `s`:
/// unchanged when `v` is already present, else `v` appended.
pub open spec fn interned(s: Seq<u64>, v: u64) -> Seq<u64> {
    if s.contains(v) {
        s
    } else {
        s.push(v)
    }
}

/// The sequence that results from interning the values of `xs` in order into
/// an empty table.
pub open spec fn intern_all(xs: Seq<u64>) -> Seq<u64>
    decreases xs.len(),
{
    if xs.len() == 0 {
        Seq::empty()
    } else {
        interned(intern_all(xs.drop_last()), xs.last())
    }
}

/// The index of the first occurrence of `v` in `s`, if any.
pub open spec fn position(s: Seq<u64>, v: u64) -> Option<int>
    decreases s.len(),
{
    if s.len() == 0 {
        None
    } else if s[0] == v {
        Some(0)
    } else {
        match position(s.drop_first(), v) {
            Some(k) => Some(k + 1),
            None => None,
        }
    }
}

/// The value at `i`, or nothing when `i` is past the end.
pub open spec fn entry_at(s: Seq<u64>, i: int) -> Option<u64> {
    if 0 <= i < s.len() {
        Some(s[i])
    } else {
        None
    }
}

/// A sequence in strictly ascending order.
pub open spec fn strictly_ascending(s: Seq<u64>) -> bool {
    forall|i: int, j: int| 0 <= i < j < s.len() ==> s[i] < s[j]
}

/// `r` holds exactly the values of `s`, in ascending order.
pub open spec fn canonical_of(r: Seq<u64>, s: Seq<u64>) -> bool {
    &&& strictly_ascending(r)
    &&& forall|x: u64| r.contains(x) <==> s.contains(x)
}

/// `position` finds nothing exactly when the value is absent.
pub proof fn lemma_position_absent(s: Seq<u64>, v: u64)
    ensures
        position(s, v) is None <==> !s.contains(v),
    decreases s.len(),
{
    if s.len() > 0 {
        lemma_position_absent(s.drop_first(), v);
        if s[0] != v {
            assert(s.contains(v) ==> s.drop_first().contains(v)) by {
                if s.contains(v) {
                    let k = choose|k: int| 0 <= k < s.len() && s[k] == v;
                    assert(s.drop_first()[k - 1] == v);
                }
            }
            assert(s.drop_first().contains(v) ==> s.contains(v)) by {
                if s.drop_first().contains(v) {
                    let k = choose|k: int| 0 <= k < s.len() - 1 && s.drop_first()[k] == v;
                    assert(s[k + 1] == v);
                }
            }
        } else {
            assert(s.contains(v)) by {
                assert(s[0] == v);
            }
        }
    }
}

/// A value is in `s.push(v)` exactly when it is `v` or in `s`.
pub proof fn lemma_push_contains(s: Seq<u64>, v: u64, x: u64)
    ensures
        s.push(v).contains(x) <==> (x == v || s.contains(x)),
{
    if x == v {
        assert(s.push(v)[s.len() as int] == v);
    }
    if s.contains(x) {
        let k = choose|k: int| 0 <= k < s.len() && s[k] == x;
        assert(s.push(v)[k] == x);
    }
    if s.push(v).contains(x) && x != v {
        let k = choose|k: int| 0 <= k < s.len() + 1 && s.push(v)[k] == x;
        assert(s[k] == x);
    }
}

/// In a sequence without repeated values, each entry is found at its own index.
pub proof fn lemma_position_of_entry(s: Seq<u64>, i: int)
    requires
        s.no_duplicates(),
        0 <= i < s.len(),
    ensures
        position(s, s[i]) == Some(i),
    decreases s.len(),
{
    if i > 0 {
        assert(s[0] != s[i]);
        assert(s.drop_first()[i - 1] == s[i]);
        lemma_position_of_entry(s.drop_first(), i - 1);
    }
}

/// An interning table: `cache` holds the interned values in order of first
/// appearance, and `lookup` maps each of them back to its index.
#[derive(Debug, Clone)]
pub struct IndexedCache {
    pub cache: Vec<u64>,
    pub lookup: HashMap<u64, usize>,
}

impl View for IndexedCache {
    type V = Seq<u64>;

    open spec fn view(&self) -> Seq<u64> {
        self.cache@
    }
}

impl IndexedCache {
    /// The table holds each value once, and the reverse index agrees with it.
    pub open spec fn wf(&self) -> bool {
        &&& self.cache@.no_duplicates()
        &&& forall|v: u64| #[trigger]
            self.lookup@.contains_key(v) <==> self.cache@.contains(v)
        &&& forall|v: u64| #[trigger]
            self.lookup@.contains_key(v) ==> (self.lookup@[v] as int) < self.cache@.len()
                && self.cache@[self.lookup@[v] as int] == v
    }

    /// An empty table.
    pub fn new() -> (r: IndexedCache)
        ensures
            r.wf(),
            r@ == Seq::<u64>::empty(),
    {
        IndexedCache { cache: Vec::new(), lookup: HashMap::new() }
    }

    /// Interns `item`: its existing index when it was interned before, else
    /// the next index, at which it is appended.
    pub fn cache(&mut self, item: u64) -> (r: usize)
        requires
            old(self).wf(),
            old(self)@.len() < usize::MAX,
        ensures
            final(self).wf(),
            final(self)@ == interned(old(self)@, item),
            position(final(self)@, item) == Some(r as int),
            (r as int) < final(self)@.len() && final(self)@[r as int] == item,
    {
        match self.lookup.get(&item) {
            Some(n) => {
                let n = *n;
                proof {
                    lemma_position_of_entry(self.cache@, n as int);
                }
                n
            },
            None => {
                let n = self.cache.len();
                self.cache.push(item);
                self.lookup.insert(item, n);
                proof {
                    let s = self.cache@;
                    assert(s.last() == item);
                    assert forall|i: int, j: int|
                        0 <= i < s.len() && 0 <= j < s.len() && i != j implies s[i] != s[j] by {
                        if i < n && j < n {
                            assert(old(self).cache@[i] == s[i]);
                            assert(old(self).cache@[j] == s[j]);
                        } else if i < n {
                            assert(old(self).cache@[i] == s[i]);
                        } else if j < n {
                            assert(old(self).cache@[j] == s[j]);
                        }
                    }
                    assert forall|v: u64| #[trigger]
                        self.lookup@.contains_key(v) <==> self.cache@.contains(v) by {
                        if v != item && s.contains(v) {
                            let k = choose|k: int| 0 <= k < s.len() && s[k] == v;
                            assert(old(self).cache@[k] == v);
                        }
                        if old(self).cache@.contains(v) {
                            let k = choose|k: int|
                                0 <= k < old(self).cache@.len() && old(self).cache@[k] == v;
                            assert(s[k] == v);
                        }
                        if v == item {
                            assert(s[n as int] == v);
                        }
                    }
                    assert(s == interned(old(self)@, item));
                    lemma_position_of_entry(s, n as int);
                }
                n
            },
        }
    }

    /// The index of `item`, if it was interned.
    pub fn lookup(&self, item: &u64) -> (r: Option<usize>)
        requires
            self.wf(),
        ensures
            match r {
                Some(k) => {
                    &&& position(self@, *item) == Some(k as int)
                    &&& (k as int) < self@.len() && self@[k as int] == *item
                },
                None => position(self@, *item) is None && !self@.contains(*item),
            },
    {
        proof {
            lemma_position_absent(self@, *item);
        }
        match self.lookup.get(item) {
            Some(n) => {
                proof {
                    lemma_position_of_entry(self.cache@, *n as int);
                }
                Some(*n)
            },
            None => None,
        }
    }

    /// The number of interned values.
    pub fn len(&self) -> (r: usize)
        ensures
            r == self@.len(),
    {
        self.cache.len()
    }

    /// The value at `index`, which must be in range: for tables that the
    /// process built itself and trusts.
    pub fn get(&self, index: usize) -> (r: &u64)
        requires
            index < self@.len(),
        ensures
            *r == self@[index as int],
    {
        &self.cache[index]
    }

    /// The value at `index`, or nothing when `index` is out of range: for
    /// indices read from untrusted input.
    pub fn safe_get(&self, index: usize) -> (r: Option<&u64>)
        ensures
            match r {
                Some(v) => entry_at(self@, index as int) == Some(*v),
                None => entry_at(self@, index as int) is None,
            },
    {
        if index < self.cache.len() {
            Some(&self.cache[index])
        } else {
            None
        }
    }

    /// A new table holding the same values, indexed in ascending order, so
    /// that tables with the same values get the same indices whatever order
    /// they were built in. `self` is left as it is.
    pub fn sorted(&self) -> (r: IndexedCache)
        requires
            self.wf(),
        ensures
            r.wf(),
            canonical_of(r@, self@),
    {
        broadcast use vstd::seq_lib::group_to_multiset_ensures;

        let vals = sorted_values(&self.cache);
        proof {
            assert forall|x: u64| vals@.contains(x) <==> self@.contains(x) by {
                assert(vals@.contains(x) <==> vals@.to_multiset().count(x) > 0);
                assert(self@.contains(x) <==> self@.to_multiset().count(x) > 0);
            }
        }
        let mut out = IndexedCache::new();
        let mut i: usize = 0;
        while i < vals.len()
            invariant
                i <= vals@.len(),
                forall|a: int, b: int| 0 <= a <= b < vals@.len() ==> vals@[a] <= vals@[b],
                out.wf(),
                out@.len() <= i,
                strictly_ascending(out@),
                forall|x: u64| out@.contains(x) <==> vals@.subrange(0, i as int).contains(x),
                i > 0 ==> out@.len() > 0 && out@.last() == vals@[i - 1],
            decreases vals@.len() - i,
        {
            let v = vals[i];
            let ghost before = out@;
            out.cache(v);
            proof {
                let pre = vals@.subrange(0, i as int);
                assert(vals@.subrange(0, i + 1) == pre.push(v));
                if !before.contains(v) {
                    if i > 0 {
                        assert(vals@[i - 1] <= v);
                        assert(before.last() < v) by {
                            if before.last() == v {
                                assert(before[before.len() - 1] == v);
                            }
                        }
                        assert forall|a: int| 0 <= a < before.len() implies before[a] < v by {
                            if a < before.len() - 1 {
                                assert(before[a] < before[before.len() - 1]);
                            }
                        }
                    }
                    assert(out@ == before.push(v));
                } else {
                    assert(pre.contains(v));
                    let k = choose|k: int| 0 <= k < pre.len() && pre[k] == v;
                    assert(vals@[k] <= vals@[i - 1]);
                    assert(vals@[i - 1] <= v);
                }
                assert forall|x: u64| out@.contains(x) <==> pre.push(v).contains(x) by {
                    lemma_push_contains(pre, v, x);
                    lemma_push_contains(before, v, x);
                }
            }
            i = i + 1;
        }
        proof {
            assert(vals@.subrange(0, vals@.len() as int) == vals@);
        }
        out
    }

    /// A table built by interning `values` in order: a value that repeats
    /// keeps the index of its first occurrence.
    pub fn from_iter(values: Vec<u64>) -> (r: IndexedCache)
        ensures
            r.wf(),
            r@ == intern_all(values@),
    {
        let mut out = IndexedCache::new();
        let mut i: usize = 0;
        while i < values.len()
            invariant
                i <= values@.len(),
                out.wf(),
                out@ == intern_all(values@.subrange(0, i as int)),
                out@.len() <= i,
            decreases values@.len() - i,
        {
            proof {
                let next = values@.subrange(0, i + 1);
                assert(next.drop_last() == values@.subrange(0, i as int));
                assert(next.last() == values@[i as int]);
            }
            out.cache(values[i]);
            i = i + 1;
        }
        proof {
            assert(values@.subrange(0, values@.len() as int) == values@);
        }
        out
    }

    /// The interned values, in index order.
    pub fn into_values(self) -> (r: Vec<u64>)
        ensures
            r@ == self@,
    {
        self.cache
    }
}

/// Relies on itertools::Itertools::sorted: the same items in ascending order
/// (it collects them into a `Vec` and calls the slice's `sort`).
#[verifier::external_body]
fn sorted_values(v: &Vec<u64>) -> (r: Vec<u64>)
    ensures
        r@.to_multiset() == v@.to_multiset(),
        forall|a: int, b: int| 0 <= a <= b < r@.len() ==> r@[a] <= r@[b],
{
    v.iter().copied().sorted().collect()
}

impl PartialEq for IndexedCache {
    /// Two tables are equal when they hold the same values in the same order.
    fn eq(&self, other: &IndexedCache) -> (r: bool)
        ensures
            r == (self@ == other@),
    {
        if self.cache.len() != other.cache.len() {
            return false;
        }
        let mut i: usize = 0;
        while i < self.cache.len()
            invariant
                i <= self@.len(),
                self@.len() == other@.len(),
                forall|k: int| 0 <= k < i ==> self@[k] == other@[k],
            decreases self@.len() - i,
        {
            if self.cache[i] != other.cache[i] {
                return false;
            }
            i = i + 1;
        }
        proof {
            assert(self@ == other@);
        }
        true
    }
}

impl vstd::std_specs::cmp::PartialEqSpecImpl for IndexedCache {
    open spec fn obeys_eq_spec() -> bool {
        true
    }

    open spec fn eq_spec(&self, other: &IndexedCache) -> bool {
        self@ == other@
    }
}

} // verus!

verus! {

/// Interning a value a second time changes nothing: the table stays as the
/// first call left it, so both calls return the value's one index. The first
/// call adds at most one entry and keeps every earlier index.
pub proof fn lemma_intern_idempotent(s: Seq<u64>, v: u64)
    requires
        s.no_duplicates(),
    ensures
        interned(interned(s, v), v) == interned(s, v),
        position(interned(s, v), v) is Some,
        interned(s, v).len() <= s.len() + 1,
        forall|i: int| 0 <= i < s.len() ==> interned(s, v)[i] == s[i],
{
    lemma_push_contains(s, v, v);
    lemma_position_absent(interned(s, v), v);
}

/// Interning a sequence of values yields each distinct value exactly once,
/// so the table has one entry per distinct value.
pub proof fn lemma_intern_all_distinct(xs: Seq<u64>)
    ensures
        intern_all(xs).no_duplicates(),
        forall|x: u64| intern_all(xs).contains(x) <==> xs.contains(x),
        intern_all(xs).len() == xs.to_set().len(),
    decreases xs.len(),
{
    if xs.len() > 0 {
        let p = intern_all(xs.drop_last());
        lemma_intern_all_distinct(xs.drop_last());
        assert(xs == xs.drop_last().push(xs.last()));
        assert forall|x: u64| intern_all(xs).contains(x) <==> xs.contains(x) by {
            lemma_push_contains(xs.drop_last(), xs.last(), x);
            lemma_push_contains(p, xs.last(), x);
        }
        if !p.contains(xs.last()) {
            let q = p.push(xs.last());
            assert forall|i: int, j: int|
                0 <= i < q.len() && 0 <= j < q.len() && i != j implies q[i] != q[j] by {
                if i == p.len() {
                    assert(p[j] == q[j]);
                } else if j == p.len() {
                    assert(p[i] == q[i]);
                }
            }
        }
    } else {
        assert(xs.to_set() =~= Set::<u64>::empty());
    }
    let r = intern_all(xs);
    r.unique_seq_to_set();
    assert(r.to_set() =~= xs.to_set());
}

/// Looking up the value stored at any index gives back that index.
pub proof fn lemma_bijection(c: IndexedCache, i: int)
    requires
        c.wf(),
        0 <= i < c@.len(),
    ensures
        position(c@, c@[i]) == Some(i),
{
    lemma_position_of_entry(c@, i);
}

/// Two ascending sequences that hold the same values are the same sequence.
pub proof fn lemma_ascending_unique(a: Seq<u64>, b: Seq<u64>)
    requires
        strictly_ascending(a),
        strictly_ascending(b),
        forall|x: u64| a.contains(x) <==> b.contains(x),
    ensures
        a == b,
    decreases a.len(),
{
    if a.len() == 0 {
        if b.len() > 0 {
            assert(b.contains(b[0]));
        }
        assert(a =~= b);
    } else {
        assert(a.contains(a[0]));
        let j = choose|j: int| 0 <= j < b.len() && b[j] == a[0];
        assert(b.contains(b[0]));
        let k = choose|k: int| 0 <= k < a.len() && a[k] == b[0];
        assert(a[0] <= a[k]);
        assert(b[0] <= b[j]);
        assert(a[0] == b[0]);
        let ta = a.drop_first();
        let tb = b.drop_first();
        assert forall|x: u64| ta.contains(x) <==> tb.contains(x) by {
            if ta.contains(x) {
                let m = choose|m: int| 0 <= m < ta.len() && ta[m] == x;
                assert(a[m + 1] == x);
                assert(a[0] < x);
                assert(a.contains(x));
                assert(b.contains(x));
                let n = choose|n: int| 0 <= n < b.len() && b[n] == x;
                assert(n != 0);
                assert(tb[n - 1] == x);
            }
            if tb.contains(x) {
                let m = choose|m: int| 0 <= m < tb.len() && tb[m] == x;
                assert(b[m + 1] == x);
                assert(b[0] < x);
                assert(b.contains(x));
                assert(a.contains(x));
                let n = choose|n: int| 0 <= n < a.len() && a[n] == x;
                assert(n != 0);
                assert(ta[n - 1] == x);
            }
        }
        lemma_ascending_unique(ta, tb);
        assert(a =~= b) by {
            assert forall|i: int| 0 <= i < a.len() implies a[i] == b[i] by {
                if i > 0 {
                    assert(ta[i - 1] == tb[i - 1]);
                }
            }
        }
    }
}

/// Tables that hold the same values, in whatever order they were interned,
/// have equal canonical forms.
pub proof fn lemma_canonical_determinism(a: Seq<u64>, b: Seq<u64>, ra: Seq<u64>, rb: Seq<u64>)
    requires
        forall|x: u64| a.contains(x) <==> b.contains(x),
        canonical_of(ra, a),
        canonical_of(rb, b),
    ensures
        ra == rb,
{
    lemma_ascending_unique(ra, rb);
}

} // verus!
