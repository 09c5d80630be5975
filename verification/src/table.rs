//! A small keyed table: an association list in which no key occurs twice.

use vstd::prelude::*;

verus! {

/// What a type needs to serve as a table key: an equality test that decides
/// equality of the values themselves.
pub trait Key: Copy {
    fn same(&self, other: &Self) -> (r: bool)
        ensures
            r == (*self == *other),
    ;
}

/// A condition on values.
pub trait Keep<V> {
    /// Whether the condition holds of `v`.
    spec fn wants(&self, v: V) -> bool;

    fn test(&self, v: &V) -> (r: bool)
        ensures
            r == self.wants(*v),
    ;
}

/// A map from keys to values.
pub struct Table<K, V> {
    entries: Vec<(K, V)>,
}

/// Whether `k` is the key of an entry.
pub open spec fn has_key<K, V>(s: Seq<(K, V)>, k: K) -> bool {
    exists|i: int| 0 <= i < s.len() && (#[trigger] s[i]).0 == k
}

/// Whether no key occurs twice.
pub open spec fn keys_distinct<K, V>(s: Seq<(K, V)>) -> bool {
    forall|i: int, j: int|
        0 <= i < j < s.len() ==> (#[trigger] s[i]).0 != (#[trigger] s[j]).0
}

/// The map that an association list stands for.
pub open spec fn as_map<K, V>(s: Seq<(K, V)>) -> Map<K, V> {
    Map::new(
        |k: K| has_key(s, k),
        |k: K| s[choose|i: int| 0 <= i < s.len() && (#[trigger] s[i]).0 == k].1,
    )
}

/// The entry at `i` is what the map holds under its key.
pub proof fn lemma_entry<K, V>(s: Seq<(K, V)>, i: int)
    requires
        keys_distinct(s),
        0 <= i < s.len(),
    ensures
        as_map(s).dom().contains(s[i].0),
        as_map(s)[s[i].0] == s[i].1,
{
    let k = s[i].0;
    let j = choose|j: int| 0 <= j < s.len() && (#[trigger] s[j]).0 == k;
    assert(s[i].0 == k);
    assert(0 <= j < s.len() && s[j].0 == k);
    assert(i == j);
}

/// A list without the key `k` maps as one that maps every key of `m` the same
/// way.
pub proof fn lemma_same_map<K, V>(s: Seq<(K, V)>, m: Map<K, V>)
    requires
        keys_distinct(s),
        forall|i: int| 0 <= i < s.len() ==> #[trigger] m.dom().contains(s[i].0),
        forall|i: int| 0 <= i < s.len() ==> m[(#[trigger] s[i]).0] == s[i].1,
        forall|k: K| #[trigger] m.dom().contains(k) ==> has_key(s, k),
    ensures
        as_map(s) == m,
{
    assert forall|k: K| #[trigger] as_map(s).dom().contains(k) == m.dom().contains(k) by {
        if has_key(s, k) {
            let i = choose|i: int| 0 <= i < s.len() && (#[trigger] s[i]).0 == k;
            assert(m.dom().contains(s[i].0));
        }
    }
    assert forall|k: K| #[trigger] m.dom().contains(k) implies as_map(s)[k] == m[k] by {
        let i = choose|i: int| 0 <= i < s.len() && (#[trigger] s[i]).0 == k;
        lemma_entry(s, i);
    }
    assert(as_map(s) =~= m);
}

/// Replacing the value of an entry maps its key to the new value.
pub proof fn lemma_set<K, V>(before: Seq<(K, V)>, i: int, v: V)
    requires
        keys_distinct(before),
        0 <= i < before.len(),
    ensures
        keys_distinct(before.update(i, (before[i].0, v))),
        as_map(before.update(i, (before[i].0, v))) == as_map(before).insert(before[i].0, v),
{
    let k = before[i].0;
    let after = before.update(i, (k, v));
    let m = as_map(before).insert(k, v);
    assert forall|j: int| 0 <= j < after.len() implies {
        &&& #[trigger] m.dom().contains(after[j].0)
        &&& m[after[j].0] == after[j].1
    } by {
        lemma_entry(before, j);
    }
    assert forall|q: K| #[trigger] m.dom().contains(q) implies has_key(after, q) by {
        if q == k {
            assert(after[i].0 == q);
        } else {
            let j = choose|j: int| 0 <= j < before.len() && (#[trigger] before[j]).0 == q;
            assert(after[j].0 == q);
        }
    }
    lemma_same_map(after, m);
}

/// Appending an entry under a new key maps the key.
pub proof fn lemma_add<K, V>(before: Seq<(K, V)>, k: K, v: V)
    requires
        keys_distinct(before),
        !has_key(before, k),
    ensures
        keys_distinct(before.push((k, v))),
        as_map(before.push((k, v))) == as_map(before).insert(k, v),
{
    let after = before.push((k, v));
    let m = as_map(before).insert(k, v);
    assert forall|a: int, b: int| 0 <= a < b < after.len() implies (#[trigger] after[a]).0 != (
    #[trigger] after[b]).0 by {
        if b == before.len() {
            assert(before[a].0 != k);
        } else {
            assert(before[a].0 != before[b].0);
        }
    }
    assert forall|j: int| 0 <= j < after.len() implies {
        &&& #[trigger] m.dom().contains(after[j].0)
        &&& m[after[j].0] == after[j].1
    } by {
        if j < before.len() {
            lemma_entry(before, j);
            assert(before[j].0 != k);
        }
    }
    assert forall|q: K| #[trigger] m.dom().contains(q) implies has_key(after, q) by {
        if q == k {
            assert(after[before.len() as int].0 == q);
        } else {
            let j = choose|j: int| 0 <= j < before.len() && (#[trigger] before[j]).0 == q;
            assert(after[j].0 == q);
        }
    }
    lemma_same_map(after, m);
}

/// Taking an entry out takes its key out of the map.
pub proof fn lemma_drop<K, V>(before: Seq<(K, V)>, i: int)
    requires
        keys_distinct(before),
        0 <= i < before.len(),
    ensures
        keys_distinct(before.remove(i)),
        as_map(before.remove(i)) == as_map(before).remove(before[i].0),
{
    let k = before[i].0;
    let after = before.remove(i);
    let m = as_map(before).remove(k);
    let back = |j: int| if j < i { j } else { j + 1 };
    assert forall|j: int| 0 <= j < after.len() implies {
        &&& #[trigger] m.dom().contains(after[j].0)
        &&& m[after[j].0] == after[j].1
    } by {
        lemma_entry(before, back(j));
        assert(after[j] == before[back(j)]);
        assert(before[back(j)].0 != before[i].0);
    }
    assert forall|a: int, b: int| 0 <= a < b < after.len() implies (#[trigger] after[a]).0 != (
    #[trigger] after[b]).0 by {
        assert(after[a] == before[back(a)] && after[b] == before[back(b)]);
    }
    assert forall|q: K| #[trigger] m.dom().contains(q) implies has_key(after, q) by {
        let j = choose|j: int| 0 <= j < before.len() && (#[trigger] before[j]).0 == q;
        assert(j != i);
        let jj = if j < i { j } else { j - 1 };
        assert(after[jj] == before[j]);
    }
    lemma_same_map(after, m);
}

impl<K, V> View for Table<K, V> {
    type V = Map<K, V>;

    closed spec fn view(&self) -> Map<K, V> {
        as_map(self.entries@)
    }
}

impl<K, V> Table<K, V> {
    #[verifier::type_invariant]
    spec fn valid(self) -> bool {
        keys_distinct(self.entries@)
    }
}

impl<K: Key, V> Table<K, V> {
    /// An empty table.
    pub fn new() -> (t: Self)
        ensures
            t@ == Map::<K, V>::empty(),
    {
        let t = Table { entries: Vec::new() };
        assert(t@ =~= Map::<K, V>::empty());
        t
    }

    fn position(&self, k: K) -> (r: Option<usize>)
        ensures
            r is Some <==> self@.dom().contains(k),
            r matches Some(i) ==> i < self.entries@.len() && self.entries@[i as int].0 == k,
    {
        let mut i: usize = 0;
        while i < self.entries.len()
            invariant
                i <= self.entries@.len(),
                forall|j: int| 0 <= j < i ==> (#[trigger] self.entries@[j]).0 != k,
            decreases self.entries@.len() - i,
        {
            if self.entries[i].0.same(&k) {
                assert(has_key(self.entries@, k));
                return Some(i);
            }
            i = i + 1;
        }
        None
    }

    /// Whether there is a value under `k`.
    pub fn contains(&self, k: K) -> (r: bool)
        ensures
            r == self@.dom().contains(k),
    {
        self.position(k).is_some()
    }

    /// Puts `v` under `k`, in place of what was there.
    pub fn insert(&mut self, k: K, v: V)
        ensures
            final(self)@ == old(self)@.insert(k, v),
    {
        proof {
            use_type_invariant(&*self);
        }
        let at = self.position(k);
        let mut entries: Vec<(K, V)> = Vec::new();
        std::mem::swap(&mut entries, &mut self.entries);
        let ghost before = entries@;
        match at {
            Some(i) => {
                entries[i] = (k, v);
                proof {
                    lemma_set(before, i as int, v);
                }
            },
            None => {
                entries.push((k, v));
                proof {
                    lemma_add(before, k, v);
                }
            },
        }
        self.entries = entries;
    }

    /// Takes what is under `k` out of the table.
    pub fn take(&mut self, k: K) -> (r: Option<V>)
        ensures
            final(self)@ == old(self)@.remove(k),
            r == (if old(self)@.dom().contains(k) {
                Some(old(self)@[k])
            } else {
                None::<V>
            }),
    {
        proof {
            use_type_invariant(&*self);
        }
        let at = self.position(k);
        match at {
            None => {
                assert(self@.remove(k) =~= self@);
                None
            },
            Some(i) => {
                let mut entries: Vec<(K, V)> = Vec::new();
                std::mem::swap(&mut entries, &mut self.entries);
                proof {
                    lemma_drop(entries@, i as int);
                    lemma_entry(entries@, i as int);
                }
                let e = entries.remove(i);
                self.entries = entries;
                Some(e.1)
            },
        }
    }

    /// Takes `k` out of the table, and says whether it was there.
    pub fn remove(&mut self, k: K) -> (r: bool)
        ensures
            final(self)@ == old(self)@.remove(k),
            r == old(self)@.dom().contains(k),
    {
        self.take(k).is_some()
    }
}

impl<K: Key, V: Copy> Table<K, V> {
    /// The value under `k`.
    pub fn get(&self, k: K) -> (r: Option<V>)
        ensures
            r == (if self@.dom().contains(k) {
                Some(self@[k])
            } else {
                None::<V>
            }),
    {
        proof {
            use_type_invariant(self);
        }
        match self.position(k) {
            Some(i) => {
                proof {
                    lemma_entry(self.entries@, i as int);
                }
                Some(self.entries[i].1)
            },
            None => None,
        }
    }

    /// How many keys the table holds.
    pub fn len(&self) -> (n: usize)
        ensures
            self@.dom().finite(),
            n == self@.dom().len(),
    {
        proof {
            use_type_invariant(self);
            lemma_map_len(self.entries@);
        }
        self.entries.len()
    }

    /// Whether some value is one that `cond` wants.
    pub fn any<F: Keep<V>>(&self, cond: &F) -> (r: bool)
        ensures
            r == exists|k: K| #[trigger] self@.dom().contains(k) && cond.wants(self@[k]),
    {
        proof {
            use_type_invariant(self);
        }
        let mut i: usize = 0;
        while i < self.entries.len()
            invariant
                i <= self.entries@.len(),
                keys_distinct(self.entries@),
                forall|j: int|
                    0 <= j < i ==> !cond.wants((#[trigger] self.entries@[j]).1),
            decreases self.entries@.len() - i,
        {
            if cond.test(&self.entries[i].1) {
                proof {
                    lemma_entry(self.entries@, i as int);
                    let k = self.entries@[i as int].0;
                    assert(self@.dom().contains(k) && cond.wants(self@[k]));
                }
                return true;
            }
            i = i + 1;
        }
        proof {
            assert forall|k: K| #[trigger] self@.dom().contains(k) implies !cond.wants(
                self@[k],
            ) by {
                let j = choose|j: int|
                    0 <= j < self.entries@.len() && (#[trigger] self.entries@[j]).0 == k;
                lemma_entry(self.entries@, j);
            }
        }
        false
    }

    /// All entries, each key once, in no particular order.
    pub fn entries(&self) -> (r: Vec<(K, V)>)
        ensures
            keys_distinct(r@),
            as_map(r@) == self@,
    {
        proof {
            use_type_invariant(self);
        }
        let mut r: Vec<(K, V)> = Vec::new();
        let mut i: usize = 0;
        while i < self.entries.len()
            invariant
                i <= self.entries@.len(),
                r@ == self.entries@.take(i as int),
            decreases self.entries@.len() - i,
        {
            r.push(self.entries[i]);
            assert(self.entries@.take(i as int + 1) =~= self.entries@.take(i as int).push(
                self.entries@[i as int],
            ));
            i = i + 1;
        }
        assert(self.entries@.take(i as int) =~= self.entries@);
        r
    }

    /// Keeps the entries whose value `keep` wants.
    pub fn retain<F: Keep<V>>(&mut self, keep: &F)
        ensures
            final(self)@ == kept(old(self)@, |v: V| keep.wants(v)),
    {
        proof {
            use_type_invariant(&*self);
        }
        let ghost wanted = |v: V| keep.wants(v);
        let mut before: Vec<(K, V)> = Vec::new();
        std::mem::swap(&mut before, &mut self.entries);
        let mut entries: Vec<(K, V)> = Vec::new();
        let mut i: usize = 0;
        while i < before.len()
            invariant
                i <= before@.len(),
                keys_distinct(before@),
                keys_distinct(entries@),
                wanted == (|v: V| keep.wants(v)),
                forall|j: int|
                    0 <= j < entries@.len() ==> is_kept(
                        before@,
                        i as int,
                        #[trigger] entries@[j],
                        wanted,
                    ),
                forall|p: int|
                    0 <= p < i && wanted((#[trigger] before@[p]).1) ==> entries@.contains(
                        before@[p],
                    ),
            decreases before@.len() - i,
        {
            let e = before[i];
            let ghost prev = entries@;
            if keep.test(&e.1) {
                entries.push(e);
                proof {
                    assert(entries@[prev.len() as int] == e);
                    assert forall|x: (K, V)| prev.contains(x) implies entries@.contains(x) by {
                        let j = prev.index_of(x);
                        assert(entries@[j] == x);
                    }
                    assert forall|a: int, b: int| 0 <= a < b < entries@.len() implies (
                    #[trigger] entries@[a]).0 != (#[trigger] entries@[b]).0 by {
                        assert(prev[a] == entries@[a]);
                        if b == prev.len() {
                            assert(is_kept(before@, i as int, prev[a], wanted));
                        } else {
                            assert(prev[b] == entries@[b]);
                        }
                    }
                }
            }
            proof {
                assert forall|j: int| 0 <= j < entries@.len() implies is_kept(
                    before@,
                    i + 1,
                    #[trigger] entries@[j],
                    wanted,
                ) by {
                    if j < prev.len() {
                        assert(is_kept(before@, i as int, prev[j], wanted));
                        let p = choose|p: int| 0 <= p < i && #[trigger] before@[p] == prev[j];
                        assert(before@[p] == entries@[j]);
                    } else {
                        assert(before@[i as int] == entries@[j]);
                    }
                }
            }
            i = i + 1;
        }
        proof {
            let m = kept(as_map(before@), wanted);
            assert forall|j: int| 0 <= j < entries@.len() implies {
                &&& #[trigger] m.dom().contains(entries@[j].0)
                &&& m[entries@[j].0] == entries@[j].1
            } by {
                assert(is_kept(before@, i as int, entries@[j], wanted));
                let p = choose|p: int| 0 <= p < i && #[trigger] before@[p] == entries@[j];
                lemma_entry(before@, p);
            }
            assert forall|q: K| #[trigger] m.dom().contains(q) implies has_key(entries@, q) by {
                let p = choose|p: int|
                    0 <= p < before@.len() && (#[trigger] before@[p]).0 == q;
                lemma_entry(before@, p);
                assert(entries@.contains(before@[p]));
                let j = entries@.index_of(before@[p]);
                assert(entries@[j].0 == q);
            }
            lemma_same_map(entries@, m);
        }
        self.entries = entries;
    }
}

/// Whether `e` is one of the first `n` entries and has a wanted value.
spec fn is_kept<K, V>(s: Seq<(K, V)>, n: int, e: (K, V), wanted: spec_fn(V) -> bool) -> bool {
    wanted(e.1) && exists|p: int| 0 <= p < n && #[trigger] s[p] == e
}

/// `m` without the keys whose value is not `wanted`.
pub open spec fn kept<K, V>(m: Map<K, V>, wanted: spec_fn(V) -> bool) -> Map<K, V> {
    Map::new(|k: K| m.dom().contains(k) && wanted(m[k]), |k: K| m[k])
}

proof fn lemma_map_len<K, V>(s: Seq<(K, V)>)
    requires
        keys_distinct(s),
    ensures
        as_map(s).dom().finite(),
        as_map(s).dom().len() == s.len(),
    decreases s.len(),
{
    if s.len() == 0 {
        assert(as_map(s).dom() =~= Set::<K>::empty());
    } else {
        let t = s.drop_last();
        lemma_map_len(t);
        let k = s.last().0;
        assert(!has_key(t, k)) by {
            if has_key(t, k) {
                let i = choose|i: int| 0 <= i < t.len() && (#[trigger] t[i]).0 == k;
                assert(s[i].0 != s[s.len() - 1].0);
            }
        }
        assert forall|q: K| has_key(s, q) <==> (q == k || has_key(t, q)) by {
            if has_key(s, q) {
                let i = choose|i: int| 0 <= i < s.len() && (#[trigger] s[i]).0 == q;
                if i < t.len() {
                    assert(t[i].0 == q);
                }
            }
            if has_key(t, q) {
                let i = choose|i: int| 0 <= i < t.len() && (#[trigger] t[i]).0 == q;
                assert(s[i].0 == q);
            }
            if q == k {
                assert(s[s.len() - 1].0 == q);
            }
        }
        assert(as_map(s).dom() =~= as_map(t).dom().insert(k));
    }
}

} // verus!
