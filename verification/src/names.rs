//! A table whose keys are names, kept in the order of the names.

use vstd::prelude::*;

use crate::text::{
    lemma_text_le_antisym, lemma_text_le_total, lemma_text_le_trans, str_eq, str_le, text_le,
};

verus! {

/// Whether `a` comes before `b` in the order of characters.
pub open spec fn text_lt(a: Seq<char>, b: Seq<char>) -> bool {
    text_le(a, b) && a != b
}

/// A table whose keys are names.
pub struct NameMap<V> {
    entries: Vec<(String, V)>,
}

spec fn ordered<V>(entries: Seq<(String, V)>) -> bool {
    forall|i: int, j: int|
        0 <= i < j < entries.len() ==> text_lt(
            (#[trigger] entries[i]).0@,
            (#[trigger] entries[j]).0@,
        )
}

spec fn holds_name<V>(entries: Seq<(String, V)>, name: Seq<char>) -> bool {
    exists|i: int| 0 <= i < entries.len() && (#[trigger] entries[i]).0@ == name
}

spec fn place_of<V>(entries: Seq<(String, V)>, name: Seq<char>) -> int {
    choose|i: int| 0 <= i < entries.len() && (#[trigger] entries[i]).0@ == name
}

spec fn contents<V>(entries: Seq<(String, V)>) -> Map<Seq<char>, V> {
    Map::new(
        |n: Seq<char>| holds_name(entries, n),
        |n: Seq<char>| entries[place_of(entries, n)].1,
    )
}

impl<V> View for NameMap<V> {
    type V = Map<Seq<char>, V>;

    closed spec fn view(&self) -> Map<Seq<char>, V> {
        contents(self.entries@)
    }
}

proof fn lemma_entry<V>(entries: Seq<(String, V)>, i: int)
    requires
        ordered(entries),
        0 <= i < entries.len(),
    ensures
        contents(entries).dom().contains(entries[i].0@),
        contents(entries)[entries[i].0@] == entries[i].1,
{
    let n = entries[i].0@;
    assert(holds_name(entries, n));
    let j = place_of(entries, n);
    if i < j {
        assert(text_lt(entries[i].0@, entries[j].0@));
    } else if j < i {
        assert(text_lt(entries[j].0@, entries[i].0@));
    }
}

proof fn lemma_absent<V>(entries: Seq<(String, V)>, name: Seq<char>, at: int)
    requires
        ordered(entries),
        0 <= at <= entries.len(),
        forall|j: int| 0 <= j < at ==> text_lt((#[trigger] entries[j]).0@, name),
        at < entries.len() ==> text_lt(name, entries[at].0@),
    ensures
        forall|j: int| at <= j < entries.len() ==> text_lt(name, (#[trigger] entries[j]).0@),
        !holds_name(entries, name),
{
    assert forall|j: int| at <= j < entries.len() implies text_lt(
        name,
        (#[trigger] entries[j]).0@,
    ) by {
        if at < j {
            assert(text_lt(entries[at].0@, entries[j].0@));
            lemma_text_le_trans(name, entries[at].0@, entries[j].0@);
            if name == entries[j].0@ {
                lemma_text_le_antisym(entries[at].0@, entries[j].0@);
            }
        }
    }
}

impl<V> NameMap<V> {
    #[verifier::type_invariant]
    spec fn valid(self) -> bool {
        ordered(self.entries@)
    }

    /// The names, in order.
    pub closed spec fn names(&self) -> Seq<Seq<char>> {
        Seq::new(self.entries@.len(), |i: int| self.entries@[i].0@)
    }

    pub fn new() -> (r: Self)
        ensures
            r@ == Map::<Seq<char>, V>::empty(),
            r.names() == Seq::<Seq<char>>::empty(),
    {
        let r = NameMap { entries: Vec::new() };
        assert(r@ =~= Map::<Seq<char>, V>::empty());
        assert(r.names() =~= Seq::<Seq<char>>::empty());
        r
    }

    pub fn len(&self) -> (r: usize)
        ensures
            r == self.names().len(),
    {
        self.entries.len()
    }

    /// The names are those in the table, each once, in order.
    pub proof fn names_are_ordered(&self)
        requires
            self.sound(),
        ensures
            forall|i: int, j: int|
                0 <= i < j < self.names().len() ==> text_lt(
                    #[trigger] self.names()[i],
                    #[trigger] self.names()[j],
                ),
            forall|n: Seq<char>| #[trigger]
                self.names().contains(n) <==> self@.dom().contains(n),
    {
        let e = self.entries@;
        assert forall|n: Seq<char>| #[trigger] self.names().contains(n) implies self@.dom().contains(
            n,
        ) by {
            let i = choose|i: int| 0 <= i < self.names().len() && self.names()[i] == n;
            assert(e[i].0@ == n);
        }
        assert forall|n: Seq<char>| self@.dom().contains(n) implies #[trigger] self.names().contains(
            n,
        ) by {
            let i = place_of(e, n);
            assert(self.names()[i] == n);
        }
    }

    /// What the table always is.
    pub closed spec fn sound(&self) -> bool {
        ordered(self.entries@)
    }

    /// Every table in use is sound.
    pub fn check_sound(&self)
        ensures
            self.sound(),
    {
        proof {
            use_type_invariant(self);
        }
    }

    /// The name at a place, and what it stands for.
    pub fn at(&self, i: usize) -> (r: (&String, &V))
        requires
            i < self.names().len(),
        ensures
            r.0@ == self.names()[i as int],
            self@.dom().contains(r.0@),
            *r.1 == self@[r.0@],
    {
        proof {
            use_type_invariant(self);
            lemma_entry(self.entries@, i as int);
        }
        let e = &self.entries[i];
        (&e.0, &e.1)
    }

    fn find(&self, name: &str) -> (r: (usize, bool))
        ensures
            r.0 <= self.entries@.len(),
            r.1 ==> r.0 < self.entries@.len() && self.entries@[r.0 as int].0@ == name@,
            !r.1 ==> {
                &&& forall|j: int|
                    0 <= j < r.0 ==> text_lt((#[trigger] self.entries@[j]).0@, name@)
                &&& r.0 < self.entries@.len() ==> text_lt(name@, self.entries@[r.0 as int].0@)
                &&& !holds_name(self.entries@, name@)
            },
    {
        proof {
            use_type_invariant(self);
        }
        let mut i: usize = 0;
        while i < self.entries.len()
            invariant
                i <= self.entries@.len(),
                ordered(self.entries@),
                forall|j: int| 0 <= j < i ==> text_lt((#[trigger] self.entries@[j]).0@, name@),
            decreases self.entries@.len() - i,
        {
            let e = self.entries[i].0.as_str();
            if str_eq(e, name) {
                return (i, true);
            }
            if !str_le(e, name) {
                proof {
                    lemma_text_le_total(e@, name@);
                    lemma_absent(self.entries@, name@, i as int);
                }
                return (i, false);
            }
            i = i + 1;
        }
        proof {
            lemma_absent(self.entries@, name@, i as int);
        }
        (i, false)
    }

    pub fn contains(&self, name: &str) -> (r: bool)
        ensures
            r == self@.dom().contains(name@),
    {
        let (_, found) = self.find(name);
        assert(found ==> holds_name(self.entries@, name@));
        found
    }

    pub fn get(&self, name: &str) -> (r: Option<&V>)
        ensures
            r is Some <==> self@.dom().contains(name@),
            r matches Some(v) ==> self@[name@] == *v,
    {
        let (i, found) = self.find(name);
        if found {
            proof {
                use_type_invariant(self);
                lemma_entry(self.entries@, i as int);
            }
            Some(&self.entries[i].1)
        } else {
            None
        }
    }

    /// Take what a name stands for out of the table.
    pub fn remove(&mut self, name: &str) -> (r: Option<V>)
        ensures
            r is Some <==> old(self)@.dom().contains(name@),
            r matches Some(v) ==> old(self)@[name@] == v,
            final(self)@ == old(self)@.remove(name@),
    {
        let (i, found) = self.find(name);
        let ghost e = self.entries@;
        proof {
            use_type_invariant(&*self);
        }
        if !found {
            assert(self@ =~= old(self)@.remove(name@));
            return None;
        }
        proof {
            lemma_entry(e, i as int);
        }
        let mut entries: Vec<(String, V)> = Vec::new();
        std::mem::swap(&mut entries, &mut self.entries);
        let (_, v) = entries.remove(i);
        proof {
            lemma_remove(e, entries@, i as int);
        }
        self.entries = entries;
        Some(v)
    }

    /// Let a name stand for a value.
    pub fn insert(&mut self, name: &str, value: V)
        ensures
            final(self)@ == old(self)@.insert(name@, value),
    {
        let (i, found) = self.find(name);
        let ghost e = self.entries@;
        proof {
            use_type_invariant(&*self);
        }
        let mut entries: Vec<(String, V)> = Vec::new();
        std::mem::swap(&mut entries, &mut self.entries);
        let entry = (name.to_owned(), value);
        if found {
            entries.set(i, entry);
            proof {
                lemma_replace(e, i as int, entry);
            }
        } else {
            entries.insert(i, entry);
            proof {
                lemma_insert(e, i as int, entry);
            }
        }
        self.entries = entries;
    }
}

proof fn lemma_remove<V>(e: Seq<(String, V)>, r: Seq<(String, V)>, i: int)
    requires
        ordered(e),
        0 <= i < e.len(),
        r == e.remove(i),
    ensures
        ordered(r),
        contents(r) == contents(e).remove(e[i].0@),
{
    assert forall|a: int, b: int| 0 <= a < b < r.len() implies text_lt(
        (#[trigger] r[a]).0@,
        (#[trigger] r[b]).0@,
    ) by {
        let x = if a < i {
            a
        } else {
            a + 1
        };
        let y = if b < i {
            b
        } else {
            b + 1
        };
        assert(r[a] == e[x] && r[b] == e[y]);
    }
    let n = e[i].0@;
    assert forall|m: Seq<char>| contents(r).dom().contains(m) implies contents(
        e,
    ).dom().contains(m) && m != n && contents(r)[m] == contents(e)[m] by {
        let a = place_of(r, m);
        let x = if a < i {
            a
        } else {
            a + 1
        };
        assert(r[a] == e[x]);
        lemma_entry(r, a);
        lemma_entry(e, x);
        if m == n {
            if x < i {
                assert(text_lt(e[x].0@, e[i].0@));
            } else {
                assert(text_lt(e[i].0@, e[x].0@));
            }
        }
    }
    assert forall|m: Seq<char>| contents(e).dom().contains(m) && m != n implies contents(
        r,
    ).dom().contains(m) by {
        let x = place_of(e, m);
        let a = if x < i {
            x
        } else {
            x - 1
        };
        assert(r[a] == e[x]);
    }
    assert(contents(r) =~= contents(e).remove(n));
}

proof fn lemma_replace<V>(e: Seq<(String, V)>, i: int, entry: (String, V))
    requires
        ordered(e),
        0 <= i < e.len(),
        entry.0@ == e[i].0@,
    ensures
        ordered(e.update(i, entry)),
        contents(e.update(i, entry)) == contents(e).insert(entry.0@, entry.1),
{
    let r = e.update(i, entry);
    let n = entry.0@;
    assert forall|a: int, b: int| 0 <= a < b < r.len() implies text_lt(
        (#[trigger] r[a]).0@,
        (#[trigger] r[b]).0@,
    ) by {
        assert(text_lt(e[a].0@, e[b].0@));
    }
    lemma_entry(r, i);
    assert forall|m: Seq<char>| contents(r).dom().contains(m) implies contents(e).insert(
        n,
        entry.1,
    ).dom().contains(m) && contents(r)[m] == contents(e).insert(n, entry.1)[m] by {
        let a = place_of(r, m);
        lemma_entry(r, a);
        lemma_entry(e, a);
        if a != i {
            if a < i {
                assert(text_lt(e[a].0@, e[i].0@));
            } else {
                assert(text_lt(e[i].0@, e[a].0@));
            }
        }
    }
    assert forall|m: Seq<char>| contents(e).dom().contains(m) implies contents(r).dom().contains(
        m,
    ) by {
        let a = place_of(e, m);
        assert(r[a].0@ == m);
    }
    assert(contents(r) =~= contents(e).insert(n, entry.1));
}

proof fn lemma_insert<V>(e: Seq<(String, V)>, i: int, entry: (String, V))
    requires
        ordered(e),
        0 <= i <= e.len(),
        forall|j: int| 0 <= j < i ==> text_lt((#[trigger] e[j]).0@, entry.0@),
        i < e.len() ==> text_lt(entry.0@, e[i].0@),
    ensures
        ordered(e.insert(i, entry)),
        contents(e.insert(i, entry)) == contents(e).insert(entry.0@, entry.1),
{
    let r = e.insert(i, entry);
    let n = entry.0@;
    lemma_absent(e, n, i);
    assert forall|a: int, b: int| 0 <= a < b < r.len() implies text_lt(
        (#[trigger] r[a]).0@,
        (#[trigger] r[b]).0@,
    ) by {
        if a < i && b < i {
            assert(text_lt(e[a].0@, e[b].0@));
        } else if a < i && b == i {
            assert(text_lt(e[a].0@, n));
        } else if a < i {
            assert(text_lt(e[a].0@, e[b - 1].0@));
        } else if a == i {
            assert(text_lt(n, e[b - 1].0@));
        } else {
            assert(text_lt(e[a - 1].0@, e[b - 1].0@));
        }
    }
    lemma_entry(r, i);
    assert forall|m: Seq<char>| contents(r).dom().contains(m) implies contents(e).insert(
        n,
        entry.1,
    ).dom().contains(m) && contents(r)[m] == contents(e).insert(n, entry.1)[m] by {
        let a = place_of(r, m);
        lemma_entry(r, a);
        if a < i {
            lemma_entry(e, a);
            assert(text_lt(e[a].0@, n));
        } else if a > i {
            lemma_entry(e, a - 1);
            assert(text_lt(n, e[a - 1].0@));
        }
    }
    assert forall|m: Seq<char>| contents(e).insert(n, entry.1).dom().contains(m) implies contents(
        r,
    ).dom().contains(m) by {
        if m == n {
            assert(r[i].0@ == m);
        } else {
            let a = place_of(e, m);
            if a < i {
                assert(r[a] == e[a]);
            } else {
                assert(r[a + 1] == e[a]);
            }
        }
    }
    assert(contents(r) =~= contents(e).insert(n, entry.1));
}

} // verus!
