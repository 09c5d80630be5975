//! Values of a request or an event, as plain data.

use vstd::prelude::*;

use crate::text::str_eq;

verus! {

/// A value.
#[derive(Debug)]
pub enum Json {
    Null,
    Bool(bool),
    /// A number that fits in 64 bits without a sign.
    Unsigned(u64),
    /// Any other number, as it is written.
    Number(String),
    Text(String),
    List(Vec<Json>),
    Object(Vec<(String, Json)>),
}

/// The value of a key.
pub open spec fn find_key(pairs: Seq<(String, Json)>, key: Seq<char>) -> Option<Json>
    decreases pairs.len(),
{
    if pairs.len() == 0 {
        None
    } else if pairs[0].0@ == key {
        Some(pairs[0].1)
    } else {
        find_key(pairs.skip(1), key)
    }
}

/// The value under a key of an object.
pub open spec fn member(j: Json, key: Seq<char>) -> Option<Json> {
    match j {
        Json::Object(pairs) => find_key(pairs@, key),
        _ => None,
    }
}

/// The string under a key.
pub open spec fn text_at(j: Json, key: Seq<char>) -> Option<Seq<char>> {
    match member(j, key) {
        Some(Json::Text(s)) => Some(s@),
        _ => None,
    }
}

/// The flag under a key, or `false`.
pub open spec fn flag_at(j: Json, key: Seq<char>) -> bool {
    match member(j, key) {
        Some(Json::Bool(b)) => b,
        _ => false,
    }
}

/// The number under a key.
pub open spec fn number_at(j: Json, key: Seq<char>) -> Option<u64> {
    match member(j, key) {
        Some(Json::Unsigned(n)) => Some(n),
        _ => None,
    }
}

/// The strings among the values.
pub open spec fn texts_of(items: Seq<Json>) -> Seq<Seq<char>>
    decreases items.len(),
{
    if items.len() == 0 {
        Seq::empty()
    } else {
        let front = texts_of(items.drop_last());
        match items.last() {
            Json::Text(s) => front.push(s@),
            _ => front,
        }
    }
}

/// The strings in the list under a key.
pub open spec fn texts_at(j: Json, key: Seq<char>) -> Seq<Seq<char>> {
    match member(j, key) {
        Some(Json::List(items)) => texts_of(items@),
        _ => Seq::empty(),
    }
}

impl Json {
    /// The value under a key of an object.
    pub fn get(&self, key: &str) -> (r: Option<&Json>)
        ensures
            r is Some <==> member(*self, key@) is Some,
            r matches Some(v) ==> member(*self, key@) == Some(*v),
    {
        match self {
            Json::Object(pairs) => {
                let mut i: usize = 0;
                assert(pairs@.skip(0) =~= pairs@);
                while i < pairs.len()
                    invariant
                        i <= pairs@.len(),
                        *self == Json::Object(*pairs),
                        find_key(pairs@.skip(i as int), key@) == find_key(pairs@, key@),
                    decreases pairs@.len() - i,
                {
                    assert(pairs@.skip(i as int).skip(1) =~= pairs@.skip(i + 1));
                    assert(pairs@.skip(i as int)[0] == pairs@[i as int]);
                    if str_eq(pairs[i].0.as_str(), key) {
                        return Some(&pairs[i].1);
                    }
                    i = i + 1;
                }
                None
            },
            _ => None,
        }
    }

    /// The string under a key.
    pub fn text(&self, key: &str) -> (r: Option<String>)
        ensures
            r.deep_view() == text_at(*self, key@),
    {
        match self.get(key) {
            Some(Json::Text(s)) => Some(s.clone()),
            _ => None,
        }
    }

    /// The flag under a key, or `false`.
    pub fn flag(&self, key: &str) -> (r: bool)
        ensures
            r == flag_at(*self, key@),
    {
        match self.get(key) {
            Some(Json::Bool(b)) => *b,
            _ => false,
        }
    }

    /// The number under a key.
    pub fn number(&self, key: &str) -> (r: Option<u64>)
        ensures
            r == number_at(*self, key@),
    {
        match self.get(key) {
            Some(Json::Unsigned(n)) => Some(*n),
            _ => None,
        }
    }

    /// The strings in the list under a key.
    pub fn texts(&self, key: &str) -> (r: Vec<String>)
        ensures
            r.deep_view() == texts_at(*self, key@),
    {
        let mut out: Vec<String> = Vec::new();
        assert(out.deep_view() =~= Seq::empty());
        match self.get(key) {
            Some(Json::List(items)) => {
                let mut i: usize = 0;
                assert(items@.take(0) =~= Seq::empty());
                while i < items.len()
                    invariant
                        i <= items@.len(),
                        out.deep_view() == texts_of(items@.take(i as int)),
                    decreases items@.len() - i,
                {
                    proof {
                        let t = items@.take(i as int + 1);
                        assert(t.drop_last() =~= items@.take(i as int));
                        assert(t.last() == items@[i as int]);
                    }
                    if let Json::Text(s) = &items[i] {
                        let ghost was = out.deep_view();
                        out.push(s.clone());
                        assert(out.deep_view() =~= was.push(s@));
                    }
                    i = i + 1;
                }
                assert(items@.take(i as int) =~= items@);
            },
            _ => {},
        }
        out
    }
}

// -- laws -----------------------------------------------------------------------------

/// The value under a key is that of the first pair with this key; without such a
/// pair, or outside an object, there is none.
pub proof fn first_pair_counts(pairs: Vec<(String, Json)>, key: Seq<char>, i: int)
    ensures
        0 <= i < pairs@.len() && pairs@[i].0@ == key && (forall|j: int|
            0 <= j < i ==> (#[trigger] pairs@[j]).0@ != key) ==> member(Json::Object(pairs), key)
            == Some(pairs@[i].1),
        (forall|j: int| 0 <= j < pairs@.len() ==> (#[trigger] pairs@[j]).0@ != key) ==> member(
            Json::Object(pairs),
            key,
        ) is None,
        forall|j: Json| !(j is Object) ==> #[trigger] member(j, key) is None,
{
    lemma_first_pair(pairs@, key, i);
}

proof fn lemma_first_pair(pairs: Seq<(String, Json)>, key: Seq<char>, i: int)
    ensures
        0 <= i < pairs.len() && pairs[i].0@ == key && (forall|j: int|
            0 <= j < i ==> (#[trigger] pairs[j]).0@ != key) ==> find_key(pairs, key) == Some(
            pairs[i].1,
        ),
        (forall|j: int| 0 <= j < pairs.len() ==> (#[trigger] pairs[j]).0@ != key) ==> find_key(
            pairs,
            key,
        ) is None,
    decreases pairs.len(),
{
    if pairs.len() > 0 {
        let t = pairs.skip(1);
        lemma_first_pair(t, key, i - 1);
        assert forall|j: int| 0 <= j < t.len() implies #[trigger] t[j] == pairs[j + 1] by {}
        if pairs[0].0@ != key {
            if 0 < i < pairs.len() {
                assert(t[i - 1] == pairs[i]);
            }
        } else if 0 < i {
            assert((forall|j: int| 0 <= j < i ==> (#[trigger] pairs[j]).0@ != key)
                ==> pairs[0].0@ != key);
        }
    }
}

/// A list of strings is read whole and in order, and what is no string is left
/// out.
pub proof fn strings_are_read_in_order(a: Seq<Json>, b: Seq<Json>, s: String, other: Json)
    ensures
        texts_of(a + b) == texts_of(a) + texts_of(b),
        texts_of(seq![Json::Text(s)]) == seq![s@],
        !(other is Text) ==> texts_of(seq![other]).len() == 0,
        texts_of(Seq::<Json>::empty()).len() == 0,
    decreases b.len(),
{
    lemma_one_text(Json::Text(s));
    lemma_one_text(other);
    if b.len() == 0 {
        assert(a + b =~= a);
        assert(texts_of(a) + texts_of(b) =~= texts_of(a));
    } else {
        strings_are_read_in_order(a, b.drop_last(), s, other);
        assert((a + b).drop_last() =~= a + b.drop_last());
        assert((a + b).last() == b.last());
        assert(texts_of(a + b) =~= texts_of(a) + texts_of(b));
    }
}

proof fn lemma_one_text(j: Json)
    ensures
        texts_of(seq![j]) == match j {
            Json::Text(s) => seq![s@],
            _ => Seq::empty(),
        },
{
    let all = seq![j];
    assert(all.drop_last() =~= Seq::<Json>::empty());
    assert(texts_of(all.drop_last()) =~= Seq::<Seq<char>>::empty());
    assert(all.last() == j);
    if let Json::Text(s) = j {
        assert(Seq::<Seq<char>>::empty().push(s@) =~= seq![s@]);
    }
}

/// A value is read only as what it is: a string as a string, a flag as a flag, a
/// number as a number, a list as its strings.
pub proof fn values_are_read_as_what_they_are(j: Json, key: Seq<char>)
    ensures
        text_at(j, key) is Some <==> (member(j, key) matches Some(v) && v is Text),
        member(j, key) matches Some(Json::Text(s)) ==> text_at(j, key) == Some(s@),
        flag_at(j, key) <==> member(j, key) == Some(Json::Bool(true)),
        number_at(j, key) matches Some(n) ==> member(j, key) == Some(Json::Unsigned(n)),
        member(j, key) matches Some(Json::Unsigned(n)) ==> number_at(j, key) == Some(n),
        member(j, key) matches Some(Json::List(items)) ==> texts_at(j, key) == texts_of(items@),
        !(member(j, key) matches Some(v) && v is List) ==> texts_at(j, key).len() == 0,
{
}

} // verus!
