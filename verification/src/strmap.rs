//! A map from texts to values that remembers the order in which its keys came.

use vstd::hash_map::StringHashMap;
use vstd::prelude::*;

verus! {

/// Where a key first stands in a list of pairs.
pub open spec fn place<V>(s: Seq<(Seq<char>, V)>, k: Seq<char>) -> Option<int>
    decreases s.len(),
{
    if s.len() == 0 {
        None
    } else {
        match place(s.drop_last(), k) {
            Some(i) => Some(i),
            None => if s.last().0 == k {
                Some(s.len() - 1)
            } else {
                None
            },
        }
    }
}

/// The value that a list of pairs gives a key.
pub open spec fn assoc<V>(s: Seq<(Seq<char>, V)>, k: Seq<char>) -> Option<V> {
    match place(s, k) {
        Some(i) => Some(s[i].1),
        None => None,
    }
}

/// Gives a key a value. A new key comes last; a key that is there keeps its place.
pub open spec fn put<V>(s: Seq<(Seq<char>, V)>, k: Seq<char>, v: V) -> Seq<(Seq<char>, V)> {
    match place(s, k) {
        Some(i) => s.update(i, (k, v)),
        None => s.push((k, v)),
    }
}

/// The list with each value replaced by what `f` makes of it.
pub open spec fn mapped<V, W>(s: Seq<(Seq<char>, V)>, f: spec_fn(V) -> W) -> Seq<(Seq<char>, W)> {
    s.map_values(|e: (Seq<char>, V)| (e.0, f(e.1)))
}

/// No key stands twice.
pub open spec fn distinct_keys<V>(s: Seq<(Seq<char>, V)>) -> bool {
    forall|i: int, j: int|
        0 <= i < j < s.len() ==> (#[trigger] s[i]).0 != (#[trigger] s[j]).0
}

/// A place is where the key first stands; without one it stands nowhere.
pub proof fn lemma_place<V>(s: Seq<(Seq<char>, V)>, k: Seq<char>)
    ensures
        match place(s, k) {
            Some(i) => 0 <= i < s.len() && s[i].0 == k && forall|j: int|
                0 <= j < i ==> (#[trigger] s[j]).0 != k,
            None => forall|j: int| 0 <= j < s.len() ==> (#[trigger] s[j]).0 != k,
        },
    decreases s.len(),
{
    if s.len() > 0 {
        lemma_place(s.drop_last(), k);
        assert forall|j: int| 0 <= j < s.len() - 1 implies s.drop_last()[j] == #[trigger] s[j] by {}
    }
}

/// Where a key stands once, its place is there.
pub proof fn lemma_place_at<V>(s: Seq<(Seq<char>, V)>, i: int)
    requires
        distinct_keys(s),
        0 <= i < s.len(),
    ensures
        place(s, s[i].0) == Some(i),
{
    lemma_place(s, s[i].0);
}

/// What was put at a key is what is found there, and nothing else changes.
pub proof fn law_put_then_get<V>(s: Seq<(Seq<char>, V)>, k: Seq<char>, v: V)
    ensures
        forall|q: Seq<char>| #[trigger]
            assoc(put(s, k, v), q) == if q == k {
                Some(v)
            } else {
                assoc(s, q)
            },
        distinct_keys(s) ==> distinct_keys(put(s, k, v)),
{
    lemma_place(s, k);
    assert forall|q: Seq<char>| #[trigger]
        assoc(put(s, k, v), q) == if q == k {
            Some(v)
        } else {
            assoc(s, q)
        } by {
        lemma_place(s, q);
        lemma_place(put(s, k, v), q);
        let t = put(s, k, v);
        match place(s, k) {
            Some(i) => {
                assert(t[i] == (k, v));
                assert(forall|j: int| 0 <= j < s.len() && j != i ==> t[j] == s[j]);
                if q == k {
                    assert(place(t, q) == Some(i));
                } else {
                    match place(s, q) {
                        Some(j) => {
                            assert(t[j] == s[j]);
                        },
                        None => {},
                    }
                    assert(place(t, q) == place(s, q));
                }
            },
            None => {
                assert(t.drop_last() =~= s);
            },
        }
    }
}

/// Mapping the values commutes with finding and putting.
pub proof fn lemma_mapped<V, W>(s: Seq<(Seq<char>, V)>, f: spec_fn(V) -> W)
    ensures
        mapped(s, f).len() == s.len(),
        forall|k: Seq<char>| #[trigger] place(mapped(s, f), k) == place(s, k),
        forall|k: Seq<char>| #[trigger]
            assoc(mapped(s, f), k) == match assoc(s, k) {
                Some(v) => Some(f(v)),
                None => None,
            },
        forall|k: Seq<char>, v: V| #[trigger] mapped(put(s, k, v), f) == put(mapped(s, f), k, f(v)),
        distinct_keys(s) ==> distinct_keys(mapped(s, f)),
    decreases s.len(),
{
    let m = mapped(s, f);
    if s.len() > 0 {
        lemma_mapped(s.drop_last(), f);
        assert(m.drop_last() =~= mapped(s.drop_last(), f));
        assert forall|k: Seq<char>| #[trigger] place(m, k) == place(s, k) by {
            assert(place(mapped(s.drop_last(), f), k) == place(s.drop_last(), k));
        }
    }
    assert forall|k: Seq<char>| #[trigger]
        assoc(m, k) == match assoc(s, k) {
            Some(v) => Some(f(v)),
            None => None,
        } by {
        lemma_place(s, k);
        assert(place(m, k) == place(s, k));
    }
    assert forall|k: Seq<char>, v: V| #[trigger]
        mapped(put(s, k, v), f) == put(mapped(s, f), k, f(v)) by {
        lemma_place(s, k);
        assert(place(m, k) == place(s, k));
        assert(mapped(put(s, k, v), f) =~= put(mapped(s, f), k, f(v)));
    }
    assert forall|i: int, j: int| distinct_keys(s) && 0 <= i < j < m.len() implies (
    #[trigger] m[i]).0 != (#[trigger] m[j]).0 by {
        assert(s[i].0 != s[j].0);
    }
}

/// Values by text key. Looking a key up costs one hash; walking the map visits the keys
/// in the order of their first insertion.
#[verifier::reject_recursive_types(V)]
pub struct StrMap<V> {
    index: StringHashMap<usize>,
    entries: Vec<(String, V)>,
}

impl<V> View for StrMap<V> {
    type V = Seq<(Seq<char>, V)>;

    closed spec fn view(&self) -> Seq<(Seq<char>, V)> {
        self.entries@.map_values(|e: (String, V)| (e.0@, e.1))
    }
}

impl<V> StrMap<V> {
    /// The hash index and the entries tell the same.
    pub closed spec fn wf(&self) -> bool {
        &&& forall|i: int|
            0 <= i < self.entries@.len() ==> self.index@.contains_key(
                (#[trigger] self.entries@[i]).0@,
            ) && self.index@[self.entries@[i].0@] == i
        &&& forall|k: Seq<char>| #[trigger]
            self.index@.contains_key(k) ==> self.index@[k] < self.entries@.len()
                && self.entries@[self.index@[k] as int].0@ == k
    }

    /// No key stands twice.
    pub proof fn lemma_distinct(&self)
        requires
            self.wf(),
        ensures
            distinct_keys(self@),
    {
        assert forall|i: int, j: int| 0 <= i < j < self@.len() implies (#[trigger] self@[i]).0 != (
        #[trigger] self@[j]).0 by {
            assert(self.index@[self.entries@[i].0@] == i);
            assert(self.index@[self.entries@[j].0@] == j);
        }
    }

    /// The hash index gives a key's place.
    proof fn lemma_index(&self, k: Seq<char>)
        requires
            self.wf(),
        ensures
            self.index@.contains_key(k) == place(self@, k) is Some,
            self.index@.contains_key(k) ==> place(self@, k) == Some(self.index@[k] as int),
    {
        lemma_place(self@, k);
        self.lemma_distinct();
        if self.index@.contains_key(k) {
            let i = self.index@[k] as int;
            assert(self@[i].0 == k);
            lemma_place_at(self@, i);
        }
        match place(self@, k) {
            Some(i) => {
                assert(self.entries@[i].0@ == k);
            },
            None => {},
        }
    }

    /// An empty map.
    pub fn new() -> (r: Self)
        ensures
            r.wf(),
            r@ == Seq::<(Seq<char>, V)>::empty(),
    {
        let r = StrMap { index: StringHashMap::new(), entries: Vec::new() };
        assert(r@ =~= Seq::empty());
        r
    }

    /// How many keys there are.
    pub fn len(&self) -> (r: usize)
        ensures
            r == self@.len(),
    {
        self.entries.len()
    }

    /// Whether there is no key.
    pub fn is_empty(&self) -> (r: bool)
        ensures
            r == (self@.len() == 0),
    {
        self.entries.len() == 0
    }

    /// Where a key stands.
    pub fn position(&self, k: &str) -> (r: Option<usize>)
        requires
            self.wf(),
        ensures
            r is Some == place(self@, k@) is Some,
            r is Some ==> place(self@, k@) == Some(r->0 as int) && r->0 < self@.len()
                && self@[r->0 as int].0 == k@,
    {
        proof {
            self.lemma_index(k@);
            lemma_place(self@, k@);
        }
        match self.index.get(k) {
            Some(i) => Some(*i),
            None => None,
        }
    }

    /// The value at a key.
    pub fn get(&self, k: &str) -> (r: Option<&V>)
        requires
            self.wf(),
        ensures
            r is Some == assoc(self@, k@) is Some,
            r is Some ==> *(r->0) == assoc(self@, k@)->0,
    {
        match self.position(k) {
            Some(i) => Some(&self.entries[i].1),
            None => None,
        }
    }

    /// Whether there is a value at a key.
    pub fn contains_key(&self, k: &str) -> (r: bool)
        requires
            self.wf(),
        ensures
            r == assoc(self@, k@) is Some,
    {
        self.position(k).is_some()
    }

    /// The key at a place.
    pub fn key_at(&self, i: usize) -> (r: &String)
        requires
            i < self@.len(),
        ensures
            r@ == self@[i as int].0,
    {
        &self.entries[i].0
    }

    /// The value at a place.
    pub fn value_at(&self, i: usize) -> (r: &V)
        requires
            i < self@.len(),
        ensures
            *r == self@[i as int].1,
    {
        &self.entries[i].1
    }

    /// The value at a place, to be changed.
    pub fn value_at_mut(&mut self, i: usize) -> (r: &mut V)
        requires
            old(self).wf(),
            i < old(self)@.len(),
        ensures
            *r == old(self)@[i as int].1,
            final(self).wf(),
            final(self)@ =~= old(self)@.update(i as int, (old(self)@[i as int].0, *final(r))),
    {
        &mut self.entries[i].1
    }

    /// Gives a key a value. A new key comes last; a key that is there keeps its place.
    pub fn insert(&mut self, k: String, v: V)
        requires
            old(self).wf(),
        ensures
            final(self).wf(),
            final(self)@ == put(old(self)@, k@, v),
    {
        match self.position(k.as_str()) {
            Some(i) => {
                *self.value_at_mut(i) = v;
            },
            None => {
                let n: usize = self.entries.len();
                let key = k.clone();
                proof {
                    self.lemma_index(k@);
                }
                self.entries.push((key, v));
                self.index.insert(k, n);
                assert(self@ =~= old(self)@.push((k@, v)));
            },
        }
    }
}

} // verus!
