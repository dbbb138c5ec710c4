//! A map keyed by strings, kept as a list of entries with distinct keys.
use vstd::prelude::*;

verus! {

/// The map that a list of entries denotes: a later entry for a key
/// overrides an earlier one.
pub open spec fn map_of<VV>(e: Seq<(Seq<char>, VV)>) -> Map<Seq<char>, VV>
    decreases e.len(),
{
    if e.len() == 0 {
        Map::empty()
    } else {
        map_of(e.drop_last()).insert(e.last().0, e.last().1)
    }
}

/// No key occurs twice.
pub open spec fn keys_distinct<VV>(e: Seq<(Seq<char>, VV)>) -> bool {
    forall|i: int, j: int| 0 <= i < j < e.len() ==> e[i].0 != e[j].0
}

/// Where no key occurs twice, the map holds exactly the keys of the
/// entries, each with the value of its entry.
pub proof fn lemma_map_of_lookup<VV>(e: Seq<(Seq<char>, VV)>)
    requires
        keys_distinct(e),
    ensures
        forall|i: int| 0 <= i < e.len() ==> #[trigger] map_of(e).contains_key(e[i].0)
            && map_of(e)[e[i].0] == e[i].1,
        forall|k: Seq<char>| map_of(e).contains_key(k) ==> exists|i: int|
            0 <= i < e.len() && #[trigger] e[i].0 == k,
    decreases e.len(),
{
    if e.len() > 0 {
        let d = e.drop_last();
        assert(keys_distinct(d));
        lemma_map_of_lookup(d);
        assert forall|i: int| 0 <= i < e.len() implies #[trigger] map_of(e).contains_key(e[i].0)
            && map_of(e)[e[i].0] == e[i].1 by {
            if i < e.len() - 1 {
                assert(d[i] == e[i]);
                assert(map_of(d).contains_key(d[i].0));
                assert(e[i].0 != e[e.len() - 1].0);
            }
        }
        assert forall|k: Seq<char>| map_of(e).contains_key(k) implies exists|i: int|
            0 <= i < e.len() && #[trigger] e[i].0 == k by {
            if k != e.last().0 {
                assert(map_of(d).contains_key(k));
                let i = choose|i: int| 0 <= i < d.len() && #[trigger] d[i].0 == k;
                assert(d[i] == e[i]);
                assert(e[i].0 == k);
            } else {
                assert(e[e.len() - 1].0 == k);
            }
        }
    }
}

/// Replacing the value of an entry changes the map at that key only.
pub proof fn lemma_map_of_update<VV>(e: Seq<(Seq<char>, VV)>, i: int, v: VV)
    requires
        keys_distinct(e),
        0 <= i < e.len(),
    ensures
        map_of(e.update(i, (e[i].0, v))) == map_of(e).insert(e[i].0, v),
    decreases e.len(),
{
    let k = e[i].0;
    let u = e.update(i, (k, v));
    if i == e.len() - 1 {
        assert(u.drop_last() =~= e.drop_last());
    } else {
        let d = e.drop_last();
        assert(keys_distinct(d));
        assert(d[i] == e[i]);
        lemma_map_of_update(d, i, v);
        assert(u.drop_last() =~= d.update(i, (k, v)));
        assert(e.last().0 != k);
        assert(map_of(u) =~= map_of(e).insert(k, v));
    }
}

/// A map from strings to values whose keys are kept distinct.
#[derive(Debug)]
pub struct StrMap<V: View> {
    entries: Vec<(String, V)>,
}

impl<V: View> StrMap<V> {
    /// The entries, each taken by its view.
    pub closed spec fn entries_view(&self) -> Seq<(Seq<char>, V::V)> {
        self.entries@.map_values(|p: (String, V)| (p.0@, p.1@))
    }

    #[verifier::type_invariant]
    spec fn distinct(&self) -> bool {
        keys_distinct(self.entries_view())
    }
}

impl<V: View> View for StrMap<V> {
    type V = Map<Seq<char>, V::V>;

    closed spec fn view(&self) -> Map<Seq<char>, V::V> {
        map_of(self.entries_view())
    }
}

impl<V: View> StrMap<V> {
    /// An empty map.
    pub fn new() -> (m: Self)
        ensures
            m@ == Map::<Seq<char>, V::V>::empty(),
    {
        let m = StrMap { entries: Vec::new() };
        assert(m.entries_view() =~= Seq::empty());
        m
    }

    /// Number of keys.
    pub fn len(&self) -> (n: usize)
        ensures
            n == self@.dom().len(),
    {
        proof {
            use_type_invariant(self);
            self.lemma_dom_len();
        }
        self.entries.len()
    }

    proof fn lemma_dom_len(&self)
        requires
            keys_distinct(self.entries_view()),
        ensures
            self@.dom().len() == self.entries@.len(),
            self@.dom().finite(),
    {
        lemma_dom_len_of(self.entries_view());
    }

    /// Whether the map has no key.
    pub fn is_empty(&self) -> (b: bool)
        ensures
            b == (self@.dom().len() == 0),
    {
        self.len() == 0
    }

    /// Index of the entry whose key is `key`, if any.
    fn find(&self, key: &String) -> (r: Option<usize>)
        ensures
            match r {
                Some(i) => i < self.entries@.len() && self.entries_view()[i as int].0 == key@,
                None => forall|i: int|
                    0 <= i < self.entries@.len() ==> self.entries_view()[i].0 != key@,
            },
    {
        let mut i: usize = 0;
        while i < self.entries.len()
            invariant
                i <= self.entries@.len(),
                forall|j: int| 0 <= j < i ==> self.entries_view()[j].0 != key@,
            decreases self.entries@.len() - i,
        {
            if self.entries[i].0 == *key {
                return Some(i);
            }
            i = i + 1;
        }
        None
    }

    /// Sets the value of `key` to `value`, replacing any earlier value.
    pub fn insert(&mut self, key: String, value: V)
        ensures
            final(self)@ == old(self)@.insert(key@, value@),
    {
        proof {
            use_type_invariant(&*self);
        }
        let ghost old_e = self.entries_view();
        let found = self.find(&key);
        let mut e: Vec<(String, V)> = Vec::new();
        std::mem::swap(&mut e, &mut self.entries);
        let ghost k = key@;
        let ghost vv = value@;
        match found {
            Some(i) => {
                proof {
                    lemma_map_of_update(old_e, i as int, vv);
                }
                e.set(i, (key, value));
            },
            None => {
                e.push((key, value));
            },
        }
        proof {
            let ev = e@.map_values(|p: (String, V)| (p.0@, p.1@));
            match found {
                Some(i) => {
                    assert(ev =~= old_e.update(i as int, (k, vv)));
                },
                None => {
                    assert(ev =~= old_e.push((k, vv)));
                    assert(ev.drop_last() =~= old_e);
                },
            }
        }
        let m = StrMap { entries: e };
        assert(m.entries_view() == e@.map_values(|p: (String, V)| (p.0@, p.1@)));
        *self = m;
    }

    /// The value of `key`, if the map holds it.
    pub fn get(&self, key: &str) -> (r: Option<&V>)
        ensures
            match r {
                Some(v) => self@.contains_key(key@) && self@[key@] == v@,
                None => !self@.contains_key(key@),
            },
    {
        proof {
            use_type_invariant(self);
            lemma_map_of_lookup(self.entries_view());
        }
        let k = String::from_str(key);
        match self.find(&k) {
            Some(i) => {
                assert(self.entries_view()[i as int].1 == self.entries@[i as int].1@);
                assert(map_of(self.entries_view()).contains_key(self.entries_view()[i as int].0));
                Some(&self.entries[i].1)
            },
            None => None,
        }
    }

    /// Whether the map holds `key`.
    pub fn contains_key(&self, key: &str) -> (b: bool)
        ensures
            b == self@.contains_key(key@),
    {
        self.get(key).is_some()
    }
}

/// Where no key occurs twice, the map has as many keys as there are entries.
pub proof fn lemma_dom_len_of<VV>(e: Seq<(Seq<char>, VV)>)
    requires
        keys_distinct(e),
    ensures
        map_of(e).dom().finite(),
        map_of(e).dom().len() == e.len(),
    decreases e.len(),
{
    if e.len() > 0 {
        let d = e.drop_last();
        assert(keys_distinct(d));
        lemma_dom_len_of(d);
        lemma_map_of_lookup(d);
        assert(!map_of(d).contains_key(e.last().0)) by {
            if map_of(d).contains_key(e.last().0) {
                let i = choose|i: int| 0 <= i < d.len() && #[trigger] d[i].0 == e.last().0;
                assert(e[i].0 == e[e.len() - 1].0);
            }
        }
    }
}

impl<V: View> Default for StrMap<V> {
    fn default() -> (m: Self)
        ensures
            m@ == Map::<Seq<char>, V::V>::empty(),
    {
        StrMap::new()
    }
}

/// Dropping an entry drops its key from the map.
pub proof fn lemma_map_of_remove<VV>(e: Seq<(Seq<char>, VV)>, i: int)
    requires
        keys_distinct(e),
        0 <= i < e.len(),
    ensures
        map_of(e.remove(i)) == map_of(e).remove(e[i].0),
        keys_distinct(e.remove(i)),
    decreases e.len(),
{
    let k = e[i].0;
    let u = e.remove(i);
    if i == e.len() - 1 {
        assert(u =~= e.drop_last());
        lemma_map_of_lookup(u);
        assert(!map_of(u).contains_key(k)) by {
            if map_of(u).contains_key(k) {
                let j = choose|j: int| 0 <= j < u.len() && #[trigger] u[j].0 == k;
                assert(e[j].0 == e[i].0);
            }
        }
        assert(map_of(u) =~= map_of(e).remove(k));
    } else {
        let d = e.drop_last();
        assert(keys_distinct(d));
        assert(d[i] == e[i]);
        lemma_map_of_remove(d, i);
        assert(u.drop_last() =~= d.remove(i));
        assert(u.last() == e.last());
        assert(e.last().0 != k);
        assert(map_of(u) =~= map_of(e).remove(k));
    }
}

impl<V: View> StrMap<V> {
    /// Takes the value of `key` out of the map, if it holds one.
    pub fn remove(&mut self, key: &str) -> (r: Option<V>)
        ensures
            final(self)@ == old(self)@.remove(key@),
            match r {
                Some(v) => old(self)@.contains_key(key@) && old(self)@[key@] == v@,
                None => !old(self)@.contains_key(key@),
            },
    {
        proof {
            use_type_invariant(&*self);
            lemma_map_of_lookup(self.entries_view());
        }
        let ghost old_e = self.entries_view();
        let k = String::from_str(key);
        match self.find(&k) {
            Some(i) => {
                proof {
                    lemma_map_of_remove(old_e, i as int);
                    assert(map_of(old_e).contains_key(old_e[i as int].0));
                }
                let mut e: Vec<(String, V)> = Vec::new();
                std::mem::swap(&mut e, &mut self.entries);
                let (_, v) = e.remove(i);
                proof {
                    assert(e@.map_values(|p: (String, V)| (p.0@, p.1@)) =~= old_e.remove(i as int));
                }
                *self = StrMap { entries: e };
                Some(v)
            },
            None => {
                assert(map_of(old_e).remove(key@) =~= map_of(old_e)) by {
                    if map_of(old_e).contains_key(key@) {
                        let j = choose|j: int| 0 <= j < old_e.len() && #[trigger] old_e[j].0 == key@;
                    }
                }
                None
            },
        }
    }
}

} // verus!
