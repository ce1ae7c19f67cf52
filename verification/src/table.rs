//! A map keyed by text, modelled as a `Map` from character sequences.
//!
//! Inserting a key that is already present replaces its value, as with a
//! hash map; the entries are kept in insertion order and a lookup takes the
//! latest entry of its key.
use vstd::prelude::*;

verus! {

/// The map that a list of insertions builds: later entries win.
pub open spec fn entries_map<V>(e: Seq<(String, V)>) -> Map<Seq<char>, V>
    decreases e.len(),
{
    if e.len() == 0 {
        Map::empty()
    } else {
        entries_map(e.drop_last()).insert(e.last().0@, e.last().1)
    }
}

/// A map from texts to values.
pub struct TextMap<V> {
    entries: Vec<(String, V)>,
}

impl<V> View for TextMap<V> {
    type V = Map<Seq<char>, V>;

    closed spec fn view(&self) -> Map<Seq<char>, V> {
        entries_map(self.entries@)
    }
}

proof fn lemma_entries_map_take<V>(e: Seq<(String, V)>, i: int, k: Seq<char>)
    requires
        0 <= i <= e.len(),
        forall|j: int| i <= j < e.len() ==> #[trigger] e[j].0@ != k,
    ensures
        entries_map(e).dom().contains(k) == entries_map(e.take(i)).dom().contains(k),
        entries_map(e).dom().contains(k) ==> entries_map(e)[k] == entries_map(e.take(i))[k],
    decreases e.len() - i,
{
    if i == e.len() {
        assert(e.take(i) =~= e);
    } else {
        let d = e.drop_last();
        assert(e[e.len() - 1].0@ != k);
        lemma_entries_map_take(d, i, k);
        assert(d.take(i) =~= e.take(i));
    }
}

proof fn lemma_entries_map_concat<V>(e1: Seq<(String, V)>, e2: Seq<(String, V)>)
    ensures
        entries_map(e1 + e2) == entries_map(e1).union_prefer_right(entries_map(e2)),
    decreases e2.len(),
{
    if e2.len() == 0 {
        assert(e1 + e2 =~= e1);
        assert(entries_map(e1).union_prefer_right(entries_map(e2)) =~= entries_map(e1));
    } else {
        lemma_entries_map_concat(e1, e2.drop_last());
        assert((e1 + e2).drop_last() =~= e1 + e2.drop_last());
        assert((e1 + e2).last() == e2.last());
        assert(entries_map(e1 + e2) =~= entries_map(e1).union_prefer_right(entries_map(e2)));
    }
}

impl<V> TextMap<V> {
    /// Inserts every entry of `other`, in its order: the values of `other`
    /// replace those of the same keys.
    pub fn extend(&mut self, other: TextMap<V>)
        ensures
            final(self)@ == old(self)@.union_prefer_right(other@),
    {
        let mut o = other.entries;
        let ghost e1 = self.entries@;
        let ghost e2 = o@;
        self.entries.append(&mut o);
        proof {
            lemma_entries_map_concat(e1, e2);
        }
    }

    /// The empty map.
    pub fn new() -> (r: Self)
        ensures
            r@ == Map::<Seq<char>, V>::empty(),
    {
        TextMap { entries: Vec::new() }
    }

    /// Sets the value of `key`, replacing the value it had.
    pub fn insert(&mut self, key: String, value: V)
        ensures
            final(self)@ == old(self)@.insert(key@, value),
    {
        let ghost k = key@;
        let ghost v = value;
        self.entries.push((key, value));
        proof {
            let e = self.entries@;
            assert(e.drop_last() =~= old(self).entries@);
            assert(e.last().0@ == k && e.last().1 == v);
        }
    }

    /// The index of the entry that holds the value of `key`.
    fn find(&self, key: &String) -> (r: Option<usize>)
        ensures
            match r {
                Some(i) => {
                    &&& i < self.entries@.len()
                    &&& self@.dom().contains(key@)
                    &&& self@[key@] == self.entries@[i as int].1
                },
                None => !self@.dom().contains(key@),
            },
    {
        let mut i = self.entries.len();
        while i > 0
            invariant
                i <= self.entries@.len(),
                forall|j: int| i <= j < self.entries@.len() ==> #[trigger] self.entries@[j].0@ != key@,
            decreases i,
        {
            if self.entries[i - 1].0 == *key {
                proof {
                    let e = self.entries@;
                    lemma_entries_map_take(e, i as int, key@);
                    assert(e.take(i as int).drop_last() =~= e.take(i - 1));
                    assert(e.take(i as int).last() == e[i - 1]);
                }
                return Some(i - 1);
            }
            i = i - 1;
        }
        proof {
            lemma_entries_map_take(self.entries@, 0, key@);
            assert(self.entries@.take(0) =~= Seq::<(String, V)>::empty());
        }
        None
    }

    /// The value of `key`, if it has one.
    pub fn get(&self, key: &str) -> (r: Option<&V>)
        ensures
            match r {
                Some(v) => self@.dom().contains(key@) && self@[key@] == *v,
                None => !self@.dom().contains(key@),
            },
    {
        let k = key.to_owned();
        match self.find(&k) {
            Some(i) => Some(&self.entries[i].1),
            None => None,
        }
    }

    /// Whether `key` has a value.
    pub fn contains_key(&self, key: &str) -> (r: bool)
        ensures
            r == self@.dom().contains(key@),
    {
        let k = key.to_owned();
        self.find(&k).is_some()
    }
}

impl TextMap<String> {
    /// A copy of the map.
    pub fn copy(&self) -> (r: Self)
        ensures
            r@ == self@,
    {
        let mut entries: Vec<(String, String)> = Vec::new();
        let mut i: usize = 0;
        while i < self.entries.len()
            invariant
                i <= self.entries@.len(),
                entries@ == self.entries@.take(i as int),
            decreases self.entries@.len() - i,
        {
            let e = (self.entries[i].0.clone(), self.entries[i].1.clone());
            entries.push(e);
            i = i + 1;
            assert(entries@ =~= self.entries@.take(i as int));
        }
        assert(self.entries@.take(self.entries@.len() as int) =~= self.entries@);
        TextMap { entries }
    }
}

} // verus!
