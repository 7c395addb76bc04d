//! A small map keyed by strings, kept as a list of entries.
use vstd::prelude::*;

verus! {

/// A copy with the same abstract value.
pub trait Duplicate: View + Sized {
    fn duplicate(&self) -> (res: Self)
        ensures
            res@ == self@,
    ;
}

impl Duplicate for String {
    fn duplicate(&self) -> (res: String) {
        self.clone()
    }
}

/// Entries `(key, value)`; where a key occurs more than once, its last entry counts.
#[derive(Debug, Clone, PartialEq)]
pub struct Dict<V> {
    pub entries: Vec<(String, V)>,
}

/// The map that a list of entries denotes: later entries override earlier ones.
pub open spec fn entries_map<V: View>(es: Seq<(String, V)>) -> Map<Seq<char>, V::V>
    decreases es.len(),
{
    if es.len() == 0 {
        Map::empty()
    } else {
        entries_map(es.drop_last()).insert(es.last().0@, es.last().1@)
    }
}

impl<V: View> View for Dict<V> {
    type V = Map<Seq<char>, V::V>;

    open spec fn view(&self) -> Map<Seq<char>, V::V> {
        entries_map(self.entries@)
    }
}

/// Where `key` last occurs in `es` at `j`, the map holds the value of that entry.
pub proof fn lemma_entries_map_last<V: View>(es: Seq<(String, V)>, key: Seq<char>, j: int)
    requires
        0 <= j < es.len(),
        es[j].0@ == key,
        forall|m: int| j < m < es.len() ==> es[m].0@ != key,
    ensures
        entries_map(es).contains_key(key),
        entries_map(es)[key] == es[j].1@,
    decreases es.len(),
{
    if j < es.len() - 1 {
        lemma_entries_map_last(es.drop_last(), key, j);
    }
}

/// Where `key` occurs in no entry, the map does not hold it.
pub proof fn lemma_entries_map_absent<V: View>(es: Seq<(String, V)>, key: Seq<char>)
    requires
        forall|m: int| 0 <= m < es.len() ==> es[m].0@ != key,
    ensures
        !entries_map(es).contains_key(key),
    decreases es.len(),
{
    if es.len() > 0 {
        lemma_entries_map_absent(es.drop_last(), key);
    }
}

/// Replacing the value of the last entry of a key updates that key alone.
pub proof fn lemma_entries_map_update<V: View>(es: Seq<(String, V)>, j: int, e: (String, V))
    requires
        0 <= j < es.len(),
        es[j].0@ == e.0@,
        forall|m: int| j < m < es.len() ==> es[m].0@ != e.0@,
    ensures
        entries_map(es.update(j, e)) == entries_map(es).insert(e.0@, e.1@),
    decreases es.len(),
{
    let es2 = es.update(j, e);
    if j == es.len() - 1 {
        assert(es2.drop_last() =~= es.drop_last());
        assert(entries_map(es2) =~= entries_map(es).insert(e.0@, e.1@));
    } else {
        lemma_entries_map_update(es.drop_last(), j, e);
        assert(es2.drop_last() =~= es.drop_last().update(j, e));
        assert(entries_map(es2) =~= entries_map(es).insert(e.0@, e.1@));
    }
}

impl<V: View> Dict<V> {
    pub fn new() -> (res: Dict<V>)
        ensures
            res@ == Map::<Seq<char>, V::V>::empty(),
            res.entries@.len() == 0,
    {
        Dict { entries: Vec::new() }
    }

    /// The position of the last entry with this key.
    fn position(&self, key: &String) -> (res: Option<usize>)
        ensures
            match res {
                Some(j) => j < self.entries@.len() && self.entries@[j as int].0@ == key@ && forall|
                    m: int,
                | j < m < self.entries@.len() ==> self.entries@[m].0@ != key@,
                None => forall|m: int|
                    0 <= m < self.entries@.len() ==> self.entries@[m].0@ != key@,
            },
    {
        let mut j = self.entries.len();
        while j > 0
            invariant
                j <= self.entries@.len(),
                forall|m: int| j <= m < self.entries@.len() ==> self.entries@[m].0@ != key@,
            decreases j,
        {
            j = j - 1;
            if self.entries[j].0 == *key {
                return Some(j);
            }
        }
        None
    }

    /// The value of `key`, if any.
    pub fn get(&self, key: &str) -> (res: Option<&V>)
        ensures
            match res {
                Some(v) => self@.contains_key(key@) && self@[key@] == v@,
                None => !self@.contains_key(key@),
            },
    {
        let k = key.to_owned();
        match self.position(&k) {
            Some(j) => {
                proof {
                    lemma_entries_map_last(self.entries@, key@, j as int);
                }
                Some(&self.entries[j].1)
            },
            None => {
                proof {
                    lemma_entries_map_absent(self.entries@, key@);
                }
                None
            },
        }
    }

    /// Whether `key` has a value.
    pub fn contains_key(&self, key: &str) -> (res: bool)
        ensures
            res == self@.contains_key(key@),
    {
        self.get(key).is_some()
    }

    /// Gives `key` the value `value`, replacing the value it had.
    pub fn insert(&mut self, key: String, value: V)
        ensures
            final(self)@ == old(self)@.insert(key@, value@),
    {
        match self.position(&key) {
            Some(j) => {
                let ghost es = self.entries@;
                let ghost e = (key, value);
                proof {
                    lemma_entries_map_update(es, j as int, e);
                }
                self.entries.set(j, (key, value));
            },
            None => {
                let ghost es = self.entries@;
                self.entries.push((key, value));
                assert(self.entries@.drop_last() =~= es);
            },
        }
    }

    /// The number of entries.
    pub fn len(&self) -> (res: usize)
        ensures
            res == self.entries@.len(),
    {
        self.entries.len()
    }
}

impl<V: Duplicate> Duplicate for Dict<V> {
    fn duplicate(&self) -> (res: Dict<V>) {
        let mut es: Vec<(String, V)> = Vec::new();
        let mut k: usize = 0;
        while k < self.entries.len()
            invariant
                k <= self.entries@.len(),
                es@.len() == k,
                forall|m: int|
                    0 <= m < k ==> es@[m].0@ == self.entries@[m].0@ && es@[m].1@
                        == self.entries@[m].1@,
            decreases self.entries@.len() - k,
        {
            let key = self.entries[k].0.clone();
            let v = self.entries[k].1.duplicate();
            es.push((key, v));
            k = k + 1;
        }
        let res = Dict { entries: es };
        proof {
            lemma_entries_map_same(res.entries@, self.entries@);
        }
        res
    }
}

/// Entry lists that agree entry by entry denote the same map.
pub proof fn lemma_entries_map_same<V: View>(a: Seq<(String, V)>, b: Seq<(String, V)>)
    requires
        a.len() == b.len(),
        forall|m: int| 0 <= m < a.len() ==> a[m].0@ == b[m].0@ && a[m].1@ == b[m].1@,
    ensures
        entries_map(a) == entries_map(b),
    decreases a.len(),
{
    if a.len() > 0 {
        lemma_entries_map_same(a.drop_last(), b.drop_last());
    }
}

} // verus!
