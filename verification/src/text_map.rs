//! A map from texts to values.

use vstd::hash_map::StringHashMap;
use vstd::prelude::*;
use vstd::string::*;

verus! {

/// Values by text, each text once, in the order in which the texts were first inserted.
pub struct TextMap<V> {
    entries: Vec<(String, V)>,
    /// Where each text stands in `entries`.
    index: StringHashMap<usize>,
}

/// Position `i` of the entries holds key `k`.
pub open spec fn holds_key<V>(entries: Seq<(String, V)>, i: int, k: Seq<char>) -> bool {
    0 <= i < entries.len() && entries[i].0@ == k
}

/// Each key stands in the entries once.
pub open spec fn distinct_keys<V>(entries: Seq<(String, V)>) -> bool {
    forall|i: int, j: int|
        0 <= i < entries.len() && 0 <= j < entries.len() && (#[trigger] entries[i]).0@ == (
        #[trigger] entries[j]).0@ ==> i == j
}

/// The map that a list of entries stands for.
pub open spec fn map_of<V>(entries: Seq<(String, V)>) -> Map<Seq<char>, V> {
    Map::new(
        |k: Seq<char>| exists|i: int| #[trigger] holds_key(entries, i, k),
        |k: Seq<char>| entries[choose|i: int| #[trigger] holds_key(entries, i, k)].1,
    )
}

/// The index gives, for each key and for nothing else, the position at which it stands.
spec fn indexes<V>(index: Map<Seq<char>, usize>, entries: Seq<(String, V)>) -> bool {
    &&& forall|i: int|
        0 <= i < entries.len() ==> index.contains_key((#[trigger] entries[i]).0@)
            && index[entries[i].0@] == i
    &&& forall|k: Seq<char>| #[trigger]
        index.contains_key(k) ==> index[k] < entries.len() && entries[index[k] as int].0@ == k
}

proof fn lemma_indexed_distinct<V>(index: Map<Seq<char>, usize>, entries: Seq<(String, V)>)
    requires
        indexes(index, entries),
    ensures
        distinct_keys(entries),
        forall|k: Seq<char>| #[trigger] map_of(entries).contains_key(k) == index.contains_key(k),
{
    assert forall|i: int, j: int|
        0 <= i < entries.len() && 0 <= j < entries.len() && (#[trigger] entries[i]).0@ == (
        #[trigger] entries[j]).0@ implies i == j by {
        assert(index[entries[i].0@] == i);
        assert(index[entries[j].0@] == j);
    }
    assert forall|k: Seq<char>| #[trigger]
        map_of(entries).contains_key(k) == index.contains_key(k) by {
        if index.contains_key(k) {
            assert(holds_key(entries, index[k] as int, k));
        }
        if map_of(entries).contains_key(k) {
            let i = choose|i: int| #[trigger] holds_key(entries, i, k);
            assert(index.contains_key(entries[i].0@));
        }
    }
}

/// What an entry holds is the value of its key.
pub proof fn lemma_value_at<V>(entries: Seq<(String, V)>, i: int)
    requires
        distinct_keys(entries),
        0 <= i < entries.len(),
    ensures
        map_of(entries).contains_key(entries[i].0@),
        map_of(entries)[entries[i].0@] == entries[i].1,
{
    let k = entries[i].0@;
    assert(holds_key(entries, i, k));
    let j = choose|j: int| #[trigger] holds_key(entries, j, k);
    assert(entries[i].0@ == entries[j].0@);
}

proof fn lemma_replaced<V>(before: Seq<(String, V)>, i: int, key: String, value: V)
    requires
        distinct_keys(before),
        0 <= i < before.len(),
        before[i].0@ == key@,
    ensures
        distinct_keys(before.update(i, (key, value))),
        map_of(before.update(i, (key, value))) == map_of(before).insert(key@, value),
{
    let after = before.update(i, (key, value));
    assert forall|j: int| 0 <= j < before.len() implies (#[trigger] after[j]).0@
        == before[j].0@ by {}
    lemma_value_at(after, i);
    assert forall|k: Seq<char>|
        map_of(after).contains_key(k) == map_of(before).insert(key@, value).contains_key(k) by {
        if map_of(after).contains_key(k) {
            let j = choose|j: int| #[trigger] holds_key(after, j, k);
            assert(holds_key(before, j, k));
        }
        if map_of(before).contains_key(k) {
            let j = choose|j: int| #[trigger] holds_key(before, j, k);
            assert(holds_key(after, j, k));
        }
    }
    assert forall|k: Seq<char>| map_of(after).contains_key(k) implies map_of(after)[k] == map_of(
        before,
    ).insert(key@, value)[k] by {
        let j = choose|j: int| #[trigger] holds_key(after, j, k);
        assert(holds_key(before, j, k));
        lemma_value_at(before, j);
        lemma_value_at(after, j);
    }
    assert(map_of(after) =~= map_of(before).insert(key@, value));
}

proof fn lemma_appended<V>(before: Seq<(String, V)>, key: String, value: V)
    requires
        distinct_keys(before),
        forall|j: int| 0 <= j < before.len() ==> (#[trigger] before[j]).0@ != key@,
    ensures
        distinct_keys(before.push((key, value))),
        map_of(before.push((key, value))) == map_of(before).insert(key@, value),
{
    let after = before.push((key, value));
    let n = before.len() as int;
    assert forall|j: int| 0 <= j < n implies #[trigger] after[j] == before[j] by {}
    lemma_value_at(after, n);
    assert forall|k: Seq<char>|
        map_of(after).contains_key(k) == map_of(before).insert(key@, value).contains_key(k) by {
        if map_of(after).contains_key(k) && k != key@ {
            let j = choose|j: int| #[trigger] holds_key(after, j, k);
            assert(holds_key(before, j, k));
        }
        if map_of(before).contains_key(k) {
            let j = choose|j: int| #[trigger] holds_key(before, j, k);
            assert(holds_key(after, j, k));
        }
    }
    assert forall|k: Seq<char>| map_of(after).contains_key(k) implies map_of(after)[k] == map_of(
        before,
    ).insert(key@, value)[k] by {
        if k != key@ {
            let j = choose|j: int| #[trigger] holds_key(after, j, k);
            lemma_value_at(before, j);
            lemma_value_at(after, j);
        }
    }
    assert(map_of(after) =~= map_of(before).insert(key@, value));
}

proof fn lemma_as_many_keys<V>(entries: Seq<(String, V)>)
    requires
        distinct_keys(entries),
    ensures
        map_of(entries).dom().finite(),
        map_of(entries).dom().len() == entries.len(),
    decreases entries.len(),
{
    if entries.len() == 0 {
        assert forall|k: Seq<char>| !map_of(entries).contains_key(k) by {}
        assert(map_of(entries).dom() =~= Set::empty());
    } else {
        let front = entries.drop_last();
        let last = entries.last();
        assert forall|j: int| 0 <= j < front.len() implies (#[trigger] front[j]).0@ != last.0@ by {
            assert(entries[j].0@ != entries[entries.len() - 1].0@);
        }
        assert forall|i: int, j: int|
            0 <= i < front.len() && 0 <= j < front.len() && (#[trigger] front[i]).0@ == (
            #[trigger] front[j]).0@ implies i == j by {
            assert(entries[i] == front[i] && entries[j] == front[j]);
        }
        lemma_as_many_keys(front);
        lemma_appended(front, last.0, last.1);
        assert(entries =~= front.push((last.0, last.1)));
        assert(!map_of(front).contains_key(last.0@)) by {
            if map_of(front).contains_key(last.0@) {
                let j = choose|j: int| #[trigger] holds_key(front, j, last.0@);
                assert(front[j].0@ == last.0@);
            }
        }
        assert(map_of(entries).dom() =~= map_of(front).dom().insert(last.0@));
    }
}

proof fn lemma_removed<V>(before: Seq<(String, V)>, i: int)
    requires
        distinct_keys(before),
        0 <= i < before.len(),
    ensures
        distinct_keys(before.remove(i)),
        map_of(before.remove(i)) == map_of(before).remove(before[i].0@),
{
    let after = before.remove(i);
    let key = before[i].0@;
    assert forall|j: int| 0 <= j < after.len() implies #[trigger] after[j] == before[if j < i {
        j
    } else {
        j + 1
    }] by {}
    assert forall|k: Seq<char>|
        map_of(after).contains_key(k) == map_of(before).remove(key).contains_key(k) by {
        if map_of(after).contains_key(k) {
            let j = choose|j: int| #[trigger] holds_key(after, j, k);
            let b = if j < i {
                j
            } else {
                j + 1
            };
            assert(holds_key(before, b, k));
            assert(before[b].0@ != before[i].0@);
        }
        if map_of(before).contains_key(k) && k != key {
            let j = choose|j: int| #[trigger] holds_key(before, j, k);
            assert(holds_key(
                after,
                if j < i {
                    j
                } else {
                    j - 1
                },
                k,
            ));
        }
    }
    assert forall|k: Seq<char>| map_of(after).contains_key(k) implies map_of(after)[k] == map_of(
        before,
    ).remove(key)[k] by {
        let j = choose|j: int| #[trigger] holds_key(after, j, k);
        lemma_value_at(after, j);
        lemma_value_at(
            before,
            if j < i {
                j
            } else {
                j + 1
            },
        );
    }
    assert(map_of(after) =~= map_of(before).remove(key));
}

impl<V> View for TextMap<V> {
    type V = Map<Seq<char>, V>;

    closed spec fn view(&self) -> Map<Seq<char>, V> {
        map_of(self.entries@)
    }
}

impl<V> TextMap<V> {
    #[verifier::type_invariant]
    spec fn well_formed(self) -> bool {
        indexes(self.index@, self.entries@)
    }

    /// The entries, in the order in which their keys were first inserted.
    pub closed spec fn listed(&self) -> Seq<(String, V)> {
        self.entries@
    }

    /// An empty map.
    pub fn new() -> (m: Self)
        ensures
            m@ == Map::<Seq<char>, V>::empty(),
            m.listed().len() == 0,
    {
        let m = TextMap { entries: Vec::new(), index: StringHashMap::new() };
        assert forall|k: Seq<char>| !m@.contains_key(k) by {}
        assert(m@ =~= Map::<Seq<char>, V>::empty());
        m
    }

    /// The number of keys; the listed entries are those of the map, each key once.
    pub fn len(&self) -> (n: usize)
        ensures
            n == self.listed().len(),
            n == self@.dom().len(),
            distinct_keys(self.listed()),
            self@ == map_of(self.listed()),
    {
        proof {
            use_type_invariant(self);
            lemma_indexed_distinct(self.index@, self.entries@);
            lemma_as_many_keys(self.entries@);
        }
        self.entries.len()
    }

    /// The key and value at a position.
    pub fn entry(&self, i: usize) -> (r: (&String, &V))
        requires
            i < self.listed().len(),
        ensures
            *r.0 == self.listed()[i as int].0,
            *r.1 == self.listed()[i as int].1,
    {
        let e = &self.entries[i];
        (&e.0, &e.1)
    }

    /// The value of a key.
    pub fn get(&self, key: &str) -> (r: Option<&V>)
        ensures
            match r {
                Some(v) => self@.contains_key(key@) && *v == self@[key@],
                None => !self@.contains_key(key@),
            },
    {
        proof {
            use_type_invariant(self);
            lemma_indexed_distinct(self.index@, self.entries@);
        }
        match self.index.get(key) {
            Some(i) => {
                proof {
                    lemma_value_at(self.entries@, *i as int);
                }
                Some(&self.entries[*i].1)
            },
            None => None,
        }
    }

    /// Whether a key has a value.
    pub fn contains_key(&self, key: &str) -> (r: bool)
        ensures
            r == self@.contains_key(key@),
    {
        match self.get(key) {
            Some(_) => true,
            None => false,
        }
    }

    /// Gives a key a value, in place of the value that it has.
    pub fn insert(&mut self, key: String, value: V)
        ensures
            final(self)@ == old(self)@.insert(key@, value),
    {
        let mut whole = TextMap::new();
        std::mem::swap(self, &mut whole);
        proof {
            use_type_invariant(&whole);
            lemma_indexed_distinct(whole.index@, whole.entries@);
        }
        let TextMap { entries, index } = whole;
        let mut entries = entries;
        let mut index = index;
        let ghost before = entries@;
        let at: Option<usize> = match index.get(key.as_str()) {
            Some(i) => Some(*i),
            None => None,
        };
        match at {
            Some(i) => {
                proof {
                    lemma_replaced(before, i as int, key, value);
                }
                entries.set(i, (key, value));
                proof {
                    assert forall|j: int| 0 <= j < entries@.len() implies index@.contains_key(
                        (#[trigger] entries@[j]).0@,
                    ) && index@[entries@[j].0@] == j by {
                        assert(before[j].0@ == entries@[j].0@);
                    }
                    assert forall|k: Seq<char>| #[trigger] index@.contains_key(k) implies index@[k]
                        < entries@.len() && entries@[index@[k] as int].0@ == k by {
                        assert(before[index@[k] as int].0@ == k);
                    }
                }
            },
            None => {
                proof {
                    assert forall|j: int| 0 <= j < before.len() implies (#[trigger] before[j]).0@
                        != key@ by {
                        assert(index@.contains_key(before[j].0@));
                    }
                    lemma_appended(before, key, value);
                }
                index.insert(key.clone(), entries.len());
                entries.push((key, value));
                proof {
                    assert forall|j: int| 0 <= j < entries@.len() implies index@.contains_key(
                        (#[trigger] entries@[j]).0@,
                    ) && index@[entries@[j].0@] == j by {
                        if j < before.len() {
                            assert(before[j] == entries@[j]);
                        }
                    }
                    assert forall|k: Seq<char>| #[trigger] index@.contains_key(k) implies index@[k]
                        < entries@.len() && entries@[index@[k] as int].0@ == k by {
                        if k != key@ {
                            assert(before[index@[k] as int].0@ == k);
                        }
                    }
                }
            },
        }
        *self = TextMap { entries, index };
    }

    /// Takes a key out of the map.
    pub fn remove(&mut self, key: &str) -> (r: Option<V>)
        ensures
            final(self)@ == old(self)@.remove(key@),
            match r {
                Some(v) => old(self)@.contains_key(key@) && v == old(self)@[key@],
                None => !old(self)@.contains_key(key@),
            },
    {
        proof {
            use_type_invariant(&*self);
            lemma_indexed_distinct(self.index@, self.entries@);
        }
        let at: Option<usize> = match self.index.get(key) {
            Some(i) => Some(*i),
            None => None,
        };
        match at {
            Some(i) => {
                let mut whole = TextMap::new();
                std::mem::swap(self, &mut whole);
                let TextMap { entries, index } = whole;
                let mut entries = entries;
                proof {
                    lemma_removed(entries@, i as int);
                    lemma_value_at(entries@, i as int);
                }
                let e = entries.remove(i);
                let index = index_of(&entries);
                *self = TextMap { entries, index };
                Some(e.1)
            },
            None => {
                assert(self@ =~= self@.remove(key@));
                None
            },
        }
    }
}

/// Builds the index of a list of entries.
fn index_of<V>(entries: &Vec<(String, V)>) -> (index: StringHashMap<usize>)
    requires
        distinct_keys(entries@),
    ensures
        indexes(index@, entries@),
{
    let mut index: StringHashMap<usize> = StringHashMap::new();
    let mut i: usize = 0;
    while i < entries.len()
        invariant
            i <= entries@.len(),
            distinct_keys(entries@),
            forall|j: int|
                0 <= j < i ==> index@.contains_key((#[trigger] entries@[j]).0@)
                    && index@[entries@[j].0@] == j,
            forall|k: Seq<char>| #[trigger]
                index@.contains_key(k) ==> index@[k] < i && entries@[index@[k] as int].0@ == k,
        decreases entries@.len() - i,
    {
        index.insert(entries[i].0.clone(), i);
        i += 1;
    }
    index
}

} // verus!
