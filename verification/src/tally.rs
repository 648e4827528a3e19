//! Counting how often keys occur.

use vstd::prelude::*;
use vstd::string::*;

use crate::text;

verus! {

/// A key that can be counted.
pub trait TallyKey: Sized {
    /// What two equal keys have in common.
    type Model;

    spec fn model(&self) -> Self::Model;

    /// Whether two keys are equal.
    fn same(&self, other: &Self) -> (r: bool)
        ensures
            r == (self.model() == other.model()),
    ;
}

impl TallyKey for String {
    type Model = Seq<char>;

    open spec fn model(&self) -> Seq<char> {
        self@
    }

    fn same(&self, other: &Self) -> (r: bool) {
        text::same_text(self.as_str(), other.as_str())
    }
}

/// How often each key occurs in a sequence; a key that does not occur is not in the map.
pub open spec fn tally_of<M>(keys: Seq<M>) -> Map<M, nat>
    decreases keys.len(),
{
    if keys.len() == 0 {
        Map::empty()
    } else {
        let front = tally_of(keys.drop_last());
        let k = keys.last();
        front.insert(k, if front.contains_key(k) { front[k] + 1 } else { 1 })
    }
}

/// The count of a key is the number of places at which it stands.
pub proof fn law_tally_counts<M>(keys: Seq<M>, k: M)
    ensures
        tally_of(keys).contains_key(k) == keys.contains(k),
        tally_of(keys).contains_key(k) ==> tally_of(keys)[k] == keys.to_multiset().count(k),
    decreases keys.len(),
{
    broadcast use vstd::seq_lib::group_to_multiset_ensures;

    if keys.len() > 0 {
        let front = keys.drop_last();
        law_tally_counts(front, k);
        assert(keys =~= front.push(keys.last()));
        if keys.contains(k) && k != keys.last() {
            let i = keys.index_of(k);
            assert(front[i] == k);
        }
        if front.contains(k) {
            let i = front.index_of(k);
            assert(keys[i] == k);
        }
        if k == keys.last() {
            assert(keys[keys.len() - 1] == k);
            if !front.contains(k) {
                assert(front.to_multiset().count(k) == 0);
            }
        }
    }
}

/// A key is counted at most as often as there are keys.
pub proof fn lemma_tally_bound<M>(keys: Seq<M>, k: M)
    requires
        tally_of(keys).contains_key(k),
    ensures
        1 <= tally_of(keys)[k] <= keys.len(),
    decreases keys.len(),
{
    if keys.len() > 0 {
        let front = keys.drop_last();
        if tally_of(front).contains_key(k) {
            lemma_tally_bound(front, k);
        }
    }
}

/// Keys with their counts, each key once, in the order in which they were first counted.
pub struct Tally<K: TallyKey> {
    pub entries: Vec<(K, usize)>,
}

/// Position `i` of the entries holds key `k`.
pub open spec fn holds_key<K: TallyKey>(entries: Seq<(K, usize)>, i: int, k: K::Model) -> bool {
    0 <= i < entries.len() && entries[i].0.model() == k
}

/// Each key stands in the entries once.
pub open spec fn distinct_keys<K: TallyKey>(entries: Seq<(K, usize)>) -> bool {
    forall|i: int, j: int|
        0 <= i < entries.len() && 0 <= j < entries.len() && (#[trigger] entries[i]).0.model() == (
        #[trigger] entries[j]).0.model() ==> i == j
}

/// The counts of the entries, added up.
pub open spec fn entries_total<K: TallyKey>(entries: Seq<(K, usize)>) -> nat
    decreases entries.len(),
{
    if entries.len() == 0 {
        0
    } else {
        entries_total(entries.drop_last()) + entries.last().1 as nat
    }
}

proof fn lemma_total_update<K: TallyKey>(entries: Seq<(K, usize)>, i: int, e: (K, usize))
    requires
        0 <= i < entries.len(),
    ensures
        entries_total(entries.update(i, e)) == entries_total(entries) + e.1 - entries[i].1,
    decreases entries.len(),
{
    let after = entries.update(i, e);
    if i == entries.len() - 1 {
        assert(after.drop_last() =~= entries.drop_last());
    } else {
        lemma_total_update(entries.drop_last(), i, e);
        assert(after.drop_last() =~= entries.drop_last().update(i, e));
    }
}

proof fn lemma_entry_le_total<K: TallyKey>(entries: Seq<(K, usize)>, i: int)
    requires
        0 <= i < entries.len(),
    ensures
        entries[i].1 <= entries_total(entries),
    decreases entries.len(),
{
    if i < entries.len() - 1 {
        lemma_entry_le_total(entries.drop_last(), i);
    }
}

/// The count that each key has among the entries.
pub open spec fn counts_of<K: TallyKey>(entries: Seq<(K, usize)>) -> Map<K::Model, nat> {
    Map::new(
        |k: K::Model| exists|i: int| #[trigger] holds_key(entries, i, k),
        |k: K::Model| entries[choose|i: int| #[trigger] holds_key(entries, i, k)].1 as nat,
    )
}

proof fn lemma_counts_push<K: TallyKey>(entries: Seq<(K, usize)>, e: (K, usize))
    requires
        distinct_keys(entries.push(e)),
    ensures
        distinct_keys(entries),
        !counts_of(entries).contains_key(e.0.model()),
        counts_of(entries.push(e)) == counts_of(entries).insert(e.0.model(), e.1 as nat),
{
    let after = entries.push(e);
    let n = entries.len() as int;
    assert forall|i: int| 0 <= i < n implies #[trigger] entries[i] == after[i] by {}
    assert forall|j: int, k: K::Model| #[trigger] holds_key(entries, j, k) implies holds_key(
        after,
        j,
        k,
    ) && k != e.0.model() by {
        assert(after[n].0.model() == e.0.model());
    }
    assert(holds_key(after, n, e.0.model()));
    let expected = counts_of(entries).insert(e.0.model(), e.1 as nat);
    assert forall|k: K::Model| counts_of(after).contains_key(k) == expected.contains_key(k) by {
        if counts_of(after).contains_key(k) && k != e.0.model() {
            let j = choose|j: int| #[trigger] holds_key(after, j, k);
            assert(holds_key(entries, j, k));
        }
    }
    assert forall|k: K::Model| counts_of(after).contains_key(k) implies counts_of(after)[k]
        == expected[k] by {
        let j = choose|j: int| #[trigger] holds_key(after, j, k);
        assert(holds_key(after, j, k));
        if k == e.0.model() {
            assert(after[j].0.model() == after[n].0.model());
        } else {
            assert(holds_key(entries, j, k));
            let j2 = choose|j: int| #[trigger] holds_key(entries, j, k);
            assert(holds_key(after, j2, k));
            assert(after[j].0.model() == after[j2].0.model());
        }
    }
    assert(counts_of(after) =~= expected);
}

/// The count of a key, 0 if it was not counted.
pub open spec fn count_in<M>(counts: Map<M, nat>, k: M) -> nat {
    if counts.contains_key(k) {
        counts[k]
    } else {
        0
    }
}

/// Together, two tallies count a key as often as each does, and no key that neither has.
pub proof fn law_tallies_add_up<M>(a: Map<M, nat>, b: Map<M, nat>, k: M)
    ensures
        added(a, b).contains_key(k) <==> a.contains_key(k) || b.contains_key(k),
        a.contains_key(k) && b.contains_key(k) ==> added(a, b)[k] == a[k] + b[k],
        a.contains_key(k) && !b.contains_key(k) ==> added(a, b)[k] == a[k],
        !a.contains_key(k) && b.contains_key(k) ==> added(a, b)[k] == b[k],
{
}

/// The counts of two tallies together.
pub open spec fn added<M>(a: Map<M, nat>, b: Map<M, nat>) -> Map<M, nat> {
    Map::new(
        |k: M| a.contains_key(k) || b.contains_key(k),
        |k: M| count_in(a, k) + count_in(b, k),
    )
}

/// No count is larger than all counts together.
pub proof fn lemma_count_le_total<K: TallyKey>(t: Tally<K>, k: K::Model)
    requires
        t.counts().contains_key(k),
    ensures
        t.counts()[k] <= t.total(),
{
    let i = choose|i: int| #[trigger] holds_key(t.entries@, i, k);
    assert(holds_key(t.entries@, i, k));
    lemma_entry_le_total(t.entries@, i);
}

impl<K: TallyKey> Tally<K> {
    /// The counts of all keys, added up.
    pub open spec fn total(&self) -> nat {
        entries_total(self.entries@)
    }

    /// The count of each key.
    pub open spec fn counts(&self) -> Map<K::Model, nat> {
        counts_of(self.entries@)
    }

    /// Each key has one entry.
    pub open spec fn well_formed(&self) -> bool {
        distinct_keys(self.entries@)
    }

    /// A tally of nothing.
    pub fn new() -> (t: Self)
        ensures
            t.well_formed(),
            t.counts() == Map::<K::Model, nat>::empty(),
            t.total() == 0,
    {
        let t = Tally { entries: Vec::new() };
        assert(t.counts() =~= Map::<K::Model, nat>::empty()) by {
            assert forall|k: K::Model| !t.counts().contains_key(k) by {}
        }
        t
    }

    /// The count of a key that was counted.
    pub fn get(&self, key: &K) -> (r: Option<usize>)
        requires
            self.well_formed(),
        ensures
            match r {
                Some(n) => self.counts().contains_key(key.model()) && self.counts()[key.model()]
                    == n,
                None => !self.counts().contains_key(key.model()),
            },
    {
        let mut i: usize = 0;
        while i < self.entries.len()
            invariant
                i <= self.entries@.len(),
                self.well_formed(),
                forall|j: int| 0 <= j < i ==> !holds_key(self.entries@, j, key.model()),
            decreases self.entries@.len() - i,
        {
            if self.entries[i].0.same(key) {
                assert(holds_key(self.entries@, i as int, key.model()));
                return Some(self.entries[i].1);
            }
            i += 1;
        }
        None
    }

    /// Counts one occurrence of a key.
    pub fn add(&mut self, key: K)
        requires
            old(self).well_formed(),
            old(self).counts().contains_key(key.model()) ==> old(self).counts()[key.model()]
                < usize::MAX,
        ensures
            final(self).well_formed(),
            final(self).total() == old(self).total() + 1,
            final(self).counts() == old(self).counts().insert(
                key.model(),
                if old(self).counts().contains_key(key.model()) {
                    old(self).counts()[key.model()] + 1
                } else {
                    1
                },
            ),
    {
        self.add_many(key, 1);
    }

    /// Counts `more` occurrences of a key.
    pub fn add_many(&mut self, key: K, more: usize)
        requires
            old(self).well_formed(),
            count_in(old(self).counts(), key.model()) + more <= usize::MAX,
        ensures
            final(self).well_formed(),
            final(self).total() == old(self).total() + more,
            final(self).counts() == old(self).counts().insert(
                key.model(),
                count_in(old(self).counts(), key.model()) + more as nat,
            ),
    {
        let ghost before = self.entries@;
        let mut i: usize = 0;
        while i < self.entries.len()
            invariant
                i <= self.entries@.len(),
                self.entries@ == before,
                *self == *old(self),
                self.well_formed(),
                count_in(self.counts(), key.model()) + more <= usize::MAX,
                forall|j: int| 0 <= j < i ==> !holds_key(before, j, key.model()),
            decreases self.entries@.len() - i,
        {
            if self.entries[i].0.same(&key) {
                assert(holds_key(before, i as int, key.model()));
                let n: usize = self.entries[i].1;
                assert(self.counts()[key.model()] == n);
                self.entries.set(i, (key, n + more));
                proof {
                    lemma_total_update(before, i as int, (key, (n + more) as usize));
                    let after = self.entries@;
                    assert forall|j: int| 0 <= j < before.len() implies (#[trigger] after[j]).0.model()
                        == before[j].0.model() by {}
                    assert forall|k: K::Model| self.counts().contains_key(k) implies self.counts()[k]
                        == old(self).counts().insert(key.model(), (n + more) as nat)[k] by {
                        let j = choose|j: int| #[trigger] holds_key(after, j, k);
                        let j2 = choose|j: int| #[trigger] holds_key(before, j, k);
                        assert(holds_key(after, j, k));
                        assert(holds_key(before, j, k));
                        assert(holds_key(before, j2, k));
                        assert(j == j2);
                    }
                    assert forall|k: K::Model|
                        self.counts().contains_key(k) == old(self).counts().contains_key(k) by {
                        if self.counts().contains_key(k) {
                            let j = choose|j: int| #[trigger] holds_key(after, j, k);
                            assert(holds_key(before, j, k));
                        }
                        if old(self).counts().contains_key(k) {
                            let j = choose|j: int| #[trigger] holds_key(before, j, k);
                            assert(holds_key(after, j, k));
                        }
                    }
                    assert(self.counts() =~= old(self).counts().insert(key.model(), (n + more) as nat));
                }
                return ;
            }
            i += 1;
        }
        self.entries.push((key, more));
        proof {
            let after = self.entries@;
            assert(after.drop_last() =~= before);
            let n = before.len() as int;
            assert(holds_key(after, n, key.model()));
            assert forall|j: int| 0 <= j < n implies (#[trigger] after[j]).0.model()
                != key.model() by {
                assert(!holds_key(before, j, key.model()));
                assert(before[j] == after[j]);
            }
            assert forall|j: int, k: K::Model| #[trigger] holds_key(before, j, k) implies holds_key(
                after,
                j,
                k,
            ) by {}
            assert forall|k: K::Model| self.counts().contains_key(k) == old(self).counts().insert(
                key.model(),
                more as nat,
            ).contains_key(k) by {
                if self.counts().contains_key(k) && k != key.model() {
                    let j = choose|j: int| #[trigger] holds_key(after, j, k);
                    assert(holds_key(before, j, k));
                }
                if old(self).counts().contains_key(k) {
                    let j = choose|j: int| #[trigger] holds_key(before, j, k);
                    assert(holds_key(after, j, k));
                }
            }
            assert forall|k: K::Model| self.counts().contains_key(k) implies self.counts()[k] == old(
                self,
            ).counts().insert(key.model(), more as nat)[k] by {
                let j = choose|j: int| #[trigger] holds_key(after, j, k);
                assert(holds_key(after, j, k));
                if k == key.model() {
                    assert(j == n);
                } else {
                    let j2 = choose|j: int| #[trigger] holds_key(before, j, k);
                    assert(holds_key(before, j, k));
                    assert(holds_key(before, j2, k));
                    assert(j == j2);
                }
            }
            assert(self.counts() =~= old(self).counts().insert(key.model(), more as nat));
        }
    }
}

impl Tally<String> {
    /// Adds the counts of another tally.
    pub fn merge(&mut self, other: &Tally<String>)
        requires
            old(self).well_formed(),
            other.well_formed(),
            old(self).total() + other.total() <= usize::MAX,
        ensures
            final(self).well_formed(),
            final(self).total() == old(self).total() + other.total(),
            final(self).counts() == added(old(self).counts(), other.counts()),
    {
        let ghost all = other.entries@;
        let ghost start = self.counts();
        let mut i: usize = 0;
        proof {
            assert forall|k: Seq<char>| !counts_of(all.take(0)).contains_key(k) by {}
            assert(self.counts() =~= added(start, counts_of(all.take(0))));
        }
        while i < other.entries.len()
            invariant
                i <= other.entries@.len(),
                all == other.entries@,
                distinct_keys(all),
                self.well_formed(),
                self.total() == old(self).total() + entries_total(all.take(i as int)),
                old(self).total() + entries_total(all) <= usize::MAX,
                self.counts() == added(start, counts_of(all.take(i as int))),
            decreases other.entries@.len() - i,
        {
            let key = other.entries[i].0.clone();
            let more: usize = other.entries[i].1;
            proof {
                assert(all.take(i + 1) =~= all.take(i as int).push(all[i as int]));
                assert(all.take(i + 1).drop_last() =~= all.take(i as int));
                lemma_counts_push(all.take(i as int), all[i as int]);
                lemma_prefix_total(all, i + 1);
                if self.counts().contains_key(key@) {
                    lemma_count_le_total(*self, key@);
                }
            }
            self.add_many(key, more);
            i += 1;
            assert(self.counts() =~= added(start, counts_of(all.take(i as int))));
        }
        assert(all.take(all.len() as int) =~= all);
    }
}

proof fn lemma_prefix_total<K: TallyKey>(entries: Seq<(K, usize)>, i: int)
    requires
        0 <= i <= entries.len(),
    ensures
        entries_total(entries.take(i)) <= entries_total(entries),
    decreases entries.len(),
{
    if i == entries.len() {
        assert(entries.take(i) =~= entries);
    } else {
        lemma_prefix_total(entries.drop_last(), i);
        assert(entries.drop_last().take(i) =~= entries.take(i));
    }
}

/// A second tally of the same counts.
pub fn copy_tally(t: &Tally<String>) -> (r: Tally<String>)
    ensures
        r.counts() == t.counts(),
        r.total() == t.total(),
        t.well_formed() ==> r.well_formed(),
{
    let ghost all = t.entries@;
    let mut entries: Vec<(String, usize)> = Vec::new();
    let mut i: usize = 0;
    while i < t.entries.len()
        invariant
            i <= t.entries@.len(),
            all == t.entries@,
            entries@ == all.take(i as int),
        decreases t.entries@.len() - i,
    {
        entries.push((t.entries[i].0.clone(), t.entries[i].1));
        i += 1;
        assert(entries@ =~= all.take(i as int));
    }
    assert(all.take(all.len() as int) =~= all);
    Tally { entries }
}

/// What texts with their counts say.
pub open spec fn pairs(v: Seq<(String, usize)>) -> Seq<(Seq<char>, nat)> {
    Seq::new(v.len(), |i: int| (v[i].0@, v[i].1 as nat))
}

/// Place `i` of the list holds `p`.
pub open spec fn stands_at(list: Seq<(Seq<char>, nat)>, i: int, p: (Seq<char>, nat)) -> bool {
    0 <= i < list.len() && list[i] == p
}

/// The list holds `p`.
pub open spec fn listed(list: Seq<(Seq<char>, nat)>, p: (Seq<char>, nat)) -> bool {
    exists|i: int| #[trigger] stands_at(list, i, p)
}

/// No count is followed by a larger one.
pub open spec fn falling(list: Seq<(Seq<char>, nat)>) -> bool {
    forall|i: int, j: int|
        0 <= i < j < list.len() ==> (#[trigger] list[i]).1 >= (#[trigger] list[j]).1
}

/// No key stands twice.
pub open spec fn keys_differ(list: Seq<(Seq<char>, nat)>) -> bool {
    forall|i: int, j: int|
        0 <= i < list.len() && 0 <= j < list.len() && (#[trigger] list[i]).0 == (
        #[trigger] list[j]).0 ==> i == j
}

/// The list names every key with its count, once, the larger counts first. Which of two keys with
/// the same count comes first is left open.
pub open spec fn is_ranking(list: Seq<(Seq<char>, nat)>, counts: Map<Seq<char>, nat>) -> bool {
    falling(list) && is_listing(list, counts)
}

/// The list names every key with its count, once. The order is left open.
pub open spec fn is_listing(list: Seq<(Seq<char>, nat)>, counts: Map<Seq<char>, nat>) -> bool {
    &&& keys_differ(list)
    &&& forall|k: Seq<char>|
        #[trigger] counts.contains_key(k) ==> listed(list, (k, counts[k]))
    &&& forall|i: int|
        0 <= i < list.len() ==> counts.contains_key((#[trigger] list[i]).0) && counts[list[i].0]
            == list[i].1
}

/// Both lists hold the same pairs.
spec fn same_pairs(a: Seq<(Seq<char>, nat)>, b: Seq<(Seq<char>, nat)>) -> bool {
    &&& forall|i: int|
        0 <= i < a.len() ==> listed(b, #[trigger] a[i])
    &&& forall|j: int|
        0 <= j < b.len() ==> listed(a, #[trigger] b[j])
}

fn insert_ranked(r: &mut Vec<(String, usize)>, e: (String, usize))
    requires
        falling(pairs(old(r)@)),
        keys_differ(pairs(old(r)@)),
        forall|i: int| 0 <= i < old(r)@.len() ==> (#[trigger] pairs(old(r)@)[i]).0 != e.0@,
    ensures
        falling(pairs(final(r)@)),
        keys_differ(pairs(final(r)@)),
        same_pairs(pairs(final(r)@), pairs(old(r)@).push((e.0@, e.1 as nat))),
{
    let ghost before = pairs(r@);
    let ghost given = (e.0@, e.1 as nat);
    let mut p: usize = 0;
    while p < r.len() && r[p].1 >= e.1
        invariant
            p <= r@.len(),
            before == pairs(r@),
            r@ == old(r)@,
            forall|i: int| 0 <= i < p ==> (#[trigger] before[i]).1 >= e.1,
        decreases r@.len() - p,
    {
        assert(before[p as int].1 == r@[p as int].1);
        p += 1;
    }
    assert(p < r@.len() ==> before[p as int].1 < e.1);
    r.insert(p, e);
    let ghost after = pairs(r@);
    let ghost wanted = before.push(given);
    proof {
        assert(after =~= before.insert(p as int, given));
        assert forall|i: int, j: int| 0 <= i < j < after.len() implies (#[trigger] after[i]).1 >= (
        #[trigger] after[j]).1 by {
            let a = if i < p {
                i
            } else {
                i - 1
            };
            let b = if j < p {
                j
            } else {
                j - 1
            };
            if i == p {
                if p < before.len() && b > p {
                    assert(before[p as int].1 >= before[b].1);
                }
                assert(after[j] == before[b]);
            } else if j == p {
                assert(after[i] == before[a]);
            } else {
                assert(after[i] == before[a] && after[j] == before[b]);
            }
        }
        assert forall|i: int, j: int|
            0 <= i < after.len() && 0 <= j < after.len() && (#[trigger] after[i]).0 == (
            #[trigger] after[j]).0 implies i == j by {
            let a = if i < p {
                i
            } else {
                i - 1
            };
            let b = if j < p {
                j
            } else {
                j - 1
            };
            if i != p && j != p {
                assert(after[i] == before[a] && after[j] == before[b]);
            } else if i != p {
                assert(after[i] == before[a]);
            } else if j != p {
                assert(after[j] == before[b]);
            }
        }
        assert forall|i: int| 0 <= i < after.len() implies listed(
            wanted,
            #[trigger] after[i],
        ) by {
            if i == p {
                assert(stands_at(wanted, before.len() as int, after[i]));
            } else if i < p {
                assert(stands_at(wanted, i, after[i]));
            } else {
                assert(stands_at(wanted, i - 1, after[i]));
            }
        }
        assert forall|j: int| 0 <= j < wanted.len() implies listed(
            after,
            #[trigger] wanted[j],
        ) by {
            if j == before.len() {
                assert(stands_at(after, p as int, wanted[j]));
            } else if j < p {
                assert(stands_at(after, j, wanted[j]));
            } else {
                assert(stands_at(after, j + 1, wanted[j]));
            }
        }
    }
}

impl Tally<String> {
    /// The keys with their counts, the larger counts first.
    pub fn ranked(&self) -> (r: Vec<(String, usize)>)
        requires
            self.well_formed(),
        ensures
            is_ranking(pairs(r@), self.counts()),
    {
        let ghost all = pairs(self.entries@);
        let mut r: Vec<(String, usize)> = Vec::new();
        let mut i: usize = 0;
        assert(pairs(r@) =~= all.take(0));
        while i < self.entries.len()
            invariant
                i <= self.entries@.len(),
                self.well_formed(),
                all == pairs(self.entries@),
                falling(pairs(r@)),
                keys_differ(pairs(r@)),
                same_pairs(pairs(r@), all.take(i as int)),
            decreases self.entries@.len() - i,
        {
            let e = (self.entries[i].0.clone(), self.entries[i].1);
            let ghost before = pairs(r@);
            let ghost given = (e.0@, e.1 as nat);
            assert(given == all[i as int]);
            proof {
                assert forall|k: int| 0 <= k < before.len() implies (#[trigger] before[k]).0
                    != e.0@ by {
                    let j = choose|j: int| #[trigger] stands_at(all.take(i as int), j, before[k]);
                    assert(stands_at(all.take(i as int), j, before[k]));
                    assert(all[j].0 == self.entries@[j].0.model());
                    assert(all[i as int].0 == self.entries@[i as int].0.model());
                }
            }
            insert_ranked(&mut r, e);
            proof {
                let after = pairs(r@);
                let wanted = before.push(given);
                let done = all.take(i as int);
                let next = all.take(i + 1);
                assert forall|k: int| 0 <= k < after.len() implies listed(
                    next,
                    #[trigger] after[k],
                ) by {
                    let w = choose|w: int| #[trigger] stands_at(wanted, w, after[k]);
                    assert(stands_at(wanted, w, after[k]));
                    if w < before.len() {
                        assert(after[k] == before[w]);
                        let j = choose|j: int| #[trigger] stands_at(done, j, before[w]);
                        assert(stands_at(done, j, before[w]));
                        assert(stands_at(next, j, after[k]));
                    } else {
                        assert(stands_at(next, i as int, after[k]));
                    }
                }
                assert forall|j: int| 0 <= j < next.len() implies listed(
                    after,
                    #[trigger] next[j],
                ) by {
                    if j < i {
                        assert(done[j] == next[j]);
                        let w = choose|w: int| #[trigger] stands_at(before, w, done[j]);
                        assert(stands_at(before, w, done[j]));
                        assert(wanted[w] == next[j]);
                        let k = choose|k: int| #[trigger] stands_at(after, k, wanted[w]);
                        assert(stands_at(after, k, next[j]));
                    } else {
                        let w = before.len() as int;
                        assert(wanted[w] == next[j]);
                        let k = choose|k: int| #[trigger] stands_at(after, k, wanted[w]);
                        assert(stands_at(after, k, next[j]));
                    }
                }
            }
            i += 1;
        }
        proof {
            let list = pairs(r@);
            let counts = self.counts();
            assert(all.take(all.len() as int) =~= all);
            assert forall|k: Seq<char>| #[trigger] counts.contains_key(k) implies listed(
                list,
                (k, counts[k]),
            ) by {
                let j = choose|j: int| #[trigger] holds_key(self.entries@, j, k);
                assert(holds_key(self.entries@, j, k));
                assert(all[j] == (k, counts[k]));
                let i = choose|i: int| #[trigger] stands_at(list, i, all[j]);
                assert(stands_at(list, i, (k, counts[k])));
            }
            assert forall|i: int| 0 <= i < list.len() implies counts.contains_key(
                (#[trigger] list[i]).0,
            ) && counts[list[i].0] == list[i].1 by {
                let j = choose|j: int| #[trigger] stands_at(all, j, list[i]);
                assert(stands_at(all, j, list[i]));
                assert(holds_key(self.entries@, j, list[i].0));
                let j2 = choose|j2: int| #[trigger] holds_key(self.entries@, j2, list[i].0);
                assert(holds_key(self.entries@, j2, list[i].0));
                assert(j == j2);
            }
        }
        r
    }
}

/// The counts of a list, added up.
pub open spec fn sum(list: Seq<(Seq<char>, nat)>) -> nat
    decreases list.len(),
{
    if list.len() == 0 {
        0
    } else {
        sum(list.drop_last()) + list.last().1
    }
}

proof fn lemma_sum_update(list: Seq<(Seq<char>, nat)>, i: int, p: (Seq<char>, nat))
    requires
        0 <= i < list.len(),
    ensures
        sum(list.update(i, p)) == sum(list) + p.1 - list[i].1,
    decreases list.len(),
{
    if i == list.len() - 1 {
        assert(list.update(i, p).drop_last() =~= list.drop_last());
    } else {
        lemma_sum_update(list.drop_last(), i, p);
        assert(list.update(i, p).drop_last() =~= list.drop_last().update(i, p));
    }
}

proof fn lemma_sum_remove(list: Seq<(Seq<char>, nat)>, i: int)
    requires
        0 <= i < list.len(),
    ensures
        sum(list.remove(i)) == sum(list) - list[i].1,
    decreases list.len(),
{
    if i == list.len() - 1 {
        assert(list.remove(i) =~= list.drop_last());
    } else {
        lemma_sum_remove(list.drop_last(), i);
        assert(list.remove(i).drop_last() =~= list.drop_last().remove(i));
        assert(list.remove(i).last() == list.last());
    }
}

/// The list names every key with its count, once.
spec fn covers(list: Seq<(Seq<char>, nat)>, counts: Map<Seq<char>, nat>) -> bool {
    &&& keys_differ(list)
    &&& forall|k: Seq<char>| #[trigger] counts.contains_key(k) ==> listed(list, (k, counts[k]))
    &&& forall|i: int|
        0 <= i < list.len() ==> counts.contains_key((#[trigger] list[i]).0) && counts[list[i].0]
            == list[i].1
}

proof fn lemma_cover_adds_up(list: Seq<(Seq<char>, nat)>, keys: Seq<Seq<char>>)
    requires
        covers(list, tally_of(keys)),
    ensures
        sum(list) == keys.len(),
    decreases keys.len(),
{
    let counts = tally_of(keys);
    if keys.len() == 0 {
        if list.len() > 0 {
            assert(counts.contains_key(list[0].0));
        }
    } else {
        let front = keys.drop_last();
        let before = tally_of(front);
        let k = keys.last();
        assert(counts.contains_key(k));
        assert(listed(list, (k, counts[k])));
        let i = choose|i: int| #[trigger] stands_at(list, i, (k, counts[k]));
        assert(stands_at(list, i, (k, counts[k])));
        if before.contains_key(k) {
            let less = list.update(i, (k, before[k]));
            lemma_sum_update(list, i, (k, before[k]));
            assert forall|a: int, b: int|
                0 <= a < less.len() && 0 <= b < less.len() && (#[trigger] less[a]).0 == (
                #[trigger] less[b]).0 implies a == b by {
                assert(list[a].0 == less[a].0 && list[b].0 == less[b].0);
            }
            assert forall|x: Seq<char>| #[trigger] before.contains_key(x) implies listed(
                less,
                (x, before[x]),
            ) by {
                if x == k {
                    assert(stands_at(less, i, (x, before[x])));
                } else {
                    assert(counts.contains_key(x));
                    let j = choose|j: int| #[trigger] stands_at(list, j, (x, counts[x]));
                    assert(stands_at(list, j, (x, counts[x])));
                    assert(stands_at(less, j, (x, before[x])));
                }
            }
            assert forall|a: int| 0 <= a < less.len() implies before.contains_key(
                (#[trigger] less[a]).0,
            ) && before[less[a].0] == less[a].1 by {
                if a != i {
                    assert(less[a] == list[a]);
                    assert(counts.contains_key(list[a].0));
                    assert(list[a].0 != list[i].0);
                }
            }
            lemma_cover_adds_up(less, front);
        } else {
            let less = list.remove(i);
            lemma_sum_remove(list, i);
            assert forall|a: int, b: int|
                0 <= a < less.len() && 0 <= b < less.len() && (#[trigger] less[a]).0 == (
                #[trigger] less[b]).0 implies a == b by {
                let a2 = if a < i {
                    a
                } else {
                    a + 1
                };
                let b2 = if b < i {
                    b
                } else {
                    b + 1
                };
                assert(list[a2] == less[a] && list[b2] == less[b]);
            }
            assert forall|x: Seq<char>| #[trigger] before.contains_key(x) implies listed(
                less,
                (x, before[x]),
            ) by {
                assert(counts.contains_key(x));
                let j = choose|j: int| #[trigger] stands_at(list, j, (x, counts[x]));
                assert(stands_at(list, j, (x, counts[x])));
                assert(j != i);
                if j < i {
                    assert(stands_at(less, j, (x, before[x])));
                } else {
                    assert(stands_at(less, j - 1, (x, before[x])));
                }
            }
            assert forall|a: int| 0 <= a < less.len() implies before.contains_key(
                (#[trigger] less[a]).0,
            ) && before[less[a].0] == less[a].1 by {
                let a2 = if a < i {
                    a
                } else {
                    a + 1
                };
                assert(less[a] == list[a2]);
                assert(counts.contains_key(list[a2].0));
                assert(list[a2].0 != list[i].0);
            }
            lemma_cover_adds_up(less, front);
        }
    }
}

/// The counts of a ranking add up to the number of keys that were counted.
pub proof fn law_ranking_adds_up(list: Seq<(Seq<char>, nat)>, keys: Seq<Seq<char>>)
    requires
        is_ranking(list, tally_of(keys)),
    ensures
        sum(list) == keys.len(),
{
    lemma_cover_adds_up(list, keys);
}

} // verus!
