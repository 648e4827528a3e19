//! Keeping results of tools for a while.

use lru::LruCache;
use std::num::NonZeroUsize;
use vstd::prelude::*;
use vstd::string::*;

use crate::agent::protocol::ToolResult;

verus! {

/// A result that is kept, and when it was put in, in nanoseconds.
pub struct CacheEntry {
    pub result: ToolResult,
    pub inserted_at: u64,
}

/// `lru::DefaultHasher`, which the cache finds its keys by.
#[verifier::external_type_specification]
#[verifier::external_body]
pub struct ExDefaultHasher(lru::DefaultHasher);

/// `lru::LruCache`.
#[verifier::external_type_specification]
#[verifier::external_body]
#[verifier::reject_recursive_types(K)]
#[verifier::reject_recursive_types(V)]
#[verifier::reject_recursive_types(S)]
pub struct ExLruCache<K, V, S>(lru::LruCache<K, V, S>);

/// What a cache holds: the keys with their entries, the one used last first.
pub uninterp spec fn cached(c: LruCache<String, CacheEntry>) -> Seq<(Seq<char>, CacheEntry)>;

/// How many entries a cache can hold.
pub uninterp spec fn capacity(c: LruCache<String, CacheEntry>) -> nat;

/// The place of a key; the number of entries if it is not there.
pub open spec fn place_of(all: Seq<(Seq<char>, CacheEntry)>, key: Seq<char>) -> int
    decreases all.len(),
{
    if all.len() == 0 {
        0
    } else {
        let front = place_of(all.drop_last(), key);
        if front < all.len() - 1 {
            front
        } else if all.last().0 == key {
            all.len() - 1
        } else {
            all.len() as int
        }
    }
}

/// The key is there.
pub open spec fn holds(all: Seq<(Seq<char>, CacheEntry)>, key: Seq<char>) -> bool {
    place_of(all, key) < all.len()
}

/// The entries with a key gone.
pub open spec fn without(all: Seq<(Seq<char>, CacheEntry)>, key: Seq<char>) -> Seq<
    (Seq<char>, CacheEntry),
> {
    if holds(all, key) {
        all.remove(place_of(all, key))
    } else {
        all
    }
}

/// The entries with a key moved to the front.
pub open spec fn touched(all: Seq<(Seq<char>, CacheEntry)>, key: Seq<char>) -> Seq<
    (Seq<char>, CacheEntry),
> {
    if holds(all, key) {
        seq![all[place_of(all, key)]] + without(all, key)
    } else {
        all
    }
}

/// The entries once one is put in: it comes first, and takes the place of the key's entry, or, in
/// a full cache, of the entry that was not used for the longest time.
pub open spec fn with_entry(
    all: Seq<(Seq<char>, CacheEntry)>,
    cap: nat,
    key: Seq<char>,
    e: CacheEntry,
) -> Seq<(Seq<char>, CacheEntry)> {
    if holds(all, key) || all.len() < cap {
        seq![(key, e)] + without(all, key)
    } else {
        seq![(key, e)] + all.drop_last()
    }
}

/// `LruCache::new` gives an empty cache that holds at most `cap` entries. It sets memory aside for
/// them, which is why the number is bounded.
#[verifier::external_body]
fn new_lru(cap: usize) -> (c: LruCache<String, CacheEntry>)
    requires
        0 < cap <= usize::MAX / 256,
    ensures
        cached(c).len() == 0,
        capacity(c) == cap,
{
    LruCache::new(NonZeroUsize::new(cap).unwrap())
}

/// `LruCache::get` finds the entry of a key and marks it as the one used last.
#[verifier::external_body]
fn lru_get<'a>(c: &'a mut LruCache<String, CacheEntry>, key: &str) -> (r: Option<&'a CacheEntry>)
    ensures
        cached(*final(c)) == touched(cached(*old(c)), key@),
        capacity(*final(c)) == capacity(*old(c)),
        match r {
            Some(e) => holds(cached(*old(c)), key@) && *e == cached(*old(c))[place_of(
                cached(*old(c)),
                key@,
            )].1,
            None => !holds(cached(*old(c)), key@),
        },
{
    c.get(key)
}

/// `LruCache::put` puts an entry in; in a full cache, the entry that was not used for the longest
/// time makes room for a new key.
#[verifier::external_body]
fn lru_put(c: &mut LruCache<String, CacheEntry>, key: String, e: CacheEntry)
    ensures
        cached(*final(c)) == with_entry(cached(*old(c)), capacity(*old(c)), key@, e),
        capacity(*final(c)) == capacity(*old(c)),
{
    c.put(key, e);
}

/// `LruCache::pop` takes the entry of a key out.
#[verifier::external_body]
fn lru_pop(c: &mut LruCache<String, CacheEntry>, key: &str)
    ensures
        cached(*final(c)) == without(cached(*old(c)), key@),
        capacity(*final(c)) == capacity(*old(c)),
{
    c.pop(key);
}

/// `LruCache::clear` takes all entries out.
#[verifier::external_body]
fn lru_clear(c: &mut LruCache<String, CacheEntry>)
    ensures
        cached(*final(c)).len() == 0,
        capacity(*final(c)) == capacity(*old(c)),
{
    c.clear();
}

/// `LruCache::len` gives the number of entries.
#[verifier::external_body]
fn lru_len(c: &LruCache<String, CacheEntry>) -> (n: usize)
    ensures
        n == cached(*c).len(),
{
    c.len()
}

/// Results of tools, kept for a limited time.
pub struct ToolResultCache {
    pub cache: LruCache<String, CacheEntry>,
    /// How long a result is kept, in nanoseconds.
    pub ttl: u64,
}

/// The place of a key holds it, and no place before it does.
pub proof fn lemma_place_of(all: Seq<(Seq<char>, CacheEntry)>, key: Seq<char>)
    ensures
        0 <= place_of(all, key) <= all.len(),
        holds(all, key) ==> all[place_of(all, key)].0 == key,
        forall|i: int| 0 <= i < place_of(all, key) ==> (#[trigger] all[i]).0 != key,
    decreases all.len(),
{
    if all.len() > 0 {
        let front = all.drop_last();
        lemma_place_of(front, key);
        assert forall|i: int| 0 <= i < place_of(all, key) implies (#[trigger] all[i]).0 != key by {
            if i < front.len() {
                assert(front[i] == all[i]);
            }
        }
        if place_of(front, key) < front.len() {
            assert(front[place_of(front, key)] == all[place_of(all, key)]);
        }
    }
}

/// No key stands twice.
pub open spec fn keys_differ(all: Seq<(Seq<char>, CacheEntry)>) -> bool {
    forall|i: int, j: int|
        0 <= i < all.len() && 0 <= j < all.len() && (#[trigger] all[i]).0 == (
        #[trigger] all[j]).0 ==> i == j
}

/// A result that was asked for comes first from then on, and no result is lost.
pub proof fn law_asked_for_result_comes_first(
    all: Seq<(Seq<char>, CacheEntry)>,
    key: Seq<char>,
    i: int,
)
    requires
        0 <= i < all.len(),
    ensures
        all[i].0 == key ==> touched(all, key)[0].0 == key,
        touched(all, key).len() == all.len(),
        touched(all, key).contains(all[i]),
{
    lemma_place_of(all, key);
    let p = place_of(all, key);
    let after = touched(all, key);
    if holds(all, key) {
        let rest = all.remove(p);
        assert(after == seq![all[p]] + rest);
        if i < p {
            assert(after[i + 1] == all[i]);
        } else if i == p {
            assert(after[0] == all[i]);
        } else {
            assert(after[i] == all[i]);
        }
    } else {
        assert(after[i] == all[i]);
    }
}

/// A result that is taken out is gone, and every other stays.
pub proof fn law_only_the_key_is_taken_out(
    all: Seq<(Seq<char>, CacheEntry)>,
    key: Seq<char>,
    i: int,
)
    requires
        keys_differ(all),
        0 <= i < all.len(),
    ensures
        all[i].0 != key ==> without(all, key).contains(all[i]),
        !holds(without(all, key), key),
{
    lemma_place_of(all, key);
    let p = place_of(all, key);
    let after = without(all, key);
    lemma_place_of(after, key);
    if holds(all, key) {
        if i < p {
            assert(after[i] == all[i]);
        } else if i > p {
            assert(after[i - 1] == all[i]);
        }
        if holds(after, key) {
            let k = place_of(after, key);
            let was = if k < p {
                k
            } else {
                k + 1
            };
            assert(all[was].0 == key);
            assert(all[p].0 == key);
        }
    } else {
        assert(after[i] == all[i]);
    }
}

/// The entry put in last is there and comes first, and no key stands twice.
pub proof fn law_put_entry_is_found(
    all: Seq<(Seq<char>, CacheEntry)>,
    cap: nat,
    key: Seq<char>,
    e: CacheEntry,
)
    requires
        keys_differ(all),
        all.len() <= cap,
        0 < cap,
    ensures
        ({
            let after = with_entry(all, cap, key, e);
            &&& place_of(after, key) == 0
            &&& after[0] == (key, e)
            &&& keys_differ(after)
            &&& after.len() <= cap
        }),
{
    lemma_place_of(all, key);
    let after = with_entry(all, cap, key, e);
    let p = place_of(all, key);
    assert forall|i: int, j: int|
        0 <= i < after.len() && 0 <= j < after.len() && (#[trigger] after[i]).0 == (
        #[trigger] after[j]).0 implies i == j by {
        if i > 0 {
            lemma_behind_first(all, cap, key, e, i);
        }
        if j > 0 {
            lemma_behind_first(all, cap, key, e, j);
        }
    }
    lemma_place_of(after, key);
    if place_of(after, key) != 0 {
        assert(after[0].0 == key);
        if place_of(after, key) > 0 {
            assert(after[0].0 != key);
        }
    }
}

/// Where the entries behind the first come from.
proof fn lemma_behind_first(
    all: Seq<(Seq<char>, CacheEntry)>,
    cap: nat,
    key: Seq<char>,
    e: CacheEntry,
    i: int,
)
    requires
        keys_differ(all),
        all.len() <= cap,
        0 < cap,
        0 < i < with_entry(all, cap, key, e).len(),
    ensures
        ({
            let after = with_entry(all, cap, key, e);
            let from = if holds(all, key) && i - 1 >= place_of(all, key) {
                i
            } else {
                i - 1
            };
            &&& 0 <= from < all.len()
            &&& after[i] == all[from]
            &&& all[from].0 != key
        }),
{
    lemma_place_of(all, key);
    let p = place_of(all, key);
    if holds(all, key) {
        assert(all[p].0 == key);
        let from = if i - 1 >= p {
            i
        } else {
            i - 1
        };
        assert(all[from].0 == key ==> from == p);
    } else {
        assert(all[i - 1].0 != key);
    }
}

impl ToolResultCache {
    /// What the cache holds, the one used last first.
    pub open spec fn entries(&self) -> Seq<(Seq<char>, CacheEntry)> {
        cached(self.cache)
    }

    /// How many results the cache can hold.
    pub open spec fn limit(&self) -> nat {
        capacity(self.cache)
    }

    /// No key stands twice, and there is room for every entry.
    pub open spec fn well_formed(&self) -> bool {
        &&& keys_differ(self.entries())
        &&& self.entries().len() <= self.limit()
        &&& 0 < self.limit()
    }

    /// An empty cache for at most `max_size` results, at least one, each kept for `ttl`
    /// nanoseconds.
    pub fn new(ttl: u64, max_size: usize) -> (r: Self)
        requires
            max_size <= usize::MAX / 256,
        ensures
            r.well_formed(),
            r.entries().len() == 0,
            r.ttl == ttl,
            r.limit() == if max_size == 0 {
                1
            } else {
                max_size as nat
            },
    {
        let cap: usize = if max_size == 0 {
            1
        } else {
            max_size
        };
        ToolResultCache { cache: new_lru(cap), ttl }
    }

    /// Finds a result that is not too old at the time `now`; one that is too old goes.
    pub fn get(&mut self, key: &str, now: u64) -> (r: Option<ToolResult>)
        requires
            old(self).well_formed(),
        ensures
            final(self).well_formed(),
            final(self).ttl == old(self).ttl,
            final(self).limit() == old(self).limit(),
            match r {
                Some(result) => {
                    &&& is_fresh(old(self).entries(), key@, now, old(self).ttl)
                    &&& result.spec() == old(self).entries()[place_of(
                        old(self).entries(),
                        key@,
                    )].1.result.spec()
                    &&& final(self).entries() == touched(old(self).entries(), key@)
                },
                None => {
                    &&& !is_fresh(old(self).entries(), key@, now, old(self).ttl)
                    &&& final(self).entries() == without(old(self).entries(), key@)
                },
            },
    {
        let ghost before = self.entries();
        proof {
            lemma_place_of(before, key@);
            lemma_touched(before, key@);
        }
        let kept: Option<(u64, ToolResult)> = match lru_get(&mut self.cache, key) {
            Some(e) => Some((e.inserted_at, e.result.clone())),
            None => None,
        };
        match kept {
            Some((inserted_at, result)) => {
                let age: u64 = if now >= inserted_at {
                    now - inserted_at
                } else {
                    0
                };
                if age > self.ttl {
                    lru_pop(&mut self.cache, key);
                    return None;
                }
                Some(result)
            },
            None => None,
        }
    }

    /// Keeps a result under a key, from the time `now` on.
    pub fn set(&mut self, key: String, result: ToolResult, now: u64)
        requires
            old(self).well_formed(),
        ensures
            final(self).well_formed(),
            final(self).ttl == old(self).ttl,
            final(self).limit() == old(self).limit(),
            final(self).entries() == with_entry(
                old(self).entries(),
                old(self).limit(),
                key@,
                (CacheEntry { result, inserted_at: now }),
            ),
    {
        proof {
            law_put_entry_is_found(
                self.entries(),
                self.limit(),
                key@,
                CacheEntry { result, inserted_at: now },
            );
        }
        lru_put(&mut self.cache, key, CacheEntry { result, inserted_at: now });
    }

    /// How many results are kept.
    pub fn len(&self) -> (n: usize)
        ensures
            n == self.entries().len(),
    {
        lru_len(&self.cache)
    }

    /// Tells whether nothing is kept.
    pub fn is_empty(&self) -> (r: bool)
        ensures
            r == (self.entries().len() == 0),
    {
        self.len() == 0
    }

    /// Forgets everything.
    pub fn clear(&mut self)
        requires
            old(self).well_formed(),
        ensures
            final(self).well_formed(),
            final(self).entries().len() == 0,
            final(self).ttl == old(self).ttl,
            final(self).limit() == old(self).limit(),
    {
        lru_clear(&mut self.cache);
    }
}

/// A key has a result that is not too old.
pub open spec fn is_fresh(
    all: Seq<(Seq<char>, CacheEntry)>,
    key: Seq<char>,
    now: u64,
    ttl: u64,
) -> bool {
    holds(all, key) && now - all[place_of(all, key)].1.inserted_at <= ttl
}

proof fn lemma_touched(all: Seq<(Seq<char>, CacheEntry)>, key: Seq<char>)
    requires
        keys_differ(all),
    ensures
        keys_differ(touched(all, key)),
        touched(all, key).len() == all.len(),
        keys_differ(without(all, key)),
        without(all, key).len() <= all.len(),
        without(touched(all, key), key) == without(all, key),
{
    lemma_place_of(all, key);
    let after = touched(all, key);
    if holds(all, key) {
        let p = place_of(all, key);
        let gone = without(all, key);
        assert forall|i: int, j: int|
            0 <= i < gone.len() && 0 <= j < gone.len() && (#[trigger] gone[i]).0 == (
            #[trigger] gone[j]).0 implies i == j by {
            let a = if i >= p {
                i + 1
            } else {
                i
            };
            let b = if j >= p {
                j + 1
            } else {
                j
            };
            assert(gone[i] == all[a] && gone[j] == all[b]);
        }
        assert forall|i: int, j: int|
            0 <= i < after.len() && 0 <= j < after.len() && (#[trigger] after[i]).0 == (
            #[trigger] after[j]).0 implies i == j by {
            let a = if i == 0 {
                p
            } else if i - 1 >= p {
                i
            } else {
                i - 1
            };
            let b = if j == 0 {
                p
            } else if j - 1 >= p {
                j
            } else {
                j - 1
            };
            assert(after[i] == all[a] && after[j] == all[b]);
        }
        lemma_place_of(after, key);
        if place_of(after, key) > 0 {
            assert(after[0].0 != key);
        }
        assert(after.remove(0) =~= gone);
    }
}

/// A result that was put in is found again until it is too old.
pub proof fn law_kept_result_is_found(
    all: Seq<(Seq<char>, CacheEntry)>,
    cap: nat,
    key: Seq<char>,
    e: CacheEntry,
    now: u64,
    ttl: u64,
)
    requires
        keys_differ(all),
        all.len() <= cap,
        0 < cap,
    ensures
        ({
            let after = with_entry(all, cap, key, e);
            is_fresh(after, key, now, ttl) <==> now - e.inserted_at <= ttl
        }),
{
    law_put_entry_is_found(all, cap, key, e);
}

/// In a full cache a new key takes the place of the entry that was not used for the longest time,
/// and of no other.
pub proof fn law_oldest_makes_room(
    all: Seq<(Seq<char>, CacheEntry)>,
    cap: nat,
    key: Seq<char>,
    e: CacheEntry,
    other: Seq<char>,
)
    requires
        keys_differ(all),
        all.len() == cap,
        0 < cap,
        !holds(all, key),
        other != key,
    ensures
        holds(with_entry(all, cap, key, e), other) <==> holds(all, other) && other
            != all.last().0,
{
    let after = with_entry(all, cap, key, e);
    lemma_place_of(all, other);
    lemma_place_of(after, other);
    if holds(after, other) {
        let i = place_of(after, other);
        assert(after[i].0 == other);
        assert(i > 0);
        assert(after[i] == all[i - 1]);
        assert(all[i - 1].0 == other);
        if !holds(all, other) {
            assert(all[i - 1].0 != other);
        }
        assert(all[all.len() - 1] == all.last());
    }
    if holds(all, other) && other != all.last().0 {
        let j = place_of(all, other);
        assert(all[all.len() - 1] == all.last());
        assert(after[j + 1] == all[j]);
        if !holds(after, other) {
            assert(after[j + 1].0 != other);
        }
    }
}

/// A cache that holds nothing yet: at most 128 results, each for five minutes.
pub open spec fn is_new_cache(c: ToolResultCache) -> bool {
    &&& c.well_formed()
    &&& c.entries().len() == 0
    &&& c.ttl == 300_000_000_000
    &&& c.limit() == 128
}

impl Default for ToolResultCache {
    fn default() -> (r: Self)
        ensures
            is_new_cache(r),
    {
        ToolResultCache::new(300_000_000_000, 128)
    }
}

} // verus!
