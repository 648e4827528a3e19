//! The order of texts, by the code points of their characters.

use vstd::prelude::*;
use vstd::string::*;

use crate::text;

verus! {

/// `a` comes before `b`: at the first place where they differ `a` has the smaller character, or `a`
/// ends there.
pub open spec fn before(a: Seq<char>, b: Seq<char>) -> bool
    decreases a.len(),
{
    if b.len() == 0 {
        false
    } else if a.len() == 0 {
        true
    } else if a[0] != b[0] {
        a[0] < b[0]
    } else {
        before(a.drop_first(), b.drop_first())
    }
}

/// No text comes before itself.
pub proof fn law_before_irreflexive(a: Seq<char>)
    ensures
        !before(a, a),
    decreases a.len(),
{
    if a.len() > 0 {
        law_before_irreflexive(a.drop_first());
    }
}

/// Of two texts that come one before the other, the first comes before what follows the second.
pub proof fn law_before_transitive(a: Seq<char>, b: Seq<char>, c: Seq<char>)
    requires
        before(a, b),
        before(b, c),
    ensures
        before(a, c),
    decreases a.len(),
{
    if a.len() > 0 && a[0] == b[0] && b[0] == c[0] {
        law_before_transitive(a.drop_first(), b.drop_first(), c.drop_first());
    }
}

/// Of two different texts one comes before the other.
pub proof fn law_before_total(a: Seq<char>, b: Seq<char>)
    ensures
        before(a, b) || before(b, a) || a == b,
    decreases a.len(),
{
    if a.len() == 0 || b.len() == 0 {
        if a.len() == 0 && b.len() == 0 {
            assert(a =~= b);
        }
    } else if a[0] == b[0] {
        law_before_total(a.drop_first(), b.drop_first());
        if a.drop_first() == b.drop_first() {
            assert(a =~= seq![a[0]] + a.drop_first());
            assert(b =~= seq![b[0]] + b.drop_first());
        }
    }
}

/// Whether a text comes before another.
pub fn comes_before(a: &str, b: &str) -> (r: bool)
    ensures
        r == before(a@, b@),
{
    let x = text::chars_of(a);
    let y = text::chars_of(b);
    let mut i: usize = 0;
    assert(x@.skip(0) =~= x@);
    assert(y@.skip(0) =~= y@);
    while i < x.len() && i < y.len()
        invariant
            i <= x@.len(),
            i <= y@.len(),
            x@ == a@,
            y@ == b@,
            before(x@, y@) == before(x@.skip(i as int), y@.skip(i as int)),
        decreases x@.len() - i,
    {
        if x[i] != y[i] {
            return x[i] < y[i];
        }
        assert(x@.skip(i as int).drop_first() =~= x@.skip(i + 1));
        assert(y@.skip(i as int).drop_first() =~= y@.skip(i + 1));
        i += 1;
    }
    i < y.len()
}

/// No text of the list comes before an earlier one.
pub open spec fn sorted(v: Seq<Seq<char>>) -> bool {
    forall|i: int, j: int| 0 <= i < j < v.len() ==> !before(#[trigger] v[j], #[trigger] v[i])
}

/// Each text of the list comes before the next.
pub open spec fn rising(v: Seq<Seq<char>>) -> bool {
    forall|i: int, j: int| 0 <= i < j < v.len() ==> before(#[trigger] v[i], #[trigger] v[j])
}

/// `v` lists the texts of a set, each once and in order.
pub open spec fn enumerates(v: Seq<Seq<char>>, keys: Set<Seq<char>>) -> bool {
    &&& rising(v)
    &&& forall|k: Seq<char>| #[trigger] keys.contains(k) <==> v.contains(k)
}

/// There is one way to list the texts of a set in order.
pub proof fn law_enumeration_is_unique(a: Seq<Seq<char>>, b: Seq<Seq<char>>, keys: Set<Seq<char>>)
    requires
        enumerates(a, keys),
        enumerates(b, keys),
    ensures
        a == b,
    decreases a.len(),
{
    if a.len() == 0 {
        if b.len() > 0 {
            assert(b.contains(b[0]));
            assert(keys.contains(b[0]));
        }
        assert(a =~= b);
    } else {
        let x = a.last();
        assert(a[a.len() - 1] == x);
        assert(a.contains(x));
        assert(keys.contains(x));
        assert(b.contains(x));
        let y = b.last();
        assert(b[b.len() - 1] == y);
        assert(b.contains(y));
        assert(keys.contains(y));
        assert(a.contains(y));
        if x != y {
            let i = b.index_of(x);
            let j = a.index_of(y);
            assert(before(b[i], b[b.len() - 1]));
            assert(before(a[j], a[a.len() - 1]));
            law_before_transitive(x, y, x);
            law_before_irreflexive(x);
        }
        let rest = keys.remove(x);
        lemma_enumerates_front(a, keys);
        lemma_enumerates_front(b, keys);
        law_enumeration_is_unique(a.drop_last(), b.drop_last(), rest);
        assert(a =~= a.drop_last().push(x));
        assert(b =~= b.drop_last().push(y));
    }
}

proof fn lemma_enumerates_front(v: Seq<Seq<char>>, keys: Set<Seq<char>>)
    requires
        enumerates(v, keys),
        v.len() > 0,
    ensures
        enumerates(v.drop_last(), keys.remove(v.last())),
{
    let front = v.drop_last();
    let x = v.last();
    assert forall|i: int, j: int| 0 <= i < j < front.len() implies before(
        #[trigger] front[i],
        #[trigger] front[j],
    ) by {
        assert(before(v[i], v[j]));
    }
    assert forall|k: Seq<char>| #[trigger]
        keys.remove(x).contains(k) <==> front.contains(k) by {
        if front.contains(k) {
            let i = front.index_of(k);
            assert(v[i] == k);
            assert(v.contains(k));
            assert(keys.contains(k));
            assert(before(v[i], v[v.len() - 1]));
            law_before_irreflexive(x);
        }
        if keys.remove(x).contains(k) {
            assert(v.contains(k));
            let i = v.index_of(k);
            assert(front[i] == k);
        }
    }
}

/// Two sorted lists of the same texts are the same.
pub proof fn law_sorted_is_unique(a: Seq<Seq<char>>, b: Seq<Seq<char>>)
    requires
        sorted(a),
        sorted(b),
        a.to_multiset() == b.to_multiset(),
    ensures
        a == b,
    decreases a.len(),
{
    broadcast use vstd::seq_lib::group_to_multiset_ensures;

    assert(a.len() == a.to_multiset().len());
    assert(b.len() == b.to_multiset().len());
    if a.len() == 0 {
        assert(a =~= b);
    } else {
        let x = a.last();
        let y = b.last();
        assert(a[a.len() - 1] == x);
        assert(b[b.len() - 1] == y);
        assert(a.contains(x));
        assert(b.contains(y));
        assert(b.to_multiset().count(x) > 0);
        assert(a.to_multiset().count(y) > 0);
        assert(b.contains(x));
        assert(a.contains(y));
        let i = b.index_of(x);
        let j = a.index_of(y);
        law_before_total(x, y);
        if x != y {
            if before(x, y) {
                assert(!before(a[a.len() - 1], a[j]));
            } else {
                assert(!before(b[b.len() - 1], b[i]));
            }
        }
        let fa = a.drop_last();
        let fb = b.drop_last();
        assert(a =~= fa.push(x));
        assert(b =~= fb.push(y));
        assert(fa.to_multiset() =~= a.to_multiset().remove(x));
        assert(fb.to_multiset() =~= b.to_multiset().remove(y));
        assert forall|i: int, j: int| 0 <= i < j < fa.len() implies !before(
            #[trigger] fa[j],
            #[trigger] fa[i],
        ) by {
            assert(!before(a[j], a[i]));
        }
        assert forall|i: int, j: int| 0 <= i < j < fb.len() implies !before(
            #[trigger] fb[j],
            #[trigger] fb[i],
        ) by {
            assert(!before(b[j], b[i]));
        }
        law_sorted_is_unique(fa, fb);
    }
}

/// Puts a text into a sorted list, behind the texts that do not come after it.
fn insert_sorted(v: &mut Vec<String>, s: String)
    requires
        sorted(text::views(old(v)@)),
    ensures
        sorted(text::views(final(v)@)),
        text::views(final(v)@).to_multiset() == text::views(old(v)@).to_multiset().insert(s@),
{
    broadcast use vstd::seq_lib::group_to_multiset_ensures;

    let ghost old_views = text::views(v@);
    let ghost x = s@;
    let mut low: usize = 0;
    let mut high: usize = v.len();
    while low < high
        invariant
            low <= high <= v@.len(),
            v@ == old(v)@,
            old_views == text::views(v@),
            sorted(old_views),
            x == s@,
            forall|j: int| 0 <= j < low ==> !before(x, #[trigger] old_views[j]),
            forall|j: int| high <= j < old_views.len() ==> before(x, #[trigger] old_views[j]),
        decreases high - low,
    {
        let mid: usize = low + (high - low) / 2;
        assert(old_views[mid as int] == v@[mid as int]@);
        if comes_before(s.as_str(), v[mid].as_str()) {
            proof {
                assert forall|j: int| mid <= j < old_views.len() implies before(
                    x,
                    #[trigger] old_views[j],
                ) by {
                    if j > mid {
                        assert(!before(old_views[j], old_views[mid as int]));
                        law_before_total(old_views[mid as int], old_views[j]);
                        if old_views[mid as int] != old_views[j] {
                            law_before_transitive(x, old_views[mid as int], old_views[j]);
                        }
                    }
                }
            }
            high = mid;
        } else {
            proof {
                assert forall|j: int| 0 <= j <= mid implies !before(x, #[trigger] old_views[j]) by {
                    if j < mid {
                        assert(!before(old_views[mid as int], old_views[j]));
                        law_before_total(old_views[mid as int], old_views[j]);
                        if before(x, old_views[j]) && old_views[j] != old_views[mid as int] {
                            law_before_transitive(x, old_views[j], old_views[mid as int]);
                        }
                    }
                }
            }
            low = mid + 1;
        }
    }
    v.insert(low, s);
    proof {
        let new_views = text::views(v@);
        assert(new_views =~= old_views.insert(low as int, x));
        assert forall|i: int, j: int| 0 <= i < j < new_views.len() implies !before(
            #[trigger] new_views[j],
            #[trigger] new_views[i],
        ) by {
            if i == low {
                assert(new_views[j] == old_views[j - 1]);
                assert(before(x, old_views[j - 1]));
                if before(old_views[j - 1], x) {
                    law_before_transitive(x, old_views[j - 1], x);
                    law_before_irreflexive(x);
                }
            } else if j == low {
                assert(new_views[i] == old_views[i]);
            } else {
                let a = if i < low {
                    i
                } else {
                    i - 1
                };
                let b = if j < low {
                    j
                } else {
                    j - 1
                };
                assert(!before(old_views[b], old_views[a]));
            }
        }
        let left = old_views.take(low as int);
        let right = old_views.skip(low as int);
        assert(old_views =~= left + right);
        assert(new_views =~= left.push(x) + right);
        vstd::seq_lib::lemma_multiset_commutative(left, right);
        vstd::seq_lib::lemma_multiset_commutative(left.push(x), right);
        assert(new_views.to_multiset() =~= old_views.to_multiset().insert(x));
    }
}

/// Sorts texts.
pub fn sort_texts(v: &Vec<String>) -> (r: Vec<String>)
    ensures
        sorted(text::views(r@)),
        text::views(r@).to_multiset() == text::views(v@).to_multiset(),
{
    broadcast use vstd::seq_lib::group_to_multiset_ensures;

    let mut r: Vec<String> = Vec::new();
    let mut i: usize = 0;
    assert(text::views(r@) =~= text::views(v@).take(0));
    while i < v.len()
        invariant
            i <= v@.len(),
            sorted(text::views(r@)),
            text::views(r@).to_multiset() == text::views(v@).take(i as int).to_multiset(),
        decreases v@.len() - i,
    {
        let ghost done = text::views(v@).take(i as int);
        insert_sorted(&mut r, v[i].clone());
        assert(text::views(v@).take(i + 1) =~= done.push(v@[i as int]@));
        assert(done.push(v@[i as int]@).to_multiset() == done.to_multiset().insert(v@[i as int]@)) by {
            broadcast use vstd::seq_lib::group_to_multiset_ensures;

        }
        i += 1;
    }
    assert(text::views(v@).take(v@.len() as int) =~= text::views(v@));
    r
}

} // verus!
