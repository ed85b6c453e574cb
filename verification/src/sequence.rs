//! Ordering of a key sequence by the x coordinate of the positions.
//!
//! The order is the one a stable sort gives: keys with equal x keep the
//! order they had before.

use vstd::prelude::*;
use crate::key::AnimationKey;

verus! {

/// The x coordinates never decrease along `s`.
pub open spec fn sorted_by_x(s: Seq<AnimationKey>) -> bool {
    forall|i: int, j: int| 0 <= i < j < s.len() ==> s[i].pos.x <= s[j].pos.x
}

/// The x coordinates increase along `s`.
pub open spec fn strictly_sorted_by_x(s: Seq<AnimationKey>) -> bool {
    forall|i: int, j: int| 0 <= i < j < s.len() ==> s[i].pos.x < s[j].pos.x
}

/// Whether some key of `s` stands at the x coordinate `x`.
pub open spec fn has_x(s: Seq<AnimationKey>, x: int) -> bool {
    exists|i: int| 0 <= i < s.len() && #[trigger] s[i].pos.x == x
}

/// One past the last index of `s` whose key has an x of at most `x`;
/// zero where there is none.
pub open spec fn upper_bound(s: Seq<AnimationKey>, x: int) -> int
    decreases s.len(),
{
    if s.len() == 0 {
        0
    } else if s.last().pos.x <= x {
        s.len() as int
    } else {
        upper_bound(s.drop_last(), x)
    }
}

/// `s` with `k` placed behind every key whose x is at most that of `k`.
pub open spec fn insert_sorted(s: Seq<AnimationKey>, k: AnimationKey) -> Seq<AnimationKey> {
    s.insert(upper_bound(s, k.pos.x as int), k)
}

/// The keys of `s` in ascending order of x, equal ones in their old order.
pub open spec fn sort_by_x(s: Seq<AnimationKey>) -> Seq<AnimationKey>
    decreases s.len(),
{
    if s.len() == 0 {
        s
    } else {
        insert_sorted(sort_by_x(s.drop_last()), s.last())
    }
}

/// The least index at which `k` stands in `s`, or the length of `s` where
/// it stands nowhere.
pub open spec fn first_index_of(s: Seq<AnimationKey>, k: AnimationKey) -> int
    decreases s.len(),
{
    if s.len() == 0 {
        0
    } else {
        let p = first_index_of(s.drop_last(), k);
        if p < s.len() - 1 {
            p
        } else if s.last() == k {
            s.len() - 1
        } else {
            s.len() as int
        }
    }
}

/// `upper_bound` lies inside the sequence, everything from it on is
/// greater than `x`, and the key just before it is not.
pub proof fn lemma_upper_bound(s: Seq<AnimationKey>, x: int)
    ensures
        0 <= upper_bound(s, x) <= s.len(),
        forall|j: int| upper_bound(s, x) <= j < s.len() ==> (#[trigger] s[j]).pos.x > x,
        upper_bound(s, x) > 0 ==> s[upper_bound(s, x) - 1].pos.x <= x,
    decreases s.len(),
{
    if s.len() > 0 && s.last().pos.x > x {
        let t = s.drop_last();
        lemma_upper_bound(t, x);
        assert forall|j: int| upper_bound(s, x) <= j < s.len() implies (#[trigger] s[j]).pos.x
            > x by {
            if j < t.len() {
                assert(t[j] == s[j]);
            }
        }
    }
}

/// An index with the properties of `upper_bound` is `upper_bound`.
pub proof fn lemma_upper_bound_unique(s: Seq<AnimationKey>, x: int, p: int)
    requires
        0 <= p <= s.len(),
        forall|j: int| p <= j < s.len() ==> (#[trigger] s[j]).pos.x > x,
        p > 0 ==> s[p - 1].pos.x <= x,
    ensures
        p == upper_bound(s, x),
    decreases s.len(),
{
    if s.len() > 0 {
        if s.last().pos.x <= x {
            if p < s.len() {
                assert(s[s.len() - 1].pos.x > x);
            }
        } else {
            assert(p < s.len());
            let t = s.drop_last();
            assert forall|j: int| p <= j < t.len() implies (#[trigger] t[j]).pos.x > x by {
                assert(t[j] == s[j]);
            }
            lemma_upper_bound_unique(t, x, p);
        }
    }
}

/// In a sorted sequence every key before `upper_bound` has an x of at most `x`.
pub proof fn lemma_upper_bound_sorted(s: Seq<AnimationKey>, x: int)
    requires
        sorted_by_x(s),
    ensures
        forall|j: int| 0 <= j < upper_bound(s, x) ==> (#[trigger] s[j]).pos.x <= x,
{
    lemma_upper_bound(s, x);
}

/// Placing a key into a sorted sequence leaves it sorted, and strictly
/// sorted where it was so and the key's x is new.
pub proof fn lemma_insert_sorted(s: Seq<AnimationKey>, k: AnimationKey)
    requires
        sorted_by_x(s),
    ensures
        sorted_by_x(insert_sorted(s, k)),
        insert_sorted(s, k).len() == s.len() + 1,
        insert_sorted(s, k)[upper_bound(s, k.pos.x as int)] == k,
        insert_sorted(s, k).to_multiset() == s.to_multiset().insert(k),
        strictly_sorted_by_x(s) && !has_x(s, k.pos.x as int) ==> strictly_sorted_by_x(
            insert_sorted(s, k),
        ),
{
    let x = k.pos.x as int;
    let p = upper_bound(s, x);
    lemma_upper_bound(s, x);
    lemma_upper_bound_sorted(s, x);
    let r = insert_sorted(s, k);
    assert forall|i: int, j: int| 0 <= i < j < r.len() implies r[i].pos.x <= r[j].pos.x by {
        if i < p && j > p {
            assert(r[i] == s[i]);
            assert(r[j] == s[j - 1]);
        }
    }
    assert(r.remove(p) =~= s);
    vstd::seq_lib::to_multiset_remove(r, p);
    broadcast use vstd::seq_lib::group_to_multiset_ensures;
    assert(r.contains(k)) by {
        assert(r[p] == k);
    }
    assert(r.to_multiset() =~= s.to_multiset().insert(k));
    if strictly_sorted_by_x(s) && !has_x(s, x) {
        assert forall|i: int, j: int| 0 <= i < j < r.len() implies r[i].pos.x < r[j].pos.x by {
            if i < p {
                assert(s[i].pos.x != x);
            }
            if j > p {
                assert(s[j - 1].pos.x != x);
            }
        }
    }
}

/// Sorting gives a sorted sequence of the same keys.
pub proof fn lemma_sort_by_x(s: Seq<AnimationKey>)
    ensures
        sorted_by_x(sort_by_x(s)),
        sort_by_x(s).len() == s.len(),
        sort_by_x(s).to_multiset() == s.to_multiset(),
    decreases s.len(),
{
    broadcast use vstd::seq_lib::group_to_multiset_ensures;
    if s.len() == 0 {
    } else {
        let t = s.drop_last();
        lemma_sort_by_x(t);
        lemma_insert_sorted(sort_by_x(t), s.last());
        assert(t.push(s.last()) =~= s);
    }
}

/// Sorting a sorted sequence changes nothing.
pub proof fn lemma_sort_by_x_of_sorted(s: Seq<AnimationKey>)
    requires
        sorted_by_x(s),
    ensures
        sort_by_x(s) == s,
    decreases s.len(),
{
    if s.len() > 0 {
        let t = s.drop_last();
        lemma_sort_by_x_of_sorted(t);
        assert(upper_bound(t, s.last().pos.x as int) == t.len()) by {
            reveal_with_fuel(upper_bound, 2);
            if t.len() > 0 {
                assert(t.last() == s[s.len() - 2]);
            }
        }
        assert(t.insert(t.len() as int, s.last()) =~= s);
    }
}

/// `first_index_of` names the first place of `k`, where there is one.
pub proof fn lemma_first_index_of(s: Seq<AnimationKey>, k: AnimationKey)
    ensures
        0 <= first_index_of(s, k) <= s.len(),
        first_index_of(s, k) < s.len() ==> s[first_index_of(s, k)] == k,
        forall|j: int| 0 <= j < first_index_of(s, k) ==> #[trigger] s[j] != k,
        s.contains(k) ==> first_index_of(s, k) < s.len(),
    decreases s.len(),
{
    if s.len() > 0 {
        let t = s.drop_last();
        lemma_first_index_of(t, k);
        if s.contains(k) {
            let i = choose|i: int| 0 <= i < s.len() && s[i] == k;
            if i < t.len() {
                assert(t[i] == k);
                assert(t.contains(k));
            }
        }
        assert forall|j: int| 0 <= j < first_index_of(s, k) implies #[trigger] s[j] != k by {
            if j < t.len() {
                assert(t[j] == s[j]);
            }
        }
    }
}

/// A value that stands at two places of a sequence is counted at least
/// twice in its multiset.
pub proof fn lemma_two_places_count(s: Seq<AnimationKey>, a: int, b: int)
    requires
        0 <= a < s.len(),
        0 <= b < s.len(),
        a != b,
        s[a] == s[b],
    ensures
        s.to_multiset().count(s[a]) >= 2,
{
    broadcast use vstd::seq_lib::group_to_multiset_ensures;

    let v = s[a];
    let t = s.remove(a);
    vstd::seq_lib::to_multiset_remove(s, a);
    let m = if b < a {
        b
    } else {
        b - 1
    };
    assert(t[m] == v);
    assert(t.contains(v));
    assert(t.to_multiset().count(v) > 0);
}

/// A value that is counted at least twice stands at a second place.
pub proof fn lemma_count_two_places(s: Seq<AnimationKey>, a: int) -> (b: int)
    requires
        0 <= a < s.len(),
        s.to_multiset().count(s[a]) >= 2,
    ensures
        0 <= b < s.len(),
        b != a,
        s[b] == s[a],
{
    broadcast use vstd::seq_lib::group_to_multiset_ensures;

    let v = s[a];
    let t = s.remove(a);
    vstd::seq_lib::to_multiset_remove(s, a);
    assert(t.to_multiset().count(v) > 0);
    assert(t.contains(v));
    let m = choose|m: int| 0 <= m < t.len() && t[m] == v;
    if m < a {
        m
    } else {
        m + 1
    }
}

/// Sorting neither adds nor drops a key.
pub proof fn lemma_sort_members(s: Seq<AnimationKey>)
    ensures
        forall|k: int| 0 <= k < s.len() ==> s.contains(#[trigger] sort_by_x(s)[k]),
        forall|i: int| 0 <= i < s.len() ==> sort_by_x(s).contains(#[trigger] s[i]),
{
    broadcast use vstd::seq_lib::group_to_multiset_ensures;

    lemma_sort_by_x(s);
    let r = sort_by_x(s);
    assert forall|k: int| 0 <= k < s.len() implies s.contains(#[trigger] r[k]) by {
        assert(r.contains(r[k]));
        assert(r.to_multiset().count(r[k]) > 0);
    }
    assert forall|i: int| 0 <= i < s.len() implies r.contains(#[trigger] s[i]) by {
        assert(s.contains(s[i]));
        assert(s.to_multiset().count(s[i]) > 0);
    }
}

/// Sorting a sequence behind which a key was appended places that key.
pub proof fn lemma_sort_push(s: Seq<AnimationKey>, k: AnimationKey)
    requires
        sorted_by_x(s),
    ensures
        sort_by_x(s.push(k)) == insert_sorted(s, k),
{
    lemma_sort_by_x_of_sorted(s);
    assert(s.push(k).drop_last() =~= s);
}

/// Sorts the keys by x; keys with equal x keep their order.
pub fn sort_keys(points: &mut Vec<AnimationKey>)
    ensures
        final(points)@ == sort_by_x(old(points)@),
        sorted_by_x(final(points)@),
        final(points)@.len() == old(points)@.len(),
        final(points)@.to_multiset() == old(points)@.to_multiset(),
{
    let n = points.len();
    let mut i: usize = 0;
    proof {
        lemma_sort_by_x(points@);
        assert(points@.take(0) =~= sort_by_x(points@.take(0)));
    }
    while i < n
        invariant
            0 <= i <= n,
            points@.len() == n,
            n == old(points)@.len(),
            points@.take(i as int) == sort_by_x(old(points)@.take(i as int)),
            points@.skip(i as int) == old(points)@.skip(i as int),
        decreases n - i,
    {
        let ghost before = points@;
        let ghost prefix = points@.take(i as int);
        let key = points[i];
        proof {
            assert(key == old(points)@.skip(i as int)[0]);
            lemma_sort_by_x(old(points)@.take(i as int));
        }
        let mut j: usize = i;
        while j > 0 && points[j - 1].pos.x > key.pos.x
            invariant
                0 <= j <= i < n,
                points@ == before,
                points@.len() == n,
                forall|m: int| j <= m < i ==> (#[trigger] prefix[m]).pos.x > key.pos.x,
                prefix == before.take(i as int),
            decreases j,
        {
            proof {
                assert(prefix[j - 1] == before[j - 1]);
            }
            j -= 1;
        }
        points.remove(i);
        points.insert(j, key);
        proof {
            if j > 0 {
                assert(prefix[j - 1] == before[j - 1]);
            }
            lemma_upper_bound_unique(prefix, key.pos.x as int, j as int);
            let orig = old(points)@;
            assert(orig.take(i + 1).drop_last() =~= orig.take(i as int));
            assert(orig.take(i + 1).last() == key);
            assert(points@.take(i + 1) =~= prefix.insert(j as int, key));
            assert forall|m: int| i < m < n implies #[trigger] points@[m] == orig[m] by {
                assert(before.skip(i as int)[m - i] == orig.skip(i as int)[m - i]);
            }
            assert(points@.skip(i + 1) =~= orig.skip(i + 1));
        }
        i += 1;
    }
    proof {
        assert(points@.take(n as int) =~= points@);
        assert(old(points)@.take(n as int) =~= old(points)@);
    }
}

/// The first index at which a key equal to `key` stands.
pub fn position_of(points: &Vec<AnimationKey>, key: &AnimationKey) -> (r: Option<usize>)
    ensures
        r matches Some(i) ==> i as int == first_index_of(points@, *key) && i < points@.len()
            && points@[i as int] == *key,
        r is None <==> !points@.contains(*key),
{
    let mut i: usize = 0;
    proof {
        lemma_first_index_of(points@, *key);
    }
    while i < points.len()
        invariant
            0 <= i <= points@.len(),
            forall|j: int| 0 <= j < i ==> #[trigger] points@[j] != *key,
            0 <= first_index_of(points@, *key) <= points@.len(),
            first_index_of(points@, *key) < points@.len() ==> points@[first_index_of(
                points@,
                *key,
            )] == *key,
            forall|j: int|
                0 <= j < first_index_of(points@, *key) ==> #[trigger] points@[j] != *key,
        decreases points@.len() - i,
    {
        if points[i] == *key {
            proof {
                let p = first_index_of(points@, *key);
                assert(points@.contains(*key));
                if p < i {
                    assert(points@[p] != *key);
                }
                if p > i {
                    assert(points@[i as int] != *key);
                }
            }
            return Some(i);
        }
        i += 1;
    }
    proof {
        if points@.contains(*key) {
            let w = choose|w: int| 0 <= w < points@.len() && points@[w] == *key;
            assert(points@[w] != *key);
        }
    }
    None
}

/// Every key of `s` keeps its coordinates inside the representable range.
pub open spec fn all_in_range(s: Seq<AnimationKey>) -> bool {
    forall|i: int| 0 <= i < s.len() ==> (#[trigger] s[i]).in_range()
}

/// The first index `i >= from` whose key and its successor bracket `x`;
/// the last index where no pair does.
pub open spec fn first_bracket(s: Seq<AnimationKey>, x: int, from: int) -> int
    decreases s.len() - from,
{
    if from + 1 >= s.len() {
        from
    } else if s[from].pos.x <= x <= s[from + 1].pos.x {
        from
    } else {
        first_bracket(s, x, from + 1)
    }
}

/// The search for a bracketing pair never goes back.
pub proof fn lemma_first_bracket_from(s: Seq<AnimationKey>, x: int, from: int)
    ensures
        from <= first_bracket(s, x, from),
    decreases s.len() - from,
{
    if from + 1 < s.len() && !(s[from].pos.x <= x <= s[from + 1].pos.x) {
        lemma_first_bracket_from(s, x, from + 1);
    }
}

/// In a sorted sequence, strictly between the first and the last x, the
/// first bracketing pair exists and its first key lies strictly before `x`.
pub proof fn lemma_first_bracket(s: Seq<AnimationKey>, x: int, from: int)
    requires
        sorted_by_x(s),
        0 <= from < s.len(),
        s[from].pos.x < x < s.last().pos.x,
    ensures
        from <= first_bracket(s, x, from) < s.len() - 1,
        s[first_bracket(s, x, from)].pos.x < x <= s[first_bracket(s, x, from) + 1].pos.x,
        forall|j: int| from <= j < first_bracket(s, x, from) ==> (#[trigger] s[j + 1]).pos.x < x,
    decreases s.len() - from,
{
    if from + 1 >= s.len() {
    } else if s[from].pos.x <= x <= s[from + 1].pos.x {
    } else {
        lemma_first_bracket(s, x, from + 1);
        assert forall|j: int| from <= j < first_bracket(s, x, from) implies (#[trigger] s[j
            + 1]).pos.x < x by {
            if j > from {
            }
        }
    }
}

/// Whether the keys can be evaluated: there is at least one, their x never
/// decrease, and all their coordinates are inside the representable range.
pub fn can_evaluate(pts: &Vec<AnimationKey>) -> (r: bool)
    ensures
        r == (pts@.len() >= 1 && sorted_by_x(pts@) && all_in_range(pts@)),
{
    let n = pts.len();
    if n == 0 {
        return false;
    }
    let mut i: usize = 0;
    while i < n
        invariant
            0 <= i <= n,
            n == pts@.len(),
            forall|j: int| 0 <= j < i ==> (#[trigger] pts@[j]).in_range(),
            forall|a: int, b: int| 0 <= a < b < i ==> pts@[a].pos.x <= pts@[b].pos.x,
        decreases n - i,
    {
        if !pts[i].is_in_range() {
            return false;
        }
        if i > 0 && pts[i - 1].pos.x > pts[i].pos.x {
            return false;
        }
        proof {
            assert forall|a: int, b: int| 0 <= a < b < i + 1 implies pts@[a].pos.x
                <= pts@[b].pos.x by {
                if b == i && a < i - 1 {
                    assert(pts@[a].pos.x <= pts@[i - 1].pos.x);
                }
            }
        }
        i += 1;
    }
    true
}

} // verus!
