//! Association sequences: the shared specification machinery for every
//! collection in this crate that is a sequence of key/value pairs with
//! pairwise-distinct keys, viewed abstractly as a `Map`.

use vstd::prelude::*;

verus! {

/// The map denoted by a sequence of key/value pairs. Later pairs shadow
/// earlier ones; under `distinct_keys` no shadowing can occur.
pub open spec fn assoc_map<K, V>(s: Seq<(K, V)>) -> Map<K, V>
    decreases s.len(),
{
    if s.len() == 0 {
        Map::empty()
    } else {
        assoc_map(s.drop_last()).insert(s.last().0, s.last().1)
    }
}

/// No two pairs share a key.
pub open spec fn distinct_keys<K, V>(s: Seq<(K, V)>) -> bool {
    forall|i: int, j: int| 0 <= i < j < s.len() ==> (#[trigger] s[i]).0 != (#[trigger] s[j]).0
}

/// Every key of the map stands at some index of the sequence.
pub proof fn lemma_assoc_dom<K, V>(s: Seq<(K, V)>, k: K)
    requires
        assoc_map(s).dom().contains(k),
    ensures
        exists|i: int| 0 <= i < s.len() && (#[trigger] s[i]).0 == k,
    decreases s.len(),
{
    if s.len() > 0 {
        if s.last().0 == k {
            assert(0 <= s.len() - 1 < s.len() && s[s.len() - 1].0 == k);
        } else {
            lemma_assoc_dom(s.drop_last(), k);
            let i = choose|i: int| 0 <= i < s.drop_last().len() && (#[trigger] s.drop_last()[i]).0 == k;
            assert(0 <= i < s.len() && s[i].0 == k);
        }
    }
}

/// The map is defined and takes the paired value at every index.
pub proof fn lemma_assoc_index<K, V>(s: Seq<(K, V)>, i: int)
    requires
        distinct_keys(s),
        0 <= i < s.len(),
    ensures
        assoc_map(s).dom().contains(s[i].0),
        assoc_map(s)[s[i].0] == s[i].1,
    decreases s.len(),
{
    if i < s.len() - 1 {
        assert(s.drop_last()[i] == s[i]);
        lemma_assoc_index(s.drop_last(), i);
        assert(s[s.len() - 1].0 != s[i].0);
    }
}

/// A key at no index is not in the map.
pub proof fn lemma_assoc_absent<K, V>(s: Seq<(K, V)>, k: K)
    requires
        forall|i: int| 0 <= i < s.len() ==> (#[trigger] s[i]).0 != k,
    ensures
        !assoc_map(s).dom().contains(k),
    decreases s.len(),
{
    if s.len() > 0 {
        assert(forall|i: int| 0 <= i < s.drop_last().len() ==> (#[trigger] s.drop_last()[i]).0 != k);
        lemma_assoc_absent(s.drop_last(), k);
    }
}

/// With distinct keys, the map has exactly one entry per pair.
pub proof fn lemma_assoc_len<K, V>(s: Seq<(K, V)>)
    requires
        distinct_keys(s),
    ensures
        assoc_map(s).dom().finite(),
        assoc_map(s).dom().len() == s.len(),
    decreases s.len(),
{
    if s.len() > 0 {
        lemma_assoc_len(s.drop_last());
        lemma_assoc_absent(s.drop_last(), s.last().0);
    }
}

/// Appending a pair with a fresh key inserts it into the map.
pub proof fn lemma_assoc_push<K, V>(s: Seq<(K, V)>, k: K, v: V)
    requires
        forall|i: int| 0 <= i < s.len() ==> (#[trigger] s[i]).0 != k,
    ensures
        distinct_keys(s) ==> distinct_keys(s.push((k, v))),
        assoc_map(s.push((k, v))) == assoc_map(s).insert(k, v),
{
    let t = s.push((k, v));
    assert(t.drop_last() =~= s);
    assert(t.last() == (k, v));
    if distinct_keys(s) {
        assert forall|i: int, j: int| 0 <= i < j < t.len() implies (#[trigger] t[i]).0 != (#[trigger] t[j]).0 by {
            if j < s.len() {
                assert(s[i].0 != s[j].0);
            } else {
                assert(s[i].0 != k);
            }
        }
    }
}

/// Replacing the value at an index updates the map at that key.
pub proof fn lemma_assoc_update<K, V>(s: Seq<(K, V)>, i: int, v: V)
    requires
        distinct_keys(s),
        0 <= i < s.len(),
    ensures
        distinct_keys(s.update(i, (s[i].0, v))),
        assoc_map(s.update(i, (s[i].0, v))) =~= assoc_map(s).insert(s[i].0, v),
{
    let k = s[i].0;
    let t = s.update(i, (k, v));
    assert(forall|j: int| 0 <= j < t.len() && j != i ==> t[j] == s[j]);
    assert(t[i].0 == k);
    assert(distinct_keys(t));
    assert forall|k2: K| #[trigger] assoc_map(t).dom().contains(k2)
        == assoc_map(s).insert(k, v).dom().contains(k2) by {
        if assoc_map(t).dom().contains(k2) {
            lemma_assoc_dom(t, k2);
            let j = choose|j: int| 0 <= j < t.len() && (#[trigger] t[j]).0 == k2;
            lemma_assoc_index(s, j);
        }
        if assoc_map(s).insert(k, v).dom().contains(k2) {
            if k2 == k {
                lemma_assoc_index(t, i);
            } else {
                lemma_assoc_dom(s, k2);
                let j = choose|j: int| 0 <= j < s.len() && (#[trigger] s[j]).0 == k2;
                lemma_assoc_index(t, j);
            }
        }
    }
    assert forall|k2: K| assoc_map(t).dom().contains(k2)
        implies #[trigger] assoc_map(t)[k2] == assoc_map(s).insert(k, v)[k2] by {
        lemma_assoc_dom(t, k2);
        let j = choose|j: int| 0 <= j < t.len() && (#[trigger] t[j]).0 == k2;
        lemma_assoc_index(t, j);
        if j == i {
            assert(assoc_map(t)[k2] == v);
        } else {
            lemma_assoc_index(s, j);
        }
    }
}

/// Deleting the pair at an index removes its key from the map.
pub proof fn lemma_assoc_remove<K, V>(s: Seq<(K, V)>, i: int)
    requires
        distinct_keys(s),
        0 <= i < s.len(),
    ensures
        distinct_keys(s.remove(i)),
        assoc_map(s.remove(i)) =~= assoc_map(s).remove(s[i].0),
        forall|j: int| 0 <= j < s.remove(i).len() ==> (#[trigger] s.remove(i)[j]).0 != s[i].0,
{
    let k = s[i].0;
    let t = s.remove(i);
    assert(forall|j: int| 0 <= j < i ==> t[j] == s[j]);
    assert(forall|j: int| i <= j < t.len() ==> t[j] == s[j + 1]);
    assert forall|a: int, b: int| 0 <= a < b < t.len() implies (#[trigger] t[a]).0 != (#[trigger] t[b]).0 by {
        let a2: int = if a < i { a } else { a + 1 };
        let b2: int = if b < i { b } else { b + 1 };
        assert(t[a] == s[a2] && t[b] == s[b2]);
    }
    assert forall|k2: K| #[trigger] assoc_map(t).dom().contains(k2)
        == assoc_map(s).remove(k).dom().contains(k2) by {
        if assoc_map(t).dom().contains(k2) {
            lemma_assoc_dom(t, k2);
            let j = choose|j: int| 0 <= j < t.len() && (#[trigger] t[j]).0 == k2;
            let j2: int = if j < i { j } else { j + 1 };
            assert(t[j] == s[j2]);
            lemma_assoc_index(s, j2);
            assert(k2 != k);
        }
        if assoc_map(s).remove(k).dom().contains(k2) {
            lemma_assoc_dom(s, k2);
            let j = choose|j: int| 0 <= j < s.len() && (#[trigger] s[j]).0 == k2;
            assert(j != i);
            let j2: int = if j < i { j } else { j - 1 };
            assert(t[j2] == s[j]);
            lemma_assoc_index(t, j2);
        }
    }
    assert forall|k2: K| assoc_map(t).dom().contains(k2)
        implies #[trigger] assoc_map(t)[k2] == assoc_map(s).remove(k)[k2] by {
        lemma_assoc_dom(t, k2);
        let j = choose|j: int| 0 <= j < t.len() && (#[trigger] t[j]).0 == k2;
        lemma_assoc_index(t, j);
        let j2: int = if j < i { j } else { j + 1 };
        assert(t[j] == s[j2]);
        lemma_assoc_index(s, j2);
        assert(k2 != k);
    }
}

/// Membership after appending one element.
pub proof fn lemma_push_contains<A>(s: Seq<A>, x: A)
    ensures
        forall|y: A| s.push(x).contains(y) <==> s.contains(y) || y == x,
{
    let t = s.push(x);
    assert forall|y: A| t.contains(y) <==> s.contains(y) || y == x by {
        if t.contains(y) {
            let j = choose|j: int| 0 <= j < t.len() && t[j] == y;
            if j < s.len() {
                assert(s[j] == y);
            }
        }
        if s.contains(y) {
            let j = choose|j: int| 0 <= j < s.len() && s[j] == y;
            assert(t[j] == y);
        }
        if y == x {
            assert(t[s.len() as int] == y);
        }
    }
}

/// The set of a prefix grows by exactly the next element.
pub proof fn lemma_subrange_push_to_set<A>(s: Seq<A>, k: int)
    requires
        0 <= k < s.len(),
    ensures
        s.subrange(0, k + 1).to_set() =~= s.subrange(0, k).to_set().insert(s[k]),
{
    let p = s.subrange(0, k);
    let p1 = s.subrange(0, k + 1);
    assert forall|x: A| p1.to_set().contains(x) == p.to_set().insert(s[k]).contains(x) by {
        if p1.contains(x) {
            let a = choose|a: int| 0 <= a < p1.len() && p1[a] == x;
            if a < k {
                assert(p[a] == x);
            } else {
                assert(x == s[k]);
            }
        }
        if p.contains(x) {
            let a = choose|a: int| 0 <= a < p.len() && p[a] == x;
            assert(p1[a] == x);
        }
        if x == s[k] {
            assert(p1[k] == x);
        }
    }
}

/// Deleting an element of a duplicate-free sequence removes exactly it.
pub proof fn lemma_nodup_remove<A>(s: Seq<A>, i: int)
    requires
        s.no_duplicates(),
        0 <= i < s.len(),
    ensures
        s.remove(i).no_duplicates(),
        forall|x: A| s.remove(i).contains(x) <==> s.contains(x) && x != s[i],
{
    let t = s.remove(i);
    assert(forall|j: int| 0 <= j < i ==> t[j] == s[j]);
    assert(forall|j: int| i <= j < t.len() ==> t[j] == s[j + 1]);
    assert forall|a: int, b: int| 0 <= a < b < t.len() implies t[a] != t[b] by {
        let a2: int = if a < i { a } else { a + 1 };
        let b2: int = if b < i { b } else { b + 1 };
        assert(t[a] == s[a2] && t[b] == s[b2]);
    }
    assert forall|x: A| t.contains(x) <==> s.contains(x) && x != s[i] by {
        if t.contains(x) {
            let j = choose|j: int| 0 <= j < t.len() && t[j] == x;
            let j2: int = if j < i { j } else { j + 1 };
            assert(s[j2] == x);
            assert(x != s[i]);
        }
        if s.contains(x) && x != s[i] {
            let j = choose|j: int| 0 <= j < s.len() && s[j] == x;
            let j2: int = if j < i { j } else { j - 1 };
            assert(t[j2] == x);
        }
    }
}

/// Appending a fresh element to a duplicate-free sequence keeps it so.
pub proof fn lemma_nodup_push<A>(s: Seq<A>, x: A)
    requires
        s.no_duplicates(),
        !s.contains(x),
    ensures
        s.push(x).no_duplicates(),
        forall|y: A| s.push(x).contains(y) <==> s.contains(y) || y == x,
{
    let t = s.push(x);
    assert forall|a: int, b: int| 0 <= a < b < t.len() implies t[a] != t[b] by {
        if b < s.len() {
            assert(t[a] == s[a] && t[b] == s[b]);
        } else {
            assert(t[b] == x && t[a] == s[a]);
            assert(s.contains(s[a]));
        }
    }
    assert forall|y: A| t.contains(y) <==> s.contains(y) || y == x by {
        if t.contains(y) {
            let j = choose|j: int| 0 <= j < t.len() && t[j] == y;
            if j < s.len() {
                assert(s[j] == y);
            }
        }
        if s.contains(y) {
            let j = choose|j: int| 0 <= j < s.len() && s[j] == y;
            assert(t[j] == y);
        }
        if y == x {
            assert(t[s.len() as int] == y);
        }
    }
}

} // verus!
