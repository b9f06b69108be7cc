//! Association lists: a sequence of key/value pairs read as a finite map.

use vstd::prelude::*;

verus! {

/// The value stored under `k`: the last pair with that key wins.
pub open spec fn lookup<K, V>(s: Seq<(K, V)>, k: K) -> Option<V>
    decreases s.len(),
{
    if s.len() == 0 {
        None
    } else if s.last().0 == k {
        Some(s.last().1)
    } else {
        lookup(s.drop_last(), k)
    }
}

/// No key appears twice.
pub open spec fn keys_distinct<K, V>(s: Seq<(K, V)>) -> bool {
    forall|i: int, j: int| 0 <= i < j < s.len() ==> s[i].0 != s[j].0
}

pub proof fn lemma_lookup_absent<K, V>(s: Seq<(K, V)>, k: K)
    requires
        forall|i: int| 0 <= i < s.len() ==> s[i].0 != k,
    ensures
        lookup(s, k) == None::<V>,
    decreases s.len(),
{
    if s.len() > 0 {
        lemma_lookup_absent(s.drop_last(), k);
    }
}

pub proof fn lemma_lookup_at<K, V>(s: Seq<(K, V)>, i: int)
    requires
        keys_distinct(s),
        0 <= i < s.len(),
    ensures
        lookup(s, s[i].0) == Some(s[i].1),
    decreases s.len(),
{
    if i != s.len() - 1 {
        lemma_lookup_at(s.drop_last(), i);
    }
}

pub proof fn lemma_lookup_push<K, V>(s: Seq<(K, V)>, k: K, v: V)
    ensures
        forall|q: K| #[trigger]
            lookup(s.push((k, v)), q) == (if q == k {
                Some(v)
            } else {
                lookup(s, q)
            }),
{
    assert(s.push((k, v)).drop_last() =~= s);
}

pub proof fn lemma_lookup_update<K, V>(s: Seq<(K, V)>, i: int, v: V)
    requires
        keys_distinct(s),
        0 <= i < s.len(),
    ensures
        forall|q: K| #[trigger]
            lookup(s.update(i, (s[i].0, v)), q) == (if q == s[i].0 {
                Some(v)
            } else {
                lookup(s, q)
            }),
    decreases s.len(),
{
    let t = s.update(i, (s[i].0, v));
    if i == s.len() - 1 {
        assert(t.drop_last() =~= s.drop_last());
    } else {
        let r = s.drop_last();
        lemma_lookup_update(r, i, v);
        assert(t.drop_last() =~= r.update(i, (s[i].0, v)));
        assert(t.last() == s.last());
        assert forall|q: K| #[trigger]
            lookup(t, q) == (if q == s[i].0 {
                Some(v)
            } else {
                lookup(s, q)
            }) by {
            if q == s.last().0 {
                assert(s.last().0 != s[i].0);
            } else {
                assert(lookup(t, q) == lookup(r.update(i, (r[i].0, v)), q));
            }
        }
    }
}

pub proof fn lemma_lookup_remove<K, V>(s: Seq<(K, V)>, i: int)
    requires
        keys_distinct(s),
        0 <= i < s.len(),
    ensures
        forall|q: K| #[trigger]
            lookup(s.remove(i), q) == (if q == s[i].0 {
                None
            } else {
                lookup(s, q)
            }),
        keys_distinct(s.remove(i)),
    decreases s.len(),
{
    let t = s.remove(i);
    if i == s.len() - 1 {
        assert(t =~= s.drop_last());
        assert forall|q: K| #[trigger]
            lookup(t, q) == (if q == s[i].0 {
                None
            } else {
                lookup(s, q)
            }) by {
            if q == s[i].0 {
                assert forall|j: int| 0 <= j < t.len() implies t[j].0 != q by {
                    assert(s[j].0 != s[i].0);
                }
                lemma_lookup_absent(t, q);
            }
        }
    } else {
        let r = s.drop_last();
        lemma_lookup_remove(r, i);
        assert(t.len() == s.len() - 1);
        assert(t.drop_last() =~= r.remove(i));
        assert(t.last() == s.last());
        assert forall|q: K| #[trigger]
            lookup(t, q) == (if q == s[i].0 {
                None
            } else {
                lookup(s, q)
            }) by {
            if q == s.last().0 {
                assert(s.last().0 != s[i].0);
            } else {
                assert(lookup(t, q) == lookup(r.remove(i), q));
            }
        }
    }
    assert forall|a: int, b: int| 0 <= a < b < t.len() implies t[a].0 != t[b].0 by {
        let a2 = if a < i { a } else { a + 1 };
        let b2 = if b < i { b } else { b + 1 };
        assert(t[a] == s[a2]);
        assert(t[b] == s[b2]);
    }
}

pub proof fn lemma_distinct_push<K, V>(s: Seq<(K, V)>, k: K, v: V)
    requires
        keys_distinct(s),
        forall|i: int| 0 <= i < s.len() ==> s[i].0 != k,
    ensures
        keys_distinct(s.push((k, v))),
{
    let t = s.push((k, v));
    assert forall|a: int, b: int| 0 <= a < b < t.len() implies t[a].0 != t[b].0 by {
        if b == s.len() {
            assert(t[a] == s[a]);
        } else {
            assert(t[a] == s[a]);
            assert(t[b] == s[b]);
        }
    }
}

pub proof fn lemma_distinct_update<K, V>(s: Seq<(K, V)>, i: int, v: V)
    requires
        keys_distinct(s),
        0 <= i < s.len(),
    ensures
        keys_distinct(s.update(i, (s[i].0, v))),
{
    let t = s.update(i, (s[i].0, v));
    assert forall|a: int, b: int| 0 <= a < b < t.len() implies t[a].0 != t[b].0 by {
        assert(t[a].0 == s[a].0);
        assert(t[b].0 == s[b].0);
    }
}

} // verus!
