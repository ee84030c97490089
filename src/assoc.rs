//! Ordered association lists keyed by text: the storage behind palettes, themes,
//! alias tables and style documents. Keys are unique; insertion order is kept.
use vstd::prelude::*;

use crate::text::str_eq;

verus! {

/// The value stored under the first entry with key `k`.
pub open spec fn lookup<V>(s: Seq<(String, V)>, k: Seq<char>) -> Option<V>
    decreases s.len(),
{
    if s.len() == 0 {
        None
    } else {
        match lookup(s.drop_last(), k) {
            Some(v) => Some(v),
            None => if s.last().0@ == k {
                Some(s.last().1)
            } else {
                None
            },
        }
    }
}

/// Whether some entry has key `k`.
pub open spec fn has_key<V>(s: Seq<(String, V)>, k: Seq<char>) -> bool {
    exists|i: int| 0 <= i < s.len() && #[trigger] s[i].0@ == k
}

/// No two entries share a key.
pub open spec fn unique_keys<V>(s: Seq<(String, V)>) -> bool {
    forall|i: int, j: int| 0 <= i < s.len() && 0 <= j < s.len() && i != j ==> #[trigger] s[i].0@ != #[trigger] s[j].0@
}

/// The keys, in order.
pub open spec fn keys<V>(s: Seq<(String, V)>) -> Seq<Seq<char>> {
    s.map_values(|e: (String, V)| e.0@)
}

pub proof fn lemma_lookup_first<V>(s: Seq<(String, V)>, k: Seq<char>, i: int)
    requires
        0 <= i < s.len(),
        s[i].0@ == k,
        forall|j: int| 0 <= j < i ==> #[trigger] s[j].0@ != k,
    ensures
        lookup(s, k) == Some(s[i].1),
    decreases s.len(),
{
    if i < s.len() - 1 {
        let p = s.drop_last();
        assert forall|j: int| 0 <= j < i implies #[trigger] p[j].0@ != k by {
            assert(p[j] == s[j]);
        }
        assert(p[i] == s[i]);
        lemma_lookup_first(p, k, i);
    } else {
        lemma_lookup_none(s.drop_last(), k);
    }
}

pub proof fn lemma_lookup_none<V>(s: Seq<(String, V)>, k: Seq<char>)
    requires
        forall|j: int| 0 <= j < s.len() ==> #[trigger] s[j].0@ != k,
    ensures
        lookup(s, k) is None,
    decreases s.len(),
{
    if s.len() > 0 {
        let p = s.drop_last();
        assert forall|j: int| 0 <= j < p.len() implies #[trigger] p[j].0@ != k by {
            assert(p[j] == s[j]);
        }
        lemma_lookup_none(p, k);
        assert(s[s.len() - 1].0@ != k);
    }
}

/// In a list with unique keys, the lookup of the key at `i` finds entry `i`.
pub proof fn lemma_lookup_unique<V>(s: Seq<(String, V)>, i: int)
    requires
        unique_keys(s),
        0 <= i < s.len(),
    ensures
        lookup(s, s[i].0@) == Some(s[i].1),
{
    assert forall|j: int| 0 <= j < i implies #[trigger] s[j].0@ != s[i].0@ by {}
    lemma_lookup_first(s, s[i].0@, i);
}

/// Looking up after appending an entry with a fresh key.
pub proof fn lemma_lookup_push<V>(s: Seq<(String, V)>, e: (String, V), k: Seq<char>)
    requires
        !has_key(s, e.0@),
    ensures
        lookup(s.push(e), k) == if k == e.0@ {
            Some(e.1)
        } else {
            lookup(s, k)
        },
{
    assert(s.push(e).drop_last() == s);
    if k == e.0@ {
        assert forall|j: int| 0 <= j < s.len() implies #[trigger] s[j].0@ != k by {
            if s[j].0@ == k {
                assert(has_key(s, e.0@));
            }
        }
        lemma_lookup_none(s, k);
    }
}

/// Looking up after replacing the value of entry `i` of a list with unique keys.
pub proof fn lemma_lookup_update<V>(s: Seq<(String, V)>, i: int, e: (String, V), k: Seq<char>)
    requires
        unique_keys(s),
        0 <= i < s.len(),
        e.0@ == s[i].0@,
    ensures
        lookup(s.update(i, e), k) == if k == e.0@ {
            Some(e.1)
        } else {
            lookup(s, k)
        },
        unique_keys(s.update(i, e)),
{
    let t = s.update(i, e);
    assert(unique_keys(t)) by {
        assert forall|a: int, b: int| 0 <= a < t.len() && 0 <= b < t.len() && a != b implies #[trigger] t[a].0@ != #[trigger] t[b].0@ by {
            assert(t[a].0@ == s[a].0@);
            assert(t[b].0@ == s[b].0@);
        }
    }
    if k == e.0@ {
        lemma_lookup_unique(t, i);
    } else {
        lemma_lookup_absent_or_found(s, k);
        lemma_lookup_absent_or_found(t, k);
        if has_key(s, k) {
            let j = choose|j: int| 0 <= j < s.len() && #[trigger] s[j].0@ == k;
            lemma_lookup_unique(s, j);
            assert(t[j] == s[j]);
            lemma_lookup_unique(t, j);
        } else {
            assert forall|j: int| 0 <= j < t.len() implies #[trigger] t[j].0@ != k by {
                if j != i {
                    assert(t[j] == s[j]);
                    if s[j].0@ == k {
                        assert(has_key(s, k));
                    }
                }
            }
            lemma_lookup_none(t, k);
        }
    }
}

/// A lookup fails exactly when the key is absent.
pub proof fn lemma_lookup_absent_or_found<V>(s: Seq<(String, V)>, k: Seq<char>)
    ensures
        lookup(s, k) is None <==> !has_key(s, k),
{
    if has_key(s, k) {
        let i = choose|i: int| 0 <= i < s.len() && #[trigger] s[i].0@ == k;
        lemma_lookup_found_somewhere(s, k, i);
    } else {
        assert forall|j: int| 0 <= j < s.len() implies #[trigger] s[j].0@ != k by {
            if s[j].0@ == k {
                assert(has_key(s, k));
            }
        }
        lemma_lookup_none(s, k);
    }
}

proof fn lemma_lookup_found_somewhere<V>(s: Seq<(String, V)>, k: Seq<char>, i: int)
    requires
        0 <= i < s.len(),
        s[i].0@ == k,
    ensures
        lookup(s, k) is Some,
    decreases s.len(),
{
    if i < s.len() - 1 {
        assert(s.drop_last()[i] == s[i]);
        lemma_lookup_found_somewhere(s.drop_last(), k, i);
    }
}

/// The index of the entry with key `k`, if any (the first one).
pub fn find_key<V>(v: &Vec<(String, V)>, k: &str) -> (r: Option<usize>)
    ensures
        match r {
            Some(i) => i < v@.len() && v@[i as int].0@ == k@ && lookup(v@, k@) == Some(
                v@[i as int].1,
            ) && has_key(v@, k@),
            None => lookup(v@, k@) is None && !has_key(v@, k@),
        },
{
    let mut i: usize = 0;
    while i < v.len()
        invariant
            i <= v@.len(),
            forall|j: int| 0 <= j < i ==> #[trigger] v@[j].0@ != k@,
        decreases v@.len() - i,
    {
        if str_eq(v[i].0.as_str(), k) {
            proof {
                lemma_lookup_first(v@, k@, i as int);
            }
            return Some(i);
        }
        i = i + 1;
    }
    proof {
        lemma_lookup_none(v@, k@);
        lemma_lookup_absent_or_found(v@, k@);
    }
    None
}

/// Stores `val` under `k`: an entry with that key is replaced in place, otherwise
/// a new entry goes at the end.
pub fn insert_key<V>(v: &mut Vec<(String, V)>, k: String, val: V)
    requires
        unique_keys(old(v)@),
    ensures
        unique_keys(final(v)@),
        forall|q: Seq<char>| #[trigger]
            lookup(final(v)@, q) == if q == k@ {
                Some(val)
            } else {
                lookup(old(v)@, q)
            },
        has_key(old(v)@, k@) ==> keys(final(v)@) == keys(old(v)@),
        !has_key(old(v)@, k@) ==> keys(final(v)@) == keys(old(v)@).push(k@),
{
    let ghost k_view = k@;
    match find_key(v, k.as_str()) {
        Some(i) => {
            let ghost e = (k, val);
            proof {
                assert forall|q: Seq<char>| #[trigger]
                    lookup(v@.update(i as int, e), q) == if q == k_view {
                        Some(val)
                    } else {
                        lookup(v@, q)
                    } by {
                    lemma_lookup_update(v@, i as int, e, q);
                }
                lemma_lookup_update(v@, i as int, e, k_view);
                assert(keys(v@.update(i as int, e)) =~= keys(v@));
            }
            v.set(i, (k, val));
        },
        None => {
            let ghost e = (k, val);
            proof {
                assert forall|q: Seq<char>| #[trigger]
                    lookup(v@.push(e), q) == if q == k_view {
                        Some(val)
                    } else {
                        lookup(v@, q)
                    } by {
                    lemma_lookup_push(v@, e, q);
                }
                let t = v@.push(e);
                assert forall|a: int, b: int| 0 <= a < t.len() && 0 <= b < t.len() && a != b implies #[trigger] t[a].0@ != #[trigger] t[b].0@ by {
                    if a == v@.len() as int && t[b].0@ == t[a].0@ {
                        assert(has_key(v@, k_view));
                    }
                    if b == v@.len() as int && t[b].0@ == t[a].0@ {
                        assert(has_key(v@, k_view));
                    }
                }
                assert(keys(t) =~= keys(v@).push(k_view));
            }
            v.push((k, val));
        },
    }
}

} // verus!
