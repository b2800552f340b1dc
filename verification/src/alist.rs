//! Association lists with unique keys, used for the small per-token maps
//! the worker maintains (balances, fees, quote books).

use vstd::prelude::*;

verus! {

/// The value stored under key `k`, if any.
pub open spec fn alist_lookup<K, V>(s: Seq<(K, V)>, k: K) -> Option<V>
    decreases s.len(),
{
    if s.len() == 0 {
        None
    } else if s[0].0 == k {
        Some(s[0].1)
    } else {
        alist_lookup(s.drop_first(), k)
    }
}

/// Keys occur at most once.
pub open spec fn alist_unique<K, V>(s: Seq<(K, V)>) -> bool {
    forall|i: int, j: int| 0 <= i < j < s.len() ==> (#[trigger] s[i]).0 != (#[trigger] s[j]).0
}

/// In a unique-keyed list, the lookup agrees with any entry.
pub proof fn lemma_alist_lookup_entry<K, V>(s: Seq<(K, V)>, i: int)
    requires
        alist_unique(s),
        0 <= i < s.len(),
    ensures
        alist_lookup(s, s[i].0) == Some(s[i].1),
    decreases s.len(),
{
    if i > 0 {
        assert(s.drop_first()[i - 1] == s[i]);
        assert(alist_unique(s.drop_first())) by {
            assert(forall|x: int| 0 <= x < s.drop_first().len()
                ==> #[trigger] s.drop_first()[x] == s[x + 1]);
        }
        lemma_alist_lookup_entry(s.drop_first(), i - 1);
    }
}

/// A key held by no entry looks up to `None`.
pub proof fn lemma_alist_lookup_absent<K, V>(s: Seq<(K, V)>, k: K)
    requires
        forall|i: int| 0 <= i < s.len() ==> (#[trigger] s[i]).0 != k,
    ensures
        alist_lookup(s, k) is None,
    decreases s.len(),
{
    if s.len() > 0 {
        assert(forall|i: int| 0 <= i < s.drop_first().len()
            ==> #[trigger] s.drop_first()[i] == s[i + 1]);
        lemma_alist_lookup_absent(s.drop_first(), k);
    }
}

/// An absent key means no entry holds it.
pub proof fn lemma_alist_lookup_none<K, V>(s: Seq<(K, V)>, k: K)
    requires
        alist_lookup(s, k) is None,
    ensures
        forall|i: int| 0 <= i < s.len() ==> (#[trigger] s[i]).0 != k,
    decreases s.len(),
{
    if s.len() > 0 {
        lemma_alist_lookup_none(s.drop_first(), k);
        assert(forall|i: int| 1 <= i < s.len() ==> #[trigger] s[i] == s.drop_first()[i - 1]);
    }
}

/// Looking up a key after updating the entry at index `i`.
pub proof fn lemma_alist_lookup_update<K, V>(s: Seq<(K, V)>, i: int, e: (K, V), k: K)
    requires
        0 <= i < s.len(),
        s[i].0 == e.0,
        alist_unique(s),
    ensures
        alist_lookup(s.update(i, e), k) == (if k == e.0 {
            Some(e.1)
        } else {
            alist_lookup(s, k)
        }),
    decreases s.len(),
{
    let s2 = s.update(i, e);
    if i == 0 {
        if k == e.0 {
        } else {
            assert(s2.drop_first() =~= s.drop_first());
        }
    } else {
        assert(s2[0] == s[0]);
        assert(s2.drop_first() =~= s.drop_first().update(i - 1, e));
        assert(s.drop_first()[i - 1] == s[i]);
        assert(alist_unique(s.drop_first())) by {
            assert(forall|x: int| 0 <= x < s.drop_first().len()
                ==> #[trigger] s.drop_first()[x] == s[x + 1]);
        }
        lemma_alist_lookup_update(s.drop_first(), i - 1, e, k);
        if s[0].0 == k {
            assert(s[i].0 != s[0].0);
        }
    }
}

/// Looking up a key after pushing an entry whose key was absent.
pub proof fn lemma_alist_lookup_push<K, V>(s: Seq<(K, V)>, e: (K, V), k: K)
    requires
        alist_lookup(s, e.0) is None,
    ensures
        alist_lookup(s.push(e), k) == (if k == e.0 {
            Some(e.1)
        } else {
            alist_lookup(s, k)
        }),
    decreases s.len(),
{
    if s.len() == 0 {
        assert(s.push(e)[0] == e);
        assert(s.push(e).drop_first() =~= s);
    } else {
        assert(s.push(e)[0] == s[0]);
        assert(s.push(e).drop_first() =~= s.drop_first().push(e));
        lemma_alist_lookup_push(s.drop_first(), e, k);
    }
}

} // verus!
