//! Association lists keyed by character sequences, looked up by first match.
//!
//! The registry stores its mappings as vectors of keyed entries; these spec
//! functions and lemmas give those vectors their mapping semantics.

use vstd::prelude::*;

verus! {

/// The value bound to `k`: the value of the first pair whose key is `k`,
/// or `None` when no pair has that key.
pub open spec fn alist_get<V>(s: Seq<(Seq<char>, V)>, k: Seq<char>) -> Option<V>
    decreases s.len(),
{
    if s.len() == 0 {
        None
    } else if s[0].0 == k {
        Some(s[0].1)
    } else {
        alist_get(s.drop_first(), k)
    }
}

/// Skipping pairs whose keys all differ from `k` does not change the lookup.
pub proof fn lemma_alist_get_skip<V>(s: Seq<(Seq<char>, V)>, k: Seq<char>, i: int)
    requires
        0 <= i <= s.len(),
        forall|j: int| 0 <= j < i ==> s[j].0 != k,
    ensures
        alist_get(s, k) == alist_get(s.skip(i), k),
    decreases i,
{
    if i > 0 {
        assert(s.drop_first().skip(i - 1) =~= s.skip(i));
        lemma_alist_get_skip(s.drop_first(), k, i - 1);
    } else {
        assert(s.skip(0) =~= s);
    }
}

/// A first match at index `i` settles the lookup.
pub proof fn lemma_alist_get_first<V>(s: Seq<(Seq<char>, V)>, k: Seq<char>, i: int)
    requires
        0 <= i < s.len(),
        forall|j: int| 0 <= j < i ==> s[j].0 != k,
        s[i].0 == k,
    ensures
        alist_get(s, k) == Some(s[i].1),
{
    lemma_alist_get_skip(s, k, i);
    assert(s.skip(i)[0] == s[i]);
}

/// With no matching key at all, the lookup is `None`.
pub proof fn lemma_alist_get_none<V>(s: Seq<(Seq<char>, V)>, k: Seq<char>)
    requires
        forall|j: int| 0 <= j < s.len() ==> s[j].0 != k,
    ensures
        alist_get(s, k) == None::<V>,
{
    lemma_alist_get_skip(s, k, s.len() as int);
    assert(s.skip(s.len() as int) =~= Seq::<(Seq<char>, V)>::empty());
}

/// Replacing the value of the first pair bound to `k` rebinds `k` and leaves
/// every other key bound as before.
pub proof fn lemma_alist_update<V>(s: Seq<(Seq<char>, V)>, s2: Seq<(Seq<char>, V)>, k: Seq<char>, i: int)
    requires
        0 <= i < s.len(),
        s2.len() == s.len(),
        forall|j: int| 0 <= j < i ==> s[j].0 != k,
        s[i].0 == k,
        s2[i].0 == k,
        forall|j: int| 0 <= j < s.len() && j != i ==> s2[j] == s[j],
    ensures
        alist_get(s2, k) == Some(s2[i].1),
        forall|k2: Seq<char>| k2 != k ==> alist_get(s2, k2) == alist_get(s, k2),
    decreases i,
{
    assert(forall|j: int| 0 <= j < i ==> s2[j].0 != k);
    lemma_alist_get_first(s2, k, i);
    assert forall|k2: Seq<char>| k2 != k implies alist_get(s2, k2) == alist_get(s, k2) by {
        lemma_alist_get_other(s, s2, k, k2, i);
    }
}

/// Helper for `lemma_alist_update`: lookups of other keys are untouched.
proof fn lemma_alist_get_other<V>(
    s: Seq<(Seq<char>, V)>,
    s2: Seq<(Seq<char>, V)>,
    k: Seq<char>,
    k2: Seq<char>,
    i: int,
)
    requires
        0 <= i < s.len(),
        s2.len() == s.len(),
        s[i].0 == k,
        s2[i].0 == k,
        forall|j: int| 0 <= j < s.len() && j != i ==> s2[j] == s[j],
        k2 != k,
    ensures
        alist_get(s2, k2) == alist_get(s, k2),
    decreases i,
{
    if i == 0 {
        assert(s.drop_first() =~= s2.drop_first());
    } else if s[0].0 == k2 {
    } else {
        lemma_alist_get_other(s.drop_first(), s2.drop_first(), k, k2, i - 1);
    }
}

/// Appending a pair with a fresh key binds that key and leaves the others
/// bound as before.
pub proof fn lemma_alist_push<V>(s: Seq<(Seq<char>, V)>, k: Seq<char>, v: V)
    requires
        alist_get(s, k) == None::<V>,
    ensures
        alist_get(s.push((k, v)), k) == Some(v),
        forall|k2: Seq<char>| k2 != k ==> alist_get(s.push((k, v)), k2) == alist_get(s, k2),
    decreases s.len(),
{
    if s.len() == 0 {
        assert(s.push((k, v)).drop_first() =~= Seq::<(Seq<char>, V)>::empty());
        assert(alist_get(s.push((k, v)).drop_first(), k) == None::<V>);
        assert forall|k2: Seq<char>| k2 != k implies alist_get(s.push((k, v)), k2) == alist_get(
            s,
            k2,
        ) by {
            assert(alist_get(s.push((k, v)).drop_first(), k2) == None::<V>);
        }
    } else {
        let sp = s.push((k, v));
        assert(sp[0] == s[0]);
        assert(s[0].0 != k);
        assert(sp.drop_first() =~= s.drop_first().push((k, v)));
        lemma_alist_push(s.drop_first(), k, v);
        assert(alist_get(sp, k) == alist_get(s.drop_first().push((k, v)), k));
        assert forall|k2: Seq<char>| k2 != k implies alist_get(sp, k2) == alist_get(s, k2) by {
            if s[0].0 == k2 {
                assert(alist_get(sp, k2) == Some(sp[0].1));
                assert(alist_get(s, k2) == Some(s[0].1));
            } else {
                assert(alist_get(sp, k2) == alist_get(s.drop_first().push((k, v)), k2));
                assert(alist_get(s, k2) == alist_get(s.drop_first(), k2));
            }
        }
    }
}

} // verus!
