//! A keyed store backed by a vector of pairs, viewed as a map.
//!
//! The render pointer store and the delete session store both keep one
//! record per key; these spec functions and lemmas connect the vector
//! representation to its `Map` view.

use vstd::prelude::*;

verus! {

/// The map a pair vector denotes; later pairs win, though well-formed
/// stores never repeat a key.
pub open spec fn assoc_map<V>(s: Seq<(i64, V)>) -> Map<int, V>
    decreases s.len(),
{
    if s.len() == 0 {
        Map::empty()
    } else {
        assoc_map(s.drop_last()).insert(s.last().0 as int, s.last().1)
    }
}

/// No key occurs twice.
pub open spec fn keys_unique<V>(s: Seq<(i64, V)>) -> bool {
    forall|i: int, j: int| 0 <= i < j < s.len() ==> s[i].0 != s[j].0
}

/// With unique keys, the pair at any index gives the map's value there.
pub proof fn lemma_assoc_get<V>(s: Seq<(i64, V)>, i: int)
    requires
        keys_unique(s),
        0 <= i < s.len(),
    ensures
        assoc_map(s).contains_key(s[i].0 as int),
        assoc_map(s)[s[i].0 as int] == s[i].1,
    decreases s.len(),
{
    if i == s.len() - 1 {
    } else {
        assert(keys_unique(s.drop_last()));
        assert(s.drop_last()[i] == s[i]);
        lemma_assoc_get(s.drop_last(), i);
        assert(s.last().0 != s[i].0);
    }
}

/// Appending a pair inserts its binding.
pub proof fn lemma_assoc_push<V>(s: Seq<(i64, V)>, k: i64, v: V)
    ensures
        assoc_map(s.push((k, v))) == assoc_map(s).insert(k as int, v),
{
    assert(s.push((k, v)).drop_last() =~= s);
    assert(s.push((k, v)).last() == (k, v));
}

/// Removing the pair at an index removes its binding, when keys are unique.
pub proof fn lemma_assoc_remove<V>(s: Seq<(i64, V)>, i: int)
    requires
        keys_unique(s),
        0 <= i < s.len(),
    ensures
        assoc_map(s.remove(i)) == assoc_map(s).remove(s[i].0 as int),
    decreases s.len(),
{
    let k = s[i].0 as int;
    if i == s.len() - 1 {
        assert(s.remove(i) =~= s.drop_last());
        lemma_assoc_no_key_no_binding(s.drop_last(), k);
        assert(assoc_map(s.drop_last()) =~= assoc_map(s).remove(k));
    } else {
        let t = s.remove(i);
        assert(t.drop_last() =~= s.drop_last().remove(i));
        assert(t.last() == s.last());
        assert(keys_unique(s.drop_last()));
        assert(s.drop_last()[i] == s[i]);
        lemma_assoc_remove(s.drop_last(), i);
        assert(s.last().0 as int != k);
        assert(assoc_map(t) =~= assoc_map(s).remove(k));
    }
}

/// A key carried by no pair has no binding.
pub proof fn lemma_assoc_no_key_no_binding<V>(s: Seq<(i64, V)>, k: int)
    requires
        forall|i: int| 0 <= i < s.len() ==> s[i].0 as int != k,
    ensures
        !assoc_map(s).contains_key(k),
    decreases s.len(),
{
    if s.len() > 0 {
        assert(forall|i: int|
            0 <= i < s.drop_last().len() ==> #[trigger] s.drop_last()[i].0 as int != k);
        lemma_assoc_no_key_no_binding(s.drop_last(), k);
        assert(s[s.len() - 1].0 as int != k);
    }
}

} // verus!
