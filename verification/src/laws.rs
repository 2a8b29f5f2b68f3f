//! Laws relating sequences of insertions to the resulting map.
//!
//! [`crate::BST::insert`] grows the tree's view by [`Map::insert`], so a run
//! of insertions starting from the empty tree leaves the view equal to
//! [`map_of_pairs`] of the insertion sequence. The lemmas here state what that
//! map holds: every inserted key is present, a key never inserted is absent,
//! and a key inserted twice keeps only its latest value.
use vstd::prelude::*;

verus! {

/// The map left behind by inserting the pairs of `pairs` in order into an
/// initially empty map: later pairs win over earlier pairs with the same key.
pub open spec fn map_of_pairs<K, V>(pairs: Seq<(K, V)>) -> Map<K, V>
    decreases pairs.len(),
{
    if pairs.len() == 0 {
        Map::empty()
    } else {
        map_of_pairs(pairs.drop_last()).insert(pairs.last().0, pairs.last().1)
    }
}

/// Every key of a pair inserted into an initially empty tree is contained
/// afterwards, whatever else the sequence inserted before or after it.
pub proof fn lemma_inserted_key_contained<K, V>(pairs: Seq<(K, V)>, i: int)
    requires
        0 <= i < pairs.len(),
    ensures
        map_of_pairs(pairs).dom().contains(pairs[i].0),
    decreases pairs.len(),
{
    if i < pairs.len() - 1 {
        lemma_inserted_key_contained(pairs.drop_last(), i);
    }
}

/// A key that no pair of the sequence carries is absent from the tree built
/// by inserting that sequence into an initially empty tree.
pub proof fn lemma_missing_key_absent<K, V>(pairs: Seq<(K, V)>, key: K)
    requires
        forall|i: int| 0 <= i < pairs.len() ==> (#[trigger] pairs[i]).0 != key,
    ensures
        !map_of_pairs(pairs).dom().contains(key),
    decreases pairs.len(),
{
    if pairs.len() > 0 {
        lemma_missing_key_absent(pairs.drop_last(), key);
    }
}

/// Inserting the same key twice keeps exactly one entry for it, holding the
/// value of the second insertion: the first insertion leaves no trace.
pub proof fn lemma_overwrite_keeps_latest<K, V>(m: Map<K, V>, key: K, v1: V, v2: V)
    ensures
        m.insert(key, v1).insert(key, v2) == m.insert(key, v2),
        m.insert(key, v1).insert(key, v2)[key] == v2,
        m.insert(key, v1).insert(key, v2).dom() == m.dom().insert(key),
{
    assert(m.insert(key, v1).insert(key, v2) =~= m.insert(key, v2));
    assert(m.insert(key, v1).insert(key, v2).dom() =~= m.dom().insert(key));
}

/// A freshly constructed tree contains no key at all: its view is the empty
/// map, which is also what inserting the empty sequence leaves behind.
pub proof fn lemma_empty_has_no_entries<K, V>(key: K)
    ensures
        !Map::<K, V>::empty().dom().contains(key),
        map_of_pairs(Seq::<(K, V)>::empty()) == Map::<K, V>::empty(),
{
}

} // verus!
