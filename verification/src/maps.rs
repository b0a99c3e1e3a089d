//! Ordered traversal of the maps that a problem keeps, keyed by variable.

use std::collections::BTreeMap;
use vstd::prelude::*;
use vstd::std_specs::iter::IteratorSpec;
use vstd::std_specs::cmp::OrdSpec;

verus! {

broadcast use {vstd::std_specs::btree::group_btree_axioms, vstd::laws_cmp::group_laws_cmp};

/// The sequence is strictly increasing.
pub open spec fn strictly_increasing(s: Seq<usize>) -> bool {
    forall|i: int, j: int| 0 <= i < j < s.len() ==> s[i] < s[j]
}

/// The keys of a map, in increasing order.
pub fn ordered_keys<V>(map: &BTreeMap<usize, V>) -> (keys: Vec<usize>)
    ensures
        keys@.to_set() == map@.dom(),
        keys@.no_duplicates(),
        strictly_increasing(keys@),
        forall|i: int| 0 <= i < keys@.len() ==> map@.contains_key(#[trigger] keys@[i]),
        forall|k: usize| map@.contains_key(k) ==> keys@.contains(k),
{
    let mut keys: Vec<usize> = Vec::new();
    let ghost all = map.keys().remaining();
    for key in iter: map.keys()
        invariant
            iter.seq() == all,
            keys@ == iter.seq().take(iter.index() as int).map_values(|k: &usize| *k),
    {
        keys.push(*key);
    }
    proof {
        assert(keys@ == all.map_values(|k: &usize| *k));
        assert(all.unref() == keys@);
        lemma_increasing_keys(all);
        assert forall|i: int| 0 <= i < keys@.len() implies map@.contains_key(#[trigger] keys@[i]) by {
            assert(keys@.to_set().contains(keys@[i]));
        }
        assert forall|k: usize| map@.contains_key(k) implies keys@.contains(k) by {
            assert(keys@.to_set().contains(k));
        }
    }
    keys
}

proof fn lemma_increasing_keys(s: Seq<&usize>)
    requires
        vstd::std_specs::btree::increasing_seq(s),
    ensures
        forall|i: int, j: int| 0 <= i < j < s.len() ==> *s[i] < *s[j],
{
    assert(vstd::laws_cmp::obeys_cmp::<usize>());
    assert(vstd::laws_cmp::obeys_cmp::<&usize>());
    vstd::std_specs::btree::axiom_increasing_seq_meaning::<&usize>(s);
    assert forall|i: int, j: int| 0 <= i < j < s.len() implies *s[i] < *s[j] by {
        assert(OrdSpec::cmp_spec(&s[i], &s[j]) is Less);
    }
}

} // verus!
