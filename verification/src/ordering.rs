use vstd::prelude::*;
use vstd::std_specs::btree::{increasing_seq, key_obeys_cmp_spec};
use vstd::std_specs::cmp::OrdSpec;

verus! {

broadcast use vstd::laws_cmp::group_laws_cmp;

/// `u32` keys are ordered the way `BTreeMap` expects.
pub proof fn lemma_u32_keys_are_ordered()
    ensures
        key_obeys_cmp_spec::<u32>(),
{
    broadcast use vstd::std_specs::btree::group_btree_axioms;
}

/// An increasing sequence of `u32` is strictly increasing as numbers.
pub proof fn lemma_increasing_u32(keys: Seq<u32>)
    requires
        increasing_seq(keys),
    ensures
        forall|a: int, b: int| 0 <= a < b < keys.len() ==> keys[a] < keys[b],
{
    broadcast use vstd::std_specs::btree::group_btree_axioms;
    vstd::std_specs::btree::axiom_increasing_seq_meaning(keys);
    assert forall|a: int, b: int| 0 <= a < b < keys.len() implies keys[a] < keys[b] by {
        assert(keys[a].cmp_spec(&keys[b]) is Less);
    }
}

} // verus!
