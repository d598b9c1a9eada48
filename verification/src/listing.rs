//! Walking a hash map in the order its iterator gives, and what a walk of a
//! generation proves about the generation as a whole.
use vstd::prelude::*;
use std::collections::HashMap;
use std::hash::Hash;
use vstd::std_specs::hash::obeys_key_model;
use vstd::std_specs::hash::spec_hash_map_iter;
use vstd::std_specs::iter::IteratorSpec;
use crate::model::is_order;
use crate::model::AtlasInfo;

verus! {

broadcast use vstd::std_specs::hash::group_hash_axioms;

/// The handles of a list of entries, in the same order.
pub open spec fn keys<H>(es: Seq<(H, AtlasInfo)>) -> Seq<H> {
    Seq::new(es.len(), |i: int| es[i].0)
}

/// The list holds every entry of the map exactly once.
pub open spec fn lists<H>(es: Seq<(H, AtlasInfo)>, m: Map<H, AtlasInfo>) -> bool {
    &&& is_order(keys(es), m)
    &&& forall|i: int| 0 <= i < es.len() ==> (#[trigger] es[i]).1 == m[es[i].0]
}

/// Every entry of the map stands somewhere in a list of it.
pub proof fn lemma_listed<H>(es: Seq<(H, AtlasInfo)>, m: Map<H, AtlasInfo>, h: H) -> (j: int)
    requires
        lists(es, m),
        m.contains_key(h),
    ensures
        0 <= j < es.len(),
        es[j].0 == h,
        es[j].1 == m[h],
{
    assert(keys(es).contains(h));
    choose|j: int| 0 <= j < keys(es).len() && keys(es)[j] == h
}

/// Every place of a list of the map holds an entry of the map.
pub proof fn lemma_entry_at<H>(es: Seq<(H, AtlasInfo)>, m: Map<H, AtlasInfo>, j: int)
    requires
        lists(es, m),
        0 <= j < es.len(),
    ensures
        m.contains_key(es[j].0),
        m[es[j].0] == es[j].1,
{
    assert(keys(es)[j] == es[j].0);
}

/// The entries of a map, in the order in which the map hands them out.
pub(crate) fn entries<H: Eq + Hash + Copy>(m: &HashMap<H, AtlasInfo>) -> (es: Vec<(H, AtlasInfo)>)
    requires
        obeys_key_model::<H>(),
    ensures
        lists(es@, m@),
{
    let mut out: Vec<(H, AtlasInfo)> = Vec::new();
    let ghost full = spec_hash_map_iter(m).remaining();
    for kv in it: m.iter()
        invariant
            it.seq() == full,
            out@.len() == it.index(),
            forall|i: int|
                0 <= i < out@.len() ==> (#[trigger] out@[i]) == (*it.seq()[i].0, *it.seq()[i].1),
    {
        let (k, v) = kv;
        out.push((*k, *v));
    }
    proof {
        let ks = keys(out@);
        assert forall|i: int| 0 <= i < ks.len() implies m@.contains_key(#[trigger] ks[i]) by {
            assert(out@[i].0 == *full[i].0);
            assert(m@.contains_key(*full[i].0));
        }
        assert forall|h: H| m@.contains_key(h) implies ks.contains(h) by {
            assert(full.contains((&h, &m@[h])));
            let i = choose|i: int| 0 <= i < full.len() && full[i] == (&h, &m@[h]);
            assert(out@[i].0 == h);
            assert(ks[i] == h);
        }
        assert forall|i: int, j: int| 0 <= i < ks.len() && 0 <= j < ks.len() && i != j implies ks[i]
            != ks[j] by {
            assert(out@[i].0 == *full[i].0 && out@[j].0 == *full[j].0);
            if ks[i] == ks[j] {
                assert(m@[*full[i].0] == *full[i].1);
                assert(m@[*full[j].0] == *full[j].1);
                assert(full[i] == full[j]);
            }
        }
        assert forall|i: int| 0 <= i < out@.len() implies (#[trigger] out@[i]).1 == m@[out@[i].0] by {
            assert(out@[i].0 == *full[i].0);
            assert(m@[*full[i].0] == *full[i].1);
        }
    }
    out
}

} // verus!
