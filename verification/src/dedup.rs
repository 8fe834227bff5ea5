use vstd::prelude::*;

use std::collections::HashSet;

use crate::coords::GeoPoint;

verus! {

broadcast use vstd::std_specs::hash::group_hash_axioms, vstd::seq_lib::lemma_seq_contains_after_push;

/// One river node record: canonical identity, position, and elevation in
/// centimeters.
#[derive(Clone, Copy, PartialEq, Eq, Structural, Debug)]
pub struct RiverNode {
    pub id: u32,
    pub point: GeoPoint,
    pub altitude_cm: i32,
}

/// Whether some record of the sequence carries the identity.
pub open spec fn spec_has_id(s: Seq<RiverNode>, id: u32) -> bool {
    exists|p: int| 0 <= p < s.len() && s[p].id == id
}

/// Collapses records sharing a node identity to one record per identity:
/// the surviving record is one of the input records of that identity (the
/// earliest here; which one survives is left unspecified to callers), no
/// identity repeats in the output, and every input identity is represented.
pub fn deduplicate_nodes(nodes: &Vec<RiverNode>) -> (r: Vec<RiverNode>)
    ensures
        forall|p: int, q: int| 0 <= p < q < r@.len() ==> r@[p].id != r@[q].id,
        forall|p: int| 0 <= p < r@.len() ==> nodes@.contains(#[trigger] r@[p]),
        forall|j: int|
            0 <= j < nodes@.len() ==> spec_has_id(r@, (#[trigger] nodes@[j]).id),
{
    let mut out: Vec<RiverNode> = Vec::new();
    let mut seen: HashSet<u32> = HashSet::new();
    let mut i: usize = 0;
    while i < nodes.len()
        invariant
            i <= nodes@.len(),
            forall|p: int, q: int| 0 <= p < q < out@.len() ==> out@[p].id != out@[q].id,
            forall|p: int| 0 <= p < out@.len() ==> nodes@.contains(#[trigger] out@[p]),
            forall|j: int| 0 <= j < i ==> spec_has_id(out@, (#[trigger] nodes@[j]).id),
            forall|p: int| 0 <= p < out@.len() ==> seen@.contains((#[trigger] out@[p]).id),
            forall|k: u32| #[trigger]
                seen@.contains(k) ==> exists|p: int| 0 <= p < out@.len() && out@[p].id == k,
        decreases nodes@.len() - i,
    {
        let n = nodes[i];
        let ghost old_out = out@;
        if !seen.contains(&n.id) {
            seen.insert(n.id);
            out.push(n);
            proof {
                assert(out@[out@.len() - 1] == n);
                assert(nodes@.contains(n)) by {
                    assert(nodes@[i as int] == n);
                }
                assert forall|j: int| 0 <= j < i + 1 implies spec_has_id(
                    out@,
                    (#[trigger] nodes@[j]).id,
                ) by {
                    if j < i {
                        let p = choose|p: int|
                            0 <= p < old_out.len() && old_out[p].id == nodes@[j].id;
                        assert(out@[p].id == nodes@[j].id);
                    } else {
                        assert(out@[out@.len() - 1].id == nodes@[j].id);
                    }
                }
                assert forall|k: u32| #[trigger] seen@.contains(k) implies exists|p: int|
                    0 <= p < out@.len() && out@[p].id == k by {
                    if k == n.id {
                        assert(out@[out@.len() - 1].id == k);
                    } else {
                        let p = choose|p: int| 0 <= p < old_out.len() && old_out[p].id == k;
                        assert(out@[p].id == k);
                    }
                }
            }
        } else {
            proof {
                assert forall|j: int| 0 <= j < i + 1 implies spec_has_id(
                    out@,
                    (#[trigger] nodes@[j]).id,
                ) by {
                    if j == i {
                        let p = choose|p: int| 0 <= p < out@.len() && out@[p].id == n.id;
                        assert(out@[p].id == nodes@[j].id);
                    }
                }
            }
        }
        i = i + 1;
    }
    out
}

} // verus!
