use vstd::prelude::*;
use crate::model::{BoundingBox, Coordinate};

verus! {

/// `out` lists, in ascending order, the places of the envelopes that hold the
/// point.
pub open spec fn is_prefilter(envelopes: Seq<BoundingBox>, p: Coordinate, out: Seq<usize>) -> bool {
    &&& forall|a: int|
        0 <= a < out.len() ==> (#[trigger] out[a]) < envelopes.len()
            && envelopes[out[a] as int].holds(p)
    &&& forall|a: int, b: int| 0 <= a < b < out.len() ==> (#[trigger] out[a]) < (#[trigger] out[b])
    &&& forall|i: usize|
        i < envelopes.len() && envelopes[i as int].holds(p) ==> #[trigger] out.contains(i)
}

/// The candidates for a point: the places of the envelopes that hold it, in
/// their order.
pub fn prefilter(envelopes: &Vec<BoundingBox>, p: Coordinate) -> (out: Vec<usize>)
    ensures
        is_prefilter(envelopes@, p, out@),
{
    let mut out: Vec<usize> = Vec::new();
    let mut i: usize = 0;
    while i < envelopes.len()
        invariant
            i <= envelopes.len(),
            forall|a: int|
                0 <= a < out@.len() ==> (#[trigger] out@[a]) < i
                    && envelopes@[out@[a] as int].holds(p),
            forall|a: int, b: int|
                0 <= a < b < out@.len() ==> (#[trigger] out@[a]) < (#[trigger] out@[b]),
            forall|j: usize| j < i && envelopes@[j as int].holds(p) ==> #[trigger] out@.contains(j),
        decreases envelopes.len() - i,
    {
        if envelopes[i].contains(p) {
            let ghost before = out@;
            out.push(i);
            proof {
                assert forall|j: usize|
                    j < i + 1 && envelopes@[j as int].holds(p) implies #[trigger] out@.contains(
                    j,
                ) by {
                    if j == i {
                        assert(out@[before.len() as int] == j);
                    } else {
                        assert(before.contains(j));
                        let a = choose|a: int| 0 <= a < before.len() && before[a] == j;
                        assert(out@[a] == j);
                    }
                }
            }
        }
        i += 1;
    }
    out
}

} // verus!
