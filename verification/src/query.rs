//! Looking a type up in the index by its name.

use crate::index::{Entry, PokemonType};
use crate::text::same_text;
use vstd::prelude::*;

verus! {

/// Whether `found` holds the positions of exactly those entries that bear
/// `name`, in ascending order.
pub open spec fn selects(types: Seq<Entry>, name: Seq<char>, found: Seq<usize>) -> bool {
    &&& forall|p: int|
        0 <= p < found.len() ==> (#[trigger] found[p]) < types.len() && types[found[p] as int].name
            == name
    &&& forall|p: int, q: int| 0 <= p < q < found.len() ==> found[p] < found[q]
    &&& forall|i: int|
        0 <= i < types.len() && (#[trigger] types[i]).name == name ==> exists|p: int|
            0 <= p < found.len() && found[p] == i
}

/// The positions of the indexed types named `selected_type`, in index order.
/// A name that no type bears selects nothing, and that is no failure.
pub fn lookup(types: &Vec<PokemonType>, selected_type: &str) -> (found: Vec<usize>)
    ensures
        selects(types.deep_view(), selected_type@, found@),
        found.len() == 0 <==> forall|i: int|
            0 <= i < types.len() ==> (#[trigger] types.deep_view()[i]).name != selected_type@,
{
    let mut found: Vec<usize> = Vec::new();
    let mut i: usize = 0;
    while i < types.len()
        invariant
            i <= types.len(),
            selects(types.deep_view().take(i as int), selected_type@, found@),
        decreases types.len() - i,
    {
        let ghost before = found@;
        let ghost seen = types.deep_view().take(i as int);
        let ghost next = types.deep_view().take(i + 1);
        assert(types.deep_view()[i as int] == types[i as int]@);
        if same_text(types[i].name, selected_type) {
            found.push(i);
            assert(found@[before.len() as int] == i);
        }
        proof {
            assert forall|k: int| 0 <= k < next.len() && (#[trigger] next[k]).name
                == selected_type@ implies exists|p: int| 0 <= p < found.len() && found@[p] == k by {
                if k < i {
                    assert(seen[k].name == selected_type@);
                    let p = choose|p: int| 0 <= p < before.len() && before[p] == k;
                    assert(found@[p] == k);
                } else {
                    assert(found@[before.len() as int] == k);
                }
            }
            assert forall|p: int| 0 <= p < found.len() implies (#[trigger] found@[p]) < next.len()
                && next[found@[p] as int].name == selected_type@ by {
                if p < before.len() {
                    assert(before[p] < seen.len());
                    assert(seen[before[p] as int] == next[before[p] as int]);
                }
            }
            assert forall|p: int, q: int| 0 <= p < q < found.len() implies found@[p] < found@[q] by {
                assert(before[p] < seen.len());
            }
        }
        i += 1;
    }
    assert(types.deep_view().take(types.len() as int) =~= types.deep_view());
    proof {
        if found.len() > 0 {
            assert(types.deep_view()[found@[0] as int].name == selected_type@);
        }
    }
    found
}

} // verus!
