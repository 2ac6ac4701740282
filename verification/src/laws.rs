//! What holds of every index, proved from the definitions that the contracts
//! of the library use.

use crate::dataset::{names_distinct, names_of, Record, Relation};
use crate::index::{
    indexed, inbound, lemma_inbound_none, lemma_inbound_step, lists, Entry,
};
use crate::query::selects;
use crate::registry::PokemonTypeNameRegistry;
use vstd::prelude::*;

verus! {

/// Whether `positions` holds, in ascending order, the positions of exactly
/// those among the first `n` records that list `name` under `relation`.
pub open spec fn listers(
    dataset: Seq<Record>,
    name: Seq<char>,
    relation: Relation,
    n: int,
    positions: Seq<int>,
) -> bool {
    &&& forall|p: int|
        0 <= p < positions.len() ==> 0 <= (#[trigger] positions[p]) < n
            && dataset[positions[p]].outbound(relation).contains(name)
    &&& forall|p: int, q: int| 0 <= p < q < positions.len() ==> positions[p] < positions[q]
    &&& forall|t: int|
        0 <= t < n && (#[trigger] dataset[t]).outbound(relation).contains(name) ==> exists|p: int|
            0 <= p < positions.len() && positions[p] == t
}

/// The names that the records at `positions` bear.
pub open spec fn names_at(dataset: Seq<Record>, positions: Seq<int>) -> Seq<Seq<char>> {
    positions.map_values(|t: int| dataset[t].name)
}

/// An inbound list holds a name exactly when some record of that name lists
/// the type.
pub proof fn lemma_inbound_members(
    dataset: Seq<Record>,
    name: Seq<char>,
    relation: Relation,
    attacker: Seq<char>,
)
    ensures
        inbound(dataset, name, relation).contains(attacker) <==> exists|t: int|
            0 <= t < dataset.len() && (#[trigger] dataset[t]).name == attacker
                && dataset[t].outbound(relation).contains(name),
{
    let test = lists(name, relation);
    let kept = dataset.filter(test);
    let list = inbound(dataset, name, relation);
    if list.contains(attacker) {
        let k = choose|k: int| 0 <= k < list.len() && list[k] == attacker;
        assert(kept[k].name == attacker);
        dataset.lemma_filter_pred(test, k);
        assert(kept.contains(kept[k]));
        dataset.lemma_filter_contains_rev(test, kept[k]);
        let t = choose|t: int| 0 <= t < dataset.len() && dataset[t] == kept[k];
        assert(dataset[t].name == attacker && dataset[t].outbound(relation).contains(name));
    }
    if exists|t: int|
        0 <= t < dataset.len() && (#[trigger] dataset[t]).name == attacker
            && dataset[t].outbound(relation).contains(name) {
        let t = choose|t: int|
            0 <= t < dataset.len() && (#[trigger] dataset[t]).name == attacker
                && dataset[t].outbound(relation).contains(name);
        dataset.lemma_filter_contains(test, t);
        let k = choose|k: int| 0 <= k < kept.len() && kept[k] == dataset[t];
        assert(list[k] == attacker);
    }
}

/// Bidirectional consistency: in the index of a dataset whose names are
/// distinct, B is on A's outbound list of a relation exactly when A is on B's
/// inbound list of that relation.
pub proof fn lemma_bidirectional(dataset: Seq<Record>, a: int, b: int, relation: Relation)
    requires
        names_distinct(dataset),
        0 <= a < dataset.len(),
        0 <= b < dataset.len(),
    ensures
        indexed(dataset)[a].attack(relation).contains(indexed(dataset)[b].name) <==> indexed(
            dataset,
        )[b].defense(relation).contains(indexed(dataset)[a].name),
{
    lemma_inbound_members(dataset, dataset[b].name, relation, dataset[a].name);
    if indexed(dataset)[b].defense(relation).contains(indexed(dataset)[a].name) {
        let t = choose|t: int|
            0 <= t < dataset.len() && (#[trigger] dataset[t]).name == dataset[a].name
                && dataset[t].outbound(relation).contains(dataset[b].name);
        assert(t == a);
    }
}

/// Order preservation: an entry bears the name of its record, and each of its
/// outbound lists is the record's list, with the same names in the same order.
pub proof fn lemma_outbound_kept(dataset: Seq<Record>, a: int, relation: Relation)
    requires
        0 <= a < dataset.len(),
    ensures
        indexed(dataset).len() == dataset.len(),
        indexed(dataset)[a].name == dataset[a].name,
        indexed(dataset)[a].attack(relation) == dataset[a].outbound(relation),
{
}

/// Inbound order: an inbound list names the records that list the type one by
/// one, in the order in which the dataset holds them.
pub proof fn lemma_inbound_order(dataset: Seq<Record>, name: Seq<char>, relation: Relation)
    ensures
        exists|positions: Seq<int>|
            #[trigger] listers(dataset, name, relation, dataset.len() as int, positions)
                && inbound(dataset, name, relation) == names_at(dataset, positions),
{
    let positions = lemma_inbound_positions(dataset, name, relation, dataset.len() as int);
    assert(dataset.take(dataset.len() as int) =~= dataset);
    assert(listers(dataset, name, relation, dataset.len() as int, positions));
}

/// The positions behind the inbound list of the first `n` records.
proof fn lemma_inbound_positions(
    dataset: Seq<Record>,
    name: Seq<char>,
    relation: Relation,
    n: int,
) -> (positions: Seq<int>)
    requires
        0 <= n <= dataset.len(),
    ensures
        listers(dataset, name, relation, n, positions),
        inbound(dataset.take(n), name, relation) == names_at(dataset, positions),
    decreases n,
{
    if n == 0 {
        lemma_inbound_none(dataset, name, relation);
        let none = Seq::<int>::empty();
        assert(names_at(dataset, none) =~= Seq::<Seq<char>>::empty());
        none
    } else {
        let earlier = lemma_inbound_positions(dataset, name, relation, n - 1);
        lemma_inbound_step(dataset, name, relation, n - 1);
        if dataset[n - 1].outbound(relation).contains(name) {
            let positions = earlier.push(n - 1);
            assert(names_at(dataset, positions) =~= names_at(dataset, earlier).push(
                dataset[n - 1].name,
            ));
            assert forall|t: int|
                0 <= t < n && (#[trigger] dataset[t]).outbound(relation).contains(
                    name,
                ) implies exists|p: int| 0 <= p < positions.len() && positions[p] == t by {
                if t < n - 1 {
                    let p = choose|p: int| 0 <= p < earlier.len() && earlier[p] == t;
                    assert(positions[p] == t);
                } else {
                    assert(positions[earlier.len() as int] == t);
                }
            }
            assert forall|p: int, q: int| 0 <= p < q < positions.len() implies positions[p]
                < positions[q] by {
                assert(earlier[p] < n - 1);
            }
            positions
        } else {
            earlier
        }
    }
}

/// Determinism: two indexes of one dataset agree in everything, the order of
/// every inbound list included.
pub proof fn lemma_index_deterministic(dataset: Seq<Record>, first: Seq<Entry>, second: Seq<Entry>)
    requires
        first == indexed(dataset),
        second == indexed(dataset),
    ensures
        first == second,
        forall|i: int, relation: Relation|
            0 <= i < dataset.len() ==> #[trigger] first[i].defense(relation) == second[i].defense(
                relation,
            ),
{
}

/// Interning is unique: two names that are equal as text resolve to handles
/// that cannot be told apart.
pub proof fn lemma_interning_unique(
    registry: &PokemonTypeNameRegistry,
    first_name: Seq<char>,
    second_name: Seq<char>,
    first_handle: Seq<char>,
    second_handle: Seq<char>,
)
    requires
        registry.resolves(first_name, first_handle),
        registry.resolves(second_name, second_handle),
        first_name == second_name,
    ensures
        first_handle == second_handle,
{
}

/// A miss selects nothing: a name that no record of the dataset bears is borne
/// by no entry of its index, so looking it up finds no position.
pub proof fn lemma_miss_selects_nothing(dataset: Seq<Record>, name: Seq<char>, found: Seq<usize>)
    requires
        !names_of(dataset).contains(name),
        selects(indexed(dataset), name, found),
    ensures
        found.len() == 0,
{
    if found.len() > 0 {
        let i = found[0] as int;
        assert(indexed(dataset)[i].name == name);
        assert(names_of(dataset)[i] == name);
    }
}

/// Self-relations are kept: a record that lists its own name under a relation
/// is on its own inbound list of that relation.
pub proof fn lemma_self_relation(dataset: Seq<Record>, x: int, relation: Relation)
    requires
        0 <= x < dataset.len(),
        dataset[x].outbound(relation).contains(dataset[x].name),
    ensures
        indexed(dataset)[x].defense(relation).contains(indexed(dataset)[x].name),
{
    lemma_inbound_members(dataset, dataset[x].name, relation, dataset[x].name);
}

} // verus!
