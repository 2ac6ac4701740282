//! The dataset as it is loaded: one record per type, and the check that every
//! name a record mentions is registered.

use crate::registry::PokemonTypeNameRegistry;
use vstd::prelude::*;

verus! {

/// The three ways in which one type can relate to another.
#[derive(Clone, Copy, Debug, PartialEq, Eq, Structural)]
pub enum Relation {
    Effective,
    NotEffective,
    NoEffect,
}

/// One record of the dataset: a type and the types it attacks in each of the
/// three ways.
#[derive(Debug)]
pub struct PokemonTypeSerialized {
    pub name: String,
    pub effective: Vec<String>,
    pub not_effective: Vec<String>,
    pub no_effect: Vec<String>,
}

/// What a record says, as plain text.
pub struct Record {
    pub name: Seq<char>,
    pub effective: Seq<Seq<char>>,
    pub not_effective: Seq<Seq<char>>,
    pub no_effect: Seq<Seq<char>>,
}

impl Record {
    /// The outbound list of one relation.
    pub open spec fn outbound(self, relation: Relation) -> Seq<Seq<char>> {
        match relation {
            Relation::Effective => self.effective,
            Relation::NotEffective => self.not_effective,
            Relation::NoEffect => self.no_effect,
        }
    }

    /// Every name the record mentions, in reading order: its own, then the
    /// three lists.
    pub open spec fn mentions(self) -> Seq<Seq<char>> {
        seq![self.name] + self.effective + self.not_effective + self.no_effect
    }
}

impl View for PokemonTypeSerialized {
    type V = Record;

    open spec fn view(&self) -> Record {
        Record {
            name: self.name@,
            effective: self.effective.deep_view(),
            not_effective: self.not_effective.deep_view(),
            no_effect: self.no_effect.deep_view(),
        }
    }
}

impl DeepView for PokemonTypeSerialized {
    type V = Record;

    open spec fn deep_view(&self) -> Record {
        self@
    }
}

/// The names of the records, in dataset order.
pub open spec fn names_of(dataset: Seq<Record>) -> Seq<Seq<char>> {
    dataset.map_values(|record: Record| record.name)
}

/// Whether no two records share a name.
pub open spec fn names_distinct(dataset: Seq<Record>) -> bool {
    forall|i: int, j: int|
        0 <= i < j < dataset.len() ==> (#[trigger] dataset[i]).name != (#[trigger] dataset[j]).name
}

/// Whether every name of `names` is registered.
pub open spec fn all_known(names: Seq<Seq<char>>, registry: Set<Seq<char>>) -> bool {
    forall|k: int| 0 <= k < names.len() ==> registry.contains(#[trigger] names[k])
}

/// Whether `name` is the first name of `names` that is not registered.
pub open spec fn first_unknown(
    names: Seq<Seq<char>>,
    registry: Set<Seq<char>>,
    name: Seq<char>,
) -> bool {
    exists|k: int|
        0 <= k < names.len() && #[trigger] names[k] == name && !registry.contains(name)
            && all_known(names.take(k), registry)
}

/// Whether every name that any record mentions is registered.
pub open spec fn resolved(dataset: Seq<Record>, registry: Set<Seq<char>>) -> bool {
    forall|i: int|
        0 <= i < dataset.len() ==> all_known((#[trigger] dataset[i]).mentions(), registry)
}

/// Whether `name` is the first unregistered name of the dataset in reading
/// order: record by record, and within a record as [`Record::mentions`] has it.
pub open spec fn first_unresolved(
    dataset: Seq<Record>,
    registry: Set<Seq<char>>,
    name: Seq<char>,
) -> bool {
    exists|i: int|
        0 <= i < dataset.len() && resolved(dataset.take(i), registry) && first_unknown(
            (#[trigger] dataset[i]).mentions(),
            registry,
            name,
        )
}

/// A record mentions a name that no record of the dataset bears.
#[derive(Debug)]
pub struct DataIntegrityError {
    /// The name that could not be resolved.
    pub name: String,
}

/// The names of the records, in dataset order: what the registry of a dataset
/// is built from.
pub fn type_names(raw: &Vec<PokemonTypeSerialized>) -> (names: Vec<String>)
    ensures
        names.deep_view() == names_of(raw.deep_view()),
{
    let mut names: Vec<String> = Vec::with_capacity(raw.len());
    let mut i: usize = 0;
    while i < raw.len()
        invariant
            i <= raw.len(),
            names.len() == i,
            forall|k: int| 0 <= k < i ==> (#[trigger] names[k])@ == raw[k].name@,
        decreases raw.len() - i,
    {
        names.push(raw[i].name.clone());
        i += 1;
    }
    assert(names.deep_view() =~= names_of(raw.deep_view()));
    names
}

/// Looks for the first name of `names` that is not registered.
fn check_names(names: &Vec<String>, registry: &PokemonTypeNameRegistry) -> (result: Result<
    (),
    DataIntegrityError,
>)
    ensures
        result is Ok <==> all_known(names.deep_view(), registry@),
        result matches Err(e) ==> first_unknown(names.deep_view(), registry@, e.name@),
{
    let mut k: usize = 0;
    while k < names.len()
        invariant
            k <= names.len(),
            all_known(names.deep_view().take(k as int), registry@),
        decreases names.len() - k,
    {
        if !registry.contains(names[k].as_str()) {
            assert(names.deep_view()[k as int] == names[k as int]@);
            return Err(DataIntegrityError { name: names[k].clone() });
        }
        assert(all_known(names.deep_view().take(k + 1), registry@)) by {
            assert forall|j: int| 0 <= j < k + 1 implies registry@.contains(
                #[trigger] names.deep_view().take(k + 1)[j],
            ) by {
                if j < k {
                    assert(names.deep_view().take(k as int)[j] == names.deep_view()[j]);
                }
            }
        }
        k += 1;
    }
    assert(names.deep_view().take(names.len() as int) =~= names.deep_view());
    Ok(())
}

/// Checks that every name the dataset mentions is registered, and names the
/// first one that is not.
pub fn check_integrity(
    raw: &Vec<PokemonTypeSerialized>,
    registry: &PokemonTypeNameRegistry,
) -> (result: Result<(), DataIntegrityError>)
    ensures
        result is Ok <==> resolved(raw.deep_view(), registry@),
        result matches Err(e) ==> first_unresolved(raw.deep_view(), registry@, e.name@),
{
    let mut i: usize = 0;
    while i < raw.len()
        invariant
            i <= raw.len(),
            resolved(raw.deep_view().take(i as int), registry@),
        decreases raw.len() - i,
    {
        let record = &raw[i];
        let ghost mentions = raw.deep_view()[i as int].mentions();
        let ghost own = seq![record.name@];
        let ghost first = own + record.effective.deep_view();
        let ghost second = first + record.not_effective.deep_view();
        assert(raw.deep_view()[i as int] == record@);
        assert(mentions == second + record.no_effect.deep_view());
        if !registry.contains(record.name.as_str()) {
            assert(mentions[0] == record.name@);
            assert(mentions.take(0) =~= Seq::<Seq<char>>::empty());
            return Err(DataIntegrityError { name: record.name.clone() });
        }
        assert(all_known(own, registry@));
        match check_names(&record.effective, registry) {
            Err(e) => {
                proof {
                    lemma_first_unknown_after(own, record.effective.deep_view(), registry@, e.name@);
                    lemma_first_unknown_before(first, record.not_effective.deep_view(), registry@, e.name@);
                    lemma_first_unknown_before(second, record.no_effect.deep_view(), registry@, e.name@);
                }
                return Err(e);
            },
            Ok(_) => {},
        }
        proof {
            lemma_all_known_concat(own, record.effective.deep_view(), registry@);
        }
        match check_names(&record.not_effective, registry) {
            Err(e) => {
                proof {
                    lemma_first_unknown_after(first, record.not_effective.deep_view(), registry@, e.name@);
                    lemma_first_unknown_before(second, record.no_effect.deep_view(), registry@, e.name@);
                }
                return Err(e);
            },
            Ok(_) => {},
        }
        proof {
            lemma_all_known_concat(first, record.not_effective.deep_view(), registry@);
        }
        match check_names(&record.no_effect, registry) {
            Err(e) => {
                proof {
                    lemma_first_unknown_after(second, record.no_effect.deep_view(), registry@, e.name@);
                }
                return Err(e);
            },
            Ok(_) => {},
        }
        proof {
            lemma_all_known_concat(second, record.no_effect.deep_view(), registry@);
            assert forall|j: int| 0 <= j < i + 1 implies all_known(
                (#[trigger] raw.deep_view().take(i + 1)[j]).mentions(),
                registry@,
            ) by {
                if j < i {
                    assert(raw.deep_view().take(i as int)[j] == raw.deep_view()[j]);
                }
            }
        }
        i += 1;
    }
    assert(raw.deep_view().take(raw.len() as int) =~= raw.deep_view());
    Ok(())
}

/// Two lists are known throughout exactly when their concatenation is.
proof fn lemma_all_known_concat(
    front: Seq<Seq<char>>,
    back: Seq<Seq<char>>,
    registry: Set<Seq<char>>,
)
    ensures
        all_known(front + back, registry) <==> all_known(front, registry) && all_known(
            back,
            registry,
        ),
{
    let whole = front + back;
    if all_known(whole, registry) {
        assert forall|k: int| 0 <= k < front.len() implies registry.contains(
            #[trigger] front[k],
        ) by {
            assert(whole[k] == front[k]);
        }
        assert forall|k: int| 0 <= k < back.len() implies registry.contains(#[trigger] back[k]) by {
            assert(whole[front.len() + k] == back[k]);
        }
    }
    if all_known(front, registry) && all_known(back, registry) {
        assert forall|k: int| 0 <= k < whole.len() implies registry.contains(
            #[trigger] whole[k],
        ) by {
            if k < front.len() {
                assert(whole[k] == front[k]);
            } else {
                assert(whole[k] == back[k - front.len()]);
            }
        }
    }
}

/// The first unknown name of a list is still the first once a list follows it.
proof fn lemma_first_unknown_before(
    front: Seq<Seq<char>>,
    back: Seq<Seq<char>>,
    registry: Set<Seq<char>>,
    name: Seq<char>,
)
    requires
        first_unknown(front, registry, name),
    ensures
        first_unknown(front + back, registry, name),
{
    let k = choose|k: int|
        0 <= k < front.len() && #[trigger] front[k] == name && !registry.contains(name)
            && all_known(front.take(k), registry);
    let whole = front + back;
    assert(whole[k] == name);
    assert(whole.take(k) =~= front.take(k));
}

/// Behind a list that is known throughout, the first unknown name of the next
/// list is the first of both.
proof fn lemma_first_unknown_after(
    front: Seq<Seq<char>>,
    back: Seq<Seq<char>>,
    registry: Set<Seq<char>>,
    name: Seq<char>,
)
    requires
        all_known(front, registry),
        first_unknown(back, registry, name),
    ensures
        first_unknown(front + back, registry, name),
{
    let k = choose|k: int|
        0 <= k < back.len() && #[trigger] back[k] == name && !registry.contains(name)
            && all_known(back.take(k), registry);
    let whole = front + back;
    assert(whole[front.len() + k] == name);
    assert(whole.take(front.len() + k) =~= front + back.take(k));
    lemma_all_known_concat(front, back.take(k), registry);
}

} // verus!
