//! The index: every type with its outbound lists and, inverted from the whole
//! dataset, its inbound lists.

use crate::dataset::{
    check_integrity, first_unresolved, names_of, resolved, all_known, DataIntegrityError,
    PokemonTypeSerialized, Record, Relation,
};
use crate::registry::PokemonTypeNameRegistry;
use crate::text::same_text;
use vstd::prelude::*;

verus! {

/// One type of the index. Every name in it is a handle into the registry the
/// index was built with.
#[derive(Debug)]
pub struct PokemonType<'a> {
    pub name: &'a str,
    pub attack_effective: Vec<&'a str>,
    pub attack_not_effective: Vec<&'a str>,
    pub attack_no_effect: Vec<&'a str>,
    pub defense_effective: Vec<&'a str>,
    pub defense_not_effective: Vec<&'a str>,
    pub defense_no_effect: Vec<&'a str>,
}

/// What an indexed type says, as plain text.
pub struct Entry {
    pub name: Seq<char>,
    pub attack_effective: Seq<Seq<char>>,
    pub attack_not_effective: Seq<Seq<char>>,
    pub attack_no_effect: Seq<Seq<char>>,
    pub defense_effective: Seq<Seq<char>>,
    pub defense_not_effective: Seq<Seq<char>>,
    pub defense_no_effect: Seq<Seq<char>>,
}

impl Entry {
    /// The outbound list of one relation: whom this type attacks that way.
    pub open spec fn attack(self, relation: Relation) -> Seq<Seq<char>> {
        match relation {
            Relation::Effective => self.attack_effective,
            Relation::NotEffective => self.attack_not_effective,
            Relation::NoEffect => self.attack_no_effect,
        }
    }

    /// The inbound list of one relation: who attacks this type that way.
    pub open spec fn defense(self, relation: Relation) -> Seq<Seq<char>> {
        match relation {
            Relation::Effective => self.defense_effective,
            Relation::NotEffective => self.defense_not_effective,
            Relation::NoEffect => self.defense_no_effect,
        }
    }
}

impl<'a> View for PokemonType<'a> {
    type V = Entry;

    open spec fn view(&self) -> Entry {
        Entry {
            name: self.name@,
            attack_effective: self.attack_effective.deep_view(),
            attack_not_effective: self.attack_not_effective.deep_view(),
            attack_no_effect: self.attack_no_effect.deep_view(),
            defense_effective: self.defense_effective.deep_view(),
            defense_not_effective: self.defense_not_effective.deep_view(),
            defense_no_effect: self.defense_no_effect.deep_view(),
        }
    }
}

impl<'a> DeepView for PokemonType<'a> {
    type V = Entry;

    open spec fn deep_view(&self) -> Entry {
        self@
    }
}

/// The test "this record lists `name` under `relation`".
pub open spec fn lists(name: Seq<char>, relation: Relation) -> spec_fn(Record) -> bool {
    |record: Record| record.outbound(relation).contains(name)
}

/// The inbound list of `name` for one relation: the names of the records that
/// list it, in dataset order.
pub open spec fn inbound(dataset: Seq<Record>, name: Seq<char>, relation: Relation) -> Seq<
    Seq<char>,
> {
    names_of(dataset.filter(lists(name, relation)))
}

/// The indexed form of record `i`: its own lists kept as they are, and the
/// inbound lists of its name.
pub open spec fn entry_of(dataset: Seq<Record>, i: int) -> Entry {
    let record = dataset[i];
    Entry {
        name: record.name,
        attack_effective: record.effective,
        attack_not_effective: record.not_effective,
        attack_no_effect: record.no_effect,
        defense_effective: inbound(dataset, record.name, Relation::Effective),
        defense_not_effective: inbound(dataset, record.name, Relation::NotEffective),
        defense_no_effect: inbound(dataset, record.name, Relation::NoEffect),
    }
}

/// The index of a dataset: one entry per record, in dataset order.
pub open spec fn indexed(dataset: Seq<Record>) -> Seq<Entry> {
    Seq::new(dataset.len(), |i: int| entry_of(dataset, i))
}

/// Taking one more record into account either appends its name to the inbound
/// list or leaves the list as it is.
pub proof fn lemma_inbound_step(
    dataset: Seq<Record>,
    name: Seq<char>,
    relation: Relation,
    n: int,
)
    requires
        0 <= n < dataset.len(),
    ensures
        inbound(dataset.take(n + 1), name, relation) == if dataset[n].outbound(relation).contains(
            name,
        ) {
            inbound(dataset.take(n), name, relation).push(dataset[n].name)
        } else {
            inbound(dataset.take(n), name, relation)
        },
{
    reveal(Seq::filter);
    let test = lists(name, relation);
    let longer = dataset.take(n + 1);
    let shorter = dataset.take(n);
    assert(longer.drop_last() =~= shorter);
    assert(longer.last() == dataset[n]);
    if test(dataset[n]) {
        assert(names_of(shorter.filter(test).push(dataset[n])) =~= names_of(
            shorter.filter(test),
        ).push(dataset[n].name));
    }
}

/// Among no records, nothing lists the name.
pub proof fn lemma_inbound_none(dataset: Seq<Record>, name: Seq<char>, relation: Relation)
    ensures
        inbound(dataset.take(0), name, relation) == Seq::<Seq<char>>::empty(),
{
    reveal(Seq::filter);
    assert(names_of(dataset.take(0).filter(lists(name, relation))) =~= Seq::<Seq<char>>::empty());
}

/// Whether `list` holds `name`.
fn mentions(list: &Vec<String>, name: &str) -> (found: bool)
    ensures
        found == list.deep_view().contains(name@),
{
    let mut k: usize = 0;
    while k < list.len()
        invariant
            k <= list.len(),
            forall|j: int| 0 <= j < k ==> list.deep_view()[j] != name@,
        decreases list.len() - k,
    {
        if same_text(list[k].as_str(), name) {
            assert(list.deep_view()[k as int] == name@);
            return true;
        }
        k += 1;
    }
    false
}

/// The handles of the names of `list`, in the same order.
fn references<'a>(list: &Vec<String>, registry: &'a PokemonTypeNameRegistry) -> (handles: Vec<
    &'a str,
>)
    requires
        all_known(list.deep_view(), registry@),
    ensures
        handles.deep_view() == list.deep_view(),
{
    let mut handles: Vec<&'a str> = Vec::with_capacity(list.len());
    let mut k: usize = 0;
    while k < list.len()
        invariant
            k <= list.len(),
            handles.len() == k,
            all_known(list.deep_view(), registry@),
            forall|j: int| 0 <= j < k ==> (#[trigger] handles[j])@ == list[j]@,
        decreases list.len() - k,
    {
        assert(list.deep_view()[k as int] == list[k as int]@);
        handles.push(registry.reference(&list[k]));
        k += 1;
    }
    assert(handles.deep_view() =~= list.deep_view());
    handles
}

/// The indexed form of record `i`. Its three inbound lists come from one scan
/// of the whole dataset, record `i` itself included.
fn entry<'a>(
    raw: &Vec<PokemonTypeSerialized>,
    registry: &'a PokemonTypeNameRegistry,
    i: usize,
) -> (indexed_type: PokemonType<'a>)
    requires
        i < raw.len(),
        resolved(raw.deep_view(), registry@),
    ensures
        indexed_type@ == entry_of(raw.deep_view(), i as int),
{
    let ghost dataset = raw.deep_view();
    let record = &raw[i];
    proof {
        assert(dataset[i as int] == record@);
        lemma_known_parts(record@, registry@);
    }
    let name = registry.reference(&record.name);
    let attack_effective = references(&record.effective, registry);
    let attack_not_effective = references(&record.not_effective, registry);
    let attack_no_effect = references(&record.no_effect, registry);

    let mut defense_effective: Vec<&'a str> = Vec::new();
    let mut defense_not_effective: Vec<&'a str> = Vec::new();
    let mut defense_no_effect: Vec<&'a str> = Vec::new();

    proof {
        lemma_inbound_none(dataset, name@, Relation::Effective);
        lemma_inbound_none(dataset, name@, Relation::NotEffective);
        lemma_inbound_none(dataset, name@, Relation::NoEffect);
    }
    let mut j: usize = 0;
    while j < raw.len()
        invariant
            j <= raw.len(),
            i < raw.len(),
            dataset == raw.deep_view(),
            resolved(dataset, registry@),
            defense_effective.deep_view() == inbound(
                dataset.take(j as int),
                name@,
                Relation::Effective,
            ),
            defense_not_effective.deep_view() == inbound(
                dataset.take(j as int),
                name@,
                Relation::NotEffective,
            ),
            defense_no_effect.deep_view() == inbound(
                dataset.take(j as int),
                name@,
                Relation::NoEffect,
            ),
        decreases raw.len() - j,
    {
        let other = &raw[j];
        let ghost effective_before = defense_effective.deep_view();
        let ghost not_effective_before = defense_not_effective.deep_view();
        let ghost no_effect_before = defense_no_effect.deep_view();
        proof {
            assert(dataset[j as int] == other@);
            lemma_known_parts(other@, registry@);
            lemma_inbound_step(dataset, name@, Relation::Effective, j as int);
            lemma_inbound_step(dataset, name@, Relation::NotEffective, j as int);
            lemma_inbound_step(dataset, name@, Relation::NoEffect, j as int);
        }
        if mentions(&other.effective, name) {
            defense_effective.push(registry.reference(&other.name));
            assert(defense_effective.deep_view() =~= effective_before.push(other.name@));
        }
        if mentions(&other.not_effective, name) {
            defense_not_effective.push(registry.reference(&other.name));
            assert(defense_not_effective.deep_view() =~= not_effective_before.push(other.name@));
        }
        if mentions(&other.no_effect, name) {
            defense_no_effect.push(registry.reference(&other.name));
            assert(defense_no_effect.deep_view() =~= no_effect_before.push(other.name@));
        }
        j += 1;
    }
    assert(dataset.take(raw.len() as int) =~= dataset);
    PokemonType {
        name,
        attack_effective,
        attack_not_effective,
        attack_no_effect,
        defense_effective,
        defense_not_effective,
        defense_no_effect,
    }
}

/// Where every mention of a record is known, so are its name and each of its
/// three lists.
proof fn lemma_known_parts(record: Record, registry: Set<Seq<char>>)
    requires
        all_known(record.mentions(), registry),
    ensures
        registry.contains(record.name),
        all_known(record.effective, registry),
        all_known(record.not_effective, registry),
        all_known(record.no_effect, registry),
{
    let every = record.mentions();
    let a = record.effective.len();
    let b = record.not_effective.len();
    assert(every[0] == record.name);
    assert forall|k: int| 0 <= k < record.effective.len() implies registry.contains(
        #[trigger] record.effective[k],
    ) by {
        assert(every[1 + k] == record.effective[k]);
    }
    assert forall|k: int| 0 <= k < record.not_effective.len() implies registry.contains(
        #[trigger] record.not_effective[k],
    ) by {
        assert(every[1 + a + k] == record.not_effective[k]);
    }
    assert forall|k: int| 0 <= k < record.no_effect.len() implies registry.contains(
        #[trigger] record.no_effect[k],
    ) by {
        assert(every[1 + a + b + k] == record.no_effect[k]);
    }
}

/// Builds the index of a dataset. Every name of the result is a handle from
/// `registry`.
///
/// The dataset must be whole: where a record mentions a name that is not
/// registered, nothing is built, and the error names the first such name in
/// reading order. Otherwise the result has one entry per record, in dataset
/// order; each keeps the record's three lists as they are and adds, for each
/// relation, the names of the records that list it, in dataset order. A record
/// that lists itself appears in its own inbound list.
pub fn index<'a>(
    raw: &Vec<PokemonTypeSerialized>,
    registry: &'a PokemonTypeNameRegistry,
) -> (result: Result<Vec<PokemonType<'a>>, DataIntegrityError>)
    ensures
        result is Ok <==> resolved(raw.deep_view(), registry@),
        result matches Ok(types) ==> types.deep_view() == indexed(raw.deep_view()),
        result matches Err(e) ==> first_unresolved(raw.deep_view(), registry@, e.name@),
{
    match check_integrity(raw, registry) {
        Err(e) => {
            return Err(e);
        },
        Ok(_) => {},
    }
    let mut types: Vec<PokemonType<'a>> = Vec::with_capacity(raw.len());
    let mut i: usize = 0;
    while i < raw.len()
        invariant
            i <= raw.len(),
            types.len() == i,
            resolved(raw.deep_view(), registry@),
            forall|k: int| 0 <= k < i ==> (#[trigger] types[k])@ == entry_of(raw.deep_view(), k),
        decreases raw.len() - i,
    {
        types.push(entry(raw, registry, i));
        i += 1;
    }
    assert(types.deep_view() =~= indexed(raw.deep_view()));
    Ok(types)
}

} // verus!
