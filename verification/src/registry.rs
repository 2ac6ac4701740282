//! The name registry: one stored copy of every type name.

use vstd::hash_set::StringHashSet;
use vstd::prelude::*;

verus! {

/// Stores each type name once. Everything else refers to a name through a
/// handle borrowed from here, so a registry is filled completely by [`build`]
/// before the first handle is taken and never changes afterwards.
///
/// [`build`]: PokemonTypeNameRegistry::build
pub struct PokemonTypeNameRegistry {
    registry: StringHashSet,
}

impl View for PokemonTypeNameRegistry {
    type V = Set<Seq<char>>;

    /// The set of names that are registered.
    closed spec fn view(&self) -> Set<Seq<char>> {
        self.registry@
    }
}

impl PokemonTypeNameRegistry {
    /// `handle` is what the registry answers when asked for `name`: the name
    /// is registered, and the handle spells exactly that name.
    pub open spec fn resolves(&self, name: Seq<char>, handle: Seq<char>) -> bool {
        self@.contains(name) && handle == name
    }

    /// Registers every name of `names`. A name that occurs several times is
    /// stored once.
    pub fn build(names: &Vec<String>) -> (registry: Self)
        ensures
            registry@ == names.deep_view().to_set(),
    {
        let mut set = StringHashSet::with_capacity(names.len());
        let mut i: usize = 0;
        while i < names.len()
            invariant
                i <= names.len(),
                set@ == names.deep_view().take(i as int).to_set(),
            decreases names.len() - i,
        {
            let ghost before = names.deep_view().take(i as int);
            let ghost after = names.deep_view().take(i + 1);
            set.insert(names[i].clone());
            proof {
                assert(after =~= before.push(names[i as int]@));
                assert(after.to_set() =~= before.to_set().insert(names[i as int]@)) by {
                    assert forall|n: Seq<char>| after.contains(n) implies before.contains(n) || n
                        == names[i as int]@ by {
                        let k = choose|k: int| 0 <= k < after.len() && after[k] == n;
                        if k < i {
                            assert(before[k] == n);
                        }
                    }
                    assert forall|n: Seq<char>| before.contains(n) implies after.contains(n) by {
                        let k = choose|k: int| 0 <= k < before.len() && before[k] == n;
                        assert(after[k] == n);
                    }
                    assert(after[i as int] == names[i as int]@);
                }
            }
            i += 1;
        }
        assert(names.deep_view().take(names.len() as int) =~= names.deep_view());
        PokemonTypeNameRegistry { registry: set }
    }

    /// Whether `name` is registered.
    pub fn contains(&self, name: &str) -> (present: bool)
        ensures
            present == self@.contains(name@),
    {
        self.registry.contains(name)
    }

    /// The handle of a registered name: a reference to the registry's own copy
    /// of it.
    pub fn reference(&self, pokemon_type: &String) -> (handle: &str)
        requires
            self@.contains(pokemon_type@),
        ensures
            self.resolves(pokemon_type@, handle@),
    {
        self.registry.get(pokemon_type.as_str()).unwrap().as_str()
    }
}

} // verus!
