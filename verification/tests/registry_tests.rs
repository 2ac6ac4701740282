use pokemon_types::registry::PokemonTypeNameRegistry;

fn owned(list: &[&str]) -> Vec<String> {
    list.iter().map(|n| n.to_string()).collect()
}

#[test]
fn a_registered_name_resolves_to_itself() {
    let registry = PokemonTypeNameRegistry::build(&owned(&["Fire", "Water", "Grass"]));
    assert_eq!(registry.reference(&"Fire".to_string()), "Fire");
    assert_eq!(registry.reference(&"Water".to_string()), "Water");
    assert_eq!(registry.reference(&"Grass".to_string()), "Grass");
}

#[test]
fn equal_names_share_one_handle() {
    let registry = PokemonTypeNameRegistry::build(&owned(&["Fire", "Water", "Fire"]));
    let first_name = "Fire".to_string();
    let second_name = String::from("Fi") + "re";
    let first = registry.reference(&first_name);
    let second = registry.reference(&second_name);
    assert_eq!(first, second);
    assert!(std::ptr::eq(first, second));
    assert!(!std::ptr::eq(first, first_name.as_str()));
    assert!(!std::ptr::eq(first, registry.reference(&"Water".to_string())));
}

#[test]
fn only_registered_names_are_contained() {
    let registry = PokemonTypeNameRegistry::build(&owned(&["Fire", "Water"]));
    assert!(registry.contains("Fire"));
    assert!(registry.contains("Water"));
    assert!(!registry.contains("Grass"));
    assert!(!registry.contains("fire"));
    assert!(!registry.contains(""));
}

#[test]
fn an_empty_registry_contains_nothing() {
    let registry = PokemonTypeNameRegistry::build(&Vec::new());
    assert!(!registry.contains("Fire"));
    assert!(!registry.contains(""));
}
