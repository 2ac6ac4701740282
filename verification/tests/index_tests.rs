use pokemon_types::dataset::{
    check_integrity, type_names, DataIntegrityError, PokemonTypeSerialized,
};
use pokemon_types::index::{index, PokemonType};
use pokemon_types::query::lookup;
use pokemon_types::registry::PokemonTypeNameRegistry;

fn names(list: &[&str]) -> Vec<String> {
    list.iter().map(|n| n.to_string()).collect()
}

fn record(
    name: &str,
    effective: &[&str],
    not_effective: &[&str],
    no_effect: &[&str],
) -> PokemonTypeSerialized {
    PokemonTypeSerialized {
        name: name.to_string(),
        effective: names(effective),
        not_effective: names(not_effective),
        no_effect: names(no_effect),
    }
}

fn starter_chart() -> Vec<PokemonTypeSerialized> {
    vec![
        record("Fire", &["Grass"], &["Water"], &[]),
        record("Water", &["Fire"], &[], &[]),
        record("Grass", &[], &[], &[]),
    ]
}

fn wider_chart() -> Vec<PokemonTypeSerialized> {
    vec![
        record("Normal", &[], &["Rock"], &["Ghost"]),
        record("Ghost", &["Ghost", "Psychic"], &["Dark"], &["Normal"]),
        record("Psychic", &["Fighting"], &["Psychic"], &["Dark"]),
        record("Dark", &["Ghost", "Psychic"], &["Dark", "Fighting"], &[]),
        record("Fighting", &["Normal", "Rock", "Dark"], &["Psychic"], &["Ghost"]),
        record("Rock", &[], &["Fighting"], &[]),
    ]
}

fn attack<'a, 'b>(t: &'b PokemonType<'a>, relation: usize) -> &'b Vec<&'a str> {
    match relation {
        0 => &t.attack_effective,
        1 => &t.attack_not_effective,
        _ => &t.attack_no_effect,
    }
}

fn defense<'a, 'b>(t: &'b PokemonType<'a>, relation: usize) -> &'b Vec<&'a str> {
    match relation {
        0 => &t.defense_effective,
        1 => &t.defense_not_effective,
        _ => &t.defense_no_effect,
    }
}

fn outbound(r: &PokemonTypeSerialized, relation: usize) -> &Vec<String> {
    match relation {
        0 => &r.effective,
        1 => &r.not_effective,
        _ => &r.no_effect,
    }
}

#[test]
fn starter_chart_is_indexed_as_described() {
    let raw = starter_chart();
    let registry = PokemonTypeNameRegistry::build(&type_names(&raw));
    let types = index(&raw, &registry).unwrap();
    assert_eq!(types.len(), 3);

    let fire = &types[0];
    assert_eq!(fire.name, "Fire");
    assert_eq!(fire.attack_effective, vec!["Grass"]);
    assert_eq!(fire.attack_not_effective, vec!["Water"]);
    assert!(fire.attack_no_effect.is_empty());
    assert_eq!(fire.defense_effective, vec!["Water"]);
    assert!(fire.defense_not_effective.is_empty());
    assert!(fire.defense_no_effect.is_empty());

    let water = &types[1];
    assert_eq!(water.name, "Water");
    assert_eq!(water.attack_effective, vec!["Fire"]);
    assert!(water.attack_not_effective.is_empty());
    assert!(water.attack_no_effect.is_empty());
    assert!(water.defense_effective.is_empty());
    assert_eq!(water.defense_not_effective, vec!["Fire"]);
    assert!(water.defense_no_effect.is_empty());

    let grass = &types[2];
    assert_eq!(grass.name, "Grass");
    assert!(grass.attack_effective.is_empty());
    assert_eq!(grass.defense_effective, vec!["Fire"]);
    assert!(grass.defense_not_effective.is_empty());
    assert!(grass.defense_no_effect.is_empty());
}

#[test]
fn querying_the_starter_chart() {
    let raw = starter_chart();
    let registry = PokemonTypeNameRegistry::build(&type_names(&raw));
    let types = index(&raw, &registry).unwrap();
    assert_eq!(lookup(&types, "Water"), vec![1]);
    assert_eq!(lookup(&types, "Electric"), Vec::<usize>::new());
}

#[test]
fn outbound_and_inbound_lists_agree() {
    let raw = wider_chart();
    let registry = PokemonTypeNameRegistry::build(&type_names(&raw));
    let types = index(&raw, &registry).unwrap();
    for a in types.iter() {
        for b in types.iter() {
            for relation in 0..3 {
                assert_eq!(
                    attack(a, relation).contains(&b.name),
                    defense(b, relation).contains(&a.name),
                    "{} and {} under relation {}",
                    a.name,
                    b.name,
                    relation
                );
            }
        }
    }
}

#[test]
fn outbound_lists_keep_their_order() {
    let raw = wider_chart();
    let registry = PokemonTypeNameRegistry::build(&type_names(&raw));
    let types = index(&raw, &registry).unwrap();
    assert_eq!(types.len(), raw.len());
    for (t, r) in types.iter().zip(raw.iter()) {
        assert_eq!(t.name, r.name);
        for relation in 0..3 {
            let kept: Vec<String> = attack(t, relation).iter().map(|n| n.to_string()).collect();
            assert_eq!(&kept, outbound(r, relation));
        }
    }
    assert_eq!(types[4].attack_effective, vec!["Normal", "Rock", "Dark"]);
}

#[test]
fn inbound_lists_follow_dataset_order() {
    let raw = wider_chart();
    let registry = PokemonTypeNameRegistry::build(&type_names(&raw));
    let types = index(&raw, &registry).unwrap();
    // Ghost is listed as effective by Ghost (record 1) and Dark (record 3).
    assert_eq!(types[1].defense_effective, vec!["Ghost", "Dark"]);
    // Psychic: by Ghost (1) and Dark (3); not alphabetical.
    assert_eq!(types[2].defense_effective, vec!["Ghost", "Dark"]);
    assert_eq!(types[2].defense_not_effective, vec!["Psychic", "Fighting"]);
    // Dark: effective by Fighting; not effective by Ghost, Dark; no effect by Psychic.
    assert_eq!(types[3].defense_effective, vec!["Fighting"]);
    assert_eq!(types[3].defense_not_effective, vec!["Ghost", "Dark"]);
    assert_eq!(types[3].defense_no_effect, vec!["Psychic"]);
    // Ghost has no effect from Normal (0) and Fighting (4).
    assert_eq!(types[1].defense_no_effect, vec!["Normal", "Fighting"]);
    assert_eq!(types[0].defense_effective, vec!["Fighting"]);
    assert_eq!(types[0].defense_no_effect, vec!["Ghost"]);
    assert_eq!(types[5].defense_effective, vec!["Fighting"]);
    assert_eq!(types[5].defense_not_effective, vec!["Normal"]);
}

#[test]
fn indexing_twice_gives_the_same_index() {
    let raw = wider_chart();
    let first_registry = PokemonTypeNameRegistry::build(&type_names(&raw));
    let second_registry = PokemonTypeNameRegistry::build(&type_names(&raw));
    let first = index(&raw, &first_registry).unwrap();
    let second = index(&raw, &second_registry).unwrap();
    assert_eq!(format!("{:?}", first), format!("{:?}", second));
    for (a, b) in first.iter().zip(second.iter()) {
        assert_eq!(a.defense_effective, b.defense_effective);
        assert_eq!(a.defense_not_effective, b.defense_not_effective);
        assert_eq!(a.defense_no_effect, b.defense_no_effect);
    }
}

#[test]
fn a_type_that_lists_itself_is_on_its_own_inbound_list() {
    let raw = vec![
        record("Dragon", &["Dragon"], &["Steel"], &[]),
        record("Steel", &[], &["Steel"], &["Steel"]),
    ];
    let registry = PokemonTypeNameRegistry::build(&type_names(&raw));
    let types = index(&raw, &registry).unwrap();
    assert_eq!(types[0].defense_effective, vec!["Dragon"]);
    assert!(types[0].defense_not_effective.is_empty());
    assert_eq!(types[1].defense_not_effective, vec!["Dragon", "Steel"]);
    assert_eq!(types[1].defense_no_effect, vec!["Steel"]);
}

#[test]
fn a_name_listed_twice_counts_once_inbound() {
    let raw = vec![record("Ice", &["Bug", "Bug"], &[], &[]), record("Bug", &[], &[], &[])];
    let registry = PokemonTypeNameRegistry::build(&type_names(&raw));
    let types = index(&raw, &registry).unwrap();
    assert_eq!(types[0].attack_effective, vec!["Bug", "Bug"]);
    assert_eq!(types[1].defense_effective, vec!["Ice"]);
}

#[test]
fn an_empty_dataset_has_an_empty_index() {
    let raw: Vec<PokemonTypeSerialized> = Vec::new();
    let registry = PokemonTypeNameRegistry::build(&type_names(&raw));
    let types = index(&raw, &registry).unwrap();
    assert!(types.is_empty());
    assert!(lookup(&types, "Fire").is_empty());
    assert!(lookup(&types, "").is_empty());
}

#[test]
fn a_dangling_name_is_a_data_integrity_error() {
    let raw = vec![
        record("Fire", &["Grass"], &["Water"], &[]),
        record("Water", &["Fire"], &[], &[]),
    ];
    let registry = PokemonTypeNameRegistry::build(&type_names(&raw));
    let error: DataIntegrityError = index(&raw, &registry).unwrap_err();
    assert_eq!(error.name, "Grass");
    assert_eq!(check_integrity(&raw, &registry).unwrap_err().name, "Grass");
}

#[test]
fn the_first_dangling_name_in_reading_order_is_reported() {
    let raw = vec![
        record("Fire", &["Water"], &["Water", "Rock"], &["Ice"]),
        record("Water", &["Steel"], &[], &[]),
    ];
    let registry = PokemonTypeNameRegistry::build(&type_names(&raw));
    assert_eq!(index(&raw, &registry).unwrap_err().name, "Rock");

    let raw = vec![
        record("Fire", &["Water"], &["Water"], &["Ice", "Rock"]),
        record("Water", &["Steel"], &[], &[]),
    ];
    let registry = PokemonTypeNameRegistry::build(&type_names(&raw));
    assert_eq!(index(&raw, &registry).unwrap_err().name, "Ice");

    let raw = vec![
        record("Fire", &["Water"], &["Water"], &[]),
        record("Water", &["Steel", "Ice"], &["Rock"], &[]),
    ];
    let registry = PokemonTypeNameRegistry::build(&type_names(&raw));
    assert_eq!(index(&raw, &registry).unwrap_err().name, "Steel");
}

#[test]
fn a_record_whose_own_name_is_not_registered_is_reported() {
    let raw = starter_chart();
    let registry = PokemonTypeNameRegistry::build(&names(&["Fire", "Grass"]));
    // Fire mentions Fire, Grass, then Water.
    assert_eq!(index(&raw, &registry).unwrap_err().name, "Water");
    let registry = PokemonTypeNameRegistry::build(&names(&["Water", "Grass"]));
    assert_eq!(index(&raw, &registry).unwrap_err().name, "Fire");
}

#[test]
fn a_whole_dataset_passes_the_integrity_check() {
    let raw = wider_chart();
    let registry = PokemonTypeNameRegistry::build(&type_names(&raw));
    assert!(check_integrity(&raw, &registry).is_ok());
    let raw = starter_chart();
    let registry = PokemonTypeNameRegistry::build(&type_names(&raw));
    assert!(check_integrity(&raw, &registry).is_ok());
}

#[test]
fn type_names_are_in_dataset_order() {
    assert_eq!(type_names(&starter_chart()), names(&["Fire", "Water", "Grass"]));
    assert_eq!(type_names(&Vec::new()), Vec::<String>::new());
}

#[test]
fn names_are_matched_exactly() {
    let raw = vec![
        record("Fire", &["fire"], &[], &[]),
        record("fire", &[], &["Fire "], &[]),
        record("Fire ", &[], &[], &["Fire"]),
    ];
    let registry = PokemonTypeNameRegistry::build(&type_names(&raw));
    let types = index(&raw, &registry).unwrap();
    assert!(types[0].defense_effective.is_empty());
    assert_eq!(types[0].defense_no_effect, vec!["Fire "]);
    assert_eq!(types[1].defense_effective, vec!["Fire"]);
    assert_eq!(types[2].defense_not_effective, vec!["fire"]);
    assert_eq!(lookup(&types, "fire"), vec![1]);
    assert_eq!(lookup(&types, "Fire "), vec![2]);
    assert_eq!(lookup(&types, "FIRE"), Vec::<usize>::new());
}

#[test]
fn records_that_share_a_name_are_all_found() {
    let raw = vec![
        record("Fairy", &["Dragon"], &[], &[]),
        record("Dragon", &[], &[], &[]),
        record("Fairy", &[], &[], &[]),
    ];
    let registry = PokemonTypeNameRegistry::build(&type_names(&raw));
    let types = index(&raw, &registry).unwrap();
    assert_eq!(lookup(&types, "Fairy"), vec![0, 2]);
    assert_eq!(types[1].defense_effective, vec!["Fairy"]);
    assert!(types[2].attack_effective.is_empty());
}

#[test]
fn an_indexed_type_prints_its_name_and_six_lists() {
    let raw = starter_chart();
    let registry = PokemonTypeNameRegistry::build(&type_names(&raw));
    let types = index(&raw, &registry).unwrap();
    assert_eq!(
        format!("{:?}", types[1]),
        "PokemonType { name: \"Water\", attack_effective: [\"Fire\"], \
         attack_not_effective: [], attack_no_effect: [], defense_effective: [], \
         defense_not_effective: [\"Fire\"], defense_no_effect: [] }"
    );
}
