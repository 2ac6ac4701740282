use pokemon_types::text::{same_text, selection};

#[test]
fn a_typed_line_loses_the_white_space_around_it() {
    assert_eq!(selection("Water\n"), "Water");
    assert_eq!(selection("  Water \r\n"), "Water");
    assert_eq!(selection("\t Fire"), "Fire");
    assert_eq!(selection("Grass"), "Grass");
}

#[test]
fn white_space_inside_a_name_stays() {
    assert_eq!(selection("  Mr  Mime \n"), "Mr  Mime");
}

#[test]
fn a_blank_line_selects_the_empty_name() {
    assert_eq!(selection(""), "");
    assert_eq!(selection("\n"), "");
    assert_eq!(selection(" \t \r\n"), "");
}

#[test]
fn white_space_beyond_ascii_is_trimmed_too() {
    assert_eq!(selection("\u{a0}\u{3000}Fée\u{2003}\u{2028}"), "Fée");
    assert_eq!(selection("\u{3000}炎 水\u{3000}\n"), "炎 水");
}

#[test]
fn a_line_is_trimmed_as_the_standard_library_trims() {
    for line in ["Water\n", "  a b  ", "", " \n", "\u{85}x\u{1680}", "x\u{200b}", "\u{feff}y "] {
        assert_eq!(selection(line), line.trim());
    }
}

#[test]
fn equal_text_is_the_same() {
    assert!(same_text("Fire", "Fire"));
    assert!(same_text("", ""));
    assert!(same_text("Fée", "F\u{e9}e"));
}

#[test]
fn different_text_is_not_the_same() {
    assert!(!same_text("Fire", "fire"));
    assert!(!same_text("Fire", "Fire "));
    assert!(!same_text("Fire", "Fir"));
    assert!(!same_text("", "x"));
    assert!(!same_text("Fée", "Fe\u{301}e"));
    assert!(!same_text("炎", "水"));
}
