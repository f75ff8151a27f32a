use llamasay::characters::{bunny, cow, dragon, ferris, generate_character};

#[test]
fn generate_character_defaults_to_ferris() {
    let ferris = generate_character("ferris");
    let fallback = generate_character("unknown");

    assert_eq!(fallback, ferris);
}

#[test]
fn lookup_is_total() {
    assert_eq!(generate_character(""), generate_character("ferris"));
    assert_eq!(
        generate_character("anything-unrecognized"),
        generate_character("ferris")
    );
}

#[test]
fn each_name_maps_to_its_art() {
    assert_eq!(generate_character("ferris"), ferris());
    assert_eq!(generate_character("cow"), cow());
    assert_eq!(generate_character("dragon"), dragon());
    assert_eq!(generate_character("bunny"), bunny());
}

#[test]
fn supported_characters_are_distinct() {
    assert_ne!(cow(), ferris());
    assert_ne!(dragon(), ferris());
    assert_ne!(bunny(), ferris());
    assert_ne!(cow(), dragon());
    assert!(cow().contains("(oo)"));
    assert!(ferris().contains("_~^~^~_"));
}
