use localbill::sanitize::cyrillic_to_latin;

#[test]
fn basic_transliteration() {
    assert_eq!(cyrillic_to_latin("Хлеб"), "Hleb");
    assert_eq!(cyrillic_to_latin("МЛЕКО"), "MLEKO");
    assert_eq!(cyrillic_to_latin("шећер"), "šećer");
}

#[test]
fn multi_char_outputs() {
    assert_eq!(cyrillic_to_latin("Љубав"), "Ljubav");
    assert_eq!(cyrillic_to_latin("Њујорк"), "Njujork");
    assert_eq!(cyrillic_to_latin("Џем"), "Džem");
}

#[test]
fn mixed_scripts_pass_through() {
    assert_eq!(cyrillic_to_latin("ABC 123"), "ABC 123");
    assert_eq!(cyrillic_to_latin("Mleko / Млеко"), "Mleko / Mleko");
}

#[test]
fn empty_string() {
    assert_eq!(cyrillic_to_latin(""), "");
}

#[test]
fn transliteration_is_idempotent_and_keeps_latin() {
    let once = cyrillic_to_latin("Љубљана Њујорк Џеп");
    assert_eq!(cyrillic_to_latin(&once), once);
    assert_eq!(cyrillic_to_latin("Maxi 3.2%"), "Maxi 3.2%");
}
