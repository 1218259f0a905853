use localbill::invoice::mapper::{compact_date, slugify};

#[test]
fn slugify_basic() {
    assert_eq!(slugify("Mlijeko 3.2% masti"), "mlijeko-3-2-masti");
    assert_eq!(slugify("  -- leading --  "), "leading");
}

#[test]
fn compact_date_format() {
    assert_eq!(compact_date("2024-03-15T14:30:00"), "20240315T143000");
}

#[test]
fn slug_and_compact_date_are_idempotent() {
    let s = slugify("Mleko 3,2% Imlek");
    assert_eq!(slugify(&s), s);
    let d = compact_date("2024-03-15T14:30:00");
    assert_eq!(compact_date(&d), d);
}
