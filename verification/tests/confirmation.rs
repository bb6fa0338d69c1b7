use moondisk::security::confirmation::{expected_phrase, phrase_matches};

#[test]
fn accepts_exact_phrase() {
    assert!(phrase_matches("LÖSCHEN", "de"));
    assert!(phrase_matches("DELETE", "en"));
}

#[test]
fn accepts_decomposed_umlaut() {
    let decomposed = "L\u{4F}\u{308}SCHEN";
    assert!(phrase_matches(decomposed, "de"));
}

#[test]
fn trims_surrounding_whitespace() {
    assert!(phrase_matches("  LÖSCHEN  ", "de"));
}

#[test]
fn rejects_wrong_phrase() {
    assert!(!phrase_matches("LOESCHEN", "de"));
    assert!(!phrase_matches("delete", "en"));
}

#[test]
fn language_selects_the_right_expected_phrase() {
    assert!(!phrase_matches("DELETE", "de"));
    assert!(!phrase_matches("LÖSCHEN", "en"));
}

#[test]
fn any_language_but_english_expects_german() {
    assert_eq!(expected_phrase("en"), "DELETE");
    assert_eq!(expected_phrase("de"), "LÖSCHEN");
    assert_eq!(expected_phrase("fr"), "LÖSCHEN");
    assert!(phrase_matches("\tLÖSCHEN\n", "it"));
}
