use medoxido::validation::is_valid;

#[test]
fn accepts_plain_medication_name() {
    assert!(is_valid("ibuprofen"));
}

#[test]
fn accepts_mixed_case_and_digits() {
    assert!(is_valid("Tylenol 500"));
    assert!(is_valid("B12"));
    assert!(is_valid("co-trimoxazol"));
}

#[test]
fn accepts_allowed_emoji() {
    assert!(is_valid("med\u{1F48A}"));
}

#[test]
fn accepts_boundary_lengths() {
    assert!(is_valid("abc"));
    assert!(is_valid("abcdefghijklmn"));
}

#[test]
fn rejects_too_short() {
    assert!(!is_valid(""));
    assert!(!is_valid("ab"));
}

#[test]
fn rejects_too_long() {
    assert!(!is_valid("abcdefghijklmno"));
    assert!(!is_valid("a very long medication name"));
}

#[test]
fn rejects_server_substring_case_insensitive() {
    assert!(!is_valid("MyServerMed"));
    assert!(!is_valid("SERVERx"));
    assert!(!is_valid("xserver"));
}

#[test]
fn rejects_profanity() {
    assert!(!is_valid("fuck"));
    assert!(!is_valid("Shit"));
    assert!(!is_valid("xShItx"));
}

#[test]
fn rejects_disallowed_characters() {
    assert!(!is_valid("med!x"));
    assert!(!is_valid("a;bc"));
    assert!(!is_valid("tab\tmed"));
}
