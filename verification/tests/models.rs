use hew::models::{Affix, Condition};

fn affix(condition: Condition) -> Affix {
    Affix {
        condition,
        prefix: Some("<".to_owned()),
        suffix: Some(">".to_owned()),
    }
}

#[test]
fn always_applies_to_anything() {
    let affix = affix(Condition::Always);
    assert!(affix.applies_to("INFO"));
    assert!(affix.applies_to(""));
    assert!(affix.applies_to("  \n  "));
}

#[test]
fn equals_matches_only_the_exact_string() {
    let affix = affix(Condition::Equals("INFO".to_owned()));
    assert!(affix.applies_to("INFO"));
    assert!(
        !affix.applies_to("INFORMATION"),
        "must not match a longer string"
    );
    assert!(!affix.applies_to("INF"), "must not match a prefix");
    assert!(!affix.applies_to(""));
}

#[test]
fn equals_is_case_sensitive() {
    let affix = affix(Condition::Equals("INFO".to_owned()));
    assert!(!affix.applies_to("info"));
    assert!(!affix.applies_to("Info"));
}

#[test]
fn contains_matches_a_substring_anywhere() {
    let affix = affix(Condition::Contains("err".to_owned()));
    assert!(affix.applies_to("err"));
    assert!(affix.applies_to("stderr"));
    assert!(affix.applies_to("errno 2"));
    assert!(!affix.applies_to("ERR"), "must be case sensitive");
    assert!(!affix.applies_to("warning"));
}

#[test]
fn contains_with_an_empty_needle_matches_everything() {
    let affix = affix(Condition::Contains(String::new()));
    assert!(affix.applies_to("anything"));
    assert!(affix.applies_to(""));
}

#[test]
fn regex_matches_by_pattern() {
    let affix = affix(Condition::Regex("^(ERROR|WARN)$".to_owned()));
    assert!(affix.applies_to("ERROR"));
    assert!(affix.applies_to("WARN"));
    assert!(!affix.applies_to("WARNING"), "anchors must hold");
    assert!(!affix.applies_to("error"));
}

#[test]
fn contains_a_needle_longer_than_the_value_never_matches() {
    let affix = affix(Condition::Contains("errors".to_owned()));
    assert!(!affix.applies_to("err"));
    assert!(!affix.applies_to(""));
}

#[test]
fn contains_works_on_characters_beyond_ascii() {
    let affix = affix(Condition::Contains("風".to_owned()));
    assert!(affix.applies_to("黑風雷"));
    assert!(!affix.applies_to("黑雷"));
}

#[test]
fn contains_finds_the_needle_at_the_very_end() {
    let affix = affix(Condition::Contains("end".to_owned()));
    assert!(affix.applies_to("the end"));
    assert!(!affix.applies_to("the en"));
}

#[test]
fn equals_the_empty_string_matches_only_the_empty_value() {
    let affix = affix(Condition::Equals(String::new()));
    assert!(affix.applies_to(""));
    assert!(!affix.applies_to(" "));
}

#[test]
fn regex_is_unanchored_unless_anchored() {
    let affix = affix(Condition::Regex("(?i)69".to_owned()));
    assert!(affix.applies_to("user 69 requested a refund"));
    assert!(!affix.applies_to("cache miss"));
}

#[test]
fn a_regex_that_does_not_compile_matches_nothing() {
    let affix = affix(Condition::Regex("(".to_owned()));
    assert!(!affix.applies_to("("));
    assert!(!affix.applies_to(""));
}

#[test]
fn conditions_are_equal_when_kind_and_text_agree() {
    assert_eq!(Condition::Always, Condition::Always);
    assert_eq!(
        Condition::Equals("INFO".to_owned()),
        Condition::Equals("INFO".to_owned())
    );
    assert_ne!(
        Condition::Equals("INFO".to_owned()),
        Condition::Contains("INFO".to_owned())
    );
    assert_ne!(
        Condition::Regex("^a".to_owned()),
        Condition::Regex("^b".to_owned())
    );
    assert_eq!(
        Condition::Regex("^a".to_owned()),
        Condition::Regex("^a".to_owned())
    );
    assert_ne!(Condition::Always, Condition::Equals(String::new()));
}
