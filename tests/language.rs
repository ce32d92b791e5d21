use babylonify::language::{parse_language, resolve_language, text_equals, Detector};

#[test]
fn parse_language_aliases_work() {
    // A few canonical and alias forms
    assert_eq!(parse_language("uk").ok().unwrap(), "Ukrainian");
    assert_eq!(parse_language("UKR").ok().unwrap(), "Ukrainian");
    assert_eq!(parse_language("українська").ok().unwrap(), "Ukrainian");

    assert_eq!(parse_language("en").ok().unwrap(), "English");
    assert_eq!(parse_language("English").ok().unwrap(), "English");

    assert_eq!(parse_language("ru").ok().unwrap(), "Russian");
    assert_eq!(parse_language("русский").ok().unwrap(), "Russian");

    // Unknown should error
    let err = parse_language("xx").err().unwrap();
    let msg = err.message();
    assert!(msg.contains("Unknown language"));
}

#[test]
fn parse_language_trims_and_lowers() {
    assert_eq!(parse_language("  PL \n").ok().unwrap(), "Polish");
    assert_eq!(parse_language("De").ok().unwrap(), "German");
    assert_eq!(parse_language("french").ok().unwrap(), "French");
    assert_eq!(parse_language("ES").ok().unwrap(), "Spanish");
    assert_eq!(parse_language("УКРАЇНСЬКА").ok().unwrap(), "Ukrainian");
}

#[test]
fn parse_language_falls_back_to_detector_names() {
    assert_eq!(parse_language("Belarusian").ok().unwrap(), "Belarusian");
    assert_eq!(parse_language(" czech ").ok().unwrap(), "Czech");
}

#[test]
fn parse_language_error_names_the_value() {
    let err = parse_language("  Klingon ").err().unwrap();
    assert_eq!(err.value, "klingon");
    assert_eq!(err.message(), "Unknown language: 'klingon'");
}

#[test]
fn resolve_language_uses_aliases_before_names() {
    let names = vec!["Uk".to_string(), "Welsh".to_string()];
    assert_eq!(resolve_language("uk", &names).ok().unwrap(), "Ukrainian");
    assert_eq!(resolve_language("welsh", &names).ok().unwrap(), "Welsh");
    assert_eq!(resolve_language("Welsh", &names).err().unwrap().value, "Welsh");
    assert!(resolve_language("welsh", &Vec::new()).is_err());
}

#[test]
fn resolve_language_takes_the_first_matching_name() {
    let names = vec!["Esperanto".to_string(), "ESPERANTO".to_string()];
    assert_eq!(resolve_language("esperanto", &names).ok().unwrap(), "Esperanto");
}

#[test]
fn text_equals_compares_characters() {
    assert!(text_equals("Привіт", "Привіт"));
    assert!(!text_equals("Привіт", "Привет"));
    assert!(!text_equals("ab", "abc"));
    assert!(text_equals("", ""));
}

#[test]
fn detector_reports_language_names() {
    let detector = Detector::new();
    assert_eq!(detector.detect("Привіт, Україно! Як справи?").unwrap(), "Ukrainian");
    assert_eq!(detector.detect("Hello, world! How are you doing today?").unwrap(), "English");
}
