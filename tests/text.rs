use babylonify::text::{clean_text, tidy_symbols};

#[test]
fn test_clean_text() {
    let raw = "Hello, world! 123 \n\t Привіт, світ! @#$%^&*() 456";
    let cleaned = clean_text(raw);
    assert_eq!(cleaned, "Hello, world! Привіт, світ!");
}

#[test]
fn test_clean_text_only_symbols() {
    let raw = "@#$%^&*() 12345 \n\t";
    let cleaned = clean_text(raw);
    assert_eq!(cleaned, "");
}

#[test]
fn test_clean_text_empty() {
    let raw = "";
    let cleaned = clean_text(raw);
    assert_eq!(cleaned, "");
}

#[test]
fn test_clean_text_whitespace() {
    let raw = "   \n\t  ";
    let cleaned = clean_text(raw);
    assert_eq!(cleaned, "");
}

#[test]
fn test_clean_text_punctuation() {
    let raw = "Hello!!! How's it going???";
    let cleaned = clean_text(raw);
    assert_eq!(cleaned, "Hello!!! How's it going???");
}

#[test]
fn clean_text_strips_emoji_and_digits() {
    assert_eq!(clean_text("Привіт, Україно! 😊 123"), "Привіт, Україно!");
}

#[test]
fn clean_text_collapses_whitespace_runs() {
    assert_eq!(clean_text("a \t\n  b\u{a0}\u{3000}c"), "a b c");
}

#[test]
fn clean_text_is_stable_on_normalized_text() {
    let once = clean_text("  Добрий   день, світе!\n 42 ");
    assert_eq!(once, "Добрий день, світе!");
    assert_eq!(clean_text(&once), once);
}

#[test]
fn tidy_replaces_tabs_and_drops_stray_symbols() {
    assert_eq!(tidy_symbols("a\tb"), "a b");
    assert_eq!(tidy_symbols("(x)@#%&*y"), "xy");
}

#[test]
fn tidy_halves_space_pairs_in_one_pass() {
    assert_eq!(tidy_symbols("a  b"), "a b");
    assert_eq!(tidy_symbols("a   b"), "a  b");
    assert_eq!(tidy_symbols("a    b"), "a  b");
    assert_eq!(tidy_symbols("a ( ) b"), "a  b");
}

#[test]
fn tidy_trims_both_ends() {
    assert_eq!(tidy_symbols("  \u{2003}x y\n "), "x y");
    assert_eq!(tidy_symbols(" \t "), "");
    assert_eq!(tidy_symbols(""), "");
}

#[test]
fn clean_text_leaves_one_space_pair_after_removal() {
    let once = clean_text("a 1 2 b");
    assert_eq!(once, "a  b");
    assert_eq!(clean_text(&once), "a b");
}
