use process_explorer::text::{contains_text, decimal_chars, digit};

fn chars(s: &str) -> Vec<char> {
    s.chars().collect()
}

#[test]
fn decimal_numerals() {
    assert_eq!(decimal_chars(0), chars("0"));
    assert_eq!(decimal_chars(7), chars("7"));
    assert_eq!(decimal_chars(1200), chars("1200"));
    assert_eq!(decimal_chars(u64::MAX), chars(&u64::MAX.to_string()));
    assert_eq!(digit(9), '9');
}

#[test]
fn substring_search() {
    assert!(contains_text(&chars("firefox"), &chars("fox")));
    assert!(contains_text(&chars("firefox"), &chars("")));
    assert!(contains_text(&chars(""), &chars("")));
    assert!(!contains_text(&chars("fox"), &chars("firefox")));
    assert!(!contains_text(&chars("abcabd"), &chars("abe")));
    assert!(contains_text(&chars("abcabd"), &chars("abd")));
}
