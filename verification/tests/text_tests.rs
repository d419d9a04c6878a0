use meowmic::text::{chars_of, contains_chars, find_chars, rfind_char, str_eq, string_of};

#[test]
fn search_in_characters() {
    let hay = chars_of("a - b - c");
    assert_eq!(find_chars(&hay, &chars_of(" - ")), Some(1));
    assert_eq!(find_chars(&hay, &chars_of("x")), None);
    assert_eq!(find_chars(&hay, &chars_of("")), Some(0));
    assert_eq!(rfind_char(&hay, ' '), Some(7));
    assert!(contains_chars(&chars_of("CABLE Output 1"), &chars_of("CABLE Output")));
}

#[test]
fn string_building() {
    assert_eq!(string_of(&['x', 'y']), "xy");
    assert!(str_eq("en", "en"));
    assert!(!str_eq("en", "EN"));
}
