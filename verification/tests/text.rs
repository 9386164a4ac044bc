use chat_lib::text::{chars_of, starts_with};

#[test]
fn chars_of_gives_the_characters_in_order() {
    assert_eq!(chars_of(""), Vec::<char>::new());
    assert_eq!(chars_of("a✓é"), vec!['a', '✓', 'é']);
}

#[test]
fn starts_with_compares_the_first_characters() {
    let line = chars_of(".file x");
    assert!(starts_with(&line, &chars_of("")));
    assert!(starts_with(&line, &chars_of(".file")));
    assert!(starts_with(&line, &chars_of(".file x")));
    assert!(!starts_with(&line, &chars_of(".file x ")));
    assert!(!starts_with(&line, &chars_of(".fine")));
    assert!(!starts_with(&chars_of(""), &chars_of("a")));
}
