use vocab_review::text::{chars_of, string_from_chars};

#[test]
fn characters_come_in_order() {
    assert_eq!(chars_of(""), Vec::<char>::new());
    assert_eq!(chars_of("a猫é"), vec!['a', '猫', 'é']);
    assert_eq!(chars_of("a\u{301}"), vec!['a', '\u{301}']);
}

#[test]
fn string_is_made_of_the_range() {
    let chars = vec!['猫', 'が', '好', 'き'];
    assert_eq!(string_from_chars(&chars, 0, 4), "猫が好き");
    assert_eq!(string_from_chars(&chars, 1, 3), "が好");
    assert_eq!(string_from_chars(&chars, 2, 2), "");
    assert_eq!(string_from_chars(&chars, 4, 4), "");
}

#[test]
fn characters_and_string_are_inverse() {
    for text in ["", "x", "猫が好きです。", "a\nb\r\n", "\u{1F600}!"] {
        let chars = chars_of(text);
        assert_eq!(string_from_chars(&chars, 0, chars.len()), text);
    }
}
