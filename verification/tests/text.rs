use twitch_chat::text::{chars_of, has_char};

#[test]
fn chars_of_keeps_every_character() {
    assert_eq!(chars_of("a b"), vec!['a', ' ', 'b']);
    assert!(has_char("a b", ' '));
    assert!(!has_char("ab", ' '));
}
