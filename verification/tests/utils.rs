use twitch_chat::utils::{hex_to_byte, Color, Error};

#[test]
fn test_color_simple() {
    let color = Color::from_str("#Ff8000");
    assert!(color.is_ok(), "Failed parsing of color");
    assert_eq!(color.unwrap(), Color::new(255, 128, 0));

    let color = Color::from_string(&"#Ff8000".into());
    assert!(color.is_ok(), "Failed parsing of color");
    assert_eq!(color.unwrap(), Color::new(255, 128, 0));
}

#[test]
fn test_color3_simple() {
    let color = Color::from_str("#f80");
    assert!(color.is_ok(), "Failed parsing of color");
    assert_eq!(color.unwrap(), Color::new(255, 136, 0));

    let color = Color::from_string(&"#f80".into());
    assert!(color.is_ok(), "Failed parsing of color");
    assert_eq!(color.unwrap(), Color::new(255, 136, 0));
}

#[test]
fn color_without_hash() {
    assert_eq!(Color::from_str("0a141e"), Ok(Color::new(10, 20, 30)));
    assert_eq!(Color::from_str("abc"), Ok(Color::new(0xaa, 0xbb, 0xcc)));
}

#[test]
fn color_of_wrong_length_is_refused_whole() {
    assert_eq!(Color::from_str(""), Err(Error::ParseError("".into())));
    assert_eq!(Color::from_str("#"), Err(Error::ParseError("#".into())));
    assert_eq!(Color::from_str("#ff80"), Err(Error::ParseError("#ff80".into())));
    assert_eq!(Color::from_str("#ff800000"), Err(Error::ParseError("#ff800000".into())));
}

#[test]
fn color_names_first_bad_component() {
    assert_eq!(Color::from_str("#ffzz00"), Err(Error::ParseError("zz".into())));
    assert_eq!(Color::from_str("#gg8x00"), Err(Error::ParseError("gg".into())));
    assert_eq!(Color::from_str("#f8x"), Err(Error::ParseError("x".into())));
    assert_eq!(Color::from_str("#ff00+1"), Err(Error::ParseError("+1".into())));
}

#[test]
fn color_with_wide_characters() {
    // six bytes, cut between characters: the component is refused
    assert_eq!(Color::from_str("zz\u{e9}12"), Err(Error::ParseError("zz".into())));
    assert_eq!(Color::from_str("12\u{e9}zz"), Err(Error::ParseError("\u{e9}".into())));
    // six bytes, but the second byte is inside a character: refused whole
    assert_eq!(Color::from_str("1\u{e9}234"), Err(Error::ParseError("1\u{e9}234".into())));
    // three bytes in two characters
    assert_eq!(Color::from_str("#\u{e9}1"), Err(Error::ParseError("#\u{e9}1".into())));
}

#[test]
fn hex_to_byte_values() {
    assert_eq!(hex_to_byte("0"), Ok(0));
    assert_eq!(hex_to_byte("f"), Ok(255));
    assert_eq!(hex_to_byte("F"), Ok(255));
    assert_eq!(hex_to_byte("8"), Ok(136));
    assert_eq!(hex_to_byte("80"), Ok(128));
    assert_eq!(hex_to_byte("aB"), Ok(171));
    assert_eq!(hex_to_byte("09"), Ok(9));
    assert_eq!(hex_to_byte(""), Err(Error::ParseError("".into())));
    assert_eq!(hex_to_byte("123"), Err(Error::ParseError("123".into())));
    assert_eq!(hex_to_byte("g"), Err(Error::ParseError("g".into())));
    assert_eq!(hex_to_byte("1g"), Err(Error::ParseError("1g".into())));
    assert_eq!(hex_to_byte("/"), Err(Error::ParseError("/".into())));
    assert_eq!(hex_to_byte(":"), Err(Error::ParseError(":".into())));
    assert_eq!(hex_to_byte("@"), Err(Error::ParseError("@".into())));
    assert_eq!(hex_to_byte("`"), Err(Error::ParseError("`".into())));
}

#[test]
fn wrap_ansi_writes_decimal_components() {
    assert_eq!(Color::new(255, 128, 0).wrap_ansi("nick"), "\x1b[38;2;255;128;0mnick\x1b[0m");
    assert_eq!(Color::new(0, 9, 10).wrap_ansi(""), "\x1b[38;2;0;9;10m\x1b[0m");
    assert_eq!(Color::new(100, 101, 99).wrap_ansi("a b"), "\x1b[38;2;100;101;99ma b\x1b[0m");
}
