use twitch_chat::emotes::{cut_pieces, insert_span, parse_number, read_span, read_spans, Span};
use twitch_chat::parse::parse_line;
use twitch_chat::protocol::{EmoteInfo, ParseError, RichText};

fn text(s: &str) -> RichText {
    RichText::Text(s.into())
}

fn emote(id: &str, s: &str) -> RichText {
    RichText::Emote(EmoteInfo { id: id.into(), emote: s.into() })
}

fn pieces_of(line: &str) -> Result<Vec<RichText>, ParseError> {
    parse_line(line).unwrap().emotes()
}

#[test]
fn test_emotes_none() {
    let line = "@emotes= :nick!user@host PRIVMSG #channel :nothing";
    let result = parse_line(line);
    assert!(result.is_ok());
    let msg = result.unwrap();
    let emotes_result = msg.emotes();
    assert!(emotes_result.is_ok());
    let emotes = emotes_result.unwrap();
    assert_eq!(emotes.len(), 1);
    assert_eq!(emotes[0], RichText::Text("nothing".into()));
}

#[test]
fn test_emotes_single() {
    let line = "@emotes=86:0-9 :nick!user@host PRIVMSG #channel :BibleThump";
    let result = parse_line(line);
    assert!(result.is_ok());
    let msg = result.unwrap();
    let emotes_result = msg.emotes();
    assert!(emotes_result.is_ok());
    let emotes = emotes_result.unwrap();
    assert_eq!(emotes.len(), 1);
    assert_eq!(emotes[0], RichText::Emote(EmoteInfo {
        id: "86".into(),
        emote: "BibleThump".into(),
    }));
}

#[test]
fn test_emotes_mixed() {
    let line = "@emotes=86:10-19/46:38-43 :nick!user@host PRIVMSG #channel :This is a BibleThump test with emotes SSSsss yay \\o/";
    let result = parse_line(line);
    assert!(result.is_ok());
    let msg = result.unwrap();
    let emotes_result = msg.emotes();
    assert!(emotes_result.is_ok());
    let emotes = emotes_result.unwrap();
    assert_eq!(emotes.len(), 5);

    assert_eq!(emotes[0], RichText::Text("This is a ".into()));
    assert_eq!(emotes[1], RichText::Emote(EmoteInfo {
        id: "86".into(),
        emote: "BibleThump".into(),
    }));
    assert_eq!(emotes[2], RichText::Text(" test with emotes ".into()));
    assert_eq!(emotes[3], RichText::Emote(EmoteInfo {
        id: "46".into(),
        emote: "SSSsss".into(),
    }));
    assert_eq!(emotes[4], RichText::Text(" yay \\o/".into()));
}

#[test]
fn emotes_are_taken_in_order_of_start() {
    let line = "@emotes=46:38-43/86:10-19 :nick!user@host PRIVMSG #channel :This is a BibleThump test with emotes SSSsss yay \\o/";
    assert_eq!(
        pieces_of(line).unwrap(),
        vec![
            text("This is a "),
            emote("86", "BibleThump"),
            text(" test with emotes "),
            emote("46", "SSSsss"),
            text(" yay \\o/"),
        ]
    );
}

#[test]
fn emotes_next_to_each_other() {
    let line = "@emotes=2:2-3/1:0-1 :n!u@h PRIVMSG #c :aabbcc";
    assert_eq!(pieces_of(line).unwrap(), vec![emote("1", "aa"), emote("2", "bb"), text("cc")]);
}

#[test]
fn pieces_read_together_are_the_text() {
    let body = "This is a BibleThump test with emotes SSSsss yay \\o/";
    let line = format!("@emotes=46:38-43/86:10-19 :n!u@h PRIVMSG #c :{}", body);
    let mut read = String::new();
    for piece in pieces_of(&line).unwrap() {
        match piece {
            RichText::Text(s) => read.push_str(&s),
            RichText::Emote(info) => read.push_str(&info.emote),
        }
    }
    assert_eq!(read, body);
}

#[test]
fn no_pieces_without_tag_or_channel() {
    assert_eq!(pieces_of(":n!u@h PRIVMSG #c :hello").unwrap(), vec![]);
    assert_eq!(pieces_of("@emotes=1:0-1 :n!u@h PRIVMSG someone :hello").unwrap(), vec![]);
    assert_eq!(pieces_of("@emotes=1:0-1 PRIVMSG #c :hello").unwrap(), vec![]);
    assert_eq!(pieces_of("@emotes=1:0-1 :host PRIVMSG #c :hello").unwrap(), vec![]);
    assert_eq!(pieces_of("@emotes=1:0-1 :n!u@h PRIVMSG #c a :hello").unwrap(), vec![]);
    assert_eq!(pieces_of("@emotes=x:y-z :n!u@h PRIVMSG someone :hello").unwrap(), vec![]);
}

#[test]
fn empty_text_has_no_pieces() {
    assert_eq!(pieces_of("@emotes= :n!u@h PRIVMSG #c :").unwrap(), vec![]);
}

#[test]
fn entries_without_colon_or_hyphen_are_passed_over() {
    assert_eq!(pieces_of("@emotes=abc/1:0-1/7:3 :n!u@h PRIVMSG #c :hello").unwrap(), vec![
        emote("1", "he"),
        text("llo"),
    ]);
}

#[test]
fn offsets_that_are_no_numbers_fail() {
    for tag in ["1:a-2", "1:0-b", "1:-2", "1:0-", "1:0-1-2", "1:0x1-2", "1:0-1/2:x-y"] {
        let line = format!("@emotes={} :n!u@h PRIVMSG #c :hello", tag);
        assert_eq!(pieces_of(&line), Err(ParseError::InvalidEmoteString), "{}", tag);
    }
}

#[test]
fn spans_that_do_not_fit_fail() {
    // beyond the text
    assert_eq!(
        pieces_of("@emotes=1:0-5 :n!u@h PRIVMSG #c :hello"),
        Err(ParseError::InvalidEmoteString)
    );
    assert_eq!(
        pieces_of("@emotes=1:6-7 :n!u@h PRIVMSG #c :hello"),
        Err(ParseError::InvalidEmoteString)
    );
    // overlapping
    assert_eq!(
        pieces_of("@emotes=1:0-2/2:2-3 :n!u@h PRIVMSG #c :hello"),
        Err(ParseError::InvalidEmoteString)
    );
    // end before start
    assert_eq!(
        pieces_of("@emotes=1:3-1 :n!u@h PRIVMSG #c :hello"),
        Err(ParseError::InvalidEmoteString)
    );
    // larger than any text
    assert_eq!(
        pieces_of("@emotes=1:0-99999999999999999999999999 :n!u@h PRIVMSG #c :hello"),
        Err(ParseError::InvalidEmoteString)
    );
    assert_eq!(
        pieces_of("@emotes=1:0-18446744073709551615 :n!u@h PRIVMSG #c :hello"),
        Err(ParseError::InvalidEmoteString)
    );
}

#[test]
fn span_with_end_just_before_start_is_empty() {
    assert_eq!(pieces_of("@emotes=1:2-1 :n!u@h PRIVMSG #c :hello").unwrap(), vec![
        text("he"),
        emote("1", ""),
        text("llo"),
    ]);
    assert_eq!(pieces_of("@emotes=1:5-4 :n!u@h PRIVMSG #c :hello").unwrap(), vec![
        text("hello"),
        emote("1", ""),
    ]);
}

#[test]
fn spans_that_start_together_keep_their_order() {
    assert_eq!(pieces_of("@emotes=a:2-1/b:2-3 :n!u@h PRIVMSG #c :hello").unwrap(), vec![
        text("he"),
        emote("a", ""),
        emote("b", "ll"),
        text("o"),
    ]);
    assert_eq!(
        pieces_of("@emotes=b:2-3/a:2-1 :n!u@h PRIVMSG #c :hello"),
        Err(ParseError::InvalidEmoteString)
    );
}

#[test]
fn offsets_count_bytes() {
    // "héllo": the second character takes two bytes
    let line = "@emotes=1:3-4 :n!u@h PRIVMSG #c :h\u{e9}llo";
    assert_eq!(pieces_of(line).unwrap(), vec![text("h\u{e9}"), emote("1", "ll"), text("o")]);
    let line = "@emotes=1:1-2 :n!u@h PRIVMSG #c :h\u{e9}llo";
    assert_eq!(pieces_of(line).unwrap(), vec![text("h"), emote("1", "\u{e9}"), text("llo")]);
}

#[test]
fn span_that_ends_inside_a_character_fails() {
    let line = "@emotes=1:0-1 :n!u@h PRIVMSG #c :h\u{e9}llo";
    assert_eq!(pieces_of(line), Err(ParseError::InvalidEmoteString));
    let line = "@emotes=1:2-3 :n!u@h PRIVMSG #c :h\u{e9}llo";
    assert_eq!(pieces_of(line), Err(ParseError::InvalidEmoteString));
}

#[test]
fn numbers() {
    assert_eq!(parse_number("0"), Some(0));
    assert_eq!(parse_number("9"), Some(9));
    assert_eq!(parse_number("10"), Some(10));
    assert_eq!(parse_number("007"), Some(7));
    assert_eq!(parse_number("+42"), Some(42));
    assert_eq!(parse_number("1234567890"), Some(1234567890));
    assert_eq!(parse_number(&usize::MAX.to_string()), Some(usize::MAX));
    assert_eq!(parse_number(""), None);
    assert_eq!(parse_number("+"), None);
    assert_eq!(parse_number("-1"), None);
    assert_eq!(parse_number("++1"), None);
    assert_eq!(parse_number("1+"), None);
    assert_eq!(parse_number("1a"), None);
    assert_eq!(parse_number(" 1"), None);
    assert_eq!(parse_number("/"), None);
    assert_eq!(parse_number(":"), None);
    assert_eq!(parse_number("\u{661}"), None);
    assert_eq!(parse_number("18446744073709551616"), None);
    assert_eq!(parse_number("99999999999999999999999"), None);
}

#[test]
fn single_entries() {
    let span = read_span("86:10-19", 20).unwrap().unwrap();
    assert_eq!((span.id.as_str(), span.start, span.end), ("86", 10, 19));
    let span = read_span("a:b:3-4-5", 20);
    assert_eq!(span.err(), Some(ParseError::InvalidEmoteString));
    let span = read_span(":0-0", 1).unwrap().unwrap();
    assert_eq!((span.id.as_str(), span.start, span.end), ("", 0, 0));
    assert!(read_span("", 20).unwrap().is_none());
    assert!(read_span("86", 20).unwrap().is_none());
    assert!(read_span("86:1019", 20).unwrap().is_none());
    assert!(read_span("86-10:19", 20).unwrap().is_none());
    // the end has to lie inside the text, the start may be its length
    assert_eq!(read_span("1:0-20", 20).err(), Some(ParseError::InvalidEmoteString));
    assert_eq!(read_span("1:21-19", 20).err(), Some(ParseError::InvalidEmoteString));
    let span = read_span("1:20-19", 20).unwrap().unwrap();
    assert_eq!((span.start, span.end), (20, 19));
    assert_eq!(read_span("1:0-0", 0).err(), Some(ParseError::InvalidEmoteString));
}

fn starts(spans: &[Span]) -> Vec<(String, usize)> {
    spans.iter().map(|s| (s.id.clone(), s.start)).collect()
}

fn span(id: &str, start: usize, end: usize) -> Span {
    Span { id: id.into(), start, end }
}

#[test]
fn insertion_keeps_order_and_is_stable() {
    let mut sorted = Vec::new();
    insert_span(&mut sorted, span("a", 5, 6));
    insert_span(&mut sorted, span("b", 1, 2));
    insert_span(&mut sorted, span("c", 5, 9));
    insert_span(&mut sorted, span("d", 3, 4));
    insert_span(&mut sorted, span("e", 1, 1));
    insert_span(&mut sorted, span("f", 9, 9));
    assert_eq!(
        starts(&sorted),
        vec![
            ("b".to_string(), 1),
            ("e".to_string(), 1),
            ("d".to_string(), 3),
            ("a".to_string(), 5),
            ("c".to_string(), 5),
            ("f".to_string(), 9),
        ]
    );
}

#[test]
fn entries_of_a_tag() {
    let spans = read_spans("46:38-43/skip/86:10-19/7:10-12", 50).unwrap();
    assert_eq!(
        starts(&spans),
        vec![("86".to_string(), 10), ("7".to_string(), 10), ("46".to_string(), 38)]
    );
    assert_eq!(read_spans("", 50).unwrap().len(), 0);
    assert_eq!(read_spans("1:0-1/2:x-3", 50).err(), Some(ParseError::InvalidEmoteString));
    assert_eq!(read_spans("1:0-50", 50).err(), Some(ParseError::InvalidEmoteString));
}

#[test]
fn cutting() {
    assert_eq!(cut_pieces("hello", &vec![]).unwrap(), vec![text("hello")]);
    assert_eq!(cut_pieces("", &vec![]).unwrap(), vec![]);
    assert_eq!(cut_pieces("hello", &vec![span("1", 0, 4)]).unwrap(), vec![emote("1", "hello")]);
    assert_eq!(
        cut_pieces("hello", &vec![span("1", 1, 1), span("2", 3, 3)]).unwrap(),
        vec![text("h"), emote("1", "e"), text("l"), emote("2", "l"), text("o")]
    );
    // not in the order of start
    assert_eq!(
        cut_pieces("hello", &vec![span("2", 3, 3), span("1", 1, 1)]).err(),
        Some(ParseError::InvalidEmoteString)
    );
    assert_eq!(
        cut_pieces("hello", &vec![span("1", 0, usize::MAX)]).err(),
        Some(ParseError::InvalidEmoteString)
    );
}
