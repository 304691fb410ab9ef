use twitch_chat::parse::{
    extract_command, extract_params, extract_prefix, extract_tags, map_command, parse_line,
    to_params,
};
use twitch_chat::protocol::{Command, ParseError};

#[test]
fn test_privmsg() {
    let line = ":nick!user@host PRIVMSG #channel :Hello World!";
    let result = parse_line(line);
    assert!(result.is_ok());

    let msg = result.unwrap();
    assert!(msg.prefix.is_some());

    let prefix = msg.prefix.unwrap();
    assert!(prefix.nick.is_some());

    assert_eq!(prefix.nick.unwrap(), "nick");
    assert_eq!(prefix.user.unwrap(), "user");
    assert_eq!(prefix.host.unwrap(), "host");

    assert_eq!(msg.command, Command::Privmsg);
    assert_eq!(msg.params, vec!["#channel", "Hello World!"]);
}

#[test]
fn test_no_prefix() {
    let line = "PRIVMSG #channel :Hello World!";
    let result = parse_line(line);
    assert!(result.is_ok());

    let msg = result.unwrap();
    assert!(msg.prefix.is_none());

    assert_eq!(msg.command, Command::Privmsg);
    assert_eq!(msg.params, vec!["#channel", "Hello World!"]);
}

#[test]
fn test_command_only() {
    let line = "PRIVMSG";
    let result = parse_line(line);
    assert!(result.is_ok());

    let msg = result.unwrap();
    assert!(msg.prefix.is_none());

    assert_eq!(msg.command, Command::Privmsg);
    assert_eq!(msg.params.len(), 0);
}

#[test]
fn test_command_and_trailing() {
    let line = "PRIVMSG :Hello World!";
    let result = parse_line(line);
    assert!(result.is_ok());

    let msg = result.unwrap();
    assert!(msg.prefix.is_none());

    assert_eq!(msg.command, Command::Privmsg);
    assert_eq!(msg.params.len(), 1);
    assert_eq!(msg.params, vec!["Hello World!"]);
}

#[test]
fn test_command_and_params() {
    let line = "PRIVMSG param1 param2";
    let result = parse_line(line);
    assert!(result.is_ok());

    let msg = result.unwrap();
    assert!(msg.prefix.is_none());

    assert_eq!(msg.command, Command::Privmsg);
    assert_eq!(msg.params.len(), 2);
    assert_eq!(msg.params, vec!["param1", "param2"]);
}

#[test]
fn test_empty_string() {
    let line = "";
    let result = parse_line(line);
    assert!(result.is_err());
    assert_eq!(result.unwrap_err(), ParseError::MissingCommand);
}

#[test]
fn test_prefix_no_command() {
    let line = ":nick!user@host";
    let result = parse_line(line);
    assert!(result.is_err());
    assert_eq!(result.unwrap_err(), ParseError::MissingCommand);
}

#[test]
fn test_unknown_command() {
    let line = "UNKNOWNCOMMAND";
    let result = parse_line(line);
    assert!(result.is_err());
    assert_eq!(result.unwrap_err(), ParseError::UnknownCommand("UNKNOWNCOMMAND".into()))
}

fn tag_pairs(line: &str) -> (Vec<(String, String)>, String) {
    let (tags, rest) = extract_tags(line).unwrap();
    (tags.iter().map(|(k, v)| (k.clone(), v.clone())).collect(), rest.to_string())
}

fn pair(k: &str, v: &str) -> (String, String) {
    (k.to_string(), v.to_string())
}

#[test]
fn tags_keep_their_order() {
    let (tags, rest) = tag_pairs("@zeta=1;alpha=2;mid=3 PING");
    assert_eq!(tags, vec![pair("zeta", "1"), pair("alpha", "2"), pair("mid", "3")]);
    assert_eq!(rest, "PING");
}

#[test]
fn tags_without_value_or_space() {
    let (tags, rest) = tag_pairs("@a;b=;c=x=y");
    assert_eq!(tags, vec![pair("a", ""), pair("b", ""), pair("c", "x=y")]);
    assert_eq!(rest, "");
    let (tags, rest) = tag_pairs("@ PING");
    assert_eq!(tags, vec![pair("", "")]);
    assert_eq!(rest, "PING");
    let (tags, rest) = tag_pairs("@a=1  PING");
    assert_eq!(tags, vec![pair("a", "1")]);
    assert_eq!(rest, " PING");
}

#[test]
fn repeated_tag_keeps_place_and_takes_last_value() {
    let (tags, _) = tag_pairs("@a=1;b=2;a=3 PING");
    assert_eq!(tags, vec![pair("a", "3"), pair("b", "2")]);
}

#[test]
fn line_without_tags_is_left_alone() {
    let (tags, rest) = tag_pairs("PING :x");
    assert!(tags.is_empty());
    assert_eq!(rest, "PING :x");
    let (tags, rest) = tag_pairs("");
    assert!(tags.is_empty());
    assert_eq!(rest, "");
}

#[test]
fn prefix_forms() {
    let (prefix, rest) = extract_prefix(":nick!user@host CMD x").unwrap();
    let prefix = prefix.unwrap();
    assert_eq!(prefix.nick.as_deref(), Some("nick"));
    assert_eq!(prefix.user.as_deref(), Some("user"));
    assert_eq!(prefix.host.as_deref(), Some("host"));
    assert_eq!(rest, "CMD x");

    let (prefix, rest) = extract_prefix(":nick@host CMD").unwrap();
    let prefix = prefix.unwrap();
    assert_eq!(prefix.nick.as_deref(), Some("nick"));
    assert_eq!(prefix.user, None);
    assert_eq!(prefix.host.as_deref(), Some("host"));
    assert_eq!(rest, "CMD");

    let (prefix, rest) = extract_prefix(":tmi.twitch.tv 001 me :Welcome").unwrap();
    let prefix = prefix.unwrap();
    assert_eq!(prefix.nick, None);
    assert_eq!(prefix.user, None);
    assert_eq!(prefix.host.as_deref(), Some("tmi.twitch.tv"));
    assert_eq!(rest, "001 me :Welcome");
}

#[test]
fn prefix_splits_at_first_separators() {
    let (prefix, _) = extract_prefix(":a!b!c@d@e X").unwrap();
    let prefix = prefix.unwrap();
    assert_eq!(prefix.nick.as_deref(), Some("a"));
    assert_eq!(prefix.user.as_deref(), Some("b!c"));
    assert_eq!(prefix.host.as_deref(), Some("d@e"));

    let (prefix, _) = extract_prefix(":a@b!c X").unwrap();
    let prefix = prefix.unwrap();
    assert_eq!(prefix.nick.as_deref(), Some("a"));
    assert_eq!(prefix.user, None);
    assert_eq!(prefix.host.as_deref(), Some("b!c"));

    let (prefix, _) = extract_prefix(":a!b X").unwrap();
    let prefix = prefix.unwrap();
    assert_eq!(prefix.nick, None);
    assert_eq!(prefix.host.as_deref(), Some("a!b"));

    let (prefix, rest) = extract_prefix(": X").unwrap();
    let prefix = prefix.unwrap();
    assert_eq!(prefix.nick, None);
    assert_eq!(prefix.host.as_deref(), Some(""));
    assert_eq!(rest, "X");
}

#[test]
fn prefix_absent_or_alone() {
    let (prefix, rest) = extract_prefix("PING :x").unwrap();
    assert!(prefix.is_none());
    assert_eq!(rest, "PING :x");
    assert_eq!(extract_prefix(":host").unwrap_err(), ParseError::MissingCommand);
    assert_eq!(extract_prefix(":").unwrap_err(), ParseError::MissingCommand);
}

#[test]
fn command_table() {
    assert_eq!(map_command("001"), Ok(Command::Ready));
    assert_eq!(map_command("353"), Ok(Command::Names));
    assert_eq!(map_command("366"), Ok(Command::EndOfNames));
    assert_eq!(map_command("PING"), Ok(Command::Ping));
    assert_eq!(map_command("PONG"), Ok(Command::Pong));
    assert_eq!(map_command("PRIVMSG"), Ok(Command::Privmsg));
    assert_eq!(map_command("NOTICE"), Ok(Command::Notice));
    assert_eq!(map_command("JOIN"), Ok(Command::Join));
    assert_eq!(map_command("PART"), Ok(Command::Part));
    assert_eq!(map_command("CAP"), Ok(Command::Cap));
    assert_eq!(map_command("GLOBALUSERSTATE"), Ok(Command::GlobalUserState));
    assert_eq!(map_command("USERSTATE"), Ok(Command::UserState));
    assert_eq!(map_command("ROOMSTATE"), Ok(Command::RoomState));
    assert_eq!(map_command("USERNOTICE"), Ok(Command::UserNotice));
    for token in ["002", "003", "004", "375", "372", "376"] {
        assert_eq!(map_command(token), Ok(Command::Misc(token.to_string())));
    }
}

#[test]
fn command_outside_table() {
    for token in ["", "005", "ping", "PIN", "PINGS", "USERSTAT", "37", "3766"] {
        assert_eq!(map_command(token), Err(ParseError::UnknownCommand(token.to_string())));
    }
}

#[test]
fn command_token_ends_at_first_space() {
    let (command, rest) = extract_command("PRIVMSG #c :hi").unwrap();
    assert_eq!(command, Command::Privmsg);
    assert_eq!(rest, "#c :hi");
    let (command, rest) = extract_command("PING").unwrap();
    assert_eq!(command, Command::Ping);
    assert_eq!(rest, "");
    let (command, rest) = extract_command("PING ").unwrap();
    assert_eq!(command, Command::Ping);
    assert_eq!(rest, "");
    assert_eq!(extract_command("").unwrap_err(), ParseError::MissingCommand);
    assert_eq!(extract_command(" PING").unwrap_err(), ParseError::UnknownCommand("".into()));
    assert_eq!(extract_command("NOPE x").unwrap_err(), ParseError::UnknownCommand("NOPE".into()));
}

#[test]
fn params_forms() {
    assert_eq!(extract_params("").unwrap(), (vec![], false, ""));
    assert_eq!(extract_params("a").unwrap(), (vec!["a".to_string()], false, ""));
    assert_eq!(
        extract_params("a b").unwrap(),
        (vec!["a".to_string(), "b".to_string()], false, "")
    );
    assert_eq!(extract_params(":a b").unwrap(), (vec!["a b".to_string()], true, ""));
    assert_eq!(extract_params(":").unwrap(), (vec!["".to_string()], true, ""));
    assert_eq!(
        extract_params("a :b c").unwrap(),
        (vec!["a".to_string(), "b c".to_string()], true, "")
    );
    assert_eq!(
        extract_params("a b :").unwrap(),
        (vec!["a".to_string(), "b".to_string(), "".to_string()], true, "")
    );
}

#[test]
fn params_edge_forms() {
    // the first marker decides; later ones belong to the trailing parameter
    assert_eq!(
        extract_params("a :b :c").unwrap(),
        (vec!["a".to_string(), "b :c".to_string()], true, "")
    );
    // a marker at the very start leaves no leading parameter
    assert_eq!(extract_params(" :x").unwrap(), (vec!["x".to_string()], true, ""));
    // neighbouring spaces make empty parameters
    assert_eq!(
        extract_params("a  b").unwrap(),
        (vec!["a".to_string(), "".to_string(), "b".to_string()], false, "")
    );
    assert_eq!(
        extract_params("a ").unwrap(),
        (vec!["a".to_string(), "".to_string()], false, "")
    );
    // a colon inside a parameter is no marker
    assert_eq!(
        extract_params("a:b c").unwrap(),
        (vec!["a:b".to_string(), "c".to_string()], false, "")
    );
}

#[test]
fn to_params_with_and_without_trailing() {
    assert_eq!(to_params("", None), Vec::<String>::new());
    assert_eq!(to_params("", Some("t")), vec!["t"]);
    assert_eq!(to_params("a b", None), vec!["a", "b"]);
    assert_eq!(to_params("a b", Some("c d")), vec!["a", "b", "c d"]);
}

#[test]
fn parse_full_line() {
    let line = "@badges=mod/1;color=#FF0000 :n!u@h.tv PRIVMSG #chan :hello there";
    let msg = parse_line(line).unwrap();
    assert_eq!(msg.tags.len(), 2);
    assert_eq!(msg.tags.get("badges").map(String::as_str), Some("mod/1"));
    assert_eq!(msg.tags.get("color").map(String::as_str), Some("#FF0000"));
    assert_eq!(msg.command, Command::Privmsg);
    assert_eq!(msg.params, vec!["#chan", "hello there"]);
    assert!(msg.had_trailing);
    assert_eq!(msg.original_line, line);
}

#[test]
fn parse_keeps_wide_characters() {
    let msg = parse_line("@k=\u{e9}\u{4e2d} PRIVMSG #c :gr\u{fc}\u{df} \u{1f600}!").unwrap();
    assert_eq!(msg.tags.get("k").map(String::as_str), Some("\u{e9}\u{4e2d}"));
    assert_eq!(msg.params, vec!["#c", "gr\u{fc}\u{df} \u{1f600}!"]);
}

#[test]
fn parse_fails_at_first_failing_step() {
    assert_eq!(parse_line("@a=b").unwrap_err(), ParseError::MissingCommand);
    assert_eq!(parse_line("@a=b :host").unwrap_err(), ParseError::MissingCommand);
    assert_eq!(parse_line("@a=b :host ").unwrap_err(), ParseError::MissingCommand);
    assert_eq!(
        parse_line("@a=b :host WHAT x").unwrap_err(),
        ParseError::UnknownCommand("WHAT".into())
    );
}
