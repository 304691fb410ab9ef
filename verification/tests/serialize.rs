use twitch_chat::parse::parse_line;
use twitch_chat::protocol::{Command, Message, Prefix};
use twitch_chat::serialize::map_command_back;

fn roundtrip(line: &str) -> String {
    parse_line(line).unwrap().to_string()
}

fn same_message(a: &Message, b: &Message) -> bool {
    let tags_a: Vec<(&String, &String)> = a.tags.iter().collect();
    let tags_b: Vec<(&String, &String)> = b.tags.iter().collect();
    let prefix_a = a.prefix.as_ref().map(|p| (p.nick.clone(), p.user.clone(), p.host.clone()));
    let prefix_b = b.prefix.as_ref().map(|p| (p.nick.clone(), p.user.clone(), p.host.clone()));
    tags_a == tags_b && prefix_a == prefix_b && a.command == b.command && a.params == b.params
}

#[test]
fn command_tokens() {
    assert_eq!(map_command_back(&Command::Ready), "001");
    assert_eq!(map_command_back(&Command::Names), "353");
    assert_eq!(map_command_back(&Command::EndOfNames), "366");
    assert_eq!(map_command_back(&Command::Ping), "PING");
    assert_eq!(map_command_back(&Command::Pong), "PONG");
    assert_eq!(map_command_back(&Command::Privmsg), "PRIVMSG");
    assert_eq!(map_command_back(&Command::Notice), "NOTICE");
    assert_eq!(map_command_back(&Command::Join), "JOIN");
    assert_eq!(map_command_back(&Command::Part), "PART");
    assert_eq!(map_command_back(&Command::Cap), "CAP");
    assert_eq!(map_command_back(&Command::GlobalUserState), "GLOBALUSERSTATE");
    assert_eq!(map_command_back(&Command::UserState), "USERSTATE");
    assert_eq!(map_command_back(&Command::RoomState), "ROOMSTATE");
    assert_eq!(map_command_back(&Command::UserNotice), "USERNOTICE");
    assert_eq!(map_command_back(&Command::Misc("372".into())), "372");
}

#[test]
fn prefix_texts() {
    let full = Prefix { nick: Some("n".into()), user: Some("u".into()), host: Some("h".into()) };
    assert_eq!(full.to_string(), "n!u@h");
    let no_user = Prefix { nick: Some("n".into()), user: None, host: Some("h".into()) };
    assert_eq!(no_user.to_string(), "n@h");
    let host = Prefix { nick: None, user: None, host: Some("tmi.twitch.tv".into()) };
    assert_eq!(host.to_string(), "tmi.twitch.tv");
    let none = Prefix { nick: None, user: None, host: None };
    assert_eq!(none.to_string(), "");
    let nick = Prefix { nick: Some("n".into()), user: None, host: None };
    assert_eq!(nick.to_string(), "n");
    let no_host = Prefix { nick: Some("n".into()), user: Some("u".into()), host: None };
    assert_eq!(no_host.to_string(), "n!u");
    let no_nick = Prefix { nick: None, user: Some("u".into()), host: Some("h".into()) };
    assert_eq!(no_nick.to_string(), "h");
}

#[test]
fn prefix_text_is_the_token_it_was_read_from() {
    for token in ["nick!user@host", "nick@host", "host", "a!b!c@d@e", "a@b!c", "a!b", "", "@", "!@", "@h", "n!@h"] {
        let line = format!(":{} PING", token);
        let msg = parse_line(&line).unwrap();
        assert_eq!(msg.prefix.unwrap().to_string(), token);
    }
}

#[test]
fn lines_come_back() {
    for line in [
        ":nick!user@host PRIVMSG #channel :Hello World!",
        ":tmi.twitch.tv 001 me :Welcome",
        ":nick@host JOIN #c",
        "@k=v :n@h JOIN #c",
        "@a=1;b=2 :a!b!c@d@e PRIVMSG #c :hi there",
        ": PING",
        ":@ PING :x",
        "::x@h PRIVMSG a",
        ":@host PING",
        "PRIVMSG",
        "PING :tmi.twitch.tv",
        "PRIVMSG #channel :Hello World!",
        "PRIVMSG param1 param2",
        "PRIVMSG a  b",
        "PRIVMSG a :",
        "PRIVMSG :",
        "PRIVMSG ::x",
        "PRIVMSG a :b :c",
        "@a=1;b=2 PRIVMSG #c :hi",
        "@a=x=y;b= 372 me :- text",
        "@= PING",
        "CAP * ACK :twitch.tv/tags twitch.tv/commands",
    ] {
        assert_eq!(roundtrip(line), line);
    }
}

#[test]
fn lines_that_change_but_mean_the_same() {
    assert_eq!(roundtrip("PING "), "PING");
    assert_eq!(roundtrip("PRIVMSG  :x"), "PRIVMSG :x");
    assert_eq!(roundtrip("@a;b PING"), "@a=;b= PING");
    assert_eq!(roundtrip("@b=2;a PRIVMSG #c hi"), "@b=2;a= PRIVMSG #c hi");
    assert_eq!(roundtrip(":host PING "), ":host PING");
    assert_eq!(roundtrip("@a=1;b=2;a=3 PING"), "@a=3;b=2 PING");
    assert_eq!(roundtrip("@ PING"), "@= PING");
    for line in ["PING ", "PRIVMSG  :x", "@a;b PING", "@a=1;b=2;a=3 PING", "@ PING"] {
        let first = parse_line(line).unwrap();
        let second = parse_line(&first.to_string()).unwrap();
        assert!(same_message(&first, &second), "{}", line);
        assert_eq!(first.had_trailing, second.had_trailing, "{}", line);
    }
}

#[test]
fn message_with_prefix_comes_back() {
    let first = parse_line(":nick!user@host PRIVMSG #channel :Hello World!").unwrap();
    let written = first.to_string();
    assert_eq!(written, ":nick!user@host PRIVMSG #channel :Hello World!");
    let second = parse_line(&written).unwrap();
    let prefix = second.prefix.unwrap();
    assert_eq!(prefix.nick.as_deref(), Some("nick"));
    assert_eq!(prefix.user.as_deref(), Some("user"));
    assert_eq!(prefix.host.as_deref(), Some("host"));
    assert_eq!(second.command, Command::Privmsg);
    assert_eq!(second.params, vec!["#channel", "Hello World!"]);
}

#[test]
fn every_kind_of_line_is_read_again_as_the_same_message() {
    for line in [
        ":nick!user@host PRIVMSG #channel :Hello World!",
        ":tmi.twitch.tv 001 me :Welcome",
        ":nick@host PART #c",
        "@a;b=2;a=3 :n!u@h PRIVMSG  :x",
        "@badges=mod/1;emotes=25:0-4 :n!u@h.tv PRIVMSG #c :Kappa hi",
        ":a!b!c@d@e NOTICE * :x :y",
        ": PING ",
        "@b=2;a PRIVMSG #c hi",
        "PRIVMSG a  b",
    ] {
        let first = parse_line(line).unwrap();
        let second = parse_line(&first.to_string()).unwrap();
        assert!(same_message(&first, &second), "{}", line);
        assert_eq!(first.had_trailing, second.had_trailing, "{}", line);
    }
}

#[test]
fn last_parameter_gets_colon_when_needed() {
    let mut msg = parse_line("PRIVMSG #c word").unwrap();
    assert!(!msg.had_trailing);
    assert_eq!(msg.to_string(), "PRIVMSG #c word");
    msg.params[1] = "two words".into();
    assert_eq!(msg.to_string(), "PRIVMSG #c :two words");
    msg.params[1] = ":colon".into();
    assert_eq!(msg.to_string(), "PRIVMSG #c ::colon");
    msg.params[1] = "".into();
    assert_eq!(msg.to_string(), "PRIVMSG #c ");
    msg.params[0] = "a b".into();
    msg.params[1] = "c".into();
    assert_eq!(msg.to_string(), "PRIVMSG a b c");
    msg.had_trailing = true;
    assert_eq!(msg.to_string(), "PRIVMSG a b :c");
    msg.params.clear();
    assert_eq!(msg.to_string(), "PRIVMSG");
}

#[test]
fn with_command_changes_only_the_command() {
    let ping = parse_line("@a=b :n!u@h PING x :tmi.twitch.tv").unwrap();
    let pong = ping.with_command(Command::Pong);
    assert_eq!(pong.command, Command::Pong);
    assert_eq!(pong.params, ping.params);
    assert_eq!(pong.had_trailing, ping.had_trailing);
    assert_eq!(pong.original_line, ping.original_line);
    assert_eq!(pong.tags, ping.tags);
    assert_eq!(pong.prefix.as_ref().unwrap().to_string(), "n!u@h");
    assert_eq!(pong.to_string(), "@a=b :n!u@h PONG x :tmi.twitch.tv");
    assert_eq!(ping.command, Command::Ping);
    let copy = ping.clone();
    assert!(same_message(&copy, &ping));
}

#[test]
fn message_kinds_and_names() {
    let channel = parse_line("@display-name=Nick :nick!u@h PRIVMSG #c :hi").unwrap();
    assert!(channel.is_valid_privmsg());
    assert!(channel.is_channel_message());
    assert!(!channel.is_private_message());
    assert_eq!(channel.display_name().map(String::as_str), Some("Nick"));

    let private = parse_line(":nick!u@h PRIVMSG someone :hi").unwrap();
    assert!(private.is_valid_privmsg());
    assert!(!private.is_channel_message());
    assert!(private.is_private_message());
    assert_eq!(private.display_name().map(String::as_str), Some("nick"));

    let server = parse_line(":tmi.twitch.tv PRIVMSG #c :hi").unwrap();
    assert!(!server.is_valid_privmsg());
    assert!(!server.is_channel_message());
    assert!(!server.is_private_message());
    assert_eq!(server.display_name(), None);

    let bare = parse_line("PRIVMSG #c :hi").unwrap();
    assert!(!bare.is_valid_privmsg());
    assert_eq!(bare.display_name(), None);

    let three = parse_line(":nick!u@h PRIVMSG #c x :hi").unwrap();
    assert!(!three.is_valid_privmsg());
    let one = parse_line(":nick!u@h PRIVMSG #c").unwrap();
    assert!(!one.is_valid_privmsg());
    let empty_target = parse_line(":nick!u@h PRIVMSG  :hi").unwrap();
    assert_eq!(empty_target.params, vec!["hi"]);
    assert!(!empty_target.is_valid_privmsg());
}
