use twitch_chat::console::{
    channel_names, is_logged, join_line, render, render_pieces, unescape_spaces,
};
use twitch_chat::parse::parse_line;
use twitch_chat::protocol::{Command, EmoteInfo, RichText};
use twitch_chat::utils::Color;

fn shown(line: &str) -> Option<String> {
    render(&parse_line(line).unwrap())
}

#[test]
fn channels_get_their_hash() {
    assert_eq!(channel_names("a,#b,c"), vec!["#a", "#b", "#c"]);
    assert_eq!(channel_names("one"), vec!["#one"]);
    assert_eq!(channel_names(""), vec!["#"]);
    assert_eq!(channel_names("a,,b#"), vec!["#a", "#", "#b#"]);
    assert_eq!(channel_names("##a, b"), vec!["##a", "# b"]);
}

#[test]
fn join_lines() {
    assert_eq!(join_line("#a"), "JOIN #a");
    assert_eq!(join_line(""), "JOIN ");
}

#[test]
fn comings_and_goings_are_not_logged() {
    assert!(!is_logged(&Command::Join));
    assert!(!is_logged(&Command::Part));
    assert!(is_logged(&Command::Privmsg));
    assert!(is_logged(&Command::Ping));
    assert!(is_logged(&Command::Misc("372".into())));
    assert!(is_logged(&Command::Ready));
}

#[test]
fn escaped_spaces() {
    assert_eq!(unescape_spaces("a\\sb\\sc"), "a b c");
    assert_eq!(unescape_spaces("\\s"), " ");
    assert_eq!(unescape_spaces("\\s\\s"), "  ");
    assert_eq!(unescape_spaces("\\\\s"), "\\ ");
    assert_eq!(unescape_spaces("a\\"), "a\\");
    assert_eq!(unescape_spaces("a\\S"), "a\\S");
    assert_eq!(unescape_spaces("s\\"), "s\\");
    assert_eq!(unescape_spaces(""), "");
    assert_eq!(unescape_spaces("plain"), "plain");
    assert_eq!(unescape_spaces("\u{e9}\\s\u{4e2d}"), "\u{e9} \u{4e2d}");
    for text in ["a\\sb\\sc", "\\\\s", "\\s\\s\\", "x\\\\\\ss"] {
        assert_eq!(unescape_spaces(text), text.replace("\\s", " "));
    }
}

#[test]
fn pieces_as_shown() {
    let pieces = vec![
        RichText::Text("hi ".into()),
        RichText::Emote(EmoteInfo { id: "1".into(), emote: "Kappa".into() }),
        RichText::Text("!".into()),
    ];
    assert_eq!(render_pieces(&pieces), "hi \x1b[32m[Kappa]\x1b[0m!");
    assert_eq!(render_pieces(&vec![]), "");
}

#[test]
fn channel_message_as_shown() {
    assert_eq!(
        shown("@display-name=Nick;emotes=25:3-7 :nick!u@h PRIVMSG #chan :hi Kappa!").as_deref(),
        Some("#chan <Nick> hi \x1b[32m[Kappa]\x1b[0m!")
    );
    assert_eq!(
        shown("@color=#FF8000;emotes= :nick!u@h PRIVMSG #chan :hello").as_deref(),
        Some("#chan <\x1b[38;2;255;128;0mnick\x1b[0m> hello")
    );
    let colored = Color::from_str("#0a0b0c").unwrap().wrap_ansi("Nick");
    assert_eq!(
        shown("@color=#0a0b0c;display-name=Nick;emotes= :nick!u@h PRIVMSG #chan :x"),
        Some(format!("#chan <{}> x", colored))
    );
    // a colour that is none leaves the name as it is
    assert_eq!(
        shown("@color=;emotes= :nick!u@h PRIVMSG #chan :hello").as_deref(),
        Some("#chan <nick> hello")
    );
    // an invalid tag leaves the text as it is
    assert_eq!(
        shown("@emotes=25:3-99 :nick!u@h PRIVMSG #chan :hi Kappa!").as_deref(),
        Some("#chan <nick> hi Kappa!")
    );
    // without the tag there are no pieces
    assert_eq!(shown(":nick!u@h PRIVMSG #chan :hello").as_deref(), Some("#chan <nick> "));
}

#[test]
fn other_messages_as_shown() {
    assert_eq!(
        shown("@display-name=Nick :nick!u@h PRIVMSG me :psst").as_deref(),
        Some("(private) <Nick> psst")
    );
    assert_eq!(shown(":nick!u@h PRIVMSG me :psst").as_deref(), Some("(private) <nick> psst"));
    assert_eq!(
        shown(":me.tmi.twitch.tv 366 me #chan :End of /NAMES list").as_deref(),
        Some("Joined: #chan")
    );
    assert_eq!(shown(":me.tmi.twitch.tv 366 me"), None);
    assert_eq!(
        shown("@system-msg=5\\sraiders\\sfrom\\sX :tmi.twitch.tv USERNOTICE #chan").as_deref(),
        Some("System: 5 raiders from X")
    );
    assert_eq!(shown(":tmi.twitch.tv USERNOTICE #chan"), None);
    assert_eq!(shown("PRIVMSG #chan :no sender"), None);
    assert_eq!(shown(":tmi.twitch.tv PRIVMSG #chan :no nick"), None);
    assert_eq!(shown("PING :tmi.twitch.tv"), None);
    assert_eq!(shown(":n!u@h JOIN #chan"), None);
    assert_eq!(shown(":tmi.twitch.tv 001 me :Welcome, GLHF!"), None);
}

#[test]
fn colour_components() {
    let color = Color::new(1, 2, 3);
    assert_eq!((color.red(), color.green(), color.blue()), (1, 2, 3));
}
