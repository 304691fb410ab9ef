//! What a chat program shows of the messages it receives, and the small
//! texts it sends: all of it as plain functions from values to texts.

use vstd::prelude::*;
use crate::emotes::{rich_views, spec_emotes};
use crate::protocol::{Command, CommandView, Message, MessageView, RichText, RichTextView};
use crate::tags::{lookup, tags_get};
use crate::text::{begins_with, chars_of, split, split_between, starts_with};
use crate::utils::{spec_from_str, spec_wrap_ansi, Color};

verus! {

/// The name of a channel as the protocol wants it: with `#` before it.
pub open spec fn spec_channel_name(name: Seq<char>) -> Seq<char> {
    if starts_with(name, '#') {
        name
    } else {
        seq!['#'] + name
    }
}

/// The channels of a list in which commas part the names.
pub open spec fn spec_channel_names(list: Seq<char>) -> Seq<Seq<char>> {
    split(list, ',').map_values(|name: Seq<char>| spec_channel_name(name))
}

/// The line that asks to join a channel.
pub open spec fn spec_join_line(channel: Seq<char>) -> Seq<char> {
    "JOIN "@ + channel
}

/// Whether a message with this command is written to the log: all but the
/// comings and goings of users.
pub open spec fn spec_is_logged(command: CommandView) -> bool {
    !(command is Part) && !(command is Join)
}

/// Whether `text` begins with a backslash followed by `s`.
pub open spec fn escaped_space_at_start(text: Seq<char>) -> bool {
    text.len() >= 2 && text[0] == '\\' && text[1] == 's'
}

/// `text` with a space in place of every backslash followed by `s`, found
/// from left to right.
pub open spec fn spec_unescape_spaces(text: Seq<char>) -> Seq<char>
    decreases text.len(),
{
    if text.len() == 0 {
        Seq::empty()
    } else if escaped_space_at_start(text) {
        seq![' '] + spec_unescape_spaces(text.skip(2))
    } else {
        seq![text[0]] + spec_unescape_spaces(text.skip(1))
    }
}

/// A piece of text as shown: plain text as it is, an emote in green
/// between square brackets.
pub open spec fn shown_piece(piece: RichTextView) -> Seq<char> {
    match piece {
        RichTextView::Text(text) => text,
        RichTextView::Emote(info) => "\x1b[32m["@ + info.emote + "]\x1b[0m"@,
    }
}

/// Pieces of text as shown, one after another.
pub open spec fn shown_text(pieces: Seq<RichTextView>) -> Seq<char>
    decreases pieces.len(),
{
    if pieces.len() == 0 {
        Seq::empty()
    } else {
        shown_text(pieces.drop_last()) + shown_piece(pieces.last())
    }
}

/// A sender's name as shown: in the colour of the `color` tag, where the
/// message has one that is a colour.
pub open spec fn shown_name(message: MessageView, name: Seq<char>) -> Seq<char> {
    match lookup(message.tags, "color"@) {
        Some(hex) => match spec_from_str(hex) {
            Ok(rgb) => spec_wrap_ansi(rgb, name),
            Err(_) => name,
        },
        None => name,
    }
}

/// The text of a channel message as shown: its pieces, or the text as it
/// is where the `emotes` tag is invalid.
pub open spec fn shown_body(message: MessageView) -> Seq<char> {
    match spec_emotes(message) {
        Ok(pieces) => shown_text(pieces),
        Err(_) => message.params[1],
    }
}

/// The line that is shown for a message, if one is shown:
/// a chat message to a channel, with channel, sender and text;
/// a chat message to the user, marked as private;
/// the end of a list of names, as the channel joined;
/// a notice about a user that carries a `system-msg` tag, with its text.
pub open spec fn spec_render(message: MessageView) -> Option<Seq<char>> {
    if message.command is Privmsg && message.is_channel_message() {
        match message.display_name() {
            Some(name) => Some(
                message.params[0] + " <"@ + shown_name(message, name) + "> "@ + shown_body(
                    message,
                ),
            ),
            None => None,
        }
    } else if message.command is Privmsg && message.is_private_message() {
        match message.display_name() {
            Some(name) => Some("(private) <"@ + name + "> "@ + message.params[1]),
            None => None,
        }
    } else if message.command is EndOfNames {
        if message.params.len() >= 2 {
            Some("Joined: "@ + message.params[1])
        } else {
            None
        }
    } else if message.command is UserNotice {
        match lookup(message.tags, "system-msg"@) {
            Some(text) => Some("System: "@ + spec_unescape_spaces(text)),
            None => None,
        }
    } else {
        None
    }
}

/// The channels of a list in which commas part the names, each with `#`
/// before it.
pub fn channel_names(list: &str) -> (names: Vec<String>)
    ensures
        names.deep_view() == spec_channel_names(list@),
{
    let chars = chars_of(list);
    proof {
        assert(list@.subrange(0, list@.len() as int) == list@);
    }
    let parts = split_between(list, &chars, ',', 0, chars.len());
    let mut names: Vec<String> = Vec::new();
    let mut i: usize = 0;
    proof {
        reveal_strlit("#");
    }
    while i < parts.len()
        invariant
            i <= parts.len(),
            names.len() == i,
            "#"@ == seq!['#'],
            forall|j: int| 0 <= j < i ==> names[j]@ == spec_channel_name(#[trigger] parts[j]@),
        decreases parts.len() - i,
    {
        let part = parts[i].as_str();
        let name = if begins_with(part, '#') {
            String::from_str(part)
        } else {
            let mut name = String::from_str("#");
            name.append(part);
            name
        };
        names.push(name);
        i += 1;
    }
    assert(names.deep_view() =~= spec_channel_names(list@));
    names
}

/// The line that asks to join a channel, without line ending.
pub fn join_line(channel: &str) -> (line: String)
    ensures
        line@ == spec_join_line(channel@),
{
    let mut line = String::from_str("JOIN ");
    line.append(channel);
    line
}

/// Whether a message with this command is written to the log.
pub fn is_logged(command: &Command) -> (yes: bool)
    ensures
        yes == spec_is_logged(command@),
{
    match command {
        Command::Part => false,
        Command::Join => false,
        _ => true,
    }
}

/// `text` with a space in place of every backslash followed by `s`.
pub fn unescape_spaces(text: &str) -> (plain: String)
    ensures
        plain@ == spec_unescape_spaces(text@),
{
    let chars = chars_of(text);
    let n = chars.len();
    let mut plain = String::new();
    let mut start: usize = 0;
    let mut i: usize = 0;
    proof {
        reveal_strlit(" ");
        assert(text@.skip(0) =~= text@);
        assert(plain@ + text@.subrange(0, 0) + spec_unescape_spaces(text@) =~= spec_unescape_spaces(
            text@,
        ));
    }
    while i < n
        invariant
            start <= i <= n == chars.len(),
            chars@ == text@,
            " "@ == seq![' '],
            spec_unescape_spaces(text@) == plain@ + text@.subrange(start as int, i as int)
                + spec_unescape_spaces(text@.skip(i as int)),
        decreases n - i,
    {
        let ghost rest = text@.skip(i as int);
        let ghost kept = text@.subrange(start as int, i as int);
        let ghost before = plain@;
        if chars[i] == '\\' && i + 1 < n && chars[i + 1] == 's' {
            plain.append(text.substring_char(start, i));
            plain.append(" ");
            proof {
                assert(escaped_space_at_start(rest));
                assert(rest.skip(2) =~= text@.skip(i + 2));
                assert(plain@ + text@.subrange(i + 2, i + 2) + spec_unescape_spaces(
                    text@.skip(i + 2),
                ) =~= before + kept + (seq![' '] + spec_unescape_spaces(rest.skip(2))));
            }
            i += 2;
            start = i;
        } else {
            proof {
                assert(!escaped_space_at_start(rest));
                assert(rest.skip(1) =~= text@.skip(i + 1));
                assert(before + text@.subrange(start as int, i + 1) + spec_unescape_spaces(
                    text@.skip(i + 1),
                ) =~= before + kept + (seq![rest[0]] + spec_unescape_spaces(rest.skip(1))));
            }
            i += 1;
        }
    }
    let ghost before = plain@;
    plain.append(text.substring_char(start, n));
    proof {
        assert(text@.skip(n as int).len() == 0);
        assert(plain@ =~= before + text@.subrange(start as int, n as int) + spec_unescape_spaces(
            text@.skip(n as int),
        ));
    }
    plain
}

/// Pieces of text as shown, one after another.
pub fn render_pieces(pieces: &Vec<RichText>) -> (text: String)
    ensures
        text@ == shown_text(rich_views(pieces@)),
{
    let ghost views = rich_views(pieces@);
    let mut text = String::new();
    let mut i: usize = 0;
    proof {
        assert(views.take(0) =~= Seq::<RichTextView>::empty());
    }
    while i < pieces.len()
        invariant
            i <= pieces.len(),
            views == rich_views(pieces@),
            text@ == shown_text(views.take(i as int)),
        decreases pieces.len() - i,
    {
        let ghost before = text@;
        match &pieces[i] {
            RichText::Text(plain) => {
                text.append(plain.as_str());
            },
            RichText::Emote(info) => {
                text.append("\x1b[32m[");
                text.append(info.emote.as_str());
                text.append("]\x1b[0m");
            },
        }
        proof {
            let next = views.take(i + 1);
            assert(next.drop_last() =~= views.take(i as int));
            assert(next.last() == pieces[i as int]@);
            assert(text@ =~= before + shown_piece(pieces[i as int]@));
        }
        i += 1;
    }
    assert(views.take(pieces.len() as int) =~= views);
    text
}

/// A sender's name as shown: in the colour of the `color` tag, where the
/// message has one that is a colour.
fn render_name(message: &Message, name: &str) -> (shown: String)
    ensures
        shown@ == shown_name(message@, name@),
{
    match tags_get(&message.tags, "color") {
        Some(hex) => match Color::from_string(hex) {
            Ok(color) => color.wrap_ansi(name),
            Err(_) => String::from_str(name),
        },
        None => String::from_str(name),
    }
}

/// The line that is shown for a message, if one is shown.
pub fn render(message: &Message) -> (line: Option<String>)
    ensures
        line.deep_view() == spec_render(message@),
{
    match &message.command {
        Command::Privmsg => {
            if message.is_channel_message() {
                let name = match message.display_name() {
                    Some(name) => name,
                    None => { return None; },
                };
                let body = match message.emotes() {
                    Ok(pieces) => render_pieces(&pieces),
                    Err(_) => message.params[1].clone(),
                };
                let mut line = message.params[0].clone();
                line.append(" <");
                line.append(render_name(message, name.as_str()).as_str());
                line.append("> ");
                line.append(body.as_str());
                assert(line@ =~= message@.params[0] + " <"@ + shown_name(message@, name@) + "> "@
                    + shown_body(message@));
                Some(line)
            } else if message.is_private_message() {
                let name = match message.display_name() {
                    Some(name) => name,
                    None => { return None; },
                };
                let mut line = String::from_str("(private) <");
                line.append(name.as_str());
                line.append("> ");
                line.append(message.params[1].as_str());
                Some(line)
            } else {
                None
            }
        },
        Command::EndOfNames => {
            if message.params.len() >= 2 {
                let mut line = String::from_str("Joined: ");
                line.append(message.params[1].as_str());
                Some(line)
            } else {
                None
            }
        },
        Command::UserNotice => match tags_get(&message.tags, "system-msg") {
            Some(text) => {
                let mut line = String::from_str("System: ");
                line.append(unescape_spaces(text.as_str()).as_str());
                Some(line)
            },
            None => None,
        },
        _ => None,
    }
}

} // verus!
