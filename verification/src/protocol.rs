//! The messages of the chat protocol and what they are in specifications.
//!
//! A line on the wire has the form
//!
//! ```text
//! [@key=value;key=value ] [:prefix ] COMMAND [param param ... [:trailing]]
//! ```
//!
//! Each executable type here has a view made of character sequences; the
//! contracts of the codec are stated over those views.

use indexmap::IndexMap;
use vstd::prelude::*;
pub use crate::parse::parse_line;
use crate::tags::{lookup, tag_entries, tags_clone, tags_get, Entry};
use crate::text::{begins_with, starts_with};

verus! {

/// Why a line, or the `emotes` tag of a message, could not be decoded.
#[derive(Debug, PartialEq)]
pub enum ParseError {
    /// The command token is not one of the protocol's verbs or replies.
    UnknownCommand(String),
    /// The line ends before any command token.
    MissingCommand,
    /// The `emotes` tag holds an offset that is no number, or spans that do
    /// not fit the text.
    InvalidEmoteString,
}

/// What a `ParseError` is in specifications.
pub enum ParseErrorView {
    UnknownCommand(Seq<char>),
    MissingCommand,
    InvalidEmoteString,
}

impl View for ParseError {
    type V = ParseErrorView;

    open spec fn view(&self) -> ParseErrorView {
        match self {
            ParseError::UnknownCommand(token) => ParseErrorView::UnknownCommand(token@),
            ParseError::MissingCommand => ParseErrorView::MissingCommand,
            ParseError::InvalidEmoteString => ParseErrorView::InvalidEmoteString,
        }
    }
}

/// The verb or numeric reply of a message.
#[derive(Debug, PartialEq)]
pub enum Command {
    /// A numeric reply that is accepted and passed on with its token.
    Misc(String),
    Ping,
    Pong,
    /// `001`
    Ready,
    /// `353`
    Names,
    /// `366`
    EndOfNames,
    Privmsg,
    Notice,
    Join,
    Part,
    Cap,
    GlobalUserState,
    UserState,
    RoomState,
    UserNotice,
}

/// What a `Command` is in specifications.
pub enum CommandView {
    Misc(Seq<char>),
    Ping,
    Pong,
    Ready,
    Names,
    EndOfNames,
    Privmsg,
    Notice,
    Join,
    Part,
    Cap,
    GlobalUserState,
    UserState,
    RoomState,
    UserNotice,
}

impl View for Command {
    type V = CommandView;

    open spec fn view(&self) -> CommandView {
        match self {
            Command::Misc(token) => CommandView::Misc(token@),
            Command::Ping => CommandView::Ping,
            Command::Pong => CommandView::Pong,
            Command::Ready => CommandView::Ready,
            Command::Names => CommandView::Names,
            Command::EndOfNames => CommandView::EndOfNames,
            Command::Privmsg => CommandView::Privmsg,
            Command::Notice => CommandView::Notice,
            Command::Join => CommandView::Join,
            Command::Part => CommandView::Part,
            Command::Cap => CommandView::Cap,
            Command::GlobalUserState => CommandView::GlobalUserState,
            Command::UserState => CommandView::UserState,
            Command::RoomState => CommandView::RoomState,
            Command::UserNotice => CommandView::UserNotice,
        }
    }
}

impl Clone for Command {
    fn clone(&self) -> (copy: Command)
        ensures
            copy@ == self@,
    {
        match self {
            Command::Misc(token) => Command::Misc(token.clone()),
            Command::Ping => Command::Ping,
            Command::Pong => Command::Pong,
            Command::Ready => Command::Ready,
            Command::Names => Command::Names,
            Command::EndOfNames => Command::EndOfNames,
            Command::Privmsg => Command::Privmsg,
            Command::Notice => Command::Notice,
            Command::Join => Command::Join,
            Command::Part => Command::Part,
            Command::Cap => Command::Cap,
            Command::GlobalUserState => Command::GlobalUserState,
            Command::UserState => Command::UserState,
            Command::RoomState => Command::RoomState,
            Command::UserNotice => Command::UserNotice,
        }
    }
}

/// Who sent a message: `nick!user@host`, `nick@host` or a bare `host`.
#[derive(Debug)]
pub struct Prefix {
    pub nick: Option<String>,
    pub user: Option<String>,
    pub host: Option<String>,
}

/// What a `Prefix` is in specifications.
pub struct PrefixView {
    pub nick: Option<Seq<char>>,
    pub user: Option<Seq<char>>,
    pub host: Option<Seq<char>>,
}

impl View for Prefix {
    type V = PrefixView;

    open spec fn view(&self) -> PrefixView {
        PrefixView {
            nick: self.nick.deep_view(),
            user: self.user.deep_view(),
            host: self.host.deep_view(),
        }
    }
}

/// A copy of an optional string.
fn clone_text(text: &Option<String>) -> (copy: Option<String>)
    ensures
        copy.deep_view() == text.deep_view(),
{
    match text {
        Some(s) => Some(s.clone()),
        None => None,
    }
}

impl Clone for Prefix {
    fn clone(&self) -> (copy: Prefix)
        ensures
            copy@ == self@,
    {
        Prefix {
            nick: clone_text(&self.nick),
            user: clone_text(&self.user),
            host: clone_text(&self.host),
        }
    }
}

/// One decoded line.
#[derive(Debug)]
pub struct Message {
    /// The tags, in the order of the line.
    pub tags: IndexMap<String, String>,
    pub prefix: Option<Prefix>,
    pub command: Command,
    pub params: Vec<String>,
    /// Whether the last parameter was introduced by a colon on the wire.
    pub had_trailing: bool,
    /// The line exactly as it was received.
    pub original_line: String,
}

/// What a `Message` is in specifications.
pub struct MessageView {
    pub tags: Seq<Entry>,
    pub prefix: Option<PrefixView>,
    pub command: CommandView,
    pub params: Seq<Seq<char>>,
    pub had_trailing: bool,
    pub original_line: Seq<char>,
}

/// The view of an optional prefix.
pub open spec fn prefix_view(prefix: Option<Prefix>) -> Option<PrefixView> {
    match prefix {
        Some(p) => Some(p@),
        None => None,
    }
}

impl View for Message {
    type V = MessageView;

    open spec fn view(&self) -> MessageView {
        MessageView {
            tags: tag_entries(self.tags),
            prefix: prefix_view(self.prefix),
            command: self.command@,
            params: self.params.deep_view(),
            had_trailing: self.had_trailing,
            original_line: self.original_line@,
        }
    }
}

impl MessageView {
    /// Whether the message has the shape of a chat message: a target and a
    /// text, from a sender with a nick.
    pub open spec fn is_valid_privmsg(self) -> bool {
        self.params.len() == 2 && (self.prefix matches Some(p) && p.nick is Some)
    }

    /// Whether the message is a chat message to a channel.
    pub open spec fn is_channel_message(self) -> bool {
        self.is_valid_privmsg() && starts_with(self.params[0], '#')
    }

    /// Whether the message is a chat message to a single user.
    pub open spec fn is_private_message(self) -> bool {
        self.is_valid_privmsg() && !starts_with(self.params[0], '#')
    }

    /// The name to show for the sender: the `display-name` tag, or without
    /// one the nick of the prefix.
    pub open spec fn display_name(self) -> Option<Seq<char>> {
        match lookup(self.tags, "display-name"@) {
            Some(name) => Some(name),
            None => match self.prefix {
                Some(p) => p.nick,
                None => None,
            },
        }
    }

    /// The same message with another command.
    pub open spec fn with_command(self, command: CommandView) -> MessageView {
        MessageView { command, ..self }
    }
}

/// A copy of a list of strings.
pub fn clone_texts(texts: &Vec<String>) -> (copy: Vec<String>)
    ensures
        copy.deep_view() == texts.deep_view(),
{
    let mut copy: Vec<String> = Vec::new();
    let mut i: usize = 0;
    while i < texts.len()
        invariant
            i <= texts.len(),
            copy.len() == i,
            forall|j: int| 0 <= j < i ==> copy[j]@ == texts[j]@,
        decreases texts.len() - i,
    {
        copy.push(texts[i].clone());
        i += 1;
    }
    assert(copy.deep_view() =~= texts.deep_view());
    copy
}

impl Clone for Message {
    fn clone(&self) -> (copy: Message)
        ensures
            copy@ == self@,
    {
        Message {
            tags: tags_clone(&self.tags),
            prefix: match &self.prefix {
                Some(p) => Some(p.clone()),
                None => None,
            },
            command: self.command.clone(),
            params: clone_texts(&self.params),
            had_trailing: self.had_trailing,
            original_line: self.original_line.clone(),
        }
    }
}

impl Message {
    /// The name to show for the sender: the `display-name` tag, or without
    /// one the nick of the prefix. `None` where the message has neither.
    pub fn display_name(&self) -> (name: Option<&String>)
        ensures
            match name {
                Some(n) => self@.display_name() == Some(n@),
                None => self@.display_name() is None,
            },
    {
        if let Some(name) = tags_get(&self.tags, "display-name") {
            Some(name)
        } else {
            match &self.prefix {
                Some(prefix) => match &prefix.nick {
                    Some(nick) => Some(nick),
                    None => None,
                },
                None => None,
            }
        }
    }

    /// Whether the message has the shape of a chat message: exactly two
    /// parameters, and a prefix with a nick.
    pub fn is_valid_privmsg(&self) -> (yes: bool)
        ensures
            yes == self@.is_valid_privmsg(),
    {
        self.params.len() == 2 && match &self.prefix {
            Some(prefix) => prefix.nick.is_some(),
            None => false,
        }
    }

    /// Whether the message is a chat message to a channel: its first
    /// parameter begins with `#`.
    pub fn is_channel_message(&self) -> (yes: bool)
        ensures
            yes == self@.is_channel_message(),
    {
        self.is_valid_privmsg() && begins_with(self.params[0].as_str(), '#')
    }

    /// Whether the message is a chat message to a single user.
    pub fn is_private_message(&self) -> (yes: bool)
        ensures
            yes == self@.is_private_message(),
    {
        self.is_valid_privmsg() && !begins_with(self.params[0].as_str(), '#')
    }

    /// A copy of the message in which only the command is another.
    pub fn with_command(&self, new_command: Command) -> (message: Message)
        ensures
            message@ == self@.with_command(new_command@),
    {
        Message {
            tags: tags_clone(&self.tags),
            prefix: match &self.prefix {
                Some(p) => Some(p.clone()),
                None => None,
            },
            command: new_command,
            params: clone_texts(&self.params),
            had_trailing: self.had_trailing,
            original_line: self.original_line.clone(),
        }
    }
}

/// An emote in the text of a message.
#[derive(Debug, PartialEq)]
pub struct EmoteInfo {
    /// The emote's identifier, as the tag gives it.
    pub id: String,
    /// The piece of the text that stands for the emote.
    pub emote: String,
}

/// What an `EmoteInfo` is in specifications.
pub struct EmoteInfoView {
    pub id: Seq<char>,
    pub emote: Seq<char>,
}

impl View for EmoteInfo {
    type V = EmoteInfoView;

    open spec fn view(&self) -> EmoteInfoView {
        EmoteInfoView { id: self.id@, emote: self.emote@ }
    }
}

/// A piece of a message's text: plain text, or an emote.
#[derive(Debug, PartialEq)]
pub enum RichText {
    Text(String),
    Emote(EmoteInfo),
}

/// What a `RichText` is in specifications.
pub enum RichTextView {
    Text(Seq<char>),
    Emote(EmoteInfoView),
}

impl View for RichText {
    type V = RichTextView;

    open spec fn view(&self) -> RichTextView {
        match self {
            RichText::Text(text) => RichTextView::Text(text@),
            RichText::Emote(info) => RichTextView::Emote(info@),
        }
    }
}

impl RichTextView {
    /// The characters of the text that this piece covers.
    pub open spec fn literal(self) -> Seq<char> {
        match self {
            RichTextView::Text(text) => text,
            RichTextView::Emote(info) => info.emote,
        }
    }
}

} // verus!
