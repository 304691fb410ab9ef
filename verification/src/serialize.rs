//! Writing a message back in the form of the wire.

use vstd::prelude::*;
use crate::protocol::{Command, CommandView, Message, MessageView, Prefix, PrefixView};
use crate::tags::{tag_entries, tags_get_index, tags_len, Entry};
use crate::text::{begins_with, has_char, join, starts_with};

verus! {

/// The token that stands for a command on the wire.
pub open spec fn token_of(command: CommandView) -> Seq<char> {
    match command {
        CommandView::Misc(token) => token,
        CommandView::Ready => "001"@,
        CommandView::Names => "353"@,
        CommandView::EndOfNames => "366"@,
        CommandView::Ping => "PING"@,
        CommandView::Pong => "PONG"@,
        CommandView::Privmsg => "PRIVMSG"@,
        CommandView::Notice => "NOTICE"@,
        CommandView::Join => "JOIN"@,
        CommandView::Part => "PART"@,
        CommandView::Cap => "CAP"@,
        CommandView::GlobalUserState => "GLOBALUSERSTATE"@,
        CommandView::UserState => "USERSTATE"@,
        CommandView::RoomState => "ROOMSTATE"@,
        CommandView::UserNotice => "USERNOTICE"@,
    }
}

/// `lead` followed by `part`, where there is a part.
pub open spec fn with_lead(lead: char, part: Option<Seq<char>>) -> Seq<char> {
    match part {
        Some(text) => seq![lead] + text,
        None => Seq::empty(),
    }
}

/// A prefix as text, in one of the forms `nick!user@host`, `nick@host` and
/// `host`: with a nick, the nick, then `!` and the user, then `@` and the
/// host, each of the two only if it is there; without a nick, the host
/// alone.
pub open spec fn prefix_text(prefix: PrefixView) -> Seq<char> {
    match prefix.nick {
        Some(nick) => nick + with_lead('!', prefix.user) + with_lead('@', prefix.host),
        None => match prefix.host {
            Some(host) => host,
            None => Seq::empty(),
        },
    }
}

/// One tag as text: `key=value`.
pub open spec fn tag_text(entry: Entry) -> Seq<char> {
    entry.0 + seq!['='] + entry.1
}

/// The tags as text, `;` between neighbours.
pub open spec fn tags_text(entries: Seq<Entry>) -> Seq<char> {
    join(entries.map_values(|entry: Entry| tag_text(entry)), seq![';'])
}

/// Whether the last of `params` is written behind a colon: when it was
/// read so, and when it could not be read back otherwise.
pub open spec fn colon_needed(params: Seq<Seq<char>>, had_trailing: bool) -> bool {
    had_trailing || params.last().contains(' ') || starts_with(params.last(), ':')
}

/// The parameters as text: each behind a space, the last one behind a space
/// and a colon where `colon_needed` says so.
pub open spec fn params_text(params: Seq<Seq<char>>, had_trailing: bool) -> Seq<char>
    decreases params.len(),
{
    if params.len() == 0 {
        Seq::empty()
    } else if params.len() == 1 {
        if colon_needed(params, had_trailing) {
            seq![' ', ':'] + params[0]
        } else {
            seq![' '] + params[0]
        }
    } else {
        seq![' '] + params[0] + params_text(params.drop_first(), had_trailing)
    }
}

/// The tag segment of a line with the space that ends it; nothing when the
/// tags as text are empty.
pub open spec fn tags_segment(entries: Seq<Entry>) -> Seq<char> {
    if tags_text(entries).len() > 0 {
        seq!['@'] + tags_text(entries) + seq![' ']
    } else {
        Seq::empty()
    }
}

/// The prefix of a line, behind the colon that marks it and with the space
/// that ends it; nothing without a prefix.
pub open spec fn prefix_segment(prefix: Option<PrefixView>) -> Seq<char> {
    match prefix {
        Some(p) => seq![':'] + prefix_text(p) + seq![' '],
        None => Seq::empty(),
    }
}

/// A message in the form of the wire, without line ending.
pub open spec fn spec_serialize(message: MessageView) -> Seq<char> {
    tags_segment(message.tags) + prefix_segment(message.prefix) + token_of(message.command)
        + params_text(message.params, message.had_trailing)
}

/// Joining one more part adds the separator and the part, or the part alone
/// when it is the first.
pub proof fn lemma_join_push(parts: Seq<Seq<char>>, sep: Seq<char>, part: Seq<char>)
    ensures
        join(parts.push(part), sep) == if parts.len() == 0 {
            part
        } else {
            join(parts, sep) + sep + part
        },
    decreases parts.len(),
{
    let all = parts.push(part);
    if parts.len() == 0 {
    } else if parts.len() == 1 {
        assert(all.drop_first() == seq![part]);
        assert(join(all.drop_first(), sep) == part);
    } else {
        let rest = parts.drop_first();
        lemma_join_push(rest, sep, part);
        assert(all.drop_first() == rest.push(part));
        assert(parts[0] + sep + (join(rest, sep) + sep + part) == parts[0] + sep + join(rest, sep)
            + sep + part);
    }
}

/// The token that stands for a command on the wire.
pub fn map_command_back(cmd: &Command) -> (token: String)
    ensures
        token@ == token_of(cmd@),
{
    match cmd {
        Command::Misc(v) => v.clone(),
        Command::Ready => String::from_str("001"),
        Command::Names => String::from_str("353"),
        Command::EndOfNames => String::from_str("366"),
        Command::Ping => String::from_str("PING"),
        Command::Pong => String::from_str("PONG"),
        Command::Privmsg => String::from_str("PRIVMSG"),
        Command::Notice => String::from_str("NOTICE"),
        Command::Join => String::from_str("JOIN"),
        Command::Part => String::from_str("PART"),
        Command::Cap => String::from_str("CAP"),
        Command::GlobalUserState => String::from_str("GLOBALUSERSTATE"),
        Command::UserState => String::from_str("USERSTATE"),
        Command::RoomState => String::from_str("ROOMSTATE"),
        Command::UserNotice => String::from_str("USERNOTICE"),
    }
}

/// Appends `lead` and `part`, where there is a part.
fn push_with_lead(out: &mut String, lead: &str, part: &Option<String>)
    requires
        lead@.len() == 1,
    ensures
        final(out)@ == old(out)@ + with_lead(lead@[0], part.deep_view()),
{
    match part {
        Some(text) => {
            out.append(lead);
            out.append(text.as_str());
            assert(out@ =~= old(out)@ + (seq![lead@[0]] + text@));
        },
        None => {
            assert(out@ =~= old(out)@ + Seq::<char>::empty());
        },
    }
}

impl Prefix {
    /// The prefix as it stands in a line behind the colon that marks it:
    /// `nick!user@host`, `nick@host` or `host`.
    pub fn to_string(&self) -> (text: String)
        ensures
            text@ == prefix_text(self@),
    {
        match &self.nick {
            Some(nick) => {
                let mut s = nick.clone();
                proof {
                    reveal_strlit("!");
                    reveal_strlit("@");
                }
                push_with_lead(&mut s, "!", &self.user);
                push_with_lead(&mut s, "@", &self.host);
                s
            },
            None => match &self.host {
                Some(host) => host.clone(),
                None => String::new(),
            },
        }
    }
}

impl Message {
    /// The tags as text, `;` between neighbours.
    fn tags_to_string(&self) -> (text: String)
        ensures
            text@ == tags_text(self@.tags),
    {
        let ghost entries = tag_entries(self.tags);
        let ghost of = |entry: Entry| tag_text(entry);
        let ghost texts = entries.map_values(of);
        let ghost sep = seq![';'];
        let mut s = String::new();
        let n = tags_len(&self.tags);
        let mut i: usize = 0;
        proof {
            reveal_strlit(";");
            reveal_strlit("=");
            assert(texts.take(0) =~= Seq::<Seq<char>>::empty());
        }
        while i < n
            invariant
                i <= n == entries.len(),
                entries == tag_entries(self.tags),
                of == |entry: Entry| tag_text(entry),
                texts == entries.map_values(of),
                sep == seq![';'],
                ";"@ == seq![';'],
                "="@ == seq!['='],
                s@ == join(texts.take(i as int), sep),
            decreases n - i,
        {
            if let Some((key, value)) = tags_get_index(&self.tags, i) {
                let ghost before = s@;
                if i > 0 {
                    s.append(";");
                }
                s.append(key.as_str());
                s.append("=");
                s.append(value.as_str());
                proof {
                    let done = texts.take(i as int);
                    assert(texts[i as int] == key@ + seq!['='] + value@);
                    lemma_join_push(done, sep, texts[i as int]);
                    assert(texts.take(i + 1) =~= done.push(texts[i as int]));
                    assert(s@ =~= if i > 0 {
                        before + sep + texts[i as int]
                    } else {
                        texts[i as int]
                    });
                }
            }
            i += 1;
        }
        assert(texts.take(n as int) =~= texts);
        s
    }

    /// The message in the form of the wire, without line ending: the tags
    /// behind `@` if it has any, the prefix behind `:` if it has one, the
    /// command token, and the parameters.
    pub fn to_string(&self) -> (line: String)
        ensures
            line@ == spec_serialize(self@),
    {
        proof {
            reveal_strlit("@");
            reveal_strlit(":");
            reveal_strlit(" ");
            reveal_strlit(" :");
        }
        let mut s = String::new();
        let tags = self.tags_to_string();
        if !tags.as_str().is_empty() {
            s.append("@");
            s.append(tags.as_str());
            s.append(" ");
        }
        assert(s@ =~= tags_segment(self@.tags));
        if let Some(prefix) = &self.prefix {
            let text = prefix.to_string();
            s.append(":");
            s.append(text.as_str());
            s.append(" ");
        }
        assert(s@ =~= tags_segment(self@.tags) + prefix_segment(self@.prefix));
        let token = map_command_back(&self.command);
        s.append(token.as_str());
        let ghost head = s@;
        let ghost params = self.params.deep_view();
        let n = self.params.len();
        let mut i: usize = 0;
        assert(params.skip(0) =~= params);
        while i < n
            invariant
                i <= n == self.params.len(),
                params == self.params.deep_view(),
                " "@ == seq![' '],
                " :"@ == seq![' ', ':'],
                s@ + params_text(params.skip(i as int), self.had_trailing) == head + params_text(
                    params,
                    self.had_trailing,
                ),
            decreases n - i,
        {
            let param = self.params[i].as_str();
            let ghost rest = params.skip(i as int);
            let ghost before = s@;
            proof {
                assert(rest[0] == param@);
                assert(rest.last() == params.last());
                assert(rest.drop_first() =~= params.skip(i + 1));
            }
            if i == n - 1 && (self.had_trailing || has_char(param, ' ') || begins_with(param, ':')) {
                s.append(" :");
            } else {
                s.append(" ");
            }
            s.append(param);
            proof {
                let tail = params_text(rest.drop_first(), self.had_trailing);
                if i == n - 1 {
                    assert(rest.len() == 1);
                    assert(tail =~= Seq::<char>::empty());
                    assert(s@ + tail =~= before + params_text(rest, self.had_trailing));
                } else {
                    assert(rest.len() > 1);
                    assert(s@ + tail =~= before + params_text(rest, self.had_trailing));
                }
            }
            i += 1;
        }
        assert(params_text(params.skip(n as int), self.had_trailing) =~= Seq::<char>::empty());
        assert(s@ =~= head + params_text(params, self.had_trailing));
        s
    }
}

} // verus!
