//! Decoding one line into a message.
//!
//! The line is read in four steps, each of which takes what the step before
//! it left over: tags, prefix, command, parameters. For each step there is a
//! specification function over character sequences and an executable
//! function that is proved to compute it.
//!
//! Keys and values of tags are taken as they stand on the wire: escape
//! sequences in them are not resolved here.

use indexmap::IndexMap;
use vstd::prelude::*;
use crate::protocol::{
    Command, CommandView, Message, MessageView, ParseError, ParseErrorView, Prefix, PrefixView,
    prefix_view,
};
use crate::tags::{insert_all, insert_entry, tag_entries, tags_insert, tags_new, Entry};
use crate::text::{
    chars_of, find, find_between, find_marker, find_marker_from, lemma_find, lemma_find_marker,
    split, split_between, split_once, starts_with, text_between,
};

verus! {

/// The command that a token of the wire stands for, if it stands for one.
/// The numeric replies `002`, `003`, `004`, `372`, `375` and `376` are
/// accepted without a meaning of their own and keep their token; any token
/// that is not named here stands for no command.
pub open spec fn command_of(token: Seq<char>) -> Option<CommandView> {
    if token == "001"@ {
        Some(CommandView::Ready)
    } else if token == "002"@ || token == "003"@ || token == "004"@ || token == "375"@ || token
        == "372"@ || token == "376"@ {
        Some(CommandView::Misc(token))
    } else if token == "353"@ {
        Some(CommandView::Names)
    } else if token == "366"@ {
        Some(CommandView::EndOfNames)
    } else if token == "PING"@ {
        Some(CommandView::Ping)
    } else if token == "PONG"@ {
        Some(CommandView::Pong)
    } else if token == "PRIVMSG"@ {
        Some(CommandView::Privmsg)
    } else if token == "NOTICE"@ {
        Some(CommandView::Notice)
    } else if token == "JOIN"@ {
        Some(CommandView::Join)
    } else if token == "PART"@ {
        Some(CommandView::Part)
    } else if token == "CAP"@ {
        Some(CommandView::Cap)
    } else if token == "GLOBALUSERSTATE"@ {
        Some(CommandView::GlobalUserState)
    } else if token == "USERSTATE"@ {
        Some(CommandView::UserState)
    } else if token == "ROOMSTATE"@ {
        Some(CommandView::RoomState)
    } else if token == "USERNOTICE"@ {
        Some(CommandView::UserNotice)
    } else {
        None
    }
}

/// The tag that one `;`-separated piece of the tag segment stands for: key
/// and value are parted by the first `=`; without one the value is empty.
pub open spec fn tag_of(part: Seq<char>) -> Entry {
    match split_once(part, '=') {
        Some((key, value)) => (key, value),
        None => (part, Seq::empty()),
    }
}

/// The tags that a tag segment (without its `@`) stands for. Of a key that
/// occurs more than once the first occurrence fixes the place and the last
/// one the value.
pub open spec fn tags_of(segment: Seq<char>) -> Seq<Entry> {
    insert_all(Seq::empty(), split(segment, ';').map_values(|part: Seq<char>| tag_of(part)))
}

/// What follows the first space of `line`; nothing when it has no space.
pub open spec fn after_space(line: Seq<char>) -> Seq<char> {
    let end = find(line, ' ');
    if 0 <= end < line.len() {
        line.skip(end + 1)
    } else {
        Seq::empty()
    }
}

/// The tags of a line and what follows them.
pub open spec fn spec_extract_tags(line: Seq<char>) -> (Seq<Entry>, Seq<char>) {
    if starts_with(line, '@') {
        (tags_of(line.subrange(1, find(line, ' '))), after_space(line))
    } else {
        (Seq::empty(), line)
    }
}

/// The prefix that a prefix token (without its `:`) stands for.
pub open spec fn prefix_of(token: Seq<char>) -> PrefixView {
    match split_once(token, '@') {
        Some((nick_user, host)) => match split_once(nick_user, '!') {
            Some((nick, user)) => PrefixView {
                nick: Some(nick),
                user: Some(user),
                host: Some(host),
            },
            None => PrefixView { nick: Some(nick_user), user: None, host: Some(host) },
        },
        None => PrefixView { nick: None, user: None, host: Some(token) },
    }
}

/// The prefix of a line, if it has one, and what follows it. A prefix that
/// nothing follows leaves no command.
pub open spec fn spec_extract_prefix(line: Seq<char>) -> Result<
    (Option<PrefixView>, Seq<char>),
    ParseErrorView,
> {
    if starts_with(line, ':') {
        let end = find(line, ' ');
        if 0 <= end < line.len() {
            Ok((Some(prefix_of(line.subrange(1, end))), line.skip(end + 1)))
        } else {
            Err(ParseErrorView::MissingCommand)
        }
    } else {
        Ok((None, line))
    }
}

/// The command of a line and what follows it. The token runs up to the
/// first space.
pub open spec fn spec_extract_command(line: Seq<char>) -> Result<
    (CommandView, Seq<char>),
    ParseErrorView,
> {
    if line.len() == 0 {
        Err(ParseErrorView::MissingCommand)
    } else {
        let token = line.take(find(line, ' '));
        match command_of(token) {
            Some(command) => Ok((command, after_space(line))),
            None => Err(ParseErrorView::UnknownCommand(token)),
        }
    }
}

/// The parameters that a space-separated list stands for; an empty list
/// stands for none.
pub open spec fn spec_to_params(list: Seq<char>) -> Seq<Seq<char>> {
    if list.len() == 0 {
        Seq::empty()
    } else {
        split(list, ' ')
    }
}

/// The parameters of a line after its command, and whether the last one
/// was introduced by a colon.
pub open spec fn spec_extract_params(line: Seq<char>) -> (Seq<Seq<char>>, bool) {
    if starts_with(line, ':') {
        (seq![line.skip(1)], true)
    } else {
        let at = find_marker(line);
        if 0 <= at < line.len() {
            (spec_to_params(line.take(at)).push(line.skip(at + 2)), true)
        } else {
            (spec_to_params(line), false)
        }
    }
}

/// The message that a line stands for, or why it stands for none.
pub open spec fn spec_parse(line: Seq<char>) -> Result<MessageView, ParseErrorView> {
    let (tags, after_tags) = spec_extract_tags(line);
    match spec_extract_prefix(after_tags) {
        Err(e) => Err(e),
        Ok((prefix, after_prefix)) => match spec_extract_command(after_prefix) {
            Err(e) => Err(e),
            Ok((command, after_command)) => {
                let (params, had_trailing) = spec_extract_params(after_command);
                Ok(
                    MessageView {
                        tags,
                        prefix,
                        command,
                        params,
                        had_trailing,
                        original_line: line,
                    },
                )
            },
        },
    }
}

/// Whether the characters are exactly those of `text`.
fn is_text(chars: &Vec<char>, text: &str) -> (same: bool)
    ensures
        same == (chars@ == text@),
{
    let mut i: usize = 0;
    for c in it: text.chars()
        invariant
            i == it.index(),
            i <= chars.len(),
            it.seq() == text@,
            forall|j: int| 0 <= j < i ==> chars[j] == text@[j],
    {
        if i >= chars.len() || chars[i] != c {
            return false;
        }
        i += 1;
    }
    assert(i == chars.len() ==> chars@ =~= text@);
    i == chars.len()
}

/// Looks a command token up in the protocol's table.
pub fn map_command(cmd: &str) -> (r: Result<Command, ParseError>)
    ensures
        match command_of(cmd@) {
            Some(command) => r matches Ok(c) && c@ == command,
            None => r matches Err(e) && e@ == ParseErrorView::UnknownCommand(cmd@),
        },
{
    let chars = chars_of(cmd);
    if is_text(&chars, "001") {
        Ok(Command::Ready)
    } else if is_text(&chars, "002") || is_text(&chars, "003") || is_text(&chars, "004")
        || is_text(&chars, "375") || is_text(&chars, "372") || is_text(&chars, "376") {
        Ok(Command::Misc(String::from_str(cmd)))
    } else if is_text(&chars, "353") {
        Ok(Command::Names)
    } else if is_text(&chars, "366") {
        Ok(Command::EndOfNames)
    } else if is_text(&chars, "PING") {
        Ok(Command::Ping)
    } else if is_text(&chars, "PONG") {
        Ok(Command::Pong)
    } else if is_text(&chars, "PRIVMSG") {
        Ok(Command::Privmsg)
    } else if is_text(&chars, "NOTICE") {
        Ok(Command::Notice)
    } else if is_text(&chars, "JOIN") {
        Ok(Command::Join)
    } else if is_text(&chars, "PART") {
        Ok(Command::Part)
    } else if is_text(&chars, "CAP") {
        Ok(Command::Cap)
    } else if is_text(&chars, "GLOBALUSERSTATE") {
        Ok(Command::GlobalUserState)
    } else if is_text(&chars, "USERSTATE") {
        Ok(Command::UserState)
    } else if is_text(&chars, "ROOMSTATE") {
        Ok(Command::RoomState)
    } else if is_text(&chars, "USERNOTICE") {
        Ok(Command::UserNotice)
    } else {
        Err(ParseError::UnknownCommand(String::from_str(cmd)))
    }
}

/// What follows position `end` of `line`, where `end` is its first space or
/// its length.
fn rest_after<'a>(line: &'a str, end: usize) -> (rest: &'a str)
    requires
        end == find(line@, ' '),
    ensures
        rest@ == after_space(line@),
{
    proof {
        lemma_find(line@, ' ');
    }
    let n = line.unicode_len();
    if end < n {
        line.substring_char(end + 1, n)
    } else {
        let rest = line.substring_char(n, n);
        assert(rest@ =~= Seq::<char>::empty());
        rest
    }
}

/// Reads the tag segment of a line, if it begins with one. Never fails.
pub fn extract_tags(line: &str) -> (r: Result<(IndexMap<String, String>, &str), ParseError>)
    ensures
        r matches Ok((tags, rest)) && (tag_entries(tags), rest@) == spec_extract_tags(line@),
{
    let chars = chars_of(line);
    let n = chars.len();
    let mut tags = tags_new();
    if n == 0 || chars[0] != '@' {
        return Ok((tags, line));
    }
    let end = find_between(&chars, ' ', 0, n);
    proof {
        assert(chars@.subrange(0, n as int) == line@);
        lemma_find(line@, ' ');
    }
    let ghost segment = line@.subrange(1, end as int);
    let ghost of = |part: Seq<char>| tag_of(part);
    let mut start: usize = 1;
    loop
        invariant_except_break
            tags_of(segment) == insert_all(
                tag_entries(tags),
                split(line@.subrange(start as int, end as int), ';').map_values(of),
            ),
        invariant
            chars@ == line@,
            1 <= start <= end <= n == chars.len(),
            segment == line@.subrange(1, end as int),
            of == |part: Seq<char>| tag_of(part),
        ensures
            tags_of(segment) == tag_entries(tags),
        decreases end - start,
    {
        let stop = find_between(&chars, ';', start, end);
        let eq = find_between(&chars, '=', start, stop);
        let ghost tail = line@.subrange(start as int, end as int);
        let ghost part = line@.subrange(start as int, stop as int);
        let ghost before = tag_entries(tags);
        proof {
            lemma_find(tail, ';');
            assert(tail.take(stop - start) == part);
            assert(chars@.subrange(start as int, stop as int) == part);
            lemma_find(part, '=');
        }
        let key;
        let value;
        if eq < stop {
            key = text_between(line, start, eq);
            value = text_between(line, eq + 1, stop);
            proof {
                assert(part.take(eq - start) == key@);
                assert(part.skip(eq - start + 1) == value@);
            }
        } else {
            key = text_between(line, start, stop);
            value = String::new();
        }
        assert((key@, value@) == tag_of(part));
        tags_insert(&mut tags, key, value);
        let ghost parts = split(tail, ';').map_values(of);
        if stop == end {
            proof {
                assert(split(tail, ';') == seq![tail]);
                assert(parts[0] == tag_of(part));
                assert(parts.drop_first() == Seq::<Entry>::empty());
                assert(insert_all(before, parts) == insert_all(
                    insert_entry(before, parts[0].0, parts[0].1),
                    parts.drop_first(),
                ));
            }
            break ;
        }
        proof {
            let next = line@.subrange(stop + 1, end as int);
            assert(tail.skip(stop - start + 1) == next);
            assert(split(tail, ';') == seq![part] + split(next, ';'));
            assert(parts[0] == tag_of(part));
            assert(parts.drop_first() == split(next, ';').map_values(of));
        }
        start = stop + 1;
    }
    Ok((tags, rest_after(line, end)))
}

/// Reads the prefix token of a line, if it begins with one. Fails with
/// `MissingCommand` when the line ends with the token.
pub fn extract_prefix(line: &str) -> (r: Result<(Option<Prefix>, &str), ParseError>)
    ensures
        match spec_extract_prefix(line@) {
            Ok((prefix, rest)) => r matches Ok((p, s)) && prefix_view(p) == prefix && s@ == rest,
            Err(e) => r matches Err(x) && x@ == e,
        },
{
    let chars = chars_of(line);
    let n = chars.len();
    if n == 0 || chars[0] != ':' {
        return Ok((None, line));
    }
    let end = find_between(&chars, ' ', 0, n);
    proof {
        assert(chars@.subrange(0, n as int) == line@);
        lemma_find(line@, ' ');
    }
    if end == n {
        return Err(ParseError::MissingCommand);
    }
    let ghost token = line@.subrange(1, end as int);
    let at = find_between(&chars, '@', 1, end);
    proof {
        assert(chars@.subrange(1, end as int) == token);
        lemma_find(token, '@');
    }
    let prefix = if at < end {
        let host = text_between(line, at + 1, end);
        let bang = find_between(&chars, '!', 1, at);
        let ghost nick_user = token.take(at - 1);
        proof {
            assert(token.skip(at - 1 + 1) == host@);
            assert(chars@.subrange(1, at as int) == nick_user);
            lemma_find(nick_user, '!');
        }
        if bang < at {
            let nick = text_between(line, 1, bang);
            let user = text_between(line, bang + 1, at);
            proof {
                assert(nick_user.take(bang - 1) == nick@);
                assert(nick_user.skip(bang - 1 + 1) == user@);
            }
            Prefix { nick: Some(nick), user: Some(user), host: Some(host) }
        } else {
            let nick = text_between(line, 1, at);
            Prefix { nick: Some(nick), user: None, host: Some(host) }
        }
    } else {
        Prefix { nick: None, user: None, host: Some(text_between(line, 1, end)) }
    };
    assert(prefix@ == prefix_of(token));
    let rest = rest_after(line, end);
    Ok((Some(prefix), rest))
}

/// Reads the command token of a line. Fails with `MissingCommand` on an
/// empty line and with `UnknownCommand` on a token that the table lacks.
pub fn extract_command(line: &str) -> (r: Result<(Command, &str), ParseError>)
    ensures
        match spec_extract_command(line@) {
            Ok((command, rest)) => r matches Ok((c, s)) && c@ == command && s@ == rest,
            Err(e) => r matches Err(x) && x@ == e,
        },
{
    let chars = chars_of(line);
    let n = chars.len();
    if n == 0 {
        return Err(ParseError::MissingCommand);
    }
    let end = find_between(&chars, ' ', 0, n);
    proof {
        assert(chars@.subrange(0, n as int) == line@);
        lemma_find(line@, ' ');
    }
    let token = line.substring_char(0, end);
    match map_command(token) {
        Ok(command) => Ok((command, rest_after(line, end))),
        Err(e) => Err(e),
    }
}

/// The parameters of a space-separated list, followed by the trailing
/// parameter if there is one.
pub fn to_params(param_string: &str, trailing: Option<&str>) -> (params: Vec<String>)
    ensures
        params.deep_view() == match trailing {
            Some(last) => spec_to_params(param_string@).push(last@),
            None => spec_to_params(param_string@),
        },
{
    let chars = chars_of(param_string);
    let mut params = if chars.len() == 0 {
        Vec::new()
    } else {
        proof {
            assert(param_string@.subrange(0, chars.len() as int) == param_string@);
        }
        split_between(param_string, &chars, ' ', 0, chars.len())
    };
    assert(params.deep_view() =~= spec_to_params(param_string@));
    match trailing {
        Some(last) => {
            let ghost before = params.deep_view();
            params.push(String::from_str(last));
            assert(params.deep_view() =~= before.push(last@));
        },
        None => {},
    }
    params
}

/// Reads the parameters of a line after its command: the list, whether its
/// last parameter was introduced by a colon, and what is left of the line,
/// which is nothing. Never fails.
pub fn extract_params(line: &str) -> (r: Result<(Vec<String>, bool, &str), ParseError>)
    ensures
        r matches Ok((params, had_trailing, rest)) && (params.deep_view(), had_trailing)
            == spec_extract_params(line@) && rest@ == Seq::<char>::empty(),
{
    let chars = chars_of(line);
    let n = chars.len();
    let rest = line.substring_char(n, n);
    assert(rest@ =~= Seq::<char>::empty());
    if n > 0 && chars[0] == ':' {
        let mut params: Vec<String> = Vec::new();
        params.push(text_between(line, 1, n));
        assert(params.deep_view() =~= seq![line@.skip(1)]);
        return Ok((params, true, rest));
    }
    let at = find_marker_from(&chars, 0);
    proof {
        assert(chars@.skip(0) == line@);
        lemma_find_marker(line@);
    }
    if at < n {
        let params = to_params(line.substring_char(0, at), Some(line.substring_char(at + 2, n)));
        Ok((params, true, rest))
    } else {
        let params = to_params(line, None);
        Ok((params, false, rest))
    }
}

/// Decodes one line. The error is that of the first step that fails.
pub fn parse_line(line: &str) -> (r: Result<Message, ParseError>)
    ensures
        match spec_parse(line@) {
            Ok(message) => r matches Ok(m) && m@ == message,
            Err(e) => r matches Err(x) && x@ == e,
        },
{
    let original_line = String::from_str(line);
    let (tags, after_tags) = match extract_tags(line) {
        Ok(found) => found,
        Err(e) => { return Err(e); },
    };
    let (prefix, after_prefix) = match extract_prefix(after_tags) {
        Ok(found) => found,
        Err(e) => { return Err(e); },
    };
    let (command, after_command) = match extract_command(after_prefix) {
        Ok(found) => found,
        Err(e) => { return Err(e); },
    };
    let (params, had_trailing, _) = match extract_params(after_command) {
        Ok(found) => found,
        Err(e) => { return Err(e); },
    };
    Ok(Message { tags, prefix, command, params, had_trailing, original_line })
}

} // verus!
