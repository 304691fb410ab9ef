//! Reading back what was written.
//!
//! A message that was read from a line, written and read again is the same
//! message. The written line itself may differ from the first one: a tag
//! without `=` gets one, a repeated tag is written once, and spaces before
//! a lone trailing parameter are not kept.

use vstd::prelude::*;
use crate::parse::{
    after_space, command_of, prefix_of, spec_extract_command, spec_extract_params,
    spec_extract_prefix, spec_extract_tags, spec_parse, spec_to_params, tag_of, tags_of,
};
use crate::protocol::{CommandView, MessageView, ParseErrorView, PrefixView};
use crate::serialize::{
    colon_needed, params_text, prefix_segment, prefix_text, spec_serialize, tag_text,
    tags_segment, tags_text, token_of,
};
use crate::tags::{
    distinct_keys, insert_all, insert_entry, keys, lemma_insert_all_fresh,
    lemma_insert_all_keeps_distinct, Entry,
};
use crate::text::{
    find, find_marker, join, lacks, lemma_find, lemma_find_after, lemma_find_lacks,
    lemma_find_marker, lemma_find_marker_is, lemma_split_join, lemma_split_pieces, marker_at,
    split, split_once, starts_with,
};

verus! {

/// Whether a tag comes back when it is written and read: its key holds no
/// `=`, and neither key nor value holds a `;` or a space.
pub open spec fn plain(entry: Entry) -> bool {
    lacks(entry.0, '=') && lacks(entry.0, ';') && lacks(entry.0, ' ') && lacks(entry.1, ';')
        && lacks(entry.1, ' ')
}

/// Whether every tag is plain.
pub open spec fn all_plain(entries: Seq<Entry>) -> bool {
    forall|i: int| 0 <= i < entries.len() ==> plain(#[trigger] entries[i])
}

/// The parameters, each behind a single space.
pub open spec fn spaced(params: Seq<Seq<char>>) -> Seq<char>
    decreases params.len(),
{
    if params.len() == 0 {
        Seq::empty()
    } else {
        seq![' '] + params[0] + spaced(params.drop_first())
    }
}

/// A part of a text lacks what the text lacks.
pub proof fn lemma_part_lacks(s: Seq<char>, from: int, to: int, c: char)
    requires
        lacks(s, c),
        0 <= from <= to <= s.len(),
    ensures
        lacks(s.subrange(from, to), c),
{
    let part = s.subrange(from, to);
    assert forall|i: int| 0 <= i < part.len() implies part[i] != c by {
        assert(part[i] == s[from + i]);
    }
}

/// Two texts one after the other lack what both lack.
pub proof fn lemma_add_lacks(a: Seq<char>, b: Seq<char>, c: char)
    requires
        lacks(a, c),
        lacks(b, c),
    ensures
        lacks(a + b, c),
{
    let whole = a + b;
    assert forall|i: int| 0 <= i < whole.len() implies whole[i] != c by {
        if i < a.len() {
            assert(whole[i] == a[i]);
        } else {
            assert(whole[i] == b[i - a.len()]);
        }
    }
}

/// Parts joined lack what each part and the separator lack.
pub proof fn lemma_join_lacks(parts: Seq<Seq<char>>, sep: Seq<char>, c: char)
    requires
        lacks(sep, c),
        forall|i: int| 0 <= i < parts.len() ==> lacks(#[trigger] parts[i], c),
    ensures
        lacks(join(parts, sep), c),
    decreases parts.len(),
{
    if parts.len() >= 2 {
        let rest = parts.drop_first();
        assert forall|i: int| 0 <= i < rest.len() implies lacks(#[trigger] rest[i], c) by {
            assert(rest[i] == parts[i + 1]);
        }
        lemma_join_lacks(rest, sep, c);
        lemma_add_lacks(parts[0], sep, c);
        lemma_add_lacks(parts[0] + sep, join(rest, sep), c);
    } else if parts.len() == 1 {
        assert(lacks(parts[0], c));
    }
}

/// A piece of a tag segment stands for a plain tag.
pub proof fn lemma_tag_of_plain(part: Seq<char>)
    requires
        lacks(part, ';'),
        lacks(part, ' '),
    ensures
        plain(tag_of(part)),
{
    lemma_find(part, '=');
    let at = find(part, '=');
    if at < part.len() {
        lemma_part_lacks(part, 0, at, ';');
        lemma_part_lacks(part, 0, at, ' ');
        lemma_part_lacks(part, at + 1, part.len() as int, ';');
        lemma_part_lacks(part, at + 1, part.len() as int, ' ');
        assert(lacks(part.take(at), '='));
    } else {
        lemma_find_lacks(part, '=');
    }
}

/// A plain tag comes back when it is written and read.
pub proof fn lemma_tag_text(entry: Entry)
    requires
        plain(entry),
    ensures
        tag_of(tag_text(entry)) == entry,
        lacks(tag_text(entry), ';'),
        lacks(tag_text(entry), ' '),
        tag_text(entry).len() > 0,
{
    lemma_find_after(entry.0, '=', entry.1);
    lemma_add_lacks(entry.0, seq!['='], ';');
    lemma_add_lacks(entry.0 + seq!['='], entry.1, ';');
    lemma_add_lacks(entry.0, seq!['='], ' ');
    lemma_add_lacks(entry.0 + seq!['='], entry.1, ' ');
}

/// Storing a plain tag among plain tags leaves them plain, and leaves at
/// least one.
pub proof fn lemma_insert_plain(entries: Seq<Entry>, key: Seq<char>, value: Seq<char>)
    requires
        all_plain(entries),
        plain((key, value)),
    ensures
        all_plain(insert_entry(entries, key, value)),
        insert_entry(entries, key, value).len() > 0,
        insert_entry(entries, key, value).len() >= entries.len(),
{
    lemma_find(keys(entries), key);
}

/// Storing plain tags among plain tags leaves them plain.
pub proof fn lemma_insert_all_plain(entries: Seq<Entry>, more: Seq<Entry>)
    requires
        all_plain(entries),
        all_plain(more),
    ensures
        all_plain(insert_all(entries, more)),
        insert_all(entries, more).len() >= entries.len(),
        more.len() > 0 ==> insert_all(entries, more).len() > 0,
    decreases more.len(),
{
    if more.len() > 0 {
        lemma_insert_plain(entries, more[0].0, more[0].1);
        let rest = more.drop_first();
        assert forall|i: int| 0 <= i < rest.len() implies plain(#[trigger] rest[i]) by {
            assert(rest[i] == more[i + 1]);
        }
        lemma_insert_all_plain(insert_entry(entries, more[0].0, more[0].1), rest);
    }
}

/// The tags read from a segment without spaces: there is at least one, no
/// key occurs twice, and all are plain.
pub proof fn lemma_tags_of(segment: Seq<char>)
    requires
        lacks(segment, ' '),
    ensures
        tags_of(segment).len() > 0,
        distinct_keys(tags_of(segment)),
        all_plain(tags_of(segment)),
{
    lemma_split_pieces(segment, ';', ' ');
    let parts = split(segment, ';');
    let more = parts.map_values(|part: Seq<char>| tag_of(part));
    assert forall|i: int| 0 <= i < more.len() implies plain(#[trigger] more[i]) by {
        lemma_tag_of_plain(parts[i]);
    }
    lemma_insert_all_keeps_distinct(Seq::empty(), more);
    lemma_insert_all_plain(Seq::empty(), more);
}

/// Plain tags with distinct keys, written: the text is not empty, holds no
/// space, and stands for the same tags.
pub proof fn lemma_tags_text(entries: Seq<Entry>)
    requires
        entries.len() > 0,
        all_plain(entries),
        distinct_keys(entries),
    ensures
        tags_text(entries).len() > 0,
        lacks(tags_text(entries), ' '),
        tags_of(tags_text(entries)) == entries,
{
    let texts = entries.map_values(|entry: Entry| tag_text(entry));
    assert forall|i: int| 0 <= i < texts.len() implies lacks(#[trigger] texts[i], ';') && lacks(
        texts[i],
        ' ',
    ) by {
        lemma_tag_text(entries[i]);
    }
    lemma_split_join(texts, ';');
    lemma_join_lacks(texts, seq![';'], ' ');
    let read = texts.map_values(|part: Seq<char>| tag_of(part));
    assert(read =~= entries) by {
        assert forall|i: int| 0 <= i < entries.len() implies read[i] == entries[i] by {
            lemma_tag_text(entries[i]);
        }
    }
    assert(Seq::<Entry>::empty() + entries =~= entries);
    lemma_insert_all_fresh(Seq::empty(), entries);
    lemma_tag_text(entries[0]);
    assert(texts[0].len() > 0);
    if texts.len() > 1 {
        assert(join(texts, seq![';']).len() >= texts[0].len());
    }
}

/// The tags written before any text that does not look like tags are read
/// back, and the text is what is left.
pub proof fn lemma_read_tags_back(entries: Seq<Entry>, rest: Seq<char>)
    requires
        entries.len() > 0 ==> all_plain(entries) && distinct_keys(entries),
        entries.len() == 0 ==> !starts_with(rest, '@'),
    ensures
        spec_extract_tags(tags_segment(entries) + rest) == (entries, rest),
{
    if entries.len() == 0 {
        let texts = entries.map_values(|entry: Entry| tag_text(entry));
        assert(texts.len() == 0);
        assert(tags_text(entries).len() == 0);
        assert(tags_segment(entries) + rest =~= rest);
    } else {
        lemma_tags_text(entries);
        let text = tags_text(entries);
        let head = seq!['@'] + text;
        let line = tags_segment(entries) + rest;
        lemma_add_lacks(seq!['@'], text, ' ');
        lemma_find_after(head, ' ', rest);
        assert(line =~= head + seq![' '] + rest);
        assert(line.subrange(1, head.len() as int) =~= text);
    }
}

/// A token of the table is the one that its command is written as. It is
/// not empty and does not begin like tags, a prefix or a parameter.
pub proof fn lemma_token(token: Seq<char>)
    ensures
        command_of(token) matches Some(command) ==> token_of(command) == token && token.len() > 0
            && token[0] != '@' && token[0] != ':' && token[0] != ' ',
{
    reveal_strlit("001");
    reveal_strlit("002");
    reveal_strlit("003");
    reveal_strlit("004");
    reveal_strlit("375");
    reveal_strlit("372");
    reveal_strlit("376");
    reveal_strlit("353");
    reveal_strlit("366");
    reveal_strlit("PING");
    reveal_strlit("PONG");
    reveal_strlit("PRIVMSG");
    reveal_strlit("NOTICE");
    reveal_strlit("JOIN");
    reveal_strlit("PART");
    reveal_strlit("CAP");
    reveal_strlit("GLOBALUSERSTATE");
    reveal_strlit("USERSTATE");
    reveal_strlit("ROOMSTATE");
    reveal_strlit("USERNOTICE");
}

/// A single parameter behind its space.
pub proof fn lemma_spaced_one(param: Seq<char>)
    ensures
        spaced(seq![param]) == seq![' '] + param,
{
    let one = seq![param];
    assert(one.drop_first().len() == 0);
    assert(spaced(one) == seq![' '] + param + spaced(one.drop_first()));
    assert(seq![' '] + param + Seq::<char>::empty() =~= seq![' '] + param);
}

/// Parameters behind single spaces, one list after another.
pub proof fn lemma_spaced_add(a: Seq<Seq<char>>, b: Seq<Seq<char>>)
    ensures
        spaced(a + b) == spaced(a) + spaced(b),
    decreases a.len(),
{
    if a.len() == 0 {
        assert(a + b =~= b);
        assert(spaced(a) + spaced(b) =~= spaced(b));
    } else {
        lemma_spaced_add(a.drop_first(), b);
        assert((a + b).drop_first() =~= a.drop_first() + b);
        assert(spaced(a + b) =~= spaced(a) + spaced(b));
    }
}

/// The pieces of a text between its spaces, each behind a space, are the
/// text behind a space.
pub proof fn lemma_spaced_split(s: Seq<char>)
    ensures
        spaced(split(s, ' ')) == seq![' '] + s,
    decreases s.len(),
{
    lemma_find(s, ' ');
    let at = find(s, ' ');
    if at < s.len() {
        let rest = s.skip(at + 1);
        lemma_spaced_split(rest);
        lemma_spaced_add(seq![s.take(at)], split(rest, ' '));
        lemma_spaced_one(s.take(at));
        assert(seq![' '] + s.take(at) + (seq![' '] + rest) =~= seq![' '] + s);
    } else {
        lemma_spaced_one(s);
    }
}

/// Written parameters: those before the last ones stand behind single
/// spaces.
pub proof fn lemma_params_text_add(a: Seq<Seq<char>>, b: Seq<Seq<char>>, had_trailing: bool)
    requires
        b.len() > 0,
    ensures
        params_text(a + b, had_trailing) == spaced(a) + params_text(b, had_trailing),
    decreases a.len(),
{
    if a.len() == 0 {
        assert(a + b =~= b);
        assert(spaced(a) + params_text(b, had_trailing) =~= params_text(b, had_trailing));
    } else {
        lemma_params_text_add(a.drop_first(), b, had_trailing);
        assert((a + b).drop_first() =~= a.drop_first() + b);
        assert((a + b)[0] == a[0]);
        assert(params_text(a + b, had_trailing) =~= spaced(a) + params_text(b, had_trailing));
    }
}

/// The last parameter written alone.
pub open spec fn last_text(last: Seq<char>, colon: bool) -> Seq<char> {
    if colon {
        seq![' ', ':'] + last
    } else {
        seq![' '] + last
    }
}

/// Written parameters are the leading ones behind single spaces and the
/// last one behind a space, or a space and a colon.
pub proof fn lemma_params_text(params: Seq<Seq<char>>, had_trailing: bool)
    requires
        params.len() > 0,
    ensures
        params_text(params, had_trailing) == spaced(params.drop_last()) + last_text(
            params.last(),
            colon_needed(params, had_trailing),
        ),
{
    let one = seq![params.last()];
    assert(params.drop_last() + one =~= params);
    lemma_params_text_add(params.drop_last(), one, had_trailing);
    assert(one.last() == params.last());
}

/// In a text that neither begins with a colon nor holds a space followed
/// by a colon, no piece between spaces begins with a colon.
pub proof fn lemma_split_no_colon(s: Seq<char>)
    requires
        !starts_with(s, ':'),
        find_marker(s) == s.len(),
    ensures
        forall|i: int| 0 <= i < split(s, ' ').len() ==> !starts_with(#[trigger] split(s, ' ')[i], ':'),
    decreases s.len(),
{
    lemma_find(s, ' ');
    lemma_find_marker(s);
    let at = find(s, ' ');
    if at < s.len() {
        let rest = s.skip(at + 1);
        assert(!marker_at(s, at));
        assert forall|j: int| 0 <= j < rest.len() implies !#[trigger] marker_at(rest, j) by {
            assert(!marker_at(s, at + 1 + j));
        }
        lemma_find_marker_is(rest, rest.len() as int);
        lemma_split_no_colon(rest);
        assert forall|i: int| 0 <= i < split(s, ' ').len() implies !starts_with(
            #[trigger] split(s, ' ')[i],
            ':',
        ) by {
            if i > 0 {
                assert(split(s, ' ')[i] == split(rest, ' ')[i - 1]);
            }
        }
    }
}

/// The parameters read from a text, written: nothing where there are
/// none; otherwise a space and a text from which the same parameters are
/// read, with the same mark of a trailing parameter.
pub proof fn lemma_read_params_back(rest: Seq<char>)
    ensures
        ({
            let (params, had_trailing) = spec_extract_params(rest);
            let text = params_text(params, had_trailing);
            if params.len() == 0 {
                text.len() == 0 && !had_trailing
            } else {
                text.len() > 0 && text[0] == ' ' && spec_extract_params(text.skip(1)) == (
                    params,
                    had_trailing,
                )
            }
        }),
{
    let (params, had_trailing) = spec_extract_params(rest);
    let text = params_text(params, had_trailing);
    lemma_find_marker(rest);
    let at = find_marker(rest);
    if starts_with(rest, ':') {
        assert(text =~= seq![' ', ':'] + rest.skip(1));
        assert(text.skip(1) =~= rest);
    } else if at < rest.len() {
        let lead = rest.take(at);
        let trailing = rest.skip(at + 2);
        let leading = spec_to_params(lead);
        lemma_params_text(params, had_trailing);
        assert(params.drop_last() =~= leading);
        assert(params.last() == trailing);
        if lead.len() == 0 {
            assert(text =~= seq![' ', ':'] + trailing);
            let again = text.skip(1);
            assert(again =~= seq![':'] + trailing);
            assert(again.skip(1) =~= trailing);
            assert(params =~= seq![trailing]);
        } else {
            lemma_spaced_split(lead);
            assert(text =~= seq![' '] + lead + seq![' ', ':'] + trailing);
            assert(text.skip(1) =~= rest);
        }
    } else if rest.len() == 0 {
    } else {
        lemma_split_pieces(rest, ' ', ' ');
        lemma_split_no_colon(rest);
        lemma_params_text(params, had_trailing);
        let last = params.last();
        assert(lacks(last, ' '));
        assert(!last.contains(' ')) by {
            if last.contains(' ') {
                let i = choose|i: int| 0 <= i < last.len() && last[i] == ' ';
                assert(last[i] != ' ');
            }
        }
        assert(!colon_needed(params, had_trailing));
        lemma_spaced_split(rest);
        let one = seq![last];
        assert(params.drop_last() + one =~= params);
        lemma_spaced_add(params.drop_last(), one);
        lemma_spaced_one(last);
        assert(text =~= seq![' '] + rest);
        assert(text.skip(1) =~= rest);
    }
}


/// What stands before the first space of a line, behind its first
/// character, holds no space.
pub proof fn lemma_part_lacks_before(line: Seq<char>, end: int)
    requires
        line.len() > 0,
        end == find(line, ' '),
        line[0] != ' ',
    ensures
        1 <= end <= line.len(),
        lacks(line.subrange(1, end), ' '),
{
    lemma_find(line, ' ');
    let part = line.subrange(1, end);
    assert forall|i: int| 0 <= i < part.len() implies part[i] != ' ' by {
        assert(part[i] == line[1 + i]);
    }
}

/// The prefix read from a token is written as that token.
pub proof fn lemma_prefix_text_of(token: Seq<char>)
    ensures
        prefix_text(prefix_of(token)) == token,
{
    lemma_find(token, '@');
    let at = find(token, '@');
    if at < token.len() {
        let nick_user = token.take(at);
        let host = token.skip(at + 1);
        assert(split_once(token, '@') == Some((nick_user, host)));
        assert(nick_user + seq!['@'] + host =~= token);
        lemma_find(nick_user, '!');
        let bang = find(nick_user, '!');
        if bang < nick_user.len() {
            let nick = nick_user.take(bang);
            let user = nick_user.skip(bang + 1);
            assert(split_once(nick_user, '!') == Some((nick, user)));
            assert(nick + (seq!['!'] + user) =~= nick_user);
            assert(prefix_text(prefix_of(token)) =~= nick + (seq!['!'] + user) + (seq!['@'] + host));
        } else {
            assert(split_once(nick_user, '!') is None);
            assert(prefix_text(prefix_of(token)) =~= nick_user + Seq::<char>::empty() + (seq!['@']
                + host));
        }
    } else {
        assert(split_once(token, '@') is None);
    }
}

/// The prefix read from a token without spaces, written before any text,
/// is read back, and the text is what is left.
pub proof fn lemma_read_prefix_back(token: Seq<char>, rest: Seq<char>)
    requires
        lacks(token, ' '),
    ensures
        spec_extract_prefix(prefix_segment(Some(prefix_of(token))) + rest) == Ok::<
            (Option<PrefixView>, Seq<char>),
            ParseErrorView,
        >((Some(prefix_of(token)), rest)),
{
    lemma_prefix_text_of(token);
    let head = seq![':'] + token;
    let line = prefix_segment(Some(prefix_of(token))) + rest;
    assert(lacks(seq![':'], ' '));
    lemma_add_lacks(seq![':'], token, ' ');
    lemma_find_after(head, ' ', rest);
    assert(line =~= head + seq![' '] + rest);
    assert(line.subrange(1, head.len() as int) =~= token);
}

/// The text that a command and parameters are written as.
pub open spec fn body_text(
    command: CommandView,
    params: Seq<Seq<char>>,
    had_trailing: bool,
) -> Seq<char> {
    token_of(command) + params_text(params, had_trailing)
}

/// The command and the parameters read from a text, written: a text that
/// begins like neither tags nor a prefix, and from which the same command
/// and parameters are read, with the same mark of a trailing parameter.
pub proof fn lemma_read_body_back(line: Seq<char>)
    ensures
        spec_extract_command(line) matches Ok((command, rest)) ==> ({
            let (params, had_trailing) = spec_extract_params(rest);
            let body = body_text(command, params, had_trailing);
            &&& body.len() > 0
            &&& body[0] != '@'
            &&& body[0] != ':'
            &&& spec_extract_command(body) matches Ok((again, left)) && again == command
                && spec_extract_params(left) == (params, had_trailing)
        }),
{
    if let Ok((command, rest)) = spec_extract_command(line) {
        let (params, had_trailing) = spec_extract_params(rest);
        let token = line.take(find(line, ' '));
        lemma_find(line, ' ');
        lemma_token(token);
        lemma_read_params_back(rest);
        let written = params_text(params, had_trailing);
        let body = token + written;
        assert(body[0] == token[0]);
        assert(lacks(token, ' '));
        if written.len() == 0 {
            assert(body =~= token);
            lemma_find_lacks(token, ' ');
            assert(body.take(find(body, ' ')) =~= token);
            assert(after_space(body) =~= Seq::<char>::empty());
            assert(spec_extract_params(Seq::<char>::empty()) == (
                Seq::<Seq<char>>::empty(),
                false,
            )) by {
                lemma_find_marker(Seq::<char>::empty());
            }
            assert(params =~= Seq::<Seq<char>>::empty());
        } else {
            let again = written.skip(1);
            assert(body =~= token + seq![' '] + again);
            lemma_find_after(token, ' ', again);
        }
    }
}

/// A message read from a line is read again from the line that it is
/// written as: tags, prefix, command and parameters are the same, and so
/// is the mark of a trailing parameter. The written line need not be the
/// first one.
pub proof fn lemma_roundtrip(line: Seq<char>, message: MessageView)
    requires
        spec_parse(line) == Ok::<MessageView, ParseErrorView>(message),
    ensures
        spec_parse(spec_serialize(message)) == Ok::<MessageView, ParseErrorView>(
            MessageView { original_line: spec_serialize(message), ..message },
        ),
{
    let (tags, after_tags) = spec_extract_tags(line);
    if starts_with(line, '@') {
        lemma_find(line, ' ');
        let end = find(line, ' ');
        lemma_part_lacks_before(line, end);
        lemma_tags_of(line.subrange(1, end));
    }
    let after_prefix = spec_extract_prefix(after_tags)->Ok_0.1;
    lemma_read_body_back(after_prefix);
    let body = body_text(message.command, message.params, message.had_trailing);
    let middle = prefix_segment(message.prefix) + body;
    assert(spec_serialize(message) =~= tags_segment(tags) + middle);
    if starts_with(after_tags, ':') {
        lemma_find(after_tags, ' ');
        let end = find(after_tags, ' ');
        lemma_part_lacks_before(after_tags, end);
        lemma_read_prefix_back(after_tags.subrange(1, end), body);
        assert(middle[0] == ':');
    } else {
        assert(middle =~= body);
    }
    lemma_read_tags_back(tags, middle);
}

} // verus!
