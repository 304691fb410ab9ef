//! Cutting the text of a channel message into plain text and emotes.
//!
//! The `emotes` tag lists spans of the text, `/` between them, each in the
//! form `id:start-end`. Both offsets count bytes of the text, and `end` is
//! the last byte of the span. The spans are taken in the order of their
//! start, whatever their order in the tag; together with the text between
//! them they make up the whole text.

use vstd::prelude::*;
use crate::protocol::{
    EmoteInfo, EmoteInfoView, Message, MessageView, ParseError, ParseErrorView, RichText,
    RichTextView,
};
use crate::slices::{
    boundary, byte_count, byte_len, lemma_slice_empty, lemma_slice_joins, lemma_slice_whole,
    slice, slice_bytes, sliceable,
};
use crate::tags::{lookup, tags_get};
use crate::text::{
    chars_of, find_between, lemma_find, split, split_between, split_once, starts_with,
    text_between,
};

verus! {

/// A span of a text that stands for an emote.
#[derive(Debug)]
pub struct Span {
    pub id: String,
    /// The first byte of the span.
    pub start: usize,
    /// The last byte of the span.
    pub end: usize,
}

/// What a `Span` is in specifications.
pub struct SpanView {
    pub id: Seq<char>,
    pub start: int,
    pub end: int,
}

impl View for Span {
    type V = SpanView;

    open spec fn view(&self) -> SpanView {
        SpanView { id: self.id@, start: self.start as int, end: self.end as int }
    }
}

/// The views of a list of spans.
pub open spec fn span_views(spans: Seq<Span>) -> Seq<SpanView> {
    spans.map_values(|span: Span| span@)
}

/// The views of a list of pieces.
pub open spec fn rich_views(pieces: Seq<RichText>) -> Seq<RichTextView> {
    pieces.map_values(|piece: RichText| piece@)
}

/// The value of a decimal digit.
pub open spec fn digit_value(c: char) -> Option<nat> {
    if '0' <= c <= '9' {
        Some((c as u32 - '0' as u32) as nat)
    } else {
        None
    }
}

/// The number that a run of decimal digits stands for; the empty run
/// stands for zero.
pub open spec fn digits_value(digits: Seq<char>) -> Option<nat>
    decreases digits.len(),
{
    if digits.len() == 0 {
        Some(0)
    } else {
        match (digits_value(digits.drop_last()), digit_value(digits.last())) {
            (Some(high), Some(low)) => Some(10 * high + low),
            _ => None,
        }
    }
}

/// The number that a text stands for: one or more decimal digits, which a
/// single `+` may precede.
pub open spec fn number_of(text: Seq<char>) -> Option<nat> {
    let digits = if starts_with(text, '+') {
        text.skip(1)
    } else {
        text
    };
    if digits.len() == 0 {
        None
    } else {
        digits_value(digits)
    }
}

/// The three texts of an entry of the form `id:start-end`. The first colon
/// ends the id and the first hyphen after it ends the start.
pub open spec fn places_of(part: Seq<char>) -> Option<(Seq<char>, Seq<char>, Seq<char>)> {
    match split_once(part, ':') {
        Some((id, places)) => match split_once(places, '-') {
            Some((start, end)) => Some((id, start, end)),
            None => None,
        },
        None => None,
    }
}

/// What one entry of an `emotes` tag stands for.
pub enum SpanEntry {
    /// The entry lacks the colon or the hyphen: it is passed over.
    Absent,
    /// An offset is no number, or lies outside the text.
    Invalid,
    Present(SpanView),
}

/// What one entry of an `emotes` tag stands for, for a text of `limit`
/// bytes.
pub open spec fn span_of(part: Seq<char>, limit: nat) -> SpanEntry {
    match places_of(part) {
        None => SpanEntry::Absent,
        Some((id, start, end)) => match (number_of(start), number_of(end)) {
            (Some(s), Some(e)) => if s <= limit && e < limit {
                SpanEntry::Present(SpanView { id, start: s as int, end: e as int })
            } else {
                SpanEntry::Invalid
            },
            _ => SpanEntry::Invalid,
        },
    }
}

/// The spans that the entries of an `emotes` tag stand for, in the order of
/// the tag, for a text of `limit` bytes. There is no result when an entry
/// is invalid.
pub open spec fn spans_of(parts: Seq<Seq<char>>, limit: nat) -> Option<Seq<SpanView>>
    decreases parts.len(),
{
    if parts.len() == 0 {
        Some(Seq::empty())
    } else {
        match (spans_of(parts.drop_last(), limit), span_of(parts.last(), limit)) {
            (Some(spans), SpanEntry::Absent) => Some(spans),
            (Some(spans), SpanEntry::Present(span)) => Some(spans.push(span)),
            _ => None,
        }
    }
}

/// `sorted` with `span` put behind every span that does not start later.
pub open spec fn insert_by_start(sorted: Seq<SpanView>, span: SpanView) -> Seq<SpanView>
    decreases sorted.len(),
{
    if sorted.len() > 0 && sorted.last().start > span.start {
        insert_by_start(sorted.drop_last(), span).push(sorted.last())
    } else {
        sorted.push(span)
    }
}

/// The spans in the order of their start; spans that start together keep
/// their order.
pub open spec fn sort_by_start(spans: Seq<SpanView>) -> Seq<SpanView>
    decreases spans.len(),
{
    if spans.len() == 0 {
        Seq::empty()
    } else {
        insert_by_start(sort_by_start(spans.drop_last()), spans.last())
    }
}

/// Whether no span starts before one that stands earlier.
pub open spec fn ordered_by_start(spans: Seq<SpanView>) -> bool {
    forall|i: int, j: int|
        0 <= i < j < spans.len() ==> (#[trigger] spans[i]).start <= (#[trigger] spans[j]).start
}

/// The plain text in the bytes `from..to`, if there is any.
pub open spec fn text_piece(text: Seq<char>, from: int, to: int) -> Seq<RichTextView> {
    if from < to {
        seq![RichTextView::Text(slice(text, from, to))]
    } else {
        Seq::empty()
    }
}

/// The emote that `span` cuts out of `text`.
pub open spec fn emote_piece(text: Seq<char>, span: SpanView) -> RichTextView {
    RichTextView::Emote(
        EmoteInfoView { id: span.id, emote: slice(text, span.start, span.end + 1) },
    )
}

/// The pieces of `text` from byte `from` on, for spans in the order given:
/// before each span the plain text up to it, if any, then the span, and at
/// last the plain text that is left, if any. There is no result when a
/// span starts before `from` or before the span ahead of it has ended, ends
/// before it starts, or has an end inside a character.
pub open spec fn pieces(text: Seq<char>, spans: Seq<SpanView>, from: int) -> Option<
    Seq<RichTextView>,
>
    decreases spans.len(),
{
    if spans.len() == 0 {
        Some(text_piece(text, from, byte_len(text) as int))
    } else {
        let span = spans[0];
        if sliceable(text, from, span.start) && sliceable(
            text,
            span.start,
            span.end + 1,
        ) {
            match pieces(text, spans.drop_first(), span.end + 1) {
                Some(rest) => Some(
                    text_piece(text, from, span.start) + seq![emote_piece(text, span)]
                        + rest,
                ),
                None => None,
            }
        } else {
            None
        }
    }
}

/// The pieces of the text of a message. A message that is no channel
/// message, or has no `emotes` tag, has none.
pub open spec fn spec_emotes(message: MessageView) -> Result<Seq<RichTextView>, ParseErrorView> {
    if !message.is_channel_message() {
        Ok(Seq::empty())
    } else {
        match lookup(message.tags, "emotes"@) {
            None => Ok(Seq::empty()),
            Some(value) => {
                let text = message.params[1];
                match spans_of(split(value, '/'), byte_len(text)) {
                    None => Err(ParseErrorView::InvalidEmoteString),
                    Some(spans) => match pieces(text, sort_by_start(spans), 0) {
                        Some(found) => Ok(found),
                        None => Err(ParseErrorView::InvalidEmoteString),
                    },
                }
            },
        }
    }
}

/// The characters that a list of pieces covers, one piece after another.
pub open spec fn literals(found: Seq<RichTextView>) -> Seq<char>
    decreases found.len(),
{
    if found.len() == 0 {
        Seq::empty()
    } else {
        found[0].literal() + literals(found.drop_first())
    }
}

/// A run of digits stands for a number only if each of its beginnings
/// does, and for none that is smaller than theirs.
pub proof fn lemma_digits_prefix(digits: Seq<char>, k: int)
    requires
        0 <= k <= digits.len(),
    ensures
        digits_value(digits) matches Some(v) ==> digits_value(digits.take(k)) matches Some(p) && p
            <= v,
    decreases digits.len(),
{
    if k == digits.len() {
        assert(digits.take(k) == digits);
    } else {
        lemma_digits_prefix(digits.drop_last(), k);
        assert(digits.drop_last().take(k) == digits.take(k));
    }
}

/// Where every span from `at` on starts later than `span`, and the one
/// before `at` does not, `span` goes to position `at`.
pub proof fn lemma_insert_by_start(sorted: Seq<SpanView>, span: SpanView, at: int)
    requires
        0 <= at <= sorted.len(),
        forall|j: int| at <= j < sorted.len() ==> (#[trigger] sorted[j]).start > span.start,
        at > 0 ==> sorted[at - 1].start <= span.start,
    ensures
        insert_by_start(sorted, span) == sorted.insert(at, span),
    decreases sorted.len() - at,
{
    if at == sorted.len() {
        assert(sorted.insert(at, span) == sorted.push(span));
    } else {
        let front = sorted.drop_last();
        lemma_insert_by_start(front, span, at);
        assert(front.insert(at, span).push(sorted.last()) == sorted.insert(at, span));
    }
}

/// Putting a span into an ordered list leaves it ordered.
pub proof fn lemma_insert_keeps_order(sorted: Seq<SpanView>, span: SpanView)
    requires
        ordered_by_start(sorted),
    ensures
        ordered_by_start(insert_by_start(sorted, span)),
        insert_by_start(sorted, span).len() == sorted.len() + 1,
        insert_by_start(sorted, span).to_multiset() == sorted.to_multiset().insert(span),
    decreases sorted.len(),
{
    broadcast use vstd::seq_lib::to_multiset_build;

    let after = insert_by_start(sorted, span);
    if sorted.len() > 0 && sorted.last().start > span.start {
        let front = sorted.drop_last();
        let inner = insert_by_start(front, span);
        assert forall|i: int, j: int| 0 <= i < j < front.len() implies (#[trigger] front[i]).start
            <= (#[trigger] front[j]).start by {
            assert(front[i] == sorted[i] && front[j] == sorted[j]);
        }
        lemma_insert_keeps_order(front, span);
        assert(sorted == front.push(sorted.last()));
        assert forall|i: int, j: int| 0 <= i < j < after.len() implies (#[trigger] after[i]).start
            <= (#[trigger] after[j]).start by {
            if j < inner.len() {
                assert(after[i] == inner[i] && after[j] == inner[j]);
            } else {
                assert(after[i] == inner[i]);
                // every span of `inner` is `span` or one of `front`
                assert(inner.to_multiset().count(inner[i]) > 0) by {
                    vstd::seq_lib::to_multiset_contains(inner, inner[i]);
                }
                if inner[i] != span {
                    vstd::seq_lib::to_multiset_contains(front, inner[i]);
                    let k = choose|k: int| 0 <= k < front.len() && front[k] == inner[i];
                    assert(sorted[k].start <= sorted[sorted.len() - 1].start);
                }
            }
        }
        assert(after.to_multiset() =~= sorted.to_multiset().insert(span));
    } else {
        assert forall|i: int, j: int| 0 <= i < j < after.len() implies (#[trigger] after[i]).start
            <= (#[trigger] after[j]).start by {
            if j < sorted.len() {
                assert(after[i] == sorted[i] && after[j] == sorted[j]);
            } else if sorted.len() > 0 {
                assert(after[i] == sorted[i]);
                assert(sorted[i].start <= sorted[sorted.len() - 1].start);
            }
        }
    }
}

/// Sorting puts the spans in the order of their start and neither adds nor
/// drops one.
pub proof fn lemma_sort_by_start(spans: Seq<SpanView>)
    ensures
        ordered_by_start(sort_by_start(spans)),
        sort_by_start(spans).len() == spans.len(),
        sort_by_start(spans).to_multiset() == spans.to_multiset(),
    decreases spans.len(),
{
    broadcast use vstd::seq_lib::to_multiset_build;

    if spans.len() == 0 {
        assert(sort_by_start(spans) == spans);
    } else {
        lemma_sort_by_start(spans.drop_last());
        lemma_insert_keeps_order(sort_by_start(spans.drop_last()), spans.last());
        assert(spans == spans.drop_last().push(spans.last()));
    }
}

/// The characters of two lists of pieces, one after the other.
pub proof fn lemma_literals_add(a: Seq<RichTextView>, b: Seq<RichTextView>)
    ensures
        literals(a + b) == literals(a) + literals(b),
    decreases a.len(),
{
    if a.len() == 0 {
        assert(a + b == b);
    } else {
        lemma_literals_add(a.drop_first(), b);
        assert((a + b).drop_first() == a.drop_first() + b);
    }
}

/// The pieces from a boundary on cover the text from there to its end.
pub proof fn lemma_pieces_cover(text: Seq<char>, spans: Seq<SpanView>, from: int)
    requires
        boundary(text, from),
        pieces(text, spans, from) is Some,
    ensures
        literals(pieces(text, spans, from).unwrap()) == slice(text, from, byte_len(text) as int),
    decreases spans.len(),
{
    let end = byte_len(text) as int;
    lemma_slice_whole(text);
    if spans.len() == 0 {
        lemma_text_piece(text, from, end);
    } else {
        let span = spans[0];
        let start = span.start;
        let stop = span.end + 1;
        let rest = pieces(text, spans.drop_first(), stop).unwrap();
        lemma_pieces_cover(text, spans.drop_first(), stop);
        let head = text_piece(text, from, start);
        let emote = seq![emote_piece(text, span)];
        lemma_literals_add(head + emote, rest);
        lemma_literals_add(head, emote);
        lemma_literals_one(emote_piece(text, span));
        lemma_text_piece(text, from, start);
        lemma_slice_joins(text, from, start, stop);
        lemma_slice_joins(text, from, stop, end);
    }
}

/// A single piece covers its own characters.
pub proof fn lemma_literals_one(piece: RichTextView)
    ensures
        literals(seq![piece]) == piece.literal(),
{
    let one = seq![piece];
    assert(one.drop_first() == Seq::<RichTextView>::empty());
    assert(literals(one) == piece.literal() + literals(one.drop_first()));
    assert(piece.literal() + Seq::<char>::empty() =~= piece.literal());
}

/// The plain text between two offsets covers the bytes between them.
pub proof fn lemma_text_piece(text: Seq<char>, from: int, to: int)
    requires
        0 <= from <= to <= byte_len(text),
    ensures
        literals(text_piece(text, from, to)) == slice(text, from, to),
{
    if from < to {
        lemma_literals_one(RichTextView::Text(slice(text, from, to)));
    } else {
        lemma_slice_empty(text, from);
    }
}

/// The pieces of a channel message with an `emotes` tag, read one after
/// another, are the text of the message: nothing of it is left out and
/// nothing occurs twice.
pub proof fn lemma_emotes_cover(message: MessageView)
    requires
        message.is_channel_message(),
        lookup(message.tags, "emotes"@) is Some,
    ensures
        spec_emotes(message) matches Ok(found) ==> literals(found) == message.params[1],
{
    let text = message.params[1];
    let value = lookup(message.tags, "emotes"@).unwrap();
    if spec_emotes(message) is Ok {
        let spans = spans_of(split(value, '/'), byte_len(text)).unwrap();
        lemma_slice_whole(text);
        lemma_pieces_cover(text, sort_by_start(spans), 0);
    }
}

/// Once some entries have no result, no longer list of entries has one.
pub proof fn lemma_spans_none(parts: Seq<Seq<char>>, limit: nat, k: int)
    requires
        0 <= k <= parts.len(),
        spans_of(parts.take(k), limit) is None,
    ensures
        spans_of(parts, limit) is None,
    decreases parts.len(),
{
    if k == parts.len() {
        assert(parts.take(k) == parts);
    } else {
        assert(parts.drop_last().take(k) == parts.take(k));
        lemma_spans_none(parts.drop_last(), limit, k);
    }
}

/// The value of a decimal digit.
fn decimal_digit(c: char) -> (value: Option<usize>)
    ensures
        match value {
            Some(d) => digit_value(c) == Some(d as nat),
            None => digit_value(c) is None,
        },
{
    let code = c as u32;
    if 48 <= code && code <= 57 {
        Some((code - 48) as usize)
    } else {
        None
    }
}

/// Reads a number of one or more decimal digits, which a `+` may precede.
/// There is no result for a text that is no such number, and none for a
/// number that `usize` cannot hold.
pub fn parse_number(text: &str) -> (number: Option<usize>)
    ensures
        match number {
            Some(n) => number_of(text@) == Some(n as nat),
            None => number_of(text@) matches Some(n) ==> n > usize::MAX,
        },
{
    let chars = chars_of(text);
    let n = chars.len();
    let first: usize = if n > 0 && chars[0] == '+' {
        1
    } else {
        0
    };
    if first == n {
        return None;
    }
    let ghost digits = text@.skip(first as int);
    let mut value: usize = 0;
    let mut i: usize = first;
    proof {
        assert(digits.take(0) =~= Seq::<char>::empty());
        assert(text@.skip(0) =~= text@);
    }
    while i < n
        invariant
            first <= i <= n == chars.len(),
            chars@ == text@,
            digits == text@.skip(first as int),
            number_of(text@) == digits_value(digits),
            digits_value(digits.take(i - first)) == Some(value as nat),
        decreases n - i,
    {
        proof {
            let next = digits.take(i - first + 1);
            assert(next.drop_last() == digits.take(i - first));
            assert(next.last() == chars[i as int]);
            lemma_digits_prefix(digits, i - first + 1);
        }
        let digit = match decimal_digit(chars[i]) {
            Some(digit) => digit,
            None => { return None; },
        };
        let tens = match value.checked_mul(10) {
            Some(tens) => tens,
            None => { return None; },
        };
        value =
        match tens.checked_add(digit) {
            Some(sum) => sum,
            None => { return None; },
        };
        i += 1;
    }
    proof {
        assert(digits.take(n - first) == digits);
    }
    Some(value)
}

/// Reads one entry of an `emotes` tag, for a text of `limit` bytes: the
/// span, or nothing where the entry lacks the colon or the hyphen. Fails
/// where an offset is no number or lies outside the text.
pub fn read_span(part: &str, limit: usize) -> (r: Result<Option<Span>, ParseError>)
    ensures
        match span_of(part@, limit as nat) {
            SpanEntry::Absent => r matches Ok(None),
            SpanEntry::Present(span) => r matches Ok(Some(s)) && s@ == span,
            SpanEntry::Invalid => r matches Err(e) && e@ == ParseErrorView::InvalidEmoteString,
        },
{
    let chars = chars_of(part);
    let n = chars.len();
    let colon = find_between(&chars, ':', 0, n);
    proof {
        assert(chars@.subrange(0, n as int) == part@);
        lemma_find(part@, ':');
    }
    if colon == n {
        assert(split_once(part@, ':') is None);
        return Ok(None);
    }
    let ghost places = part@.skip(colon + 1);
    assert(split_once(part@, ':') == Some((part@.take(colon as int), places)));
    let hyphen = find_between(&chars, '-', colon + 1, n);
    proof {
        assert(chars@.subrange(colon + 1, n as int) == places);
        lemma_find(places, '-');
    }
    if hyphen == n {
        assert(split_once(places, '-') is None);
        return Ok(None);
    }
    let start_text = part.substring_char(colon + 1, hyphen);
    let end_text = part.substring_char(hyphen + 1, n);
    proof {
        assert(places.take(hyphen - colon - 1) == start_text@);
        assert(places.skip(hyphen - colon - 1 + 1) == end_text@);
        assert(split_once(places, '-') == Some((start_text@, end_text@)));
        assert(places_of(part@) == Some((part@.take(colon as int), start_text@, end_text@)));
    }
    let start = match parse_number(start_text) {
        Some(start) => start,
        None => { return Err(ParseError::InvalidEmoteString); },
    };
    let end = match parse_number(end_text) {
        Some(end) => end,
        None => { return Err(ParseError::InvalidEmoteString); },
    };
    if start > limit || end >= limit {
        return Err(ParseError::InvalidEmoteString);
    }
    Ok(Some(Span { id: text_between(part, 0, colon), start, end }))
}

/// Puts `span` into a list kept in the order of start, behind every span
/// that does not start later.
pub fn insert_span(sorted: &mut Vec<Span>, span: Span)
    ensures
        span_views(final(sorted)@) == insert_by_start(span_views(old(sorted)@), span@),
{
    let ghost before = span_views(sorted@);
    let mut at: usize = sorted.len();
    while at > 0 && sorted[at - 1].start > span.start
        invariant
            at <= sorted.len(),
            before == span_views(sorted@),
            forall|j: int| at <= j < sorted.len() ==> (#[trigger] before[j]).start > span@.start,
        decreases at,
    {
        at -= 1;
    }
    proof {
        if at > 0 {
            assert(before[at - 1].start <= span@.start);
        }
        lemma_insert_by_start(before, span@, at as int);
    }
    let ghost added = span@;
    sorted.insert(at, span);
    assert(span_views(sorted@) =~= before.insert(at as int, added));
}

/// Reads the entries of an `emotes` tag, for a text of `limit` bytes, and
/// puts the spans in the order of their start. Fails where an entry is
/// invalid.
pub fn read_spans(value: &str, limit: usize) -> (r: Result<Vec<Span>, ParseError>)
    ensures
        match spans_of(split(value@, '/'), limit as nat) {
            Some(spans) => r matches Ok(sorted) && span_views(sorted@) == sort_by_start(spans),
            None => r matches Err(e) && e@ == ParseErrorView::InvalidEmoteString,
        },
{
    let chars = chars_of(value);
    proof {
        assert(value@.subrange(0, value@.len() as int) == value@);
    }
    let parts = split_between(value, &chars, '/', 0, chars.len());
    let ghost entries = parts.deep_view();
    let mut sorted: Vec<Span> = Vec::new();
    let ghost mut spans: Seq<SpanView> = Seq::empty();
    let mut k: usize = 0;
    proof {
        assert(entries.take(0) =~= Seq::<Seq<char>>::empty());
        assert(span_views(sorted@) =~= sort_by_start(spans));
    }
    while k < parts.len()
        invariant
            k <= parts.len(),
            entries == parts.deep_view(),
            entries == split(value@, '/'),
            spans_of(entries.take(k as int), limit as nat) == Some(spans),
            span_views(sorted@) == sort_by_start(spans),
        decreases parts.len() - k,
    {
        let ghost next = entries.take(k + 1);
        proof {
            assert(next.drop_last() == entries.take(k as int));
            assert(next.last() == parts[k as int]@);
        }
        match read_span(parts[k].as_str(), limit) {
            Err(e) => {
                proof {
                    assert(spans_of(next, limit as nat) is None);
                    lemma_spans_none(entries, limit as nat, k + 1);
                }
                return Err(e);
            },
            Ok(None) => {
                assert(spans_of(next, limit as nat) == Some(spans));
            },
            Ok(Some(span)) => {
                proof {
                    let longer = spans.push(span@);
                    assert(spans_of(next, limit as nat) == Some(longer));
                    assert(longer.drop_last() == spans);
                    assert(longer.last() == span@);
                    spans = longer;
                }
                insert_span(&mut sorted, span);
            },
        }
        k += 1;
    }
    proof {
        assert(entries.take(parts.len() as int) == entries);
    }
    Ok(sorted)
}

/// Cuts `text` into plain text and emotes, for spans in the order given.
/// Fails where the spans do not fit the text one after another.
pub fn cut_pieces(text: &str, spans: &Vec<Span>) -> (r: Result<Vec<RichText>, ParseError>)
    ensures
        match pieces(text@, span_views(spans@), 0) {
            Some(found) => r matches Ok(v) && rich_views(v@) == found,
            None => r matches Err(e) && e@ == ParseErrorView::InvalidEmoteString,
        },
{
    let limit = byte_count(text);
    let ghost all = span_views(spans@);
    let mut rich: Vec<RichText> = Vec::new();
    let mut last_end: usize = 0;
    let mut i: usize = 0;
    proof {
        lemma_slice_whole(text@);
        assert(all.skip(0) =~= all);
        assert(rich_views(rich@) =~= Seq::<RichTextView>::empty());
        match pieces(text@, all, 0) {
            Some(rest) => {
                assert(rich_views(rich@) + rest =~= rest);
            },
            None => {},
        }
    }
    while i < spans.len()
        invariant
            i <= spans.len(),
            all == span_views(spans@),
            limit == byte_len(text@),
            boundary(text@, last_end as int),
            pieces(text@, all, 0) == match pieces(text@, all.skip(i as int), last_end as int) {
                Some(rest) => Some(rich_views(rich@) + rest),
                None => None,
            },
        decreases spans.len() - i,
    {
        let span = &spans[i];
        let ghost left = all.skip(i as int);
        let ghost done = rich_views(rich@);
        proof {
            assert(left[0] == span@);
            assert(left.drop_first() =~= all.skip(i + 1));
        }
        let stop = match span.end.checked_add(1) {
            Some(stop) => stop,
            None => { return Err(ParseError::InvalidEmoteString); },
        };
        let text_part = match slice_bytes(text, last_end, span.start) {
            Some(piece) => piece,
            None => { return Err(ParseError::InvalidEmoteString); },
        };
        let emote_part = match slice_bytes(text, span.start, stop) {
            Some(piece) => piece,
            None => { return Err(ParseError::InvalidEmoteString); },
        };
        if last_end < span.start {
            rich.push(RichText::Text(text_part.to_owned()));
        }
        rich.push(RichText::Emote(EmoteInfo { id: span.id.clone(), emote: emote_part.to_owned() }));
        proof {
            let added = text_piece(text@, last_end as int, span@.start) + seq![
                emote_piece(text@, span@),
            ];
            assert(rich_views(rich@) =~= done + added);
            match pieces(text@, all.skip(i + 1), stop as int) {
                Some(rest) => {
                    assert(pieces(text@, left, last_end as int) == Some(added + rest));
                    assert(rich_views(rich@) + rest =~= done + (added + rest));
                },
                None => {},
            }
        }
        last_end = stop;
        i += 1;
    }
    proof {
        assert(all.skip(spans.len() as int) =~= Seq::<SpanView>::empty());
    }
    let ghost done = rich_views(rich@);
    if last_end < limit {
        match slice_bytes(text, last_end, limit) {
            Some(piece) => {
                rich.push(RichText::Text(piece.to_owned()));
            },
            None => {},
        }
    }
    assert(rich_views(rich@) =~= done + text_piece(text@, last_end as int, limit as int));
    Ok(rich)
}

impl Message {
    /// Cuts the text of a channel message into plain text and emotes, as
    /// its `emotes` tag says. A message that is no channel message, or has
    /// no such tag, gives no pieces. Fails with `InvalidEmoteString` where
    /// an offset of the tag is no number or the spans do not fit the text:
    /// one reaches beyond it, two overlap, or one ends inside a character.
    pub fn emotes(&self) -> (r: Result<Vec<RichText>, ParseError>)
        ensures
            match spec_emotes(self@) {
                Ok(found) => r matches Ok(v) && rich_views(v@) == found,
                Err(e) => r matches Err(x) && x@ == e,
            },
    {
        if !self.is_channel_message() {
            let none: Vec<RichText> = Vec::new();
            assert(rich_views(none@) =~= Seq::<RichTextView>::empty());
            return Ok(none);
        }
        let value = match tags_get(&self.tags, "emotes") {
            Some(value) => value,
            None => {
                let none: Vec<RichText> = Vec::new();
                assert(rich_views(none@) =~= Seq::<RichTextView>::empty());
                return Ok(none);
            },
        };
        let text = self.params[1].as_str();
        assert(text@ == self@.params[1]);
        let spans = match read_spans(value.as_str(), byte_count(text)) {
            Ok(spans) => spans,
            Err(e) => { return Err(e); },
        };
        cut_pieces(text, &spans)
    }
}

} // verus!
