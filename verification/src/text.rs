//! Searching and splitting sequences, and the executable counterparts that
//! work on a string together with its characters.

use vstd::prelude::*;

verus! {

/// Position of the first element of `s` equal to `x`, or `s.len()` when `s`
/// holds no such element.
pub open spec fn find<T>(s: Seq<T>, x: T) -> int
    decreases s.len(),
{
    if s.len() == 0 {
        0
    } else if s[0] == x {
        0
    } else {
        1 + find(s.drop_first(), x)
    }
}

/// Whether `s` begins with `c`.
pub open spec fn starts_with(s: Seq<char>, c: char) -> bool {
    s.len() > 0 && s[0] == c
}

/// Whether position `at` of `s` holds a space directly followed by a colon.
pub open spec fn marker_at(s: Seq<char>, at: int) -> bool {
    0 <= at && at + 1 < s.len() && s[at] == ' ' && s[at + 1] == ':'
}

/// Position of the first space that is directly followed by a colon, or
/// `s.len()` when there is none.
pub open spec fn find_marker(s: Seq<char>) -> int
    decreases s.len(),
{
    if s.len() < 2 {
        s.len() as int
    } else if marker_at(s, 0) {
        0
    } else {
        1 + find_marker(s.drop_first())
    }
}

/// The pieces of `s` between occurrences of `sep`. A sequence without `sep`
/// is a single piece, so the result is never empty.
pub open spec fn split(s: Seq<char>, sep: char) -> Seq<Seq<char>>
    decreases s.len(),
{
    let at = find(s, sep);
    if 0 <= at < s.len() {
        seq![s.take(at)] + split(s.skip(at + 1), sep)
    } else {
        seq![s]
    }
}

/// The parts of `s` before and after its first `sep`, when it has one.
pub open spec fn split_once(s: Seq<char>, sep: char) -> Option<(Seq<char>, Seq<char>)> {
    let at = find(s, sep);
    if 0 <= at < s.len() {
        Some((s.take(at), s.skip(at + 1)))
    } else {
        None
    }
}

/// `parts` written one after another with `sep` between neighbours.
pub open spec fn join(parts: Seq<Seq<char>>, sep: Seq<char>) -> Seq<char>
    decreases parts.len(),
{
    if parts.len() == 0 {
        Seq::empty()
    } else if parts.len() == 1 {
        parts[0]
    } else {
        parts[0] + sep + join(parts.drop_first(), sep)
    }
}

/// What `find` returns is the least position that holds `x`.
pub proof fn lemma_find<T>(s: Seq<T>, x: T)
    ensures
        0 <= find(s, x) <= s.len(),
        find(s, x) < s.len() ==> s[find(s, x)] == x,
        forall|j: int| 0 <= j < find(s, x) ==> s[j] != x,
    decreases s.len(),
{
    if s.len() > 0 && s[0] != x {
        let rest = s.drop_first();
        lemma_find(rest, x);
        assert forall|j: int| 0 <= j < find(s, x) implies s[j] != x by {
            if j > 0 {
                assert(s[j] == rest[j - 1]);
            }
        }
    }
}

/// A position with no `x` before it, which holds `x` unless it is the end,
/// is the one that `find` returns.
pub proof fn lemma_find_is<T>(s: Seq<T>, x: T, at: int)
    requires
        0 <= at <= s.len(),
        at < s.len() ==> s[at] == x,
        forall|j: int| 0 <= j < at ==> s[j] != x,
    ensures
        find(s, x) == at,
{
    lemma_find(s, x);
    let found = find(s, x);
    if found < at {
        assert(s[found] != x);
    }
}

/// What `find_marker` returns is the least position of a space followed by
/// a colon.
pub proof fn lemma_find_marker(s: Seq<char>)
    ensures
        0 <= find_marker(s) <= s.len(),
        find_marker(s) < s.len() ==> marker_at(s, find_marker(s)),
        forall|j: int| 0 <= j < find_marker(s) ==> !#[trigger] marker_at(s, j),
    decreases s.len(),
{
    if s.len() >= 2 && !marker_at(s, 0) {
        let rest = s.drop_first();
        lemma_find_marker(rest);
        assert forall|j: int| 0 <= j < find_marker(s) implies !#[trigger] marker_at(s, j) by {
            if j > 0 {
                assert(!marker_at(rest, j - 1));
            }
        }
    }
}

/// A position with no marker before it, which holds one unless it is the
/// end, is the one that `find_marker` returns.
pub proof fn lemma_find_marker_is(s: Seq<char>, at: int)
    requires
        0 <= at <= s.len(),
        at < s.len() ==> marker_at(s, at),
        forall|j: int| 0 <= j < at ==> !#[trigger] marker_at(s, j),
    ensures
        find_marker(s) == at,
{
    lemma_find_marker(s);
    let found = find_marker(s);
    if found < at {
        assert(!marker_at(s, found));
    } else if at < found {
        assert(!marker_at(s, at));
    }
}

/// Whether `c` does not occur in `s`.
pub open spec fn lacks(s: Seq<char>, c: char) -> bool {
    forall|i: int| 0 <= i < s.len() ==> s[i] != c
}

/// `find` runs to the end exactly where the character does not occur.
pub proof fn lemma_find_lacks(s: Seq<char>, c: char)
    ensures
        lacks(s, c) <==> find(s, c) == s.len(),
{
    lemma_find(s, c);
    if lacks(s, c) {
        lemma_find_is(s, c, s.len() as int);
    }
}

/// Behind a part that lacks `c`, the first `c` is the one that follows it.
pub proof fn lemma_find_after(head: Seq<char>, c: char, tail: Seq<char>)
    requires
        lacks(head, c),
    ensures
        find(head + seq![c] + tail, c) == head.len(),
        (head + seq![c] + tail).take(head.len() as int) == head,
        (head + seq![c] + tail).skip(head.len() as int + 1) == tail,
{
    let whole = head + seq![c] + tail;
    assert forall|j: int| 0 <= j < head.len() implies whole[j] != c by {
        assert(whole[j] == head[j]);
    }
    lemma_find_is(whole, c, head.len() as int);
    assert(whole.take(head.len() as int) =~= head);
    assert(whole.skip(head.len() as int + 1) =~= tail);
}

/// Every piece of a split lacks the separator, and lacks whatever the
/// whole lacks. No split is empty.
pub proof fn lemma_split_pieces(s: Seq<char>, sep: char, c: char)
    ensures
        split(s, sep).len() > 0,
        forall|i: int| 0 <= i < split(s, sep).len() ==> lacks(#[trigger] split(s, sep)[i], sep),
        lacks(s, c) ==> forall|i: int|
            0 <= i < split(s, sep).len() ==> lacks(#[trigger] split(s, sep)[i], c),
    decreases s.len(),
{
    lemma_find(s, sep);
    let at = find(s, sep);
    if at < s.len() {
        let rest = s.skip(at + 1);
        lemma_split_pieces(rest, sep, c);
        assert forall|i: int| 0 <= i < split(s, sep).len() implies lacks(
            #[trigger] split(s, sep)[i],
            sep,
        ) by {
            if i > 0 {
                assert(split(s, sep)[i] == split(rest, sep)[i - 1]);
            }
        }
        if lacks(s, c) {
            assert(lacks(rest, c)) by {
                assert forall|j: int| 0 <= j < rest.len() implies rest[j] != c by {
                    assert(rest[j] == s[at + 1 + j]);
                }
            }
            assert forall|i: int| 0 <= i < split(s, sep).len() implies lacks(
                #[trigger] split(s, sep)[i],
                c,
            ) by {
                if i > 0 {
                    assert(split(s, sep)[i] == split(rest, sep)[i - 1]);
                }
            }
        }
    }
}

/// Parts that lack the separator come back when their joining is split.
pub proof fn lemma_split_join(parts: Seq<Seq<char>>, sep: char)
    requires
        parts.len() > 0,
        forall|i: int| 0 <= i < parts.len() ==> lacks(#[trigger] parts[i], sep),
    ensures
        split(join(parts, seq![sep]), sep) == parts,
    decreases parts.len(),
{
    if parts.len() == 1 {
        lemma_find_lacks(parts[0], sep);
        assert(split(parts[0], sep) == seq![parts[0]]);
        assert(seq![parts[0]] =~= parts);
    } else {
        let rest = parts.drop_first();
        assert forall|i: int| 0 <= i < rest.len() implies lacks(#[trigger] rest[i], sep) by {
            assert(rest[i] == parts[i + 1]);
        }
        lemma_split_join(rest, sep);
        lemma_find_after(parts[0], sep, join(rest, seq![sep]));
        assert(seq![parts[0]] + rest =~= parts);
    }
}

/// The characters of a string, in a vector.
pub fn chars_of(s: &str) -> (chars: Vec<char>)
    ensures
        chars@ == s@,
{
    let mut chars: Vec<char> = Vec::new();
    for c in it: s.chars()
        invariant
            chars@ == it.seq().take(it.index() as int),
    {
        chars.push(c);
    }
    chars
}

/// The characters of `s` from `from` up to `to`, as a string of their own.
pub(crate) fn text_between(s: &str, from: usize, to: usize) -> (piece: String)
    requires
        from <= to <= s@.len(),
    ensures
        piece@ == s@.subrange(from as int, to as int),
{
    s.substring_char(from, to).to_owned()
}

/// Searches `chars[from..to]` for `c`: the result is the position in `chars`
/// of the first one, or `to`.
pub(crate) fn find_between(chars: &Vec<char>, c: char, from: usize, to: usize) -> (at: usize)
    requires
        from <= to <= chars.len(),
    ensures
        from <= at <= to,
        at - from == find(chars@.subrange(from as int, to as int), c),
{
    let mut at: usize = from;
    while at < to && chars[at] != c
        invariant
            from <= at <= to <= chars.len(),
            forall|j: int| from <= j < at ==> chars[j] != c,
        decreases to - at,
    {
        at += 1;
    }
    proof {
        lemma_find_is(chars@.subrange(from as int, to as int), c, at - from);
    }
    at
}

/// Searches `chars[from..]` for a space directly followed by a colon: the
/// result is the position in `chars` of the first one, or `chars.len()`.
pub(crate) fn find_marker_from(chars: &Vec<char>, from: usize) -> (at: usize)
    requires
        from <= chars.len(),
    ensures
        from <= at <= chars.len(),
        at - from == find_marker(chars@.skip(from as int)),
{
    let n = chars.len();
    let mut at: usize = from;
    while at < n
        invariant
            n == chars.len(),
            from <= at <= n,
            forall|j: int| 0 <= j < at - from ==> !#[trigger] marker_at(chars@.skip(from as int), j),
        decreases n - at,
    {
        if chars[at] == ' ' && at + 1 < n && chars[at + 1] == ':' {
            proof {
                lemma_find_marker_is(chars@.skip(from as int), at - from);
            }
            return at;
        }
        at += 1;
    }
    proof {
        lemma_find_marker_is(chars@.skip(from as int), n - from);
    }
    n
}

/// The pieces of `s[from..to]` between occurrences of `sep`, each as a
/// string of its own.
pub(crate) fn split_between(
    s: &str,
    chars: &Vec<char>,
    sep: char,
    from: usize,
    to: usize,
) -> (pieces: Vec<String>)
    requires
        chars@ == s@,
        from <= to <= chars.len(),
    ensures
        pieces.deep_view() == split(s@.subrange(from as int, to as int), sep),
{
    let ghost whole = s@.subrange(from as int, to as int);
    let mut pieces: Vec<String> = Vec::new();
    let mut start: usize = from;
    loop
        invariant
            chars@ == s@,
            from <= start <= to <= chars.len(),
            whole == s@.subrange(from as int, to as int),
            split(whole, sep) == pieces.deep_view() + split(s@.subrange(start as int, to as int), sep),
        decreases to - start,
    {
        let at = find_between(chars, sep, start, to);
        let piece = text_between(s, start, at);
        let ghost before = pieces.deep_view();
        let ghost tail = s@.subrange(start as int, to as int);
        proof {
            assert(tail.take(at - start) == piece@);
        }
        pieces.push(piece);
        proof {
            assert(pieces.deep_view() == before + seq![tail.take(at - start)]);
        }
        if at == to {
            proof {
                assert(tail.take(at - start) == tail);
                assert(split(tail, sep) == seq![tail]);
            }
            return pieces;
        }
        proof {
            assert(tail.skip(at - start + 1) == s@.subrange(at + 1, to as int));
        }
        start = at + 1;
    }
}

/// Whether `c` occurs in `s`.
pub fn has_char(s: &str, c: char) -> (found: bool)
    ensures
        found == s@.contains(c),
{
    let chars = chars_of(s);
    let at = find_between(&chars, c, 0, chars.len());
    proof {
        assert(chars@.subrange(0, chars.len() as int) == s@);
        lemma_find(s@, c);
    }
    at < chars.len()
}

/// Whether `s` begins with `c`.
pub fn begins_with(s: &str, c: char) -> (yes: bool)
    ensures
        yes == starts_with(s@, c),
{
    !s.is_empty() && s.get_char(0) == c
}

} // verus!
