//! Cutting a piece out of a text by byte offsets.
//!
//! Offsets count the bytes of the text's UTF-8 encoding. A piece can only be
//! cut where both of its ends fall between two characters.

use vstd::prelude::*;
use vstd::string::StringSliceAdditionalSpecFns;
use vstd::utf8::{
    decode_utf8, decode_utf8_split, encode_utf8, encode_utf8_decode_utf8, encode_utf8_valid_utf8,
    is_char_boundary, is_char_boundary_iff_not_is_continuation_byte,
    is_char_boundary_start_end_of_seq, valid_utf8, valid_utf8_split,
};

verus! {

/// The number of bytes that `text` takes on the wire.
pub open spec fn byte_len(text: Seq<char>) -> nat {
    encode_utf8(text).len()
}

/// Whether byte offset `at` of `text` falls between two characters, or at
/// one of its ends.
pub open spec fn boundary(text: Seq<char>, at: int) -> bool {
    0 <= at <= byte_len(text) && is_char_boundary(encode_utf8(text), at)
}

/// Whether the bytes `from..to` of `text` can be cut out as a text.
pub open spec fn sliceable(text: Seq<char>, from: int, to: int) -> bool {
    from <= to && boundary(text, from) && boundary(text, to)
}

/// The characters that the bytes `from..to` of `text` encode.
pub open spec fn slice(text: Seq<char>, from: int, to: int) -> Seq<char> {
    decode_utf8(encode_utf8(text).subrange(from, to))
}

/// Among the bytes of a text, an offset at or after a boundary is a boundary
/// exactly if it is one among the bytes that follow that boundary.
pub proof fn lemma_boundary_after(bytes: Seq<u8>, cut: int, at: int)
    requires
        valid_utf8(bytes),
        0 <= cut <= at <= bytes.len(),
        is_char_boundary(bytes, cut),
    ensures
        valid_utf8(bytes.skip(cut)),
        is_char_boundary(bytes.skip(cut), at - cut) == is_char_boundary(bytes, at),
{
    let tail = bytes.skip(cut);
    valid_utf8_split(bytes, cut);
    is_char_boundary_start_end_of_seq(bytes);
    is_char_boundary_start_end_of_seq(tail);
    if at < bytes.len() {
        is_char_boundary_iff_not_is_continuation_byte(bytes, at);
        is_char_boundary_iff_not_is_continuation_byte(tail, at - cut);
        assert(tail[at - cut] == bytes[at]);
    }
}

/// Among the bytes of a text, an offset at or before a boundary is a
/// boundary exactly if it is one among the bytes up to that boundary.
pub proof fn lemma_boundary_before(bytes: Seq<u8>, cut: int, at: int)
    requires
        valid_utf8(bytes),
        0 <= at <= cut <= bytes.len(),
        is_char_boundary(bytes, cut),
    ensures
        valid_utf8(bytes.take(cut)),
        is_char_boundary(bytes.take(cut), at) == is_char_boundary(bytes, at),
{
    let head = bytes.take(cut);
    valid_utf8_split(bytes, cut);
    is_char_boundary_start_end_of_seq(bytes);
    is_char_boundary_start_end_of_seq(head);
    if at < cut {
        is_char_boundary_iff_not_is_continuation_byte(bytes, at);
        is_char_boundary_iff_not_is_continuation_byte(head, at);
        assert(head[at] == bytes[at]);
    }
}

/// Two pieces that meet at a boundary make up the piece that spans both.
pub proof fn lemma_slice_joins(text: Seq<char>, from: int, mid: int, to: int)
    requires
        sliceable(text, from, mid),
        sliceable(text, mid, to),
    ensures
        slice(text, from, to) == slice(text, from, mid) + slice(text, mid, to),
{
    let bytes = encode_utf8(text);
    encode_utf8_valid_utf8(text);
    lemma_boundary_after(bytes, from, to);
    let tail = bytes.skip(from);
    lemma_boundary_before(tail, to - from, mid - from);
    lemma_boundary_after(bytes, from, mid);
    let piece = tail.take(to - from);
    assert(piece == bytes.subrange(from, to));
    decode_utf8_split(piece, mid - from);
    assert(piece.subrange(0, mid - from) == bytes.subrange(from, mid));
    assert(piece.subrange(mid - from, piece.len() as int) == bytes.subrange(mid, to));
}

/// The piece from one end of a text to the other is the text.
pub proof fn lemma_slice_whole(text: Seq<char>)
    ensures
        sliceable(text, 0, byte_len(text) as int),
        slice(text, 0, byte_len(text) as int) == text,
{
    let bytes = encode_utf8(text);
    encode_utf8_valid_utf8(text);
    is_char_boundary_start_end_of_seq(bytes);
    assert(bytes.subrange(0, bytes.len() as int) == bytes);
    encode_utf8_decode_utf8(text);
}

/// The piece of no bytes is the empty text.
pub proof fn lemma_slice_empty(text: Seq<char>, at: int)
    requires
        0 <= at <= byte_len(text),
    ensures
        slice(text, at, at) == Seq::<char>::empty(),
{
    assert(encode_utf8(text).subrange(at, at).len() == 0);
}

/// Cuts the bytes `from..to` out of `text`, where that can be done.
pub fn slice_bytes<'a>(text: &'a str, from: usize, to: usize) -> (piece: Option<&'a str>)
    ensures
        match piece {
            Some(p) => sliceable(text@, from as int, to as int) && p@ == slice(
                text@,
                from as int,
                to as int,
            ),
            None => !sliceable(text@, from as int, to as int),
        },
{
    let len = text.as_bytes().len();
    if from > to || to > len {
        return None;
    }
    if !text.is_char_boundary(from) || !text.is_char_boundary(to) {
        return None;
    }
    proof {
        encode_utf8_valid_utf8(text@);
        lemma_boundary_before(text.spec_bytes(), to as int, from as int);
    }
    let (head, _) = text.split_at(to);
    let (_, piece) = head.split_at(from);
    proof {
        assert(piece.spec_bytes() == text.spec_bytes().subrange(from as int, to as int));
        encode_utf8_decode_utf8(piece@);
    }
    Some(piece)
}

/// The number of bytes of `text`.
pub fn byte_count(text: &str) -> (n: usize)
    ensures
        n == byte_len(text@),
{
    text.as_bytes().len()
}

} // verus!
