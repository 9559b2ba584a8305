//! The bytes that come over the wire, turned into text.

use crate::outside::{self, latin1_text, utf8_text};
use vstd::prelude::*;
use vstd::utf8::*;

verus! {

/// A carriage return and a line feed stand at place `i`.
pub open spec fn crlf_at(data: Seq<u8>, i: int) -> bool {
    0 <= i && i + 1 < data.len() && data[i] == 13 && data[i + 1] == 10
}

/// The place of the first line end, or the length of the data where there is none.
pub open spec fn line_end(data: Seq<u8>) -> int
    decreases data.len(),
{
    if data.len() == 0 || crlf_at(data, 0) {
        0
    } else {
        1 + line_end(data.drop_first())
    }
}

proof fn lemma_line_end(data: Seq<u8>)
    ensures
        0 <= line_end(data) <= data.len(),
        forall|i: int| 0 <= i < line_end(data) ==> !#[trigger] crlf_at(data, i),
        line_end(data) < data.len() ==> crlf_at(data, line_end(data)),
    decreases data.len(),
{
    if data.len() == 0 || crlf_at(data, 0) {
    } else {
        let rest = data.drop_first();
        lemma_line_end(rest);
        assert forall|i: int| 0 <= i < line_end(data) implies !#[trigger] crlf_at(data, i) by {
            if i > 0 {
                assert(!crlf_at(rest, i - 1));
            }
        }
        if line_end(data) < data.len() {
            assert(crlf_at(rest, line_end(rest)));
        }
    }
}

/// A piece of data as a line: one text where it is UTF-8, and none where it is not.
pub open spec fn line_of(piece: Seq<u8>) -> Seq<Seq<char>> {
    if valid_utf8(piece) {
        seq![decode_utf8(piece)]
    } else {
        Seq::empty()
    }
}

/// The lines of HTTP data: the pieces that a line end closes, without the line
/// ends and as text. A piece that is not UTF-8 is left out, and so is what follows
/// the last line end.
pub open spec fn http_lines(data: Seq<u8>) -> Seq<Seq<char>>
    decreases data.len(),
{
    let end = line_end(data);
    if crlf_at(data, end) {
        line_of(data.take(end)) + http_lines(data.skip(end + 2))
    } else {
        Seq::empty()
    }
}

/// Splits data into HTTP lines (`\r\n` separator).
pub fn split_lines(data: &[u8]) -> (r: Vec<String>)
    requires
        data@.len() > 0,
    ensures
        r.deep_view() == http_lines(data@),
{
    let mut lines: Vec<String> = Vec::new();
    let mut start: usize = 0;
    let mut i: usize = 0;
    assert(data@.skip(0) =~= data@);
    while i < data.len() - 1
        invariant
            0 < data@.len(),
            start <= i <= data@.len(),
            forall|k: int| start <= k < i ==> !#[trigger] crlf_at(data@, k),
            http_lines(data@) == lines.deep_view() + http_lines(data@.skip(start as int)),
        decreases data@.len() - i,
    {
        if data[i] == 13 && data[i + 1] == 10 {
            let ghost before = lines.deep_view();
            let ghost rest = data@.skip(start as int);
            let piece = vstd::slice::slice_subrange(data, start, i);
            proof {
                assert(crlf_at(data@, i as int));
                assert forall|k: int| 0 <= k < i - start implies !#[trigger] crlf_at(rest, k) by {
                    assert(!crlf_at(data@, start + k));
                }
                lemma_first_line_end(rest, i - start);
                assert(rest.take(i - start) =~= piece@);
                assert(rest.skip(i - start + 2) =~= data@.skip(i + 2));
            }
            if let Some(s) = utf8_text(piece) {
                lines.push(s.to_string());
                assert(lines.deep_view() =~= before.push(s@));
            }
            assert(lines.deep_view() =~= before + line_of(piece@));
            start = i + 2;
            i = i + 2;
        } else {
            i = i + 1;
        }
    }
    proof {
        let rest = data@.skip(start as int);
        lemma_line_end(rest);
        if line_end(rest) < rest.len() {
            assert(crlf_at(data@, start + line_end(rest)));
        }
        assert(lines.deep_view() + Seq::empty() =~= lines.deep_view());
    }
    lines
}

proof fn lemma_first_line_end(data: Seq<u8>, end: int)
    requires
        crlf_at(data, end),
        forall|i: int| 0 <= i < end ==> !#[trigger] crlf_at(data, i),
    ensures
        line_end(data) == end,
{
    lemma_line_end(data);
}

/// The text of a header: what it encodes in UTF-8 where it is UTF-8, and else one
/// character for each byte.
pub open spec fn header_text(data: Seq<u8>) -> Seq<char> {
    if valid_utf8(data) {
        decode_utf8(data)
    } else {
        outside::latin1(data)
    }
}

/// Decodes a header as text with UTF-8 or, failing that, ISO-8859-1 encoding.
pub fn decode_header(data: &[u8]) -> (r: Option<String>)
    ensures
        r matches Some(s) && s@ == header_text(data@),
{
    match utf8_text(data) {
        Some(s) => Some(s.to_string()),
        None => latin1_text(data),
    }
}

/// Data made of the given pieces, each closed by a line end.
pub open spec fn with_line_ends(pieces: Seq<Seq<u8>>) -> Seq<u8>
    decreases pieces.len(),
{
    if pieces.len() == 0 {
        Seq::empty()
    } else {
        pieces[0] + seq![13u8, 10u8] + with_line_ends(pieces.drop_first())
    }
}

/// Splitting gives back the lines that were written: data made of pieces of UTF-8,
/// none of which holds a line end, has exactly the texts of these pieces as its
/// lines, in order.
pub proof fn lines_of_written_lines(pieces: Seq<Seq<u8>>)
    requires
        forall|i: int, k: int|
            0 <= i < pieces.len() ==> !#[trigger] crlf_at(#[trigger] pieces[i], k),
        forall|i: int| 0 <= i < pieces.len() ==> valid_utf8(#[trigger] pieces[i]),
    ensures
        http_lines(with_line_ends(pieces)) == pieces.map_values(|p: Seq<u8>| decode_utf8(p)),
    decreases pieces.len(),
{
    let data = with_line_ends(pieces);
    if pieces.len() > 0 {
        let first = pieces[0];
        let rest = pieces.drop_first();
        assert forall|i: int| 0 <= i < first.len() implies !#[trigger] crlf_at(data, i) by {
            if i + 1 < first.len() {
                assert(!crlf_at(first, i));
            }
        }
        assert(crlf_at(data, first.len() as int));
        lemma_first_line_end(data, first.len() as int);
        assert(data.take(first.len() as int) =~= first);
        assert(data.skip(first.len() as int + 2) =~= with_line_ends(rest));
        lines_of_written_lines(rest);
    }
    assert(http_lines(data) =~= pieces.map_values(|p: Seq<u8>| decode_utf8(p)));
}

/// A text that is sent in UTF-8 is read back as it was.
pub proof fn header_text_of_utf8(text: Seq<char>)
    ensures
        header_text(encode_utf8(text)) == text,
{
    encode_utf8_valid_utf8(text);
    encode_utf8_decode_utf8(text);
}

/// Data is split piece by piece: without a line end it has no line, and a piece with a line
/// end behind it gives its text, where it is UTF-8, before the lines of what follows.
pub proof fn lines_piece_by_piece(piece: Seq<u8>, rest: Seq<u8>)
    requires
        forall|k: int|
            0 <= k < piece.len() - 1 ==> !(#[trigger] piece[k] == 13u8 && piece[k + 1] == 10u8),
    ensures
        http_lines(piece) == Seq::<Seq<char>>::empty(),
        valid_utf8(piece) ==> http_lines(piece + seq![13u8, 10u8] + rest) == seq![
            decode_utf8(piece),
        ] + http_lines(rest),
        !valid_utf8(piece) ==> http_lines(piece + seq![13u8, 10u8] + rest) == http_lines(rest),
{
    assert forall|k: int| !#[trigger] crlf_at(piece, k) by {
        if 0 <= k < piece.len() - 1 {
            assert(!(piece[k] == 13u8 && piece[k + 1] == 10u8));
        }
    }
    lemma_line_end(piece);
    let data = piece + seq![13u8, 10u8] + rest;
    let end = piece.len() as int;
    assert forall|i: int| 0 <= i < end implies !#[trigger] crlf_at(data, i) by {
        if i + 1 < end {
            assert(!crlf_at(piece, i));
        }
    }
    assert(crlf_at(data, end));
    lemma_first_line_end(data, end);
    assert(data.take(end) =~= piece);
    assert(data.skip(end + 2) =~= rest);
    assert(Seq::<Seq<char>>::empty() + http_lines(rest) =~= http_lines(rest));
}

/// Header data that is not UTF-8 is read byte by byte: each byte becomes the character
/// whose code it is.
pub proof fn header_text_of_other_bytes(data: Seq<u8>)
    requires
        !valid_utf8(data),
    ensures
        header_text(data).len() == data.len(),
        forall|i: int| 0 <= i < data.len() ==> #[trigger] header_text(data)[i] as int == data[i],
{
}

} // verus!
