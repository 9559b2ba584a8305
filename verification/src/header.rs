//! HTTP headers.

use crate::places;
use crate::text::{self, equal_but_case, find_char, trim};
use vstd::prelude::*;

verus! {

/// An HTTP header.
#[derive(Debug, PartialEq, Eq)]
pub struct Header {
    pub name: String,
    pub value: String,
}

/// A header, as its two texts.
#[verifier::ext_equal]
pub struct HeaderView {
    pub name: Seq<char>,
    pub value: Seq<char>,
}

impl DeepView for Header {
    type V = HeaderView;

    open spec fn deep_view(&self) -> HeaderView {
        HeaderView { name: self.name@, value: self.value@ }
    }
}

impl Clone for Header {
    fn clone(&self) -> (r: Self)
        ensures
            r == *self,
    {
        Header { name: self.name.clone(), value: self.value.clone() }
    }
}

/// The header that a line holds: the name is what stands before the first colon,
/// the value what stands after it, both without white space at their ends. A line
/// without a colon holds none.
pub open spec fn parsed_header(line: Seq<char>) -> Option<HeaderView> {
    let colon = text::place_of(line, ':');
    if colon < line.len() {
        Some(
            HeaderView {
                name: text::trimmed(line.take(colon)),
                value: text::trimmed(line.skip(colon + 1)),
            },
        )
    } else {
        None
    }
}

impl Header {
    /// Parses an HTTP header line received from the server.
    /// It does not panic. Just returns `None` if it can not be parsed.
    pub fn parse(line: &str) -> (r: Option<Header>)
        ensures
            r.deep_view() == parsed_header(line@),
    {
        match find_char(line, ':') {
            Some(colon) => {
                let len = line.unicode_len();
                let name = line.substring_char(0, colon);
                let value = line.substring_char(colon + 1, len);
                Some(Header { name: trim(name).to_string(), value: trim(value).to_string() })
            },
            None => None,
        }
    }
}

/// The line that carries a header.
pub open spec fn header_line(header: HeaderView) -> Seq<char> {
    header.name + ": "@ + header.value
}

/// A line that carries a header gives this header back when it is parsed, provided
/// that the name has no colon and that neither name nor value has white space at
/// an end.
pub proof fn parse_of_header_line(header: HeaderView)
    requires
        !header.name.contains(':'),
        text::trimmed(header.name) == header.name,
        text::trimmed(header.value) == header.value,
    ensures
        parsed_header(header_line(header)) == Some(header),
{
    reveal_strlit(": ");
    let line = header_line(header);
    let colon = text::place_of(line, ':');
    text::lemma_place_of(line, ':');
    let at = header.name.len() as int;
    assert(line[at] == ':');
    if colon < at {
        assert(header.name[colon] == ':');
    }
    assert(line.take(at) =~= header.name);
    let rest = line.skip(at + 1);
    assert(rest[0] == ' ');
    assert(rest.drop_first() =~= header.value);
}

/// A line end behind a line is not part of the header that the line holds.
pub proof fn parse_ignores_line_end(line: Seq<char>)
    ensures
        parsed_header(line + "\r\n"@) == parsed_header(line),
{
    reveal_strlit("\r\n");
    let ended = line + "\r\n"@;
    let colon = text::place_of(line, ':');
    text::lemma_place_of(line, ':');
    text::lemma_place_of(ended, ':');
    let other = text::place_of(ended, ':');
    if other < line.len() {
        assert(line[other] == ended[other]);
    }
    if colon < line.len() {
        assert(ended[colon] == ':');
        assert(other == colon);
        assert(ended.take(colon) =~= line.take(colon));
        let value = line.skip(colon + 1);
        assert(ended.skip(colon + 1) =~= value.push('\r').push('\n'));
        text::trimmed_ignores_white_at_end(value, '\r');
        text::trimmed_ignores_white_at_end(value.push('\r'), '\n');
    }
}

/// The values of the headers with a given name, in order. The case of the name does
/// not matter.
pub open spec fn values_of(headers: Seq<HeaderView>, name: Seq<char>) -> Seq<Seq<char>>
    decreases headers.len(),
{
    if headers.len() == 0 {
        Seq::empty()
    } else {
        let before = values_of(headers.drop_last(), name);
        if text::same_but_case(headers.last().name, name) {
            before.push(headers.last().value)
        } else {
            before
        }
    }
}

/// The case of a header name does not matter: names that are the same up to case have
/// the same values.
pub proof fn values_ignore_case(headers: Seq<HeaderView>, a: Seq<char>, b: Seq<char>)
    requires
        text::same_but_case(a, b),
    ensures
        values_of(headers, a) == values_of(headers, b),
    decreases headers.len(),
{
    if headers.len() > 0 {
        values_ignore_case(headers.drop_last(), a, b);
        let name = headers.last().name;
        if text::same_but_case(name, a) {
            assert forall|i: int| 0 <= i < name.len() implies text::lower_code(#[trigger] name[i])
                == text::lower_code(b[i]) by {
                assert(text::lower_code(a[i]) == text::lower_code(b[i]));
            }
        }
        if text::same_but_case(name, b) {
            assert forall|i: int| 0 <= i < name.len() implies text::lower_code(#[trigger] name[i])
                == text::lower_code(a[i]) by {
                assert(text::lower_code(a[i]) == text::lower_code(b[i]));
            }
        }
    }
}

/// Returns the values of the headers with a given name, whatever the case of it.
pub fn get_header_values(headers: &[Header], name: &str) -> (r: Vec<String>)
    ensures
        r.deep_view() == values_of(headers.deep_view(), name@),
{
    let ghost all = headers.deep_view();
    let mut values: Vec<String> = Vec::new();
    let mut i: usize = 0;
    assert(values.deep_view() =~= values_of(all.take(0), name@));
    while i < headers.len()
        invariant
            i <= headers@.len(),
            all == headers.deep_view(),
            values.deep_view() == values_of(all.take(i as int), name@),
        decreases headers@.len() - i,
    {
        let ghost before = values.deep_view();
        assert(all.take(i + 1).drop_last() =~= all.take(i as int));
        assert(all.take(i + 1).last() == headers@[i as int].deep_view());
        if equal_but_case(headers[i].name.as_str(), name) {
            values.push(headers[i].value.clone());
            assert(values.deep_view() =~= before.push(headers@[i as int].value@));
        }
        i = i + 1;
    }
    assert(all.take(i as int) =~= all);
    values
}

/// A line holds a header exactly where it has a colon. The name is what stands before the
/// first colon and the value what stands behind it, each without the white space at its
/// ends and else unchanged.
pub proof fn header_stands_round_the_first_colon(line: Seq<char>) -> (at: (
    int,
    (int, int),
    (int, int),
))
    ensures
        parsed_header(line) is Some == line.contains(':'),
        parsed_header(line) matches Some(header) ==> {
            let (colon, name, value) = at;
            &&& 0 <= colon < line.len()
            &&& line[colon] == ':'
            &&& forall|i: int| 0 <= i < colon ==> #[trigger] line[i] != ':'
            &&& text::is_core(line.take(colon), name.0, name.1)
            &&& text::is_core(line.skip(colon + 1), value.0, value.1)
            &&& header.name == line.take(colon).subrange(name.0, name.1)
            &&& header.value == line.skip(colon + 1).subrange(value.0, value.1)
        },
{
    text::lemma_place_of(line, ':');
    let colon = text::place_of(line, ':');
    if line.contains(':') {
        let i = choose|i: int| 0 <= i < line.len() && line[i] == ':';
        assert(line[i] == ':');
        let name = text::trimmed_text_is_a_stretch(line.take(colon));
        let value = text::trimmed_text_is_a_stretch(line.skip(colon + 1));
        (colon, name, value)
    } else {
        (colon, (0, 0), (0, 0))
    }
}

/// A header line is the name, a colon, a space and the value.
pub proof fn header_line_is_name_and_value(header: HeaderView)
    ensures
        header_line(header).len() == header.name.len() + 2 + header.value.len(),
        header.name.is_prefix_of(header_line(header)),
        header_line(header)[header.name.len() as int] == ':',
        header_line(header)[header.name.len() as int + 1] == ' ',
        header.value.is_suffix_of(header_line(header)),
{
    reveal_strlit(": ");
    let line = header_line(header);
    assert(line.subrange(0, header.name.len() as int) =~= header.name);
    assert(line.subrange(line.len() - header.value.len(), line.len() as int) =~= header.value);
}

/// The values found for a name are the unchanged values of the headers with this name, up
/// to case: one for each such header, in order, and no other.
pub proof fn values_are_those_of_the_named_headers(
    headers: Seq<HeaderView>,
    name: Seq<char>,
) -> (at: Seq<int>)
    ensures
        places::are_the_places(
            at,
            headers.len() as int,
            |i: int| text::same_but_case(headers[i].name, name),
        ),
        values_of(headers, name).len() == at.len(),
        forall|k: int|
            0 <= k < at.len() ==> #[trigger] values_of(headers, name)[k] == headers[at[k]].value,
    decreases headers.len(),
{
    let found = |i: int| text::same_but_case(headers[i].name, name);
    if headers.len() == 0 {
        Seq::empty()
    } else {
        let rest = headers.drop_last();
        let n = rest.len() as int;
        let before = values_are_those_of_the_named_headers(rest, name);
        places::lemma_next_place(
            before,
            n,
            |i: int| text::same_but_case(rest[i].name, name),
            found,
        );
        let at = if found(n) {
            before.push(n)
        } else {
            before
        };
        assert forall|k: int| 0 <= k < at.len() implies #[trigger] values_of(headers, name)[k]
            == headers[at[k]].value by {
            if k < before.len() {
                assert(values_of(rest, name)[k] == rest[before[k]].value);
                assert(0 <= before[k] < n);
            }
        }
        at
    }
}

/// The view of a header shows its two texts as they are.
pub proof fn header_view_shows_the_header(header: Header)
    ensures
        header.deep_view().name == header.name@,
        header.deep_view().value == header.value@,
{
}

} // verus!
