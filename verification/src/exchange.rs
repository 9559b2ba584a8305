//! One exchange of a request and a response, from the events of its transfer.

use crate::header::{self, Header, HeaderView};
use crate::items::items;
use crate::message::{HttpError, HttpErrorView, LogLine, LogLineView, Request, RequestView};
use crate::places;
use crate::text::{self, starts_with};
use crate::wire::{self, decode_header, split_lines};
use vstd::prelude::*;
use vstd::utf8::*;

verus! {

/// What is known of an exchange while its transfer runs.
#[derive(Debug, PartialEq, Eq)]
pub struct Exchange {
    /// The URL that is asked for.
    pub url: String,
    /// The name of the method.
    pub method: String,
    /// The body that the user gives, which the transfer reads.
    pub request_spec_body: Vec<u8>,
    /// Whether a body, a form or a multipart form is sent.
    pub has_body_data: bool,
    /// Whether the exchange is logged.
    pub verbose: bool,
    /// Whether its bodies are logged too.
    pub very_verbose: bool,
    /// The headers that were sent.
    pub request_headers: Vec<Header>,
    /// The bytes of the body that were sent. They are not those that the user gives:
    /// a form is sent URL-encoded, for instance.
    pub request_body: Vec<u8>,
    /// The status lines that were received.
    pub status_lines: Vec<String>,
    /// The header lines that were received.
    pub response_headers: Vec<String>,
    /// The bytes of the body that were received.
    pub response_body: Vec<u8>,
}

/// An exchange, as its texts and bytes.
#[verifier::ext_equal]
pub struct ExchangeView {
    pub url: Seq<char>,
    pub method: Seq<char>,
    pub request_spec_body: Seq<u8>,
    pub has_body_data: bool,
    pub verbose: bool,
    pub very_verbose: bool,
    pub request_headers: Seq<HeaderView>,
    pub request_body: Seq<u8>,
    pub status_lines: Seq<Seq<char>>,
    pub response_headers: Seq<Seq<char>>,
    pub response_body: Seq<u8>,
}

impl DeepView for Exchange {
    type V = ExchangeView;

    open spec fn deep_view(&self) -> ExchangeView {
        ExchangeView {
            url: self.url@,
            method: self.method@,
            request_spec_body: self.request_spec_body@,
            has_body_data: self.has_body_data,
            verbose: self.verbose,
            very_verbose: self.very_verbose,
            request_headers: self.request_headers.deep_view(),
            request_body: self.request_body@,
            status_lines: self.status_lines.deep_view(),
            response_headers: self.response_headers.deep_view(),
            response_body: self.response_body@,
        }
    }
}

/// The headers that lines hold, in order. Lines that hold none are left out.
pub open spec fn headers_of(lines: Seq<Seq<char>>) -> Seq<HeaderView>
    decreases lines.len(),
{
    if lines.len() == 0 {
        Seq::empty()
    } else {
        let before = headers_of(lines.drop_last());
        match header::parsed_header(lines.last()) {
            Some(header) => before.push(header),
            None => before,
        }
    }
}

/// Parses lines as headers, and leaves out those that hold none.
pub fn parse_headers(lines: &[String]) -> (r: Vec<Header>)
    ensures
        r.deep_view() == headers_of(lines.deep_view()),
{
    let ghost all = lines.deep_view();
    let mut headers: Vec<Header> = Vec::new();
    let mut i: usize = 0;
    assert(headers.deep_view() =~= headers_of(all.take(0)));
    while i < lines.len()
        invariant
            i <= lines@.len(),
            all == lines.deep_view(),
            headers.deep_view() == headers_of(all.take(i as int)),
        decreases lines@.len() - i,
    {
        let ghost before = headers.deep_view();
        assert(all.take(i + 1).drop_last() =~= all.take(i as int));
        assert(all.take(i + 1).last() == lines@[i as int]@);
        if let Some(header) = Header::parse(lines[i].as_str()) {
            let ghost seen = header.deep_view();
            headers.push(header);
            assert(headers.deep_view() =~= before.push(seen));
        }
        i = i + 1;
    }
    assert(all.take(i as int) =~= all);
    headers
}

/// The log of a request that is sent with the given headers and body.
pub open spec fn sent_log(
    exchange: ExchangeView,
    headers: Seq<HeaderView>,
    body: Seq<u8>,
) -> Seq<LogLineView> {
    let request = RequestView { url: exchange.url, method: exchange.method, headers, body };
    let heads = Seq::new(headers.len(), |i: int| LogLineView::HeaderOut(headers[i]));
    let mark = LogLineView::Info(">"@);
    if exchange.very_verbose {
        heads.push(mark).push(LogLineView::RequestBody(request))
    } else {
        heads.push(mark)
    }
}

/// The exchange after the transfer has sent header data: the header lines between
/// the request line and the closing empty line are added to the headers.
pub open spec fn after_header_out(exchange: ExchangeView, data: Seq<u8>) -> ExchangeView {
    let lines = wire::http_lines(data);
    ExchangeView {
        request_headers: exchange.request_headers + headers_of(
            lines.subrange(1, lines.len() - 1),
        ),
        ..exchange
    }
}

/// The log of header data that was sent. The request itself is logged here only where
/// no body follows.
pub open spec fn header_out_log(exchange: ExchangeView, data: Seq<u8>) -> Seq<LogLineView> {
    let headers = after_header_out(exchange, data).request_headers;
    if !exchange.verbose {
        Seq::empty()
    } else {
        let line = wire::http_lines(data)[0];
        seq![LogLineView::MethodVersionOut(line)] + if exchange.has_body_data {
            Seq::empty()
        } else {
            sent_log(exchange, headers, Seq::empty())
        }
    }
}

/// The log of body data that was sent.
pub open spec fn data_out_log(exchange: ExchangeView, data: Seq<u8>) -> Seq<LogLineView> {
    if exchange.verbose {
        sent_log(exchange, exchange.request_headers, data)
    } else {
        Seq::empty()
    }
}

/// The exchange after the transfer has sent body data.
pub open spec fn after_data_out(exchange: ExchangeView, data: Seq<u8>) -> ExchangeView {
    ExchangeView { request_body: exchange.request_body + data, ..exchange }
}

/// The exchange after the transfer has received body data.
pub open spec fn after_data_in(exchange: ExchangeView, data: Seq<u8>) -> ExchangeView {
    ExchangeView { response_body: exchange.response_body + data, ..exchange }
}

/// The exchange after the transfer has received a header: it is a status line where it
/// starts with `HTTP/`, and else a header line.
pub open spec fn after_header_in(exchange: ExchangeView, data: Seq<u8>) -> ExchangeView {
    let text = wire::header_text(data);
    if "HTTP/"@.is_prefix_of(text) {
        ExchangeView { status_lines: exchange.status_lines.push(text), ..exchange }
    } else {
        ExchangeView { response_headers: exchange.response_headers.push(text), ..exchange }
    }
}

impl Exchange {
    fn log_sent(&self, body: Vec<u8>, log: &mut Vec<LogLine>)
        ensures
            final(log).deep_view() == old(log).deep_view() + sent_log(
                self.deep_view(),
                self.request_headers.deep_view(),
                body@,
            ),
    {
        let ghost start = log.deep_view();
        let ghost headers = self.request_headers.deep_view();
        let mut i: usize = 0;
        while i < self.request_headers.len()
            invariant
                i <= self.request_headers.len(),
                headers == self.request_headers.deep_view(),
                log.deep_view() == start + Seq::new(
                    i as nat,
                    |k: int| LogLineView::HeaderOut(headers[k]),
                ),
            decreases self.request_headers.len() - i,
        {
            let ghost before = log.deep_view();
            log.push(LogLine::HeaderOut(self.request_headers[i].clone()));
            assert(log.deep_view() =~= before.push(LogLineView::HeaderOut(headers[i as int])));
            i = i + 1;
            assert(log.deep_view() =~= start + Seq::new(
                i as nat,
                |k: int| LogLineView::HeaderOut(headers[k]),
            ));
        }
        let ghost before = log.deep_view();
        log.push(LogLine::Info(">".to_string()));
        assert(log.deep_view() =~= before.push(LogLineView::Info(">"@)));
        if self.very_verbose {
            let ghost before = log.deep_view();
            let request = Request {
                url: self.url.clone(),
                method: self.method.clone(),
                headers: self.request_headers.clone(),
                body,
            };
            assert(request.headers.deep_view() =~= headers);
            let ghost sent = request.deep_view();
            log.push(LogLine::RequestBody(request));
            assert(log.deep_view() =~= before.push(LogLineView::RequestBody(sent)));
        }
        assert(log.deep_view() =~= start + sent_log(self.deep_view(), headers, body@));
    }

    /// Takes the header data that the transfer has sent: the request line, all headers
    /// and an empty line.
    pub fn header_out(&mut self, data: &[u8], log: &mut Vec<LogLine>)
        requires
            wire::http_lines(data@).len() >= 2,
        ensures
            final(self).deep_view() == after_header_out(old(self).deep_view(), data@),
            final(log).deep_view() == old(log).deep_view() + header_out_log(
                old(self).deep_view(),
                data@,
            ),
    {
        let ghost start = log.deep_view();
        let ghost exchange = self.deep_view();
        let ghost texts = wire::http_lines(data@);
        let mut lines = split_lines(data);
        assert(lines@[0]@ == texts[0]);
        if self.verbose {
            log.push(LogLine::MethodVersionOut(lines[0].clone()));
            assert(log.deep_view() =~= start.push(LogLineView::MethodVersionOut(texts[0])));
        }
        lines.pop();
        lines.remove(0);
        assert(lines.deep_view() =~= texts.subrange(1, texts.len() - 1)) by {
            assert forall|i: int| 0 <= i < lines.len() implies #[trigger] lines@[i]@ == texts[i
                + 1] by {}
        }
        let mut headers = parse_headers(items(&lines));
        let ghost added = headers.deep_view();
        self.request_headers.append(&mut headers);
        assert(self.request_headers.deep_view() =~= exchange.request_headers + added);
        if !self.has_body_data && self.verbose {
            self.log_sent(Vec::new(), log);
        }
        assert(log.deep_view() =~= start + header_out_log(exchange, data@));
    }

    /// Takes body data that the transfer has sent.
    pub fn data_out(&mut self, data: &[u8], log: &mut Vec<LogLine>)
        ensures
            final(self).deep_view() == after_data_out(old(self).deep_view(), data@),
            final(log).deep_view() == old(log).deep_view() + data_out_log(
                old(self).deep_view(),
                data@,
            ),
    {
        let ghost exchange = self.deep_view();
        let ghost start = log.deep_view();
        self.request_body.extend_from_slice(data);
        assert(self.request_body@ =~= exchange.request_body + data@);
        if self.verbose {
            self.log_sent(vstd::slice::slice_to_vec(data), log);
        }
        assert(log.deep_view() =~= start + data_out_log(exchange, data@));
    }

    /// Takes a header that the transfer has received.
    pub fn header_in(&mut self, data: &[u8])
        ensures
            final(self).deep_view() == after_header_in(old(self).deep_view(), data@),
    {
        let ghost exchange = self.deep_view();
        if let Some(s) = decode_header(data) {
            let ghost text = s@;
            if starts_with(s.as_str(), "HTTP/") {
                self.status_lines.push(s);
                assert(self.status_lines.deep_view() =~= exchange.status_lines.push(text));
            } else {
                self.response_headers.push(s);
                assert(self.response_headers.deep_view() =~= exchange.response_headers.push(text));
            }
        }
    }

    /// Takes body data that the transfer has received, and tells how much of it was
    /// taken.
    pub fn data_in(&mut self, data: &[u8]) -> (r: usize)
        ensures
            r == data@.len(),
            final(self).deep_view() == after_data_in(old(self).deep_view(), data@),
    {
        let ghost exchange = self.deep_view();
        self.response_body.extend_from_slice(data);
        assert(self.response_body@ =~= exchange.response_body + data@);
        data.len()
    }

    /// Returns the failure of a transfer, from the code and the description of its
    /// error. A description of this very transfer goes before the general one.
    pub fn failure(&self, code: i32, extra_description: Option<String>, description: String) -> (r:
        HttpError)
        ensures
            r.deep_view() == (HttpErrorView::Libcurl {
                code,
                description: match extra_description.deep_view() {
                    Some(s) => s,
                    None => description@,
                },
                url: self.url@,
            }),
    {
        let description = match extra_description {
            None => description,
            Some(s) => s,
        };
        HttpError::Libcurl { code, description, url: self.url.clone() }
    }
}

/// An event of a transfer, with its data.
pub enum Event {
    HeaderOut(Seq<u8>),
    DataOut(Seq<u8>),
    HeaderIn(Seq<u8>),
    DataIn(Seq<u8>),
}

/// The exchange after an event.
pub open spec fn after_event(exchange: ExchangeView, event: Event) -> ExchangeView {
    match event {
        Event::HeaderOut(data) => after_header_out(exchange, data),
        Event::DataOut(data) => after_data_out(exchange, data),
        Event::HeaderIn(data) => after_header_in(exchange, data),
        Event::DataIn(data) => after_data_in(exchange, data),
    }
}

/// The exchange after events, in order.
pub open spec fn after_events(exchange: ExchangeView, events: Seq<Event>) -> ExchangeView
    decreases events.len(),
{
    if events.len() == 0 {
        exchange
    } else {
        after_event(after_events(exchange, events.drop_last()), events.last())
    }
}

/// The body data that events have sent.
pub open spec fn data_sent(events: Seq<Event>) -> Seq<u8>
    decreases events.len(),
{
    if events.len() == 0 {
        Seq::empty()
    } else {
        match events.last() {
            Event::DataOut(data) => data_sent(events.drop_last()) + data,
            _ => data_sent(events.drop_last()),
        }
    }
}

/// The body data that events have brought in.
pub open spec fn data_received(events: Seq<Event>) -> Seq<u8>
    decreases events.len(),
{
    if events.len() == 0 {
        Seq::empty()
    } else {
        match events.last() {
            Event::DataIn(data) => data_received(events.drop_last()) + data,
            _ => data_received(events.drop_last()),
        }
    }
}

/// Status lines start with `HTTP/`, and header lines do not.
pub open spec fn lines_are_sorted_out(exchange: ExchangeView) -> bool {
    &&& forall|i: int|
        0 <= i < exchange.status_lines.len() ==> "HTTP/"@.is_prefix_of(
            #[trigger] exchange.status_lines[i],
        )
    &&& forall|i: int|
        0 <= i < exchange.response_headers.len() ==> !"HTTP/"@.is_prefix_of(
            #[trigger] exchange.response_headers[i],
        )
}

/// Whatever the events of a transfer are: the URL, the method, the body that the user
/// gives and what is logged stay as they were, the bodies grow by all data that is
/// sent and received, in order, and status lines and header lines stay sorted out.
pub proof fn events_only_add(exchange: ExchangeView, events: Seq<Event>)
    ensures
        ({
            let after = after_events(exchange, events);
            &&& after.url == exchange.url
            &&& after.method == exchange.method
            &&& after.request_spec_body == exchange.request_spec_body
            &&& after.has_body_data == exchange.has_body_data
            &&& after.verbose == exchange.verbose
            &&& after.very_verbose == exchange.very_verbose
            &&& exchange.request_headers.is_prefix_of(after.request_headers)
            &&& exchange.status_lines.is_prefix_of(after.status_lines)
            &&& exchange.response_headers.is_prefix_of(after.response_headers)
            &&& after.request_body == exchange.request_body + data_sent(events)
            &&& after.response_body == exchange.response_body + data_received(events)
            &&& lines_are_sorted_out(exchange) ==> lines_are_sorted_out(after)
        }),
    decreases events.len(),
{
    let after = after_events(exchange, events);
    if events.len() > 0 {
        events_only_add(exchange, events.drop_last());
    }
    assert(after.request_body =~= exchange.request_body + data_sent(events));
    assert(after.response_body =~= exchange.response_body + data_received(events));
}

/// The pieces of header data: the request line, a line for each header and an empty line.
pub open spec fn head_pieces(request_line: Seq<char>, headers: Seq<HeaderView>) -> Seq<Seq<u8>> {
    Seq::new(
        headers.len() + 2,
        |i: int|
            if i == 0 {
                encode_utf8(request_line)
            } else if i <= headers.len() {
                encode_utf8(header::header_line(headers[i - 1]))
            } else {
                Seq::empty()
            },
    )
}

proof fn lemma_headers_of_header_lines(headers: Seq<HeaderView>, lines: Seq<Seq<char>>)
    requires
        lines.len() == headers.len(),
        forall|i: int|
            0 <= i < headers.len() ==> {
                let h = #[trigger] headers[i];
                &&& lines[i] == header::header_line(h)
                &&& !h.name.contains(':')
                &&& text::trimmed(h.name) == h.name
                &&& text::trimmed(h.value) == h.value
            },
    ensures
        headers_of(lines) == headers,
    decreases lines.len(),
{
    if lines.len() > 0 {
        let rest = headers.drop_last();
        assert forall|i: int| 0 <= i < rest.len() implies {
            let h = #[trigger] rest[i];
            &&& lines.drop_last()[i] == header::header_line(h)
            &&& !h.name.contains(':')
            &&& text::trimmed(h.name) == h.name
            &&& text::trimmed(h.value) == h.value
        } by {
            assert(rest[i] == headers[i]);
        }
        lemma_headers_of_header_lines(rest, lines.drop_last());
        let last = headers[headers.len() - 1];
        header::parse_of_header_line(last);
        assert(lines.last() == header::header_line(last));
        assert(headers_of(lines) =~= headers);
    } else {
        assert(headers_of(lines) =~= headers);
    }
}

/// The headers that are written into header data are the ones that the exchange takes
/// from it, in order, provided that no line holds a line end, and of each header that
/// the name has no colon and that neither name nor value has white space at an end.
pub proof fn sent_headers_are_read_back(
    exchange: ExchangeView,
    request_line: Seq<char>,
    headers: Seq<HeaderView>,
)
    requires
        forall|i: int, k: int|
            0 <= i < headers.len() + 2 ==> !#[trigger] wire::crlf_at(
                #[trigger] head_pieces(request_line, headers)[i],
                k,
            ),
        forall|i: int|
            0 <= i < headers.len() ==> {
                let h = #[trigger] headers[i];
                &&& !h.name.contains(':')
                &&& text::trimmed(h.name) == h.name
                &&& text::trimmed(h.value) == h.value
            },
    ensures
        after_header_out(
            exchange,
            wire::with_line_ends(head_pieces(request_line, headers)),
        ).request_headers == exchange.request_headers + headers,
{
    let pieces = head_pieces(request_line, headers);
    let data = wire::with_line_ends(pieces);
    assert forall|i: int| 0 <= i < pieces.len() implies valid_utf8(#[trigger] pieces[i]) by {
        if i == 0 {
            encode_utf8_valid_utf8(request_line);
        } else if i <= headers.len() {
            encode_utf8_valid_utf8(header::header_line(headers[i - 1]));
        }
    }
    wire::lines_of_written_lines(pieces);
    let all = wire::http_lines(data);
    let lines = all.subrange(1, all.len() - 1);
    assert forall|i: int| 0 <= i < headers.len() implies #[trigger] lines[i]
        == header::header_line(headers[i]) by {
        assert(lines[i] == decode_utf8(pieces[i + 1]));
        encode_utf8_decode_utf8(header::header_line(headers[i]));
    }
    lemma_headers_of_header_lines(headers, lines);
}

/// The headers of lines are those of the lines that have a colon: one for each, in order.
pub proof fn headers_are_those_of_lines_with_a_colon(lines: Seq<Seq<char>>) -> (at: Seq<int>)
    ensures
        places::are_the_places(at, lines.len() as int, |i: int| lines[i].contains(':')),
        headers_of(lines).len() == at.len(),
        forall|k: int|
            0 <= k < at.len() ==> header::parsed_header(lines[at[k]]) == Some(
                #[trigger] headers_of(lines)[k],
            ),
    decreases lines.len(),
{
    let held = |i: int| lines[i].contains(':');
    if lines.len() == 0 {
        Seq::empty()
    } else {
        let rest = lines.drop_last();
        let n = rest.len() as int;
        let before = headers_are_those_of_lines_with_a_colon(rest);
        places::lemma_next_place(before, n, |i: int| rest[i].contains(':'), held);
        let parsed = header::header_stands_round_the_first_colon(lines[n]);
        let at = if held(n) {
            before.push(n)
        } else {
            before
        };
        assert forall|k: int| 0 <= k < at.len() implies header::parsed_header(lines[at[k]]) == Some(
            #[trigger] headers_of(lines)[k],
        ) by {
            if k < before.len() {
                assert(headers_of(lines)[k] == headers_of(rest)[k]);
                assert(0 <= before[k] < n);
            }
        }
        at
    }
}

/// Header data that was sent adds a header for each of its lines that has a colon, but for
/// the first and the last line: in order, behind the headers before, and nothing else.
pub proof fn sent_lines_become_headers(exchange: ExchangeView, data: Seq<u8>) -> (at: Seq<int>)
    requires
        wire::http_lines(data).len() >= 2,
    ensures
        ({
            let lines = wire::http_lines(data);
            let before = exchange.request_headers;
            let after = after_header_out(exchange, data);
            &&& after == (ExchangeView { request_headers: after.request_headers, ..exchange })
            &&& places::are_the_places(
                at,
                lines.len() - 2,
                |i: int| lines[i + 1].contains(':'),
            )
            &&& after.request_headers.len() == before.len() + at.len()
            &&& after.request_headers.take(before.len() as int) == before
            &&& forall|k: int|
                0 <= k < at.len() ==> header::parsed_header(lines[at[k] + 1]) == Some(
                    #[trigger] after.request_headers[before.len() + k],
                )
        }),
{
    let lines = wire::http_lines(data);
    let inner = lines.subrange(1, lines.len() - 1);
    let at = headers_are_those_of_lines_with_a_colon(inner);
    let before = exchange.request_headers;
    let after = after_header_out(exchange, data).request_headers;
    assert(after.take(before.len() as int) =~= before);
    let p = |i: int| inner[i].contains(':');
    let q = |i: int| lines[i + 1].contains(':');
    assert forall|i: int| 0 <= i < lines.len() - 2 && #[trigger] q(i) implies at.contains(i) by {
        assert(p(i));
    }
    assert forall|k: int| 0 <= k < at.len() implies 0 <= #[trigger] at[k] < lines.len() - 2 && q(
        at[k],
    ) by {
        assert(p(at[k]));
    }
    assert forall|k: int| 0 <= k < at.len() implies header::parsed_header(lines[at[k] + 1]) == Some(
        #[trigger] after[before.len() + k],
    ) by {
        assert(after[before.len() + k] == headers_of(inner)[k]);
        assert(inner[at[k]] == lines[at[k] + 1]);
    }
    at
}

/// Body data is added to the body of its direction, and a header that is received to the
/// status lines or, where it does not start with `HTTP/`, to the header lines. Each goes
/// behind what was there, whole, and changes nothing else.
pub proof fn received_data_goes_to_its_place(exchange: ExchangeView, data: Seq<u8>)
    ensures
        after_data_out(exchange, data) == (ExchangeView {
            request_body: exchange.request_body + data,
            ..exchange
        }),
        after_data_in(exchange, data) == (ExchangeView {
            response_body: exchange.response_body + data,
            ..exchange
        }),
        "HTTP/"@.is_prefix_of(wire::header_text(data)) ==> after_header_in(exchange, data) == (
        ExchangeView {
            status_lines: exchange.status_lines + seq![wire::header_text(data)],
            ..exchange
        }),
        !"HTTP/"@.is_prefix_of(wire::header_text(data)) ==> after_header_in(exchange, data) == (
        ExchangeView {
            response_headers: exchange.response_headers + seq![wire::header_text(data)],
            ..exchange
        }),
{
    let text = wire::header_text(data);
    assert(exchange.status_lines.push(text) =~= exchange.status_lines + seq![text]);
    assert(exchange.response_headers.push(text) =~= exchange.response_headers + seq![text]);
}

/// The text of a header that an event has brought in, or an empty one.
pub open spec fn text_in(event: Event) -> Seq<char> {
    match event {
        Event::HeaderIn(data) => wire::header_text(data),
        _ => Seq::empty(),
    }
}

/// The status lines of an exchange are all received headers that start with `HTTP/`, and its
/// header lines all others: one for each event that brings one in, whole and in order.
pub proof fn received_lines_are_kept_in_order(exchange: ExchangeView, events: Seq<Event>) -> (at: (
    Seq<int>,
    Seq<int>,
))
    ensures
        ({
            let after = after_events(exchange, events);
            let (status_at, header_at) = at;
            let (s, h) = (exchange.status_lines, exchange.response_headers);
            &&& places::are_the_places(
                status_at,
                events.len() as int,
                |i: int| events[i] is HeaderIn && "HTTP/"@.is_prefix_of(text_in(events[i])),
            )
            &&& places::are_the_places(
                header_at,
                events.len() as int,
                |i: int| events[i] is HeaderIn && !"HTTP/"@.is_prefix_of(text_in(events[i])),
            )
            &&& after.status_lines.len() == s.len() + status_at.len()
            &&& after.response_headers.len() == h.len() + header_at.len()
            &&& forall|k: int|
                0 <= k < status_at.len() ==> #[trigger] after.status_lines[s.len() + k] == text_in(
                    events[status_at[k]],
                )
            &&& forall|k: int|
                0 <= k < header_at.len() ==> #[trigger] after.response_headers[h.len() + k]
                    == text_in(events[header_at[k]])
        }),
    decreases events.len(),
{
    let (s, h) = (exchange.status_lines.len(), exchange.response_headers.len());
    let after = after_events(exchange, events);
    if events.len() == 0 {
        (Seq::empty(), Seq::empty())
    } else {
        let rest = events.drop_last();
        let n = rest.len() as int;
        let earlier = after_events(exchange, rest);
        let (status_at, header_at) = received_lines_are_kept_in_order(exchange, rest);
        let p = |i: int| events[i] is HeaderIn && "HTTP/"@.is_prefix_of(text_in(events[i]));
        let q = |i: int| events[i] is HeaderIn && !"HTTP/"@.is_prefix_of(text_in(events[i]));
        places::lemma_next_place(
            status_at,
            n,
            |i: int| rest[i] is HeaderIn && "HTTP/"@.is_prefix_of(text_in(rest[i])),
            p,
        );
        places::lemma_next_place(
            header_at,
            n,
            |i: int| rest[i] is HeaderIn && !"HTTP/"@.is_prefix_of(text_in(rest[i])),
            q,
        );
        let next_status = if p(n) {
            status_at.push(n)
        } else {
            status_at
        };
        let next_header = if q(n) {
            header_at.push(n)
        } else {
            header_at
        };
        assert forall|k: int| 0 <= k < next_status.len() implies #[trigger] after.status_lines[s
            + k] == text_in(events[next_status[k]]) by {
            if k < status_at.len() {
                assert(after.status_lines[s + k] == earlier.status_lines[s + k]);
                assert(0 <= status_at[k] < n);
            }
        }
        assert forall|k: int| 0 <= k < next_header.len() implies #[trigger] after.response_headers[h
            + k] == text_in(events[next_header[k]]) by {
            if k < header_at.len() {
                assert(after.response_headers[h + k] == earlier.response_headers[h + k]);
                assert(0 <= header_at[k] < n);
            }
        }
        (next_status, next_header)
    }
}

/// The header data that events have sent, event by event.
pub open spec fn heads_sent(events: Seq<Event>) -> Seq<Seq<u8>>
    decreases events.len(),
{
    if events.len() == 0 {
        Seq::empty()
    } else {
        match events.last() {
            Event::HeaderOut(data) => heads_sent(events.drop_last()).push(data),
            _ => heads_sent(events.drop_last()),
        }
    }
}

/// The headers of a request are those of the header data that was sent. No other event
/// changes them.
pub proof fn only_sent_heads_change_the_headers(
    exchange: ExchangeView,
    events: Seq<Event>,
    others: Seq<Event>,
)
    requires
        heads_sent(events) == heads_sent(others),
    ensures
        after_events(exchange, events).request_headers == after_events(
            exchange,
            others,
        ).request_headers,
    decreases events.len() + others.len(),
{
    if events.len() > 0 && !(events.last() is HeaderOut) {
        only_sent_heads_change_the_headers(exchange, events.drop_last(), others);
    } else if others.len() > 0 && !(others.last() is HeaderOut) {
        only_sent_heads_change_the_headers(exchange, events, others.drop_last());
    } else if events.len() > 0 && others.len() > 0 {
        let (a, b) = (events.drop_last(), others.drop_last());
        assert(heads_sent(events).last() == heads_sent(others).last());
        assert(heads_sent(a) =~= heads_sent(events).drop_last());
        assert(heads_sent(b) =~= heads_sent(others).drop_last());
        only_sent_heads_change_the_headers(exchange, a, b);
    } else {
        assert(events.len() > 0 ==> heads_sent(events).len() > 0);
        assert(others.len() > 0 ==> heads_sent(others).len() > 0);
    }
}

/// A request is logged header by header, in order, then a mark, and then, where bodies are
/// logged too, the whole request with the body that is given.
pub proof fn request_is_logged_header_by_header(
    exchange: ExchangeView,
    headers: Seq<HeaderView>,
    body: Seq<u8>,
)
    ensures
        ({
            let log = sent_log(exchange, headers, body);
            let n = headers.len() as int;
            &&& log.len() == if exchange.very_verbose {
                n + 2
            } else {
                n + 1
            }
            &&& forall|i: int|
                0 <= i < n ==> #[trigger] log[i] == LogLineView::HeaderOut(headers[i])
            &&& log[n] == LogLineView::Info(seq!['>'])
            &&& exchange.very_verbose ==> log[n + 1] == LogLineView::RequestBody(
                RequestView { url: exchange.url, method: exchange.method, headers, body },
            )
        }),
{
    reveal_strlit(">");
    assert(">"@ =~= seq!['>']);
}

/// Header data is logged as its request line. Where no body follows, the request is logged
/// behind it, with all headers that were sent and without a body. Body data is logged as the
/// request with this data.
pub proof fn sent_data_is_logged(exchange: ExchangeView, data: Seq<u8>)
    ensures
        !exchange.verbose ==> header_out_log(exchange, data).len() == 0 && data_out_log(
            exchange,
            data,
        ).len() == 0,
        exchange.verbose ==> header_out_log(exchange, data).len() > 0 && header_out_log(
            exchange,
            data,
        )[0] == LogLineView::MethodVersionOut(wire::http_lines(data)[0]),
        exchange.verbose && exchange.has_body_data ==> header_out_log(exchange, data).len() == 1,
        exchange.verbose && !exchange.has_body_data ==> header_out_log(exchange, data).skip(1)
            == sent_log(exchange, after_header_out(exchange, data).request_headers, Seq::empty()),
        exchange.verbose ==> data_out_log(exchange, data) == sent_log(
            exchange,
            exchange.request_headers,
            data,
        ),
{
    let log = header_out_log(exchange, data);
    if exchange.verbose && !exchange.has_body_data {
        let headers = after_header_out(exchange, data).request_headers;
        assert(log.skip(1) =~= sent_log(exchange, headers, Seq::empty()));
    }
}

/// The view of an exchange shows all that is known of it as it is.
pub proof fn exchange_view_shows_the_exchange(exchange: Exchange)
    ensures
        exchange.deep_view().url == exchange.url@,
        exchange.deep_view().method == exchange.method@,
        exchange.deep_view().request_spec_body == exchange.request_spec_body@,
        exchange.deep_view().has_body_data == exchange.has_body_data,
        exchange.deep_view().verbose == exchange.verbose,
        exchange.deep_view().very_verbose == exchange.very_verbose,
        exchange.deep_view().request_headers == exchange.request_headers.deep_view(),
        exchange.deep_view().request_body == exchange.request_body@,
        exchange.deep_view().status_lines == exchange.status_lines.deep_view(),
        exchange.deep_view().response_headers == exchange.response_headers.deep_view(),
        exchange.deep_view().response_body == exchange.response_body@,
{
}

} // verus!
