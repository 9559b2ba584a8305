//! The HTTP client.

use crate::exchange::{self, parse_headers, Exchange, ExchangeView};
use crate::handle::{HandleCall, HandleCallView};
use crate::header::{self, Header, HeaderView};
use crate::items::items;
use crate::message::{
    HttpError, HttpErrorView, LogLine, LogLineView, Request, RequestView, Response, ResponseView,
    Version,
};
use crate::options::{self, ClientOptions, TimeSpan, Verbosity};
use crate::places;
use crate::request_spec::{self, RequestSpec};
use crate::settings;
use crate::text::{self, decimal, starts_with, trim};
use crate::wire;
use vstd::prelude::*;
use vstd::utf8::*;

verus! {

/// An HTTP client over a curl handle.
#[derive(Debug, PartialEq, Eq)]
pub struct Client {
    /// The calls that the curl handle is owed, in order.
    pub handle: Vec<HandleCall>,
    /// How many redirections have been met since the run began.
    pub redirect_count: usize,
    // The handle does not follow redirections itself: it would give one list of
    // headers for all responses, and every response is to be kept.
}

impl Client {
    /// Creates HTTP Hurl client.
    ///
    /// The cookie storage is active from the start, with the cookies of a file where
    /// one is given. This setting outlives the reset of the handle.
    pub fn new(cookie_input_file: Option<String>) -> (r: Client)
        ensures
            r.handle.deep_view() == seq![
                HandleCallView::CookieFile(
                    match cookie_input_file.deep_view() {
                        Some(file) => file,
                        None => Seq::empty(),
                    },
                ),
            ],
            r.redirect_count == 0,
    {
        let file = match cookie_input_file {
            Some(file) => file,
            None => String::new(),
        };
        let mut client = Client { handle: Vec::new(), redirect_count: 0 };
        assert(client.handle.deep_view() =~= Seq::empty());
        client.call(HandleCall::CookieFile(file));
        client
    }

    /// Owes the handle one more call.
    pub(crate) fn call(&mut self, call: HandleCall)
        ensures
            final(self).handle.deep_view() == old(self).handle.deep_view().push(call.deep_view()),
            final(self).redirect_count == old(self).redirect_count,
    {
        let ghost before = self.handle.deep_view();
        let ghost added = call.deep_view();
        self.handle.push(call);
        assert(self.handle.deep_view() =~= before.push(added));
    }
}

/// The exchange of a request when its transfer starts.
pub open spec fn new_exchange(request: RequestSpec, options: ClientOptions) -> ExchangeView {
    let body = request_spec::body_bytes(request.body);
    ExchangeView {
        url: settings::url_with_params(request.url@, request.querystring.deep_view()),
        method: request_spec::method_name(request.method),
        request_spec_body: body,
        has_body_data: body.len() > 0 || request.form@.len() > 0 || request.multipart@.len() > 0,
        verbose: options.verbosity is Some,
        very_verbose: options.verbosity == Some(Verbosity::VeryVerbose),
        request_headers: Seq::empty(),
        request_body: Seq::empty(),
        status_lines: Seq::empty(),
        response_headers: Seq::empty(),
        response_body: Seq::empty(),
    }
}

/// The HTTP version that a status line names, where it is a known one.
pub open spec fn version_of(line: Seq<char>) -> Option<Version> {
    if "HTTP/1.0"@.is_prefix_of(line) {
        Some(Version::Http10)
    } else if "HTTP/1.1"@.is_prefix_of(line) {
        Some(Version::Http11)
    } else if "HTTP/2"@.is_prefix_of(line) {
        Some(Version::Http2)
    } else {
        None
    }
}

/// What comes of an exchange whose transfer has succeeded. The last status line gives
/// the version.
pub open spec fn outcome(
    exchange: ExchangeView,
    status: u32,
    duration: TimeSpan,
) -> Result<(RequestView, ResponseView), HttpErrorView> {
    if exchange.status_lines.len() == 0 {
        Err(HttpErrorView::StatuslineIsMissing { url: exchange.url })
    } else {
        match version_of(exchange.status_lines.last()) {
            None => Err(HttpErrorView::CouldNotParseResponse),
            Some(version) => Ok(
                (
                    RequestView {
                        url: exchange.url,
                        method: exchange.method,
                        headers: exchange.request_headers,
                        body: exchange.request_body,
                    },
                    ResponseView {
                        version,
                        status,
                        headers: exchange::headers_of(exchange.response_headers),
                        body: exchange.response_body,
                        duration,
                    },
                ),
            ),
        }
    }
}

/// The log of status lines.
pub open spec fn status_log(lines: Seq<Seq<char>>) -> Seq<LogLineView>
    decreases lines.len(),
{
    if lines.len() == 0 {
        Seq::empty()
    } else {
        let before = status_log(lines.drop_last());
        if "HTTP/"@.is_prefix_of(lines.last()) {
            before.push(LogLineView::StatusVersionIn(text::trimmed(lines.last())))
        } else {
            before
        }
    }
}

/// The log of a response.
pub open spec fn response_log(exchange: ExchangeView, duration: TimeSpan) -> Seq<LogLineView> {
    let headers = exchange::headers_of(exchange.response_headers);
    let summary = "Response: (received "@ + text::decimal_digits(
        exchange.response_body.len(),
    ) + " bytes in "@ + text::decimal_digits(options::millis(duration)) + " ms)"@;
    if exchange.verbose {
        seq![
            LogLineView::DebugImportant(summary),
            LogLineView::Debug(Seq::empty()),
        ] + status_log(exchange.status_lines) + Seq::new(
            headers.len(),
            |i: int| LogLineView::HeaderIn(headers[i]),
        ) + seq![LogLineView::Info("<"@)] + (if exchange.very_verbose {
            seq![LogLineView::ResponseBody]
        } else {
            Seq::empty()
        })
    } else {
        Seq::empty()
    }
}

pub(crate) fn log_line(log: &mut Vec<LogLine>, line: LogLine)
    ensures
        final(log).deep_view() == old(log).deep_view().push(line.deep_view()),
{
    let ghost before = log.deep_view();
    let ghost added = line.deep_view();
    log.push(line);
    assert(log.deep_view() =~= before.push(added));
}

fn log_status(lines: &[String], log: &mut Vec<LogLine>)
    ensures
        final(log).deep_view() == old(log).deep_view() + status_log(lines.deep_view()),
{
    let ghost start = log.deep_view();
    let ghost all = lines.deep_view();
    let mut i: usize = 0;
    assert(start + status_log(all.take(0)) =~= start);
    while i < lines.len()
        invariant
            i <= lines@.len(),
            all == lines.deep_view(),
            log.deep_view() == start + status_log(all.take(i as int)),
        decreases lines@.len() - i,
    {
        assert(all.take(i + 1).drop_last() =~= all.take(i as int));
        assert(all.take(i + 1).last() == lines@[i as int]@);
        if starts_with(lines[i].as_str(), "HTTP/") {
            log_line(log, LogLine::StatusVersionIn(trim(lines[i].as_str()).to_string()));
            assert(log.deep_view() =~= start + status_log(all.take(i + 1)));
        }
        i = i + 1;
    }
    assert(all.take(i as int) =~= all);
}

fn log_headers_in(headers: &[Header], log: &mut Vec<LogLine>)
    ensures
        final(log).deep_view() == old(log).deep_view() + Seq::new(
            headers.deep_view().len(),
            |i: int| LogLineView::HeaderIn(headers.deep_view()[i]),
        ),
{
    let ghost start = log.deep_view();
    let ghost all = headers.deep_view();
    let ghost lines = Seq::new(all.len(), |i: int| LogLineView::HeaderIn(all[i]));
    let mut i: usize = 0;
    assert(start + lines.take(0) =~= start);
    while i < headers.len()
        invariant
            i <= headers@.len(),
            all == headers.deep_view(),
            lines == Seq::new(all.len(), |i: int| LogLineView::HeaderIn(all[i])),
            log.deep_view() == start + lines.take(i as int),
        decreases headers@.len() - i,
    {
        log_line(log, LogLine::HeaderIn(headers[i].clone()));
        assert(lines.take(i + 1) =~= lines.take(i as int).push(lines[i as int]));
        assert(log.deep_view() =~= start + lines.take(i + 1));
        i = i + 1;
    }
    assert(lines.take(i as int) =~= lines);
}

impl Client {
    /// Starts to execute an HTTP request, without following redirection.
    ///
    /// The handle is owed the calls that describe the request, and then the transfer.
    /// The exchange that is returned takes the events of the transfer, until
    /// [`Client::finish`] or [`Exchange::failure`] ends it.
    ///
    /// # Arguments
    ///
    /// * `request_spec` - A request specification
    /// * `options`- Options for this execution
    /// * `version`- The version of this program
    pub fn execute(&mut self, request_spec: &RequestSpec, options: &ClientOptions, version: &str)
        -> (r: Exchange)
        ensures
            final(self).handle.deep_view() == old(self).handle.deep_view()
                + settings::option_calls(*options) + settings::request_calls(
                *request_spec,
                *options,
                version@,
            ),
            final(self).redirect_count == old(self).redirect_count,
            r.deep_view() == new_exchange(*request_spec, *options),
    {
        self.set_options(options);
        let ghost start = self.handle.deep_view();
        let url = self.generate_url(
            request_spec.url.as_str(),
            items(&request_spec.querystring),
        );
        self.call(HandleCall::Url(url.clone()));
        self.set_method(&request_spec.method);
        self.set_cookies(items(&request_spec.cookies));
        self.set_form(items(&request_spec.form));
        self.set_multipart(request_spec.multipart.as_slice());
        let body = request_spec.body.bytes();
        self.set_body(body.as_slice());
        self.set_headers(request_spec, options, version);
        assert(self.handle.deep_view() =~= start + settings::request_calls(
            *request_spec,
            *options,
            version@,
        ));
        let has_body_data = !body.is_empty() || !request_spec.form.is_empty()
            || !request_spec.multipart.is_empty();
        let exchange = Exchange {
            url,
            method: request_spec.method.to_string(),
            request_spec_body: body,
            has_body_data,
            verbose: options.is_verbose(),
            very_verbose: options.is_very_verbose(),
            request_headers: Vec::new(),
            request_body: Vec::new(),
            status_lines: Vec::new(),
            response_headers: Vec::new(),
            response_body: Vec::new(),
        };
        assert(exchange.deep_view() =~~= new_exchange(*request_spec, *options));
        exchange
    }

    /// Parses HTTP response version.
    pub fn parse_response_version(&self, line: &str) -> (r: Result<Version, HttpError>)
        ensures
            match version_of(line@) {
                Some(version) => r == Ok::<Version, HttpError>(version),
                None => r == Err::<Version, HttpError>(HttpError::CouldNotParseResponse),
            },
    {
        if starts_with(line, "HTTP/1.0") {
            Ok(Version::Http10)
        } else if starts_with(line, "HTTP/1.1") {
            Ok(Version::Http11)
        } else if starts_with(line, "HTTP/2") {
            Ok(Version::Http2)
        } else {
            Err(HttpError::CouldNotParseResponse)
        }
    }

    /// Parse headers from libcurl responses.
    pub fn parse_response_headers(&self, lines: &[String]) -> (r: Vec<Header>)
        ensures
            r.deep_view() == exchange::headers_of(lines.deep_view()),
    {
        parse_headers(lines)
    }

    /// Ends an exchange whose transfer has succeeded, and returns a pair of
    /// [`Request`], [`Response`]. The handle is owed a reset then, and none where the
    /// response can not be read.
    ///
    /// # Arguments
    ///
    /// * `exchange` - The exchange, with all events of its transfer
    /// * `status` - The response code of the handle
    /// * `duration` - How long the transfer took
    /// * `log` - Takes the log of the response
    pub fn finish(
        &mut self,
        exchange: Exchange,
        status: u32,
        duration: TimeSpan,
        log: &mut Vec<LogLine>,
    ) -> (r: Result<(Request, Response), HttpError>)
        ensures
            match outcome(exchange.deep_view(), status, duration) {
                Ok(pair) => {
                    &&& r matches Ok(done)
                    &&& done.deep_view() == pair
                    &&& final(self).handle.deep_view() == old(self).handle.deep_view().push(
                        HandleCallView::Reset,
                    )
                    &&& final(log).deep_view() == old(log).deep_view() + response_log(
                        exchange.deep_view(),
                        duration,
                    )
                },
                Err(error) => {
                    &&& r matches Err(e)
                    &&& e.deep_view() == error
                    &&& final(self).handle.deep_view() == old(self).handle.deep_view()
                    &&& final(log).deep_view() == old(log).deep_view()
                },
            },
            final(self).redirect_count == old(self).redirect_count,
    {
        let ghost start = log.deep_view();
        let ghost seen = exchange.deep_view();
        let n = exchange.status_lines.len();
        if n == 0 {
            return Err(HttpError::StatuslineIsMissing { url: exchange.url });
        }
        assert(seen.status_lines.last() == exchange.status_lines@[n - 1]@);
        let version = match self.parse_response_version(exchange.status_lines[n - 1].as_str()) {
            Ok(version) => version,
            Err(e) => {
                return Err(e);
            },
        };
        let headers = self.parse_response_headers(items(&exchange.response_headers));
        let length = exchange.response_body.len();
        self.call(HandleCall::Reset);

        if exchange.verbose {
            let mut summary = "Response: (received ".to_string();
            summary.append(decimal(length as u128).as_str());
            summary.append(" bytes in ");
            summary.append(decimal(duration.as_millis()).as_str());
            summary.append(" ms)");
            log_line(log, LogLine::DebugImportant(summary));
            log_line(log, LogLine::Debug(String::new()));
            log_status(items(&exchange.status_lines), log);
            log_headers_in(items(&headers), log);
            log_line(log, LogLine::Info("<".to_string()));
            if exchange.very_verbose {
                log_line(log, LogLine::ResponseBody);
            }
        }
        assert(log.deep_view() =~= start + response_log(seen, duration));
        let request = Request {
            url: exchange.url,
            method: exchange.method,
            headers: exchange.request_headers,
            body: exchange.request_body,
        };
        let response = Response {
            version,
            status,
            headers,
            body: exchange.response_body,
            duration,
        };
        Ok((request, response))
    }
}

/// An execution returns what was exchanged: whatever the events of its transfer are, the
/// request has the URL and the method of the request specification and the body data
/// that was sent, and the response has the status, the body data that was received
/// and the version of the last status line. It fails where no status line was received,
/// and where the last one names no known version.
pub proof fn execution_returns_what_was_exchanged(
    request: RequestSpec,
    options: ClientOptions,
    events: Seq<exchange::Event>,
    status: u32,
    duration: TimeSpan,
)
    ensures
        ({
            let after = exchange::after_events(new_exchange(request, options), events);
            let url = settings::url_with_params(request.url@, request.querystring.deep_view());
            let lines = after.status_lines;
            &&& exchange::lines_are_sorted_out(after)
            &&& match outcome(after, status, duration) {
                Ok((sent, received)) => {
                    &&& lines.len() > 0
                    &&& version_of(lines.last()) == Some(received.version)
                    &&& sent.url == url
                    &&& sent.method == request_spec::method_name(request.method)
                    &&& sent.body == exchange::data_sent(events)
                    &&& received.status == status
                    &&& received.body == exchange::data_received(events)
                    &&& received.duration == duration
                },
                Err(HttpErrorView::StatuslineIsMissing { url: missing }) => {
                    &&& lines.len() == 0
                    &&& missing == url
                },
                Err(error) => {
                    &&& lines.len() > 0
                    &&& version_of(lines.last()) is None
                    &&& error == HttpErrorView::CouldNotParseResponse
                },
            }
        }),
{
    let start = new_exchange(request, options);
    exchange::events_only_add(start, events);
    assert(start.request_body + exchange::data_sent(events) =~= exchange::data_sent(events));
    assert(start.response_body + exchange::data_received(events) =~= exchange::data_received(
        events,
    ));
}

proof fn lemma_verbosity_is_only_carried_along(
    a: ExchangeView,
    b: ExchangeView,
    events: Seq<exchange::Event>,
)
    requires
        b == (ExchangeView { verbose: b.verbose, very_verbose: b.very_verbose, ..a }),
    ensures
        exchange::after_events(b, events) == (ExchangeView {
            verbose: b.verbose,
            very_verbose: b.very_verbose,
            ..exchange::after_events(a, events)
        }),
    decreases events.len(),
{
    if events.len() > 0 {
        lemma_verbosity_is_only_carried_along(a, b, events.drop_last());
    }
}

/// The verbosity changes nothing but the log: two executions whose options differ in
/// the verbosity alone ask the same of the handle, and come to the same outcome where
/// their transfers have the same events.
pub proof fn verbosity_changes_only_the_log(
    request: RequestSpec,
    a: ClientOptions,
    b: ClientOptions,
    version: Seq<char>,
    events: Seq<exchange::Event>,
    status: u32,
    duration: TimeSpan,
)
    requires
        b == (ClientOptions { verbosity: b.verbosity, ..a }),
    ensures
        settings::option_calls(a) == settings::option_calls(b),
        settings::request_calls(request, a, version) == settings::request_calls(
            request,
            b,
            version,
        ),
        outcome(exchange::after_events(new_exchange(request, a), events), status, duration)
            == outcome(
            exchange::after_events(new_exchange(request, b), events),
            status,
            duration,
        ),
{
    lemma_verbosity_is_only_carried_along(
        new_exchange(request, a),
        new_exchange(request, b),
        events,
    );
}

/// An execution that is not verbose logs nothing, neither of an event of its transfer nor
/// of the response.
pub proof fn quiet_execution_logs_nothing(
    request: RequestSpec,
    options: ClientOptions,
    events: Seq<exchange::Event>,
    data: Seq<u8>,
    duration: TimeSpan,
)
    requires
        options.verbosity is None,
    ensures
        ({
            let after = exchange::after_events(new_exchange(request, options), events);
            &&& exchange::header_out_log(after, data).len() == 0
            &&& exchange::data_out_log(after, data).len() == 0
            &&& response_log(after, duration).len() == 0
        }),
{
    exchange::events_only_add(new_exchange(request, options), events);
}

/// An exchange starts with what the request specification says, and with nothing sent or
/// received. It has body data exactly where there is a body, a form or a multipart form.
pub proof fn exchange_starts_with_the_request(request: RequestSpec, options: ClientOptions)
    ensures
        ({
            let start = new_exchange(request, options);
            let body = request_spec::body_bytes(request.body);
            &&& start.url == settings::url_with_params(
                request.url@,
                request.querystring.deep_view(),
            )
            &&& start.method == request_spec::method_name(request.method)
            &&& start.request_spec_body == body
            &&& !start.has_body_data == (body.len() == 0 && request.form@.len() == 0
                && request.multipart@.len() == 0)
            &&& start.verbose == (options.verbosity is Some)
            &&& start.very_verbose == (options.verbosity == Some(Verbosity::VeryVerbose))
            &&& start.request_headers.len() == 0
            &&& start.request_body.len() == 0
            &&& start.status_lines.len() == 0
            &&& start.response_headers.len() == 0
            &&& start.response_body.len() == 0
        }),
{
}

/// The version of a status line is the one that it starts with, and there is none where it
/// starts with none of the three.
pub proof fn version_is_what_the_line_starts_with(line: Seq<char>)
    ensures
        version_of(line) == Some(Version::Http10) <==> "HTTP/1.0"@.is_prefix_of(line),
        version_of(line) == Some(Version::Http11) <==> "HTTP/1.1"@.is_prefix_of(line),
        version_of(line) == Some(Version::Http2) <==> "HTTP/2"@.is_prefix_of(line),
{
    reveal_strlit("HTTP/1.0");
    reveal_strlit("HTTP/1.1");
    reveal_strlit("HTTP/2");
    let (a, b, c) = ("HTTP/1.0"@, "HTTP/1.1"@, "HTTP/2"@);
    if a.is_prefix_of(line) {
        assert(line[7] == a[7] && line[5] == a[5]);
    }
    if b.is_prefix_of(line) {
        assert(line[7] == b[7] && line[5] == b[5]);
    }
    if c.is_prefix_of(line) {
        assert(line[5] == c[5]);
    }
}

/// The response of an execution has a header for each header line that was received and has
/// a colon, but for the status lines: one for each, in the order in which they came. The
/// request has the headers that were sent.
pub proof fn response_has_the_headers_that_were_received(
    request: RequestSpec,
    options: ClientOptions,
    events: Seq<exchange::Event>,
    status: u32,
    duration: TimeSpan,
) -> (at: Seq<int>)
    ensures
        places::are_the_places(
            at,
            events.len() as int,
            |i: int|
                events[i] is HeaderIn && !"HTTP/"@.is_prefix_of(exchange::text_in(events[i]))
                    && exchange::text_in(events[i]).contains(':'),
        ),
        outcome(
            exchange::after_events(new_exchange(request, options), events),
            status,
            duration,
        ) matches Ok((sent, received)) ==> {
            &&& received.headers.len() == at.len()
            &&& forall|k: int|
                0 <= k < at.len() ==> header::parsed_header(exchange::text_in(events[at[k]]))
                    == Some(#[trigger] received.headers[k])
            &&& sent.headers == exchange::after_events(
                new_exchange(request, options),
                events,
            ).request_headers
        },
{
    let start = new_exchange(request, options);
    let lines = exchange::after_events(start, events).response_headers;
    let headers = exchange::headers_of(lines);
    let (_, came) = exchange::received_lines_are_kept_in_order(start, events);
    let held = exchange::headers_are_those_of_lines_with_a_colon(lines);
    let at = Seq::new(held.len(), |k: int| came[held[k]]);
    let n = events.len() as int;
    let p = |i: int|
        events[i] is HeaderIn && !"HTTP/"@.is_prefix_of(exchange::text_in(events[i]));
    let c = |i: int| lines[i].contains(':');
    let q = |i: int|
        events[i] is HeaderIn && !"HTTP/"@.is_prefix_of(exchange::text_in(events[i]))
            && exchange::text_in(events[i]).contains(':');
    assert(lines.len() == came.len());
    assert forall|j: int| 0 <= j < lines.len() implies #[trigger] lines[j] == exchange::text_in(
        events[came[j]],
    ) by {
        assert(lines[start.response_headers.len() + j] == exchange::text_in(events[came[j]]));
    }
    assert forall|k: int| 0 <= k < at.len() implies 0 <= #[trigger] at[k] < n && q(at[k]) by {
        let j = held[k];
        assert(0 <= j < lines.len() && c(j));
        assert(p(came[j]));
        assert(lines[j] == exchange::text_in(events[came[j]]));
    }
    assert forall|j: int, k: int| 0 <= j < k < at.len() implies at[j] < at[k] by {
        assert(0 <= held[j] < lines.len() && 0 <= held[k] < lines.len());
        assert(held[j] < held[k]);
    }
    assert forall|i: int| 0 <= i < n && #[trigger] q(i) implies at.contains(i) by {
        assert(p(i));
        let j = choose|j: int| 0 <= j < came.len() && came[j] == i;
        assert(lines[j] == exchange::text_in(events[i]));
        assert(c(j));
        let k = choose|k: int| 0 <= k < held.len() && held[k] == j;
        assert(at[k] == i);
    }
    assert forall|k: int| 0 <= k < at.len() implies header::parsed_header(
        exchange::text_in(events[at[k]]),
    ) == Some(#[trigger] headers[k]) by {
        let j = held[k];
        assert(0 <= j < lines.len());
        assert(lines[j] == exchange::text_in(events[came[j]]));
    }
    at
}

/// The events of a response that is received: its status line, a line for each header, an
/// empty line and the body.
pub open spec fn response_events(
    status_line: Seq<char>,
    headers: Seq<HeaderView>,
    body: Seq<u8>,
) -> Seq<exchange::Event> {
    Seq::new(
        headers.len() + 3,
        |i: int|
            if i == 0 {
                exchange::Event::HeaderIn(encode_utf8(status_line))
            } else if i <= headers.len() {
                exchange::Event::HeaderIn(
                    encode_utf8(header::header_line(headers[i - 1]) + "\r\n"@),
                )
            } else if i == headers.len() + 1 {
                exchange::Event::HeaderIn(encode_utf8("\r\n"@))
            } else {
                exchange::Event::DataIn(body)
            },
    )
}

proof fn lemma_head_is_received(
    start: ExchangeView,
    status_line: Seq<char>,
    headers: Seq<HeaderView>,
    body: Seq<u8>,
    k: int,
)
    requires
        "HTTP/"@.is_prefix_of(status_line),
        start.status_lines.len() == 0,
        start.response_headers.len() == 0,
        start.response_body.len() == 0,
        0 <= k <= headers.len(),
        forall|i: int|
            0 <= i < headers.len() ==> {
                let h = #[trigger] headers[i];
                &&& !h.name.contains(':')
                &&& text::trimmed(h.name) == h.name
                &&& text::trimmed(h.value) == h.value
                &&& !"HTTP/"@.is_prefix_of(header::header_line(h) + "\r\n"@)
            },
    ensures
        ({
            let events = response_events(status_line, headers, body).take(k + 1);
            let after = exchange::after_events(start, events);
            &&& after.status_lines == seq![status_line]
            &&& after.response_body.len() == 0
            &&& exchange::headers_of(after.response_headers) == headers.take(k)
        }),
    decreases k,
{
    let all = response_events(status_line, headers, body);
    let events = all.take(k + 1);
    let earlier = all.take(k);
    let after = exchange::after_events(start, events);
    assert(events.drop_last() =~= earlier);
    if k == 0 {
        wire::header_text_of_utf8(status_line);
        assert(exchange::after_events(start, earlier) == start);
        assert(after.status_lines =~= seq![status_line]);
        assert(after.response_headers =~= Seq::empty());
        assert(exchange::headers_of(after.response_headers) =~= headers.take(0));
    } else {
        lemma_head_is_received(start, status_line, headers, body, k - 1);
        let h = headers[k - 1];
        let line = header::header_line(h) + "\r\n"@;
        wire::header_text_of_utf8(line);
        header::parse_ignores_line_end(header::header_line(h));
        header::parse_of_header_line(h);
        let before = exchange::after_events(start, earlier).response_headers;
        assert(after.response_headers == before.push(line));
        assert(before.push(line).drop_last() =~= before);
        assert(exchange::headers_of(after.response_headers) =~= headers.take(k));
    }
}

/// The headers that a server sends are the headers of the response, in order: provided that
/// no name has a colon, that neither names nor values have white space at an end, and
/// that no header looks like a status line. The body is the one that was sent.
pub proof fn sent_response_is_received(
    request: RequestSpec,
    options: ClientOptions,
    status_line: Seq<char>,
    headers: Seq<HeaderView>,
    body: Seq<u8>,
    status: u32,
    duration: TimeSpan,
)
    requires
        "HTTP/1.1"@.is_prefix_of(status_line),
        forall|i: int|
            0 <= i < headers.len() ==> {
                let h = #[trigger] headers[i];
                &&& !h.name.contains(':')
                &&& text::trimmed(h.name) == h.name
                &&& text::trimmed(h.value) == h.value
                &&& !"HTTP/"@.is_prefix_of(header::header_line(h) + "\r\n"@)
            },
    ensures
        outcome(
            exchange::after_events(
                new_exchange(request, options),
                response_events(status_line, headers, body),
            ),
            status,
            duration,
        ) matches Ok((_, received)) && received.version == Version::Http11 && received.status
            == status && received.headers == headers && received.body == body && received.duration
            == duration,
{
    reveal_strlit("HTTP/1.1");
    reveal_strlit("HTTP/");
    reveal_strlit("\r\n");
    let start = new_exchange(request, options);
    let n = headers.len() as int;
    assert("HTTP/"@ =~= status_line.subrange(0, 5)) by {
        assert(forall|i: int| 0 <= i < 8 ==> status_line[i] == "HTTP/1.1"@[i]) by {
            assert forall|i: int| 0 <= i < 8 implies status_line[i] == "HTTP/1.1"@[i] by {
                assert(status_line.subrange(0, 8)[i] == "HTTP/1.1"@[i]);
            }
        }
    }
    lemma_head_is_received(start, status_line, headers, body, n);
    let all = response_events(status_line, headers, body);
    let (a, b) = (all.take(n + 1), all.take(n + 2));
    assert(b.drop_last() =~= a);
    assert(all.drop_last() =~= b);
    let end = "\r\n"@;
    wire::header_text_of_utf8(end);
    let first = exchange::after_events(start, a);
    let second = exchange::after_events(start, b);
    assert(!end.contains(':'));
    let none = header::header_stands_round_the_first_colon(end);
    assert(second.response_headers == first.response_headers.push(end));
    assert(second.response_headers.drop_last() =~= first.response_headers);
    assert(exchange::headers_of(second.response_headers) == headers.take(n));
    assert(headers.take(n) =~= headers);
    version_is_what_the_line_starts_with(status_line);
    let last = exchange::after_events(start, all);
    assert(last.response_body =~= body);
    assert(last.status_lines.last() == status_line);
}

/// The status lines of a response are logged one by one, in order, each without the white
/// space at its ends.
pub proof fn status_lines_are_logged_one_by_one(lines: Seq<Seq<char>>) -> (at: Seq<int>)
    ensures
        places::are_the_places(
            at,
            lines.len() as int,
            |i: int| "HTTP/"@.is_prefix_of(lines[i]),
        ),
        status_log(lines).len() == at.len(),
        forall|k: int|
            0 <= k < at.len() ==> #[trigger] status_log(lines)[k] == LogLineView::StatusVersionIn(
                text::trimmed(lines[at[k]]),
            ),
    decreases lines.len(),
{
    let p = |i: int| "HTTP/"@.is_prefix_of(lines[i]);
    if lines.len() == 0 {
        Seq::empty()
    } else {
        let rest = lines.drop_last();
        let n = rest.len() as int;
        let before = status_lines_are_logged_one_by_one(rest);
        places::lemma_next_place(before, n, |i: int| "HTTP/"@.is_prefix_of(rest[i]), p);
        let at = if p(n) {
            before.push(n)
        } else {
            before
        };
        assert forall|k: int| 0 <= k < at.len() implies #[trigger] status_log(lines)[k]
            == LogLineView::StatusVersionIn(text::trimmed(lines[at[k]])) by {
            if k < before.len() {
                assert(status_log(lines)[k] == status_log(rest)[k]);
                assert(0 <= before[k] < n);
            }
        }
        at
    }
}

/// A verbose execution logs how many bytes the response has and how many milliseconds it
/// took, an empty line, the status lines, each header in order, a mark, and, where bodies
/// are logged too, the body. Another execution logs nothing of the response.
pub proof fn response_is_logged_part_by_part(exchange: ExchangeView, duration: TimeSpan)
    ensures
        ({
            let log = response_log(exchange, duration);
            let status = status_log(exchange.status_lines);
            let headers = exchange::headers_of(exchange.response_headers);
            let (s, h) = (status.len() as int, headers.len() as int);
            &&& !exchange.verbose ==> log.len() == 0
            &&& exchange.verbose ==> {
                &&& log.len() == 2 + s + h + 1 + if exchange.very_verbose {
                    1int
                } else {
                    0
                }
                &&& log[0] == LogLineView::DebugImportant(
                    "Response: (received "@ + text::decimal_digits(exchange.response_body.len())
                        + " bytes in "@ + text::decimal_digits(options::millis(duration))
                        + " ms)"@,
                )
                &&& log[1] == LogLineView::Debug(Seq::empty())
                &&& log.subrange(2, 2 + s) == status
                &&& forall|i: int|
                    0 <= i < h ==> #[trigger] log[2 + s + i] == LogLineView::HeaderIn(headers[i])
                &&& log[2 + s + h] == LogLineView::Info("<"@)
                &&& exchange.very_verbose ==> log[3 + s + h] == LogLineView::ResponseBody
            }
        }),
{
    let log = response_log(exchange, duration);
    let status = status_log(exchange.status_lines);
    if exchange.verbose {
        assert(log.subrange(2, 2 + status.len() as int) =~= status);
    }
}

} // verus!
