//! What was sent and received, and what goes wrong.

use crate::header::{self, get_header_values, Header, HeaderView};
use crate::items::items;
use crate::options::TimeSpan;
use vstd::prelude::*;

verus! {

/// A request as it was sent.
#[derive(Debug, PartialEq, Eq)]
pub struct Request {
    pub url: String,
    pub method: String,
    pub headers: Vec<Header>,
    pub body: Vec<u8>,
}

/// A request, as its texts and bytes.
#[verifier::ext_equal]
pub struct RequestView {
    pub url: Seq<char>,
    pub method: Seq<char>,
    pub headers: Seq<HeaderView>,
    pub body: Seq<u8>,
}

impl DeepView for Request {
    type V = RequestView;

    open spec fn deep_view(&self) -> RequestView {
        RequestView {
            url: self.url@,
            method: self.method@,
            headers: self.headers.deep_view(),
            body: self.body@,
        }
    }
}

/// The HTTP version of a response.
#[derive(Clone, Copy, Debug, PartialEq, Eq, Structural)]
pub enum Version {
    Http10,
    Http11,
    Http2,
}

/// A response as it was received.
#[derive(Debug, PartialEq, Eq)]
pub struct Response {
    pub version: Version,
    pub status: u32,
    pub headers: Vec<Header>,
    pub body: Vec<u8>,
    pub duration: TimeSpan,
}

/// A response, as its numbers, texts and bytes.
#[verifier::ext_equal]
pub struct ResponseView {
    pub version: Version,
    pub status: u32,
    pub headers: Seq<HeaderView>,
    pub body: Seq<u8>,
    pub duration: TimeSpan,
}

impl DeepView for Response {
    type V = ResponseView;

    open spec fn deep_view(&self) -> ResponseView {
        ResponseView {
            version: self.version,
            status: self.status,
            headers: self.headers.deep_view(),
            body: self.body@,
            duration: self.duration,
        }
    }
}

impl Response {
    /// Returns the values of the headers with a given name, whatever the case of it.
    pub fn get_header_values(&self, name: &str) -> (r: Vec<String>)
        ensures
            r.deep_view() == header::values_of(self.headers.deep_view(), name@),
    {
        get_header_values(items(&self.headers), name)
    }
}

/// The ways in which an exchange can fail.
#[derive(Debug, PartialEq, Eq)]
pub enum HttpError {
    /// The last status line names no HTTP version that is known.
    CouldNotParseResponse,
    /// The transfer failed.
    Libcurl { code: i32, description: String, url: String },
    /// No status line was received.
    StatuslineIsMissing { url: String },
    /// More redirections than the options allow.
    TooManyRedirect,
}

/// A failure, as its numbers and texts.
#[verifier::ext_equal]
pub enum HttpErrorView {
    CouldNotParseResponse,
    Libcurl { code: i32, description: Seq<char>, url: Seq<char> },
    StatuslineIsMissing { url: Seq<char> },
    TooManyRedirect,
}

impl DeepView for HttpError {
    type V = HttpErrorView;

    open spec fn deep_view(&self) -> HttpErrorView {
        match self {
            HttpError::CouldNotParseResponse => HttpErrorView::CouldNotParseResponse,
            HttpError::Libcurl { code, description, url } => HttpErrorView::Libcurl {
                code: *code,
                description: description@,
                url: url@,
            },
            HttpError::StatuslineIsMissing { url } => HttpErrorView::StatuslineIsMissing {
                url: url@,
            },
            HttpError::TooManyRedirect => HttpErrorView::TooManyRedirect,
        }
    }
}

/// A line that an exchange gives to the log.
#[derive(Debug, PartialEq, Eq)]
pub enum LogLine {
    /// The request line.
    MethodVersionOut(String),
    /// A header of the request.
    HeaderOut(Header),
    /// A header of the response.
    HeaderIn(Header),
    /// A status line.
    StatusVersionIn(String),
    /// A mark between the parts of an exchange.
    Info(String),
    /// A remark.
    Debug(String),
    /// A remark that stands out.
    DebugImportant(String),
    /// The body of a request.
    RequestBody(Request),
    /// The body of the response.
    ResponseBody,
}

/// A line of the log, as its texts.
#[verifier::ext_equal]
pub enum LogLineView {
    MethodVersionOut(Seq<char>),
    HeaderOut(HeaderView),
    HeaderIn(HeaderView),
    StatusVersionIn(Seq<char>),
    Info(Seq<char>),
    Debug(Seq<char>),
    DebugImportant(Seq<char>),
    RequestBody(RequestView),
    ResponseBody,
}

impl DeepView for LogLine {
    type V = LogLineView;

    open spec fn deep_view(&self) -> LogLineView {
        match self {
            LogLine::MethodVersionOut(s) => LogLineView::MethodVersionOut(s@),
            LogLine::HeaderOut(header) => LogLineView::HeaderOut(header.deep_view()),
            LogLine::HeaderIn(header) => LogLineView::HeaderIn(header.deep_view()),
            LogLine::StatusVersionIn(s) => LogLineView::StatusVersionIn(s@),
            LogLine::Info(s) => LogLineView::Info(s@),
            LogLine::Debug(s) => LogLineView::Debug(s@),
            LogLine::DebugImportant(s) => LogLineView::DebugImportant(s@),
            LogLine::RequestBody(request) => LogLineView::RequestBody(request.deep_view()),
            LogLine::ResponseBody => LogLineView::ResponseBody,
        }
    }
}

/// The views of a request and of a response show what was sent and received as it is.
pub proof fn message_views_show_the_messages(request: Request, response: Response)
    ensures
        request.deep_view().url == request.url@,
        request.deep_view().method == request.method@,
        request.deep_view().headers == request.headers.deep_view(),
        request.deep_view().body == request.body@,
        response.deep_view().version == response.version,
        response.deep_view().status == response.status,
        response.deep_view().headers == response.headers.deep_view(),
        response.deep_view().body == response.body@,
        response.deep_view().duration == response.duration,
{
}

/// The views of a failure and of a line of the log show them as they are.
pub proof fn log_views_show_the_lines(error: HttpError, line: LogLine)
    ensures
        match (error, error.deep_view()) {
            (HttpError::CouldNotParseResponse, HttpErrorView::CouldNotParseResponse) => true,
            (
                HttpError::Libcurl { code, description, url },
                HttpErrorView::Libcurl { code: c, description: d, url: u },
            ) => c == code && d == description@ && u == url@,
            (
                HttpError::StatuslineIsMissing { url },
                HttpErrorView::StatuslineIsMissing { url: u },
            ) => u == url@,
            (HttpError::TooManyRedirect, HttpErrorView::TooManyRedirect) => true,
            _ => false,
        },
        match (line, line.deep_view()) {
            (LogLine::MethodVersionOut(s), LogLineView::MethodVersionOut(t)) => t == s@,
            (LogLine::HeaderOut(h), LogLineView::HeaderOut(g)) => g == h.deep_view(),
            (LogLine::HeaderIn(h), LogLineView::HeaderIn(g)) => g == h.deep_view(),
            (LogLine::StatusVersionIn(s), LogLineView::StatusVersionIn(t)) => t == s@,
            (LogLine::Info(s), LogLineView::Info(t)) => t == s@,
            (LogLine::Debug(s), LogLineView::Debug(t)) => t == s@,
            (LogLine::DebugImportant(s), LogLineView::DebugImportant(t)) => t == s@,
            (LogLine::RequestBody(r), LogLineView::RequestBody(v)) => v == r.deep_view(),
            (LogLine::ResponseBody, LogLineView::ResponseBody) => true,
            _ => false,
        },
{
}

} // verus!
