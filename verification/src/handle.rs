//! The calls that a client owes its curl handle.

use crate::options::TimeSpan;
use vstd::prelude::*;

verus! {

/// A part of a multipart form, as the handle takes it.
#[derive(Debug, PartialEq, Eq)]
pub enum FormPart {
    /// A value.
    Contents { name: String, contents: Vec<u8> },
    /// A file.
    Buffer { name: String, filename: String, data: Vec<u8>, content_type: String },
}

/// A part of a multipart form, as its texts and bytes.
#[verifier::ext_equal]
pub enum FormPartView {
    Contents { name: Seq<char>, contents: Seq<u8> },
    Buffer { name: Seq<char>, filename: Seq<char>, data: Seq<u8>, content_type: Seq<char> },
}

impl DeepView for FormPart {
    type V = FormPartView;

    open spec fn deep_view(&self) -> FormPartView {
        match self {
            FormPart::Contents { name, contents } => FormPartView::Contents {
                name: name@,
                contents: contents@,
            },
            FormPart::Buffer { name, filename, data, content_type } => FormPartView::Buffer {
                name: name@,
                filename: filename@,
                data: data@,
                content_type: content_type@,
            },
        }
    }
}

/// A call of the curl handle that sets an option, reaches the cookie engine or
/// resets the handle. Each stands for the method of the handle of the same name.
#[derive(Debug, PartialEq, Eq)]
pub enum HandleCall {
    CookieFile(String),
    Verbose(bool),
    SslVerifyHost(bool),
    SslVerifyPeer(bool),
    Cainfo(String),
    SslCertType(String),
    Proxy(String),
    Noproxy(String),
    Timeout(TimeSpan),
    ConnectTimeout(TimeSpan),
    Url(String),
    CustomRequest(String),
    Cookie(String),
    PostFieldsCopy(Vec<u8>),
    Httppost(Vec<FormPart>),
    Post(bool),
    PostFieldSize(u64),
    HttpHeaders(Vec<String>),
    CookieList(String),
    Reset,
}

/// A call of the handle, as its numbers, texts and bytes.
#[verifier::ext_equal]
pub enum HandleCallView {
    CookieFile(Seq<char>),
    Verbose(bool),
    SslVerifyHost(bool),
    SslVerifyPeer(bool),
    Cainfo(Seq<char>),
    SslCertType(Seq<char>),
    Proxy(Seq<char>),
    Noproxy(Seq<char>),
    Timeout(TimeSpan),
    ConnectTimeout(TimeSpan),
    Url(Seq<char>),
    CustomRequest(Seq<char>),
    Cookie(Seq<char>),
    PostFieldsCopy(Seq<u8>),
    Httppost(Seq<FormPartView>),
    Post(bool),
    PostFieldSize(u64),
    HttpHeaders(Seq<Seq<char>>),
    CookieList(Seq<char>),
    Reset,
}

impl DeepView for HandleCall {
    type V = HandleCallView;

    open spec fn deep_view(&self) -> HandleCallView {
        match self {
            HandleCall::CookieFile(s) => HandleCallView::CookieFile(s@),
            HandleCall::Verbose(b) => HandleCallView::Verbose(*b),
            HandleCall::SslVerifyHost(b) => HandleCallView::SslVerifyHost(*b),
            HandleCall::SslVerifyPeer(b) => HandleCallView::SslVerifyPeer(*b),
            HandleCall::Cainfo(s) => HandleCallView::Cainfo(s@),
            HandleCall::SslCertType(s) => HandleCallView::SslCertType(s@),
            HandleCall::Proxy(s) => HandleCallView::Proxy(s@),
            HandleCall::Noproxy(s) => HandleCallView::Noproxy(s@),
            HandleCall::Timeout(t) => HandleCallView::Timeout(*t),
            HandleCall::ConnectTimeout(t) => HandleCallView::ConnectTimeout(*t),
            HandleCall::Url(s) => HandleCallView::Url(s@),
            HandleCall::CustomRequest(s) => HandleCallView::CustomRequest(s@),
            HandleCall::Cookie(s) => HandleCallView::Cookie(s@),
            HandleCall::PostFieldsCopy(bytes) => HandleCallView::PostFieldsCopy(bytes@),
            HandleCall::Httppost(parts) => HandleCallView::Httppost(parts.deep_view()),
            HandleCall::Post(b) => HandleCallView::Post(*b),
            HandleCall::PostFieldSize(n) => HandleCallView::PostFieldSize(*n),
            HandleCall::HttpHeaders(lines) => HandleCallView::HttpHeaders(lines.deep_view()),
            HandleCall::CookieList(s) => HandleCallView::CookieList(s@),
            HandleCall::Reset => HandleCallView::Reset,
        }
    }
}

/// The view of a part of a form shows the part as it is.
pub proof fn form_part_view_shows_the_part(part: FormPart)
    ensures
        match (part, part.deep_view()) {
            (
                FormPart::Contents { name, contents },
                FormPartView::Contents { name: n, contents: c },
            ) => n == name@ && c == contents@,
            (
                FormPart::Buffer { name, filename, data, content_type },
                FormPartView::Buffer { name: n, filename: f, data: d, content_type: t },
            ) => n == name@ && f == filename@ && d == data@ && t == content_type@,
            _ => false,
        },
{
}

/// The view of a call shows the call as it is.
pub proof fn call_view_shows_the_call(call: HandleCall)
    ensures
        match (call, call.deep_view()) {
            (HandleCall::CookieFile(s), HandleCallView::CookieFile(t)) => t == s@,
            (HandleCall::Verbose(a), HandleCallView::Verbose(b)) => a == b,
            (HandleCall::SslVerifyHost(a), HandleCallView::SslVerifyHost(b)) => a == b,
            (HandleCall::SslVerifyPeer(a), HandleCallView::SslVerifyPeer(b)) => a == b,
            (HandleCall::Cainfo(s), HandleCallView::Cainfo(t)) => t == s@,
            (HandleCall::SslCertType(s), HandleCallView::SslCertType(t)) => t == s@,
            (HandleCall::Proxy(s), HandleCallView::Proxy(t)) => t == s@,
            (HandleCall::Noproxy(s), HandleCallView::Noproxy(t)) => t == s@,
            (HandleCall::Timeout(a), HandleCallView::Timeout(b)) => a == b,
            (HandleCall::ConnectTimeout(a), HandleCallView::ConnectTimeout(b)) => a == b,
            (HandleCall::Url(s), HandleCallView::Url(t)) => t == s@,
            (HandleCall::CustomRequest(s), HandleCallView::CustomRequest(t)) => t == s@,
            (HandleCall::Cookie(s), HandleCallView::Cookie(t)) => t == s@,
            (HandleCall::PostFieldsCopy(a), HandleCallView::PostFieldsCopy(b)) => b == a@,
            (HandleCall::Httppost(a), HandleCallView::Httppost(b)) => b == a.deep_view(),
            (HandleCall::Post(a), HandleCallView::Post(b)) => a == b,
            (HandleCall::PostFieldSize(a), HandleCallView::PostFieldSize(b)) => a == b,
            (HandleCall::HttpHeaders(a), HandleCallView::HttpHeaders(b)) => b == a.deep_view(),
            (HandleCall::CookieList(s), HandleCallView::CookieList(t)) => t == s@,
            (HandleCall::Reset, HandleCallView::Reset) => true,
            _ => false,
        },
{
}

} // verus!
