//! What a user asks to be sent.

use crate::header::{self, get_header_values, Header};
use crate::items::items;
use crate::text;
use vstd::prelude::*;
use vstd::utf8::*;

verus! {

/// An HTTP method.
#[derive(Clone, Copy, Debug, PartialEq, Eq, Structural)]
pub enum Method {
    Get,
    Head,
    Post,
    Put,
    Delete,
    Connect,
    Options,
    Trace,
    Patch,
}

/// The name of a method.
pub open spec fn method_name(method: Method) -> Seq<char> {
    match method {
        Method::Get => "GET"@,
        Method::Head => "HEAD"@,
        Method::Post => "POST"@,
        Method::Put => "PUT"@,
        Method::Delete => "DELETE"@,
        Method::Connect => "CONNECT"@,
        Method::Options => "OPTIONS"@,
        Method::Trace => "TRACE"@,
        Method::Patch => "PATCH"@,
    }
}

impl Method {
    /// Writes the name of the method.
    pub fn to_string(&self) -> (r: String)
        ensures
            r@ == method_name(*self),
    {
        match self {
            Method::Get => "GET".to_string(),
            Method::Head => "HEAD".to_string(),
            Method::Post => "POST".to_string(),
            Method::Put => "PUT".to_string(),
            Method::Delete => "DELETE".to_string(),
            Method::Connect => "CONNECT".to_string(),
            Method::Options => "OPTIONS".to_string(),
            Method::Trace => "TRACE".to_string(),
            Method::Patch => "PATCH".to_string(),
        }
    }
}

/// A parameter of a query string or of a form.
#[derive(Debug, PartialEq, Eq)]
pub struct Param {
    pub name: String,
    pub value: String,
}

/// A parameter, as its two texts.
#[verifier::ext_equal]
pub struct ParamView {
    pub name: Seq<char>,
    pub value: Seq<char>,
}

impl DeepView for Param {
    type V = ParamView;

    open spec fn deep_view(&self) -> ParamView {
        ParamView { name: self.name@, value: self.value@ }
    }
}

/// A file of a multipart form.
#[derive(Debug, PartialEq, Eq)]
pub struct FileParam {
    pub name: String,
    pub filename: String,
    pub data: Vec<u8>,
    pub content_type: String,
}

/// A parameter of a multipart form.
#[derive(Debug, PartialEq, Eq)]
pub enum MultipartParam {
    Param(Param),
    FileParam(FileParam),
}

/// A cookie that goes with a request.
#[derive(Debug, PartialEq, Eq)]
pub struct RequestCookie {
    pub name: String,
    pub value: String,
}

/// A cookie of a request, as its two texts.
#[verifier::ext_equal]
pub struct RequestCookieView {
    pub name: Seq<char>,
    pub value: Seq<char>,
}

impl DeepView for RequestCookie {
    type V = RequestCookieView;

    open spec fn deep_view(&self) -> RequestCookieView {
        RequestCookieView { name: self.name@, value: self.value@ }
    }
}

impl Clone for RequestCookie {
    fn clone(&self) -> (r: Self)
        ensures
            r == *self,
    {
        RequestCookie { name: self.name.clone(), value: self.value.clone() }
    }
}

/// A cookie as it stands in a `Cookie` header.
pub open spec fn cookie_pair(cookie: RequestCookieView) -> Seq<char> {
    cookie.name + "="@ + cookie.value
}

impl RequestCookie {
    /// Writes the cookie as it stands in a `Cookie` header.
    pub fn to_string(&self) -> (r: String)
        ensures
            r@ == cookie_pair(self.deep_view()),
    {
        let mut r = self.name.clone();
        r.append("=");
        r.append(self.value.as_str());
        r
    }
}

/// Cookies as one `Cookie` header carries them.
pub open spec fn cookie_pairs(cookies: Seq<RequestCookieView>) -> Seq<char> {
    text::joined(Seq::new(cookies.len(), |i: int| cookie_pair(cookies[i])), "; "@)
}

/// Writes cookies as one `Cookie` header carries them.
pub fn join_cookies(cookies: &[RequestCookie]) -> (r: String)
    ensures
        r@ == cookie_pairs(cookies.deep_view()),
{
    let mut pairs: Vec<String> = Vec::new();
    let mut i: usize = 0;
    while i < cookies.len()
        invariant
            i <= cookies@.len(),
            pairs.len() == i,
            forall|k: int|
                0 <= k < i ==> #[trigger] pairs@[k]@ == cookie_pair(cookies@[k].deep_view()),
        decreases cookies@.len() - i,
    {
        pairs.push(cookies[i].to_string());
        i = i + 1;
    }
    let ghost all = cookies.deep_view();
    assert(pairs.deep_view() =~= Seq::new(all.len(), |k: int| cookie_pair(all[k])));
    text::join(items(&pairs), "; ")
}

/// The body of a request.
#[derive(Debug, PartialEq, Eq)]
pub enum Body {
    Text(String),
    Binary(Vec<u8>),
    File(Vec<u8>, String),
}

/// The bytes of a body.
pub open spec fn body_bytes(body: Body) -> Seq<u8> {
    match body {
        Body::Text(s) => encode_utf8(s@),
        Body::Binary(bytes) => bytes@,
        Body::File(bytes, _) => bytes@,
    }
}

impl Body {
    /// Returns the bytes of the body.
    pub fn bytes(&self) -> (r: Vec<u8>)
        ensures
            r@ == body_bytes(*self),
    {
        match self {
            Body::Text(s) => vstd::slice::slice_to_vec(s.as_str().as_bytes()),
            Body::Binary(bytes) => vstd::slice::slice_to_vec(bytes.as_slice()),
            Body::File(bytes, _) => vstd::slice::slice_to_vec(bytes.as_slice()),
        }
    }
}

/// A request as the user describes it.
#[derive(Debug, PartialEq, Eq)]
pub struct RequestSpec {
    pub method: Method,
    pub url: String,
    pub headers: Vec<Header>,
    pub querystring: Vec<Param>,
    pub form: Vec<Param>,
    pub multipart: Vec<MultipartParam>,
    pub cookies: Vec<RequestCookie>,
    pub body: Body,
    pub content_type: Option<String>,
}

/// The request is a bare `GET` of a URL: no header, parameter, cookie, body or
/// content type.
pub open spec fn is_bare_get(request: RequestSpec, url: Seq<char>) -> bool {
    &&& request.method == Method::Get
    &&& request.url@ == url
    &&& request.headers@.len() == 0
    &&& request.querystring@.len() == 0
    &&& request.form@.len() == 0
    &&& request.multipart@.len() == 0
    &&& request.cookies@.len() == 0
    &&& request.body matches Body::Binary(bytes)
    &&& bytes@.len() == 0
    &&& request.content_type is None
}

impl RequestSpec {
    /// Returns a bare `GET` of a URL.
    pub fn get(url: String) -> (r: RequestSpec)
        ensures
            is_bare_get(r, url@),
    {
        RequestSpec {
            method: Method::Get,
            url,
            headers: Vec::new(),
            querystring: Vec::new(),
            form: Vec::new(),
            multipart: Vec::new(),
            cookies: Vec::new(),
            body: Body::Binary(Vec::new()),
            content_type: None,
        }
    }

    /// Returns the values of the headers with a given name, whatever the case of it.
    pub fn get_header_values(&self, name: &str) -> (r: Vec<String>)
        ensures
            r.deep_view() == header::values_of(self.headers.deep_view(), name@),
    {
        get_header_values(items(&self.headers), name)
    }
}

/// The name of a method is the method in capital letters.
pub proof fn methods_have_their_names()
    ensures
        method_name(Method::Get) == seq!['G', 'E', 'T'],
        method_name(Method::Head) == seq!['H', 'E', 'A', 'D'],
        method_name(Method::Post) == seq!['P', 'O', 'S', 'T'],
        method_name(Method::Put) == seq!['P', 'U', 'T'],
        method_name(Method::Delete) == seq!['D', 'E', 'L', 'E', 'T', 'E'],
        method_name(Method::Connect) == seq!['C', 'O', 'N', 'N', 'E', 'C', 'T'],
        method_name(Method::Options) == seq!['O', 'P', 'T', 'I', 'O', 'N', 'S'],
        method_name(Method::Trace) == seq!['T', 'R', 'A', 'C', 'E'],
        method_name(Method::Patch) == seq!['P', 'A', 'T', 'C', 'H'],
{
    reveal_strlit("GET");
    reveal_strlit("HEAD");
    reveal_strlit("POST");
    reveal_strlit("PUT");
    reveal_strlit("DELETE");
    reveal_strlit("CONNECT");
    reveal_strlit("OPTIONS");
    reveal_strlit("TRACE");
    reveal_strlit("PATCH");
}

/// Cookies are written one after the other: none gives nothing, one gives its name, `=` and
/// its value, and two lists give what each gives, with `; ` between.
pub proof fn cookies_are_written_one_by_one(a: Seq<RequestCookieView>, b: Seq<RequestCookieView>)
    ensures
        cookie_pairs(Seq::empty()) == Seq::<char>::empty(),
        a.len() == 1 ==> cookie_pairs(a) == a[0].name + seq!['='] + a[0].value,
        a.len() > 0 && b.len() > 0 ==> cookie_pairs(a + b) == cookie_pairs(a) + seq![';', ' ']
            + cookie_pairs(b),
{
    reveal_strlit("=");
    reveal_strlit("; ");
    assert("="@ =~= seq!['=']);
    assert("; "@ =~= seq![';', ' ']);
    let none = Seq::<RequestCookieView>::empty();
    assert(Seq::new(none.len(), |i: int| cookie_pair(none[i])) =~= Seq::empty());
    let x = Seq::new(a.len(), |i: int| cookie_pair(a[i]));
    let y = Seq::new(b.len(), |i: int| cookie_pair(b[i]));
    let z = Seq::new((a + b).len(), |i: int| cookie_pair((a + b)[i]));
    assert(z =~= x + y);
    text::joined_part_by_part(x, y, "; "@);
}

/// The bytes of a body are those that are given; a text is sent in UTF-8.
pub proof fn body_is_sent_as_given(body: Body)
    ensures
        body matches Body::Text(s) ==> valid_utf8(body_bytes(body)) && decode_utf8(
            body_bytes(body),
        ) == s@,
        body matches Body::Binary(bytes) ==> body_bytes(body) == bytes@,
        body matches Body::File(bytes, _) ==> body_bytes(body) == bytes@,
{
    if let Body::Text(s) = body {
        encode_utf8_valid_utf8(s@);
        encode_utf8_decode_utf8(s@);
    }
}

/// The views of a parameter and of a cookie show their texts as they are.
pub proof fn views_show_names_and_values(param: Param, cookie: RequestCookie)
    ensures
        param.deep_view().name == param.name@,
        param.deep_view().value == param.value@,
        cookie.deep_view().name == cookie.name@,
        cookie.deep_view().value == cookie.value@,
{
}

/// A bare `GET` says its URL and its method, and nothing else.
pub proof fn bare_get_says_its_url_alone(request: RequestSpec, url: Seq<char>)
    requires
        is_bare_get(request, url),
    ensures
        request.method == Method::Get,
        request.url@ == url,
        request.headers@.len() == 0,
        request.querystring@.len() == 0,
        request.form@.len() == 0,
        request.multipart@.len() == 0,
        request.cookies@.len() == 0,
        body_bytes(request.body).len() == 0,
        request.content_type is None,
{
}

} // verus!
