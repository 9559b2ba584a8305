use hurl::client::Client;
use hurl::exchange::Exchange;
use hurl::handle::{FormPart, HandleCall};
use hurl::header::Header;
use hurl::message::{HttpError, LogLine, Request, Response, Version};
use hurl::options::{ClientOptions, TimeSpan, Verbosity};
use hurl::request_spec::{
    Body, FileParam, Method, MultipartParam, Param, RequestCookie, RequestSpec,
};

fn header(name: &str, value: &str) -> Header {
    Header {
        name: name.to_string(),
        value: value.to_string(),
    }
}

fn param(name: &str, value: &str) -> Param {
    Param {
        name: name.to_string(),
        value: value.to_string(),
    }
}

fn options() -> ClientOptions {
    ClientOptions {
        cacert_file: None,
        follow_location: true,
        max_redirect: None,
        proxy: None,
        no_proxy: None,
        verbosity: None,
        insecure: false,
        timeout: TimeSpan { secs: 300, nanos: 0 },
        connect_timeout: TimeSpan { secs: 5, nanos: 500000000 },
        user: None,
        user_agent: None,
        compressed: false,
    }
}

fn sent_headers(request: &RequestSpec, options: &ClientOptions) -> Vec<String> {
    let mut client = Client::new(None);
    client.set_headers(request, options, "1.8.0");
    match client.handle.pop() {
        Some(HandleCall::HttpHeaders(lines)) => lines,
        _ => panic!("no headers"),
    }
}

fn response(status: u32, headers: Vec<Header>) -> Response {
    Response {
        version: Version::Http11,
        status,
        headers,
        body: vec![],
        duration: TimeSpan { secs: 0, nanos: 0 },
    }
}

fn request() -> Request {
    Request {
        url: "http://a/".to_string(),
        method: "GET".to_string(),
        headers: vec![],
        body: vec![],
    }
}

#[test]
fn client_starts_with_cookie_storage() {
    let client = Client::new(None);
    assert_eq!(client.handle, vec![HandleCall::CookieFile("".to_string())]);
    assert_eq!(client.redirect_count, 0);
    let client = Client::new(Some("in.txt".to_string()));
    assert_eq!(client.handle, vec![HandleCall::CookieFile("in.txt".to_string())]);
}

#[test]
fn url_is_generated() {
    let client = Client::new(None);
    let params = [param("a", "1 2"), param("b", "\u{e9}&")];
    assert_eq!(client.generate_url("http://h/p", &[]), "http://h/p");
    assert_eq!(client.generate_url("http://h/p", &params), "http://h/p?a=1%202&b=%C3%A9%26");
    assert_eq!(client.generate_url("http://h/p?", &params), "http://h/p?a=1%202&b=%C3%A9%26");
    assert_eq!(
        client.generate_url("http://h/p?x=y", &params),
        "http://h/p?x=y&a=1%202&b=%C3%A9%26"
    );
    assert_eq!(client.url_encode_params(&params), "a=1%202&b=%C3%A9%26");
    // The name of a parameter is sent as it is.
    assert_eq!(client.url_encode_params(&[param("a b", "")]), "a b=");
}

#[test]
fn methods_are_set() {
    let all = [
        (Method::Get, "GET"),
        (Method::Post, "POST"),
        (Method::Put, "PUT"),
        (Method::Head, "HEAD"),
        (Method::Delete, "DELETE"),
        (Method::Connect, "CONNECT"),
        (Method::Options, "OPTIONS"),
        (Method::Trace, "TRACE"),
        (Method::Patch, "PATCH"),
    ];
    for (method, name) in all {
        let mut client = Client::new(None);
        client.set_method(&method);
        assert_eq!(client.handle[1], HandleCall::CustomRequest(name.to_string()));
    }
}

#[test]
fn headers_that_are_added() {
    let bare = RequestSpec::get("http://a/".to_string());
    assert_eq!(
        sent_headers(&bare, &options()),
        vec!["Content-Type:", "Expect:", "User-Agent: hurl/1.8.0"]
    );
    let mut request = RequestSpec::get("http://a/".to_string());
    request.content_type = Some("text/plain".to_string());
    request.headers = vec![header("X", "y")];
    let mut options = options();
    options.user = Some("bob:secret".to_string());
    options.user_agent = Some("me".to_string());
    options.compressed = true;
    assert_eq!(
        sent_headers(&request, &options),
        vec![
            "X: y",
            "Content-Type: text/plain",
            "Expect:",
            "User-Agent: me",
            "Authorization: Basic Ym9iOnNlY3JldA==",
            "Accept-Encoding: gzip, deflate, br",
        ]
    );
}

#[test]
fn headers_that_are_given_are_not_added() {
    let mut request = RequestSpec::get("http://a/".to_string());
    request.content_type = Some("text/plain".to_string());
    request.headers = vec![
        header("content-type", "a/b"),
        header("EXPECT", "100-continue"),
        header("User-agent", "u"),
        header("authorization", "x"),
        header("Accept-encoding", "br"),
    ];
    let mut options = options();
    options.user = Some("bob:secret".to_string());
    options.compressed = true;
    assert_eq!(
        sent_headers(&request, &options),
        vec![
            "content-type: a/b",
            "EXPECT: 100-continue",
            "User-agent: u",
            "authorization: x",
            "Accept-encoding: br",
        ]
    );
}

#[test]
fn user_is_sent_in_base64() {
    let bare = RequestSpec::get("http://a/".to_string());
    let cases = [
        ("", ""),
        ("f", "Zg=="),
        ("fo", "Zm8="),
        ("foo", "Zm9v"),
        ("foob", "Zm9vYg=="),
        ("\u{fb}\u{ff}>?", "w7vDvz4/"),
        ("~~~", "fn5+"),
    ];
    for (user, text) in cases {
        let mut options = options();
        options.user = Some(user.to_string());
        let lines = sent_headers(&bare, &options);
        assert_eq!(lines[3], format!("Authorization: Basic {}", text));
    }
}

#[test]
fn cookies_form_and_body_are_set() {
    let mut client = Client::new(None);
    client.handle.clear();
    client.set_cookies(&[]);
    client.set_form(&[]);
    client.set_multipart(&[]);
    client.set_body(&[]);
    assert!(client.handle.is_empty());

    let cookies = [
        RequestCookie { name: "a".to_string(), value: "1".to_string() },
        RequestCookie { name: "b".to_string(), value: "".to_string() },
    ];
    client.set_cookies(&cookies);
    client.set_form(&[param("k", "v w")]);
    client.set_multipart(&[
        MultipartParam::Param(param("p", "\u{e9}")),
        MultipartParam::FileParam(FileParam {
            name: "f".to_string(),
            filename: "f.txt".to_string(),
            data: vec![1, 2],
            content_type: "text/plain".to_string(),
        }),
    ]);
    client.set_body(&[7, 8, 9]);
    assert_eq!(
        client.handle,
        vec![
            HandleCall::Cookie("a=1; b=".to_string()),
            HandleCall::PostFieldsCopy(b"k=v%20w".to_vec()),
            HandleCall::Httppost(vec![
                FormPart::Contents { name: "p".to_string(), contents: vec![0xc3, 0xa9] },
                FormPart::Buffer {
                    name: "f".to_string(),
                    filename: "f.txt".to_string(),
                    data: vec![1, 2],
                    content_type: "text/plain".to_string(),
                },
            ]),
            HandleCall::Post(true),
            HandleCall::PostFieldSize(3),
        ]
    );
}

#[test]
fn execution_starts_with_all_calls_in_order() {
    let mut client = Client::new(None);
    client.handle.clear();
    let mut spec = RequestSpec::get("http://a/".to_string());
    spec.method = Method::Post;
    spec.querystring = vec![param("q", "1")];
    spec.body = Body::Text("\u{e9}".to_string());
    let mut options = options();
    options.insecure = true;
    options.cacert_file = Some("ca.pem".to_string());
    options.proxy = Some("p:1".to_string());
    options.no_proxy = Some("localhost".to_string());
    options.verbosity = Some(Verbosity::Verbose);
    let exchange = client.execute(&spec, &options, "2");
    assert_eq!(
        client.handle,
        vec![
            HandleCall::Verbose(true),
            HandleCall::SslVerifyHost(false),
            HandleCall::SslVerifyPeer(false),
            HandleCall::Cainfo("ca.pem".to_string()),
            HandleCall::SslCertType("PEM".to_string()),
            HandleCall::Proxy("p:1".to_string()),
            HandleCall::Noproxy("localhost".to_string()),
            HandleCall::Timeout(TimeSpan { secs: 300, nanos: 0 }),
            HandleCall::ConnectTimeout(TimeSpan { secs: 5, nanos: 500000000 }),
            HandleCall::Url("http://a/?q=1".to_string()),
            HandleCall::CustomRequest("POST".to_string()),
            HandleCall::Post(true),
            HandleCall::PostFieldSize(2),
            HandleCall::HttpHeaders(vec![
                "Content-Type:".to_string(),
                "Expect:".to_string(),
                "User-Agent: hurl/2".to_string(),
            ]),
        ]
    );
    assert_eq!(exchange.url, "http://a/?q=1");
    assert_eq!(exchange.method, "POST");
    assert_eq!(exchange.request_spec_body, vec![0xc3, 0xa9]);
    assert!(exchange.has_body_data);
    assert!(exchange.verbose);
    assert!(!exchange.very_verbose);
}

fn exchange(verbosity: Option<Verbosity>, form: Vec<Param>) -> Exchange {
    let mut client = Client::new(None);
    let mut options = options();
    options.verbosity = verbosity;
    let mut spec = RequestSpec::get("http://a/".to_string());
    spec.form = form;
    client.execute(&spec, &options, "2")
}

#[test]
fn sent_headers_are_kept() {
    let data = b"GET / HTTP/1.1\r\nHost: a\r\nno header\r\nX: y\r\n\r\n";
    let mut quiet = exchange(None, vec![]);
    let mut log = vec![];
    quiet.header_out(data, &mut log);
    assert_eq!(quiet.request_headers, vec![header("Host", "a"), header("X", "y")]);
    assert!(log.is_empty());

    let mut loud = exchange(Some(Verbosity::VeryVerbose), vec![]);
    loud.header_out(data, &mut log);
    assert_eq!(
        log,
        vec![
            LogLine::MethodVersionOut("GET / HTTP/1.1".to_string()),
            LogLine::HeaderOut(header("Host", "a")),
            LogLine::HeaderOut(header("X", "y")),
            LogLine::Info(">".to_string()),
            LogLine::RequestBody(Request {
                url: "http://a/".to_string(),
                method: "GET".to_string(),
                headers: vec![header("Host", "a"), header("X", "y")],
                body: vec![],
            }),
        ]
    );
}

#[test]
fn sent_body_is_kept() {
    let mut with_form = exchange(Some(Verbosity::VeryVerbose), vec![param("k", "v")]);
    let mut log = vec![];
    with_form.header_out(b"GET / HTTP/1.1\r\nHost: a\r\n\r\n", &mut log);
    assert_eq!(log, vec![LogLine::MethodVersionOut("GET / HTTP/1.1".to_string())]);
    log.clear();
    with_form.data_out(b"k=", &mut log);
    with_form.verbose = false;
    with_form.data_out(b"v", &mut log);
    assert_eq!(with_form.request_body, b"k=v".to_vec());
    assert_eq!(
        log,
        vec![
            LogLine::HeaderOut(header("Host", "a")),
            LogLine::Info(">".to_string()),
            LogLine::RequestBody(Request {
                url: "http://a/".to_string(),
                method: "GET".to_string(),
                headers: vec![header("Host", "a")],
                body: b"k=".to_vec(),
            }),
        ]
    );
}

#[test]
fn response_is_received() {
    let mut e = exchange(Some(Verbosity::VeryVerbose), vec![]);
    e.header_in(b"HTTP/1.1 100 Continue\r\n");
    e.header_in(b"HTTP/2 200 \r\n");
    e.header_in(b"Name: caf\xe9\r\n");
    e.header_in(b"\r\n");
    assert_eq!(e.data_in(b"he"), 2);
    assert_eq!(e.data_in(b"llo"), 3);
    let mut client = Client::new(None);
    let mut log = vec![];
    let span = TimeSpan { secs: 2, nanos: 34999999 };
    let (req, resp) = client.finish(e, 200, span, &mut log).unwrap();
    assert_eq!(req, request());
    assert_eq!(
        resp,
        Response {
            version: Version::Http2,
            status: 200,
            headers: vec![header("Name", "caf\u{e9}")],
            body: b"hello".to_vec(),
            duration: span,
        }
    );
    assert_eq!(client.handle[1], HandleCall::Reset);
    assert_eq!(
        log,
        vec![
            LogLine::DebugImportant("Response: (received 5 bytes in 2034 ms)".to_string()),
            LogLine::Debug("".to_string()),
            LogLine::StatusVersionIn("HTTP/1.1 100 Continue".to_string()),
            LogLine::StatusVersionIn("HTTP/2 200".to_string()),
            LogLine::HeaderIn(header("Name", "caf\u{e9}")),
            LogLine::Info("<".to_string()),
            LogLine::ResponseBody,
        ]
    );
}

#[test]
fn response_that_can_not_be_read() {
    let span = TimeSpan { secs: 0, nanos: 0 };
    let mut client = Client::new(None);
    let mut log = vec![];
    assert_eq!(
        client.finish(exchange(Some(Verbosity::Verbose), vec![]), 0, span, &mut log),
        Err(HttpError::StatuslineIsMissing { url: "http://a/".to_string() })
    );
    let mut e = exchange(Some(Verbosity::Verbose), vec![]);
    e.header_in(b"HTTP/1.1 200\r\n");
    e.header_in(b"HTTP/3 200\r\n");
    assert_eq!(
        client.finish(e, 200, span, &mut log),
        Err(HttpError::CouldNotParseResponse)
    );
    assert_eq!(client.handle.len(), 1);
    assert!(log.is_empty());
}

#[test]
fn versions_are_parsed() {
    let client = Client::new(None);
    assert_eq!(client.parse_response_version("HTTP/1.0 200"), Ok(Version::Http10));
    assert_eq!(client.parse_response_version("HTTP/1.1 200"), Ok(Version::Http11));
    assert_eq!(client.parse_response_version("HTTP/2 200"), Ok(Version::Http2));
    assert_eq!(
        client.parse_response_version("HTTP/1"),
        Err(HttpError::CouldNotParseResponse)
    );
}

#[test]
fn response_headers_are_parsed() {
    let client = Client::new(None);
    let lines = ["a: 1\r\n".to_string(), "\r\n".to_string(), "b:2".to_string()];
    assert_eq!(
        client.parse_response_headers(&lines),
        vec![header("a", "1"), header("b", "2")]
    );
}

#[test]
fn transfer_fails() {
    let e = exchange(None, vec![]);
    assert_eq!(
        e.failure(7, None, "Couldn't connect".to_string()),
        HttpError::Libcurl {
            code: 7,
            description: "Couldn't connect".to_string(),
            url: "http://a/".to_string(),
        }
    );
    assert_eq!(
        e.failure(7, Some("port 1 refused".to_string()), "Couldn't connect".to_string()),
        HttpError::Libcurl {
            code: 7,
            description: "port 1 refused".to_string(),
            url: "http://a/".to_string(),
        }
    );
}

#[test]
fn location_to_follow() {
    let client = Client::new(None);
    let to = |status: u32, headers: Vec<Header>| client.get_follow_location(&response(status, headers));
    assert_eq!(to(302, vec![header("location", "/x")]), Some("/x".to_string()));
    assert_eq!(to(300, vec![header("Location", "/x"), header("Location", "/y")]), Some("/x".to_string()));
    assert_eq!(to(399, vec![header("Location", "/x")]), Some("/x".to_string()));
    assert_eq!(to(299, vec![header("Location", "/x")]), None);
    assert_eq!(to(400, vec![header("Location", "/x")]), None);
    assert_eq!(to(302, vec![]), None);
    assert_eq!(to(302, vec![header("Location", "")]), None);
}

#[test]
fn redirections_are_followed_up_to_the_limit() {
    let mut client = Client::new(None);
    client.redirect_count = 9;
    client.start_redirects();
    let mut options = options();
    options.max_redirect = Some(2);
    let mut calls = vec![];
    let mut log = vec![];
    for n in 0..2 {
        let next = client
            .execute_with_redirect(
                &mut calls,
                Ok((request(), response(302, vec![header("Location", "http://b/")]))),
                &options,
                &mut log,
            )
            .unwrap();
        assert_eq!(next, Some(RequestSpec::get("http://b/".to_string())));
        assert_eq!(client.redirect_count, n + 1);
    }
    assert_eq!(
        log[0..3],
        [
            LogLine::Debug("".to_string()),
            LogLine::Debug("=> Redirect to http://b/".to_string()),
            LogLine::Debug("".to_string()),
        ]
    );
    assert_eq!(
        client.execute_with_redirect(
            &mut calls,
            Ok((request(), response(302, vec![header("Location", "http://b/")]))),
            &options,
            &mut log,
        ),
        Err(HttpError::TooManyRedirect)
    );
    assert_eq!(calls.len(), 3);
    assert_eq!(log.len(), 9);
}

#[test]
fn run_ends_without_redirection() {
    let mut client = Client::new(None);
    let mut options = options();
    let mut calls = vec![];
    let mut log = vec![];
    let last = client.execute_with_redirect(
        &mut calls,
        Ok((request(), response(200, vec![header("Location", "http://b/")]))),
        &options,
        &mut log,
    );
    assert_eq!(last, Ok(None));
    options.follow_location = false;
    let last = client.execute_with_redirect(
        &mut calls,
        Ok((request(), response(302, vec![header("Location", "http://b/")]))),
        &options,
        &mut log,
    );
    assert_eq!(last, Ok(None));
    assert_eq!(client.redirect_count, 0);
    assert_eq!(calls.len(), 2);
    assert!(log.is_empty());
}

#[test]
fn redirected_request_is_bare() {
    let next = RequestSpec::get("http://b/".to_string());
    assert_eq!(next.method, Method::Get);
    assert_eq!(next.url, "http://b/");
    assert!(next.headers.is_empty() && next.cookies.is_empty() && next.form.is_empty());
    assert_eq!(next.body, Body::Binary(vec![]));
    assert_eq!(next.content_type, None);
}

#[test]
fn bodies_have_bytes() {
    assert_eq!(Body::Text("\u{e9}".to_string()).bytes(), vec![0xc3, 0xa9]);
    assert_eq!(Body::Binary(vec![1, 2]).bytes(), vec![1, 2]);
    assert_eq!(Body::File(vec![3], "f".to_string()).bytes(), vec![3]);
}

#[test]
fn time_in_milliseconds() {
    assert_eq!(TimeSpan { secs: 1, nanos: 999999999 }.as_millis(), 1999);
    assert_eq!(TimeSpan { secs: 0, nanos: 999999 }.as_millis(), 0);
}

#[test]
fn redirected_request_asks_for_its_url_alone() {
    let mut client = Client::new(None);
    client.handle.clear();
    let mut options = options();
    options.user_agent = Some("agent".to_string());
    let exchange = client.execute(&RequestSpec::get("http://b/".to_string()), &options, "2");
    assert!(!exchange.has_body_data);
    let asked = client.handle.split_off(client.handle.len() - 3);
    assert_eq!(
        asked,
        vec![
            HandleCall::Url("http://b/".to_string()),
            HandleCall::CustomRequest("GET".to_string()),
            HandleCall::HttpHeaders(vec![
                "Content-Type:".to_string(),
                "Expect:".to_string(),
                "User-Agent: agent".to_string(),
            ]),
        ]
    );
}

#[test]
fn verbosity_is_for_the_log_alone() {
    let levels = [None, Some(Verbosity::Verbose), Some(Verbosity::VeryVerbose)];
    let mut lengths = vec![];
    for verbosity in levels {
        let mut client = Client::new(None);
        let mut options = options();
        options.verbosity = verbosity;
        let mut e = client.execute(&RequestSpec::get("http://a/".to_string()), &options, "2");
        let mut log = vec![];
        e.header_out(b"GET / HTTP/1.1\r\nHost: a\r\n\r\n", &mut log);
        e.header_in(b"HTTP/1.1 200 OK\r\n");
        e.header_in(b"X: y\r\n");
        e.data_in(b"body");
        let mut quiet = Client::new(None);
        quiet.execute(&RequestSpec::get("http://a/".to_string()), &self::options(), "2");
        assert_eq!(client.handle, quiet.handle);
        let duration = TimeSpan { secs: 0, nanos: 0 };
        let (request, response) = client.finish(e, 200, duration, &mut log).unwrap();
        assert_eq!(request.headers, vec![header("Host", "a")]);
        assert_eq!(response.headers, vec![header("X", "y")]);
        assert_eq!(response.body, b"body".to_vec());
        lengths.push(log.len());
    }
    assert_eq!(lengths, vec![0, 8, 10]);
}

#[test]
fn run_fails_with_its_execution() {
    let mut client = Client::new(None);
    client.redirect_count = 1;
    let error = || HttpError::StatuslineIsMissing { url: "http://a/".to_string() };
    let mut calls = vec![(request(), response(302, vec![]))];
    let mut log = vec![];
    assert_eq!(
        client.execute_with_redirect(&mut calls, Err(error()), &options(), &mut log),
        Err(error())
    );
    assert_eq!(calls.len(), 1);
    assert_eq!(client.redirect_count, 1);
    assert!(log.is_empty());
}
