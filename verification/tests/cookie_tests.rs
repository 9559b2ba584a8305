use curl::easy::Easy;
use hurl::client::Client;
use hurl::cookie::{
    all_cookies, match_cookie, match_url_parts, stored_cookies, Cookie, ParseCookieError,
};
use hurl::handle::HandleCall;
use hurl::options::{ClientOptions, TimeSpan, Verbosity};
use hurl::outside::UrlParts;
use hurl::request_spec::{Method, RequestCookie, RequestSpec};

fn cookie(domain: &str, include_subdomain: &str, path: &str, expires: &str, name: &str) -> Cookie {
    Cookie {
        domain: domain.to_string(),
        include_subdomain: include_subdomain.to_string(),
        path: path.to_string(),
        https: "FALSE".to_string(),
        expires: expires.to_string(),
        name: name.to_string(),
        value: "v".to_string(),
        http_only: false,
    }
}

fn pair(name: &str, value: &str) -> RequestCookie {
    RequestCookie {
        name: name.to_string(),
        value: value.to_string(),
    }
}

fn options(verbosity: Option<Verbosity>) -> ClientOptions {
    ClientOptions {
        cacert_file: None,
        follow_location: false,
        max_redirect: None,
        proxy: None,
        no_proxy: None,
        verbosity,
        insecure: false,
        timeout: TimeSpan { secs: 1, nanos: 0 },
        connect_timeout: TimeSpan { secs: 1, nanos: 0 },
        user: None,
        user_agent: None,
        compressed: false,
    }
}

#[test]
fn test_match_cookie() {
    let cookie = Cookie {
        domain: "example.com".to_string(),
        include_subdomain: "FALSE".to_string(),
        path: "/".to_string(),
        https: "".to_string(),
        expires: "".to_string(),
        name: "".to_string(),
        value: "".to_string(),
        http_only: false,
    };
    assert!(match_cookie(&cookie, "http://example.com/toto"));
    assert!(!match_cookie(&cookie, "http://sub.example.com/tata"));
    assert!(!match_cookie(&cookie, "http://toto/tata"));

    let cookie = Cookie {
        domain: "example.com".to_string(),
        include_subdomain: "TRUE".to_string(),
        path: "/toto".to_string(),
        https: "".to_string(),
        expires: "".to_string(),
        name: "".to_string(),
        value: "".to_string(),
        http_only: false,
    };
    assert!(match_cookie(&cookie, "http://example.com/toto"));
    assert!(match_cookie(&cookie, "http://sub.example.com/toto"));
    assert!(!match_cookie(&cookie, "http://example.com/tata"));
}

#[test]
fn match_cookie_edges() {
    let c = cookie("example.com", "FALSE", "/", "0", "n");
    assert!(!match_cookie(&c, "not a url"));
    // An address is no domain name: the path alone decides.
    assert!(match_cookie(&c, "http://127.0.0.1/"));
    // The host is lower-cased and a missing path is a slash.
    assert!(match_cookie(&c, "HTTP://EXAMPLE.com"));
    assert!(!match_cookie(&cookie("example.com", "FALSE", "/a", "0", "n"), "http://example.com"));
    // A suffix needs no dot before it.
    assert!(match_cookie(&cookie("ample.com", "TRUE", "/", "0", "n"), "http://example.com/"));
    assert!(!match_cookie(&cookie("ample.com", "FALSE", "/", "0", "n"), "http://example.com/"));
}

#[test]
fn parts_are_matched() {
    let parts = UrlParts {
        domain: Some("a.b".to_string()),
        path: "/x/y".to_string(),
    };
    assert!(match_url_parts(&cookie("a.b", "FALSE", "/x", "0", "n"), &parts));
    assert!(!match_url_parts(&cookie("b", "FALSE", "/x", "0", "n"), &parts));
    assert!(match_url_parts(&cookie("b", "TRUE", "/x", "0", "n"), &parts));
    assert!(!match_url_parts(&cookie("b", "TRUE", "/y", "0", "n"), &parts));
    let parts = UrlParts {
        domain: None,
        path: "/x/y".to_string(),
    };
    assert!(match_url_parts(&cookie("other", "FALSE", "/x", "0", "n"), &parts));
    let storage = [cookie("o", "TRUE", "/", "1", "old"), cookie("o", "TRUE", "/x/", "2", "new")];
    assert_eq!(stored_cookies(&storage, &parts), vec![pair("new", "v")]);
}

#[test]
fn cookies_of_request_and_storage() {
    let storage = [
        cookie("example.com", "FALSE", "/", "0", "one"),
        cookie("example.com", "FALSE", "/", "1", "expired"),
        cookie("other.com", "FALSE", "/", "0", "other"),
        cookie("com", "TRUE", "/a", "0", "two"),
    ];
    let mut request = RequestSpec::get("http://example.com/a/b".to_string());
    request.cookies = vec![pair("own", "1")];
    assert_eq!(
        all_cookies(&storage, &request),
        vec![pair("own", "1"), pair("one", "v"), pair("two", "v")]
    );
    request.url = "no url".to_string();
    assert_eq!(all_cookies(&storage, &request), vec![pair("own", "1")]);
}

#[test]
fn cookie_is_parsed() {
    let c = Cookie::from_str("httpbin.org\tFALSE\t/\tFALSE\t0\tcookie1\tvalue A").unwrap();
    assert_eq!(c.domain, "httpbin.org");
    assert_eq!(c.include_subdomain, "FALSE");
    assert_eq!(c.path, "/");
    assert_eq!(c.https, "FALSE");
    assert_eq!(c.expires, "0");
    assert_eq!(c.name, "cookie1");
    assert_eq!(c.value, "value A");
    assert!(!c.http_only);

    let c = Cookie::from_str("#HttpOnly_localhost\tTRUE\t/a\tTRUE\t1\tn").unwrap();
    assert_eq!(c.domain, "localhost");
    assert_eq!(c.value, "");
    assert!(c.http_only);

    assert_eq!(Cookie::from_str("xxx"), Err(ParseCookieError {}));
    assert_eq!(Cookie::from_str("a\tb\tc\td\te"), Err(ParseCookieError {}));
}

#[test]
fn cookie_is_written_and_parsed_again() {
    let mut c = cookie("example.com", "TRUE", "/", "0", "n");
    assert_eq!(c.to_string(), "example.com\tTRUE\t/\tFALSE\t0\tn\tv");
    assert_eq!(Cookie::from_str(&c.to_string()).unwrap(), c);
    c.http_only = true;
    c.value = "".to_string();
    assert_eq!(c.to_string(), "#HttpOnly_example.com\tTRUE\t/\tFALSE\t0\tn\t");
    assert_eq!(Cookie::from_str(&c.to_string()).unwrap(), c);
}

#[test]
fn cookie_lines_are_parsed() {
    let client = Client::new(None);
    let list = vec![
        b"a.b\tFALSE\t/\tFALSE\t0\tn\tv".to_vec(),
        b"junk".to_vec(),
        b"c.d\tFALSE\t/\tFALSE\t0\tm\tv".to_vec(),
    ];
    let (cookies, warnings) = client.parse_cookie_lines(&list);
    assert_eq!(
        cookies,
        vec![cookie("a.b", "FALSE", "/", "0", "n"), cookie("c.d", "FALSE", "/", "0", "m")]
    );
    assert_eq!(warnings, vec!["warning: line <junk> can not be parsed as cookie".to_string()]);
}

/// Makes the calls owed that change the cookie engine.
fn make_cookie_calls(client: &mut Client, handle: &mut Easy) {
    for call in client.handle.drain(..) {
        if let HandleCall::CookieList(line) = call {
            handle.cookie_list(&line).unwrap();
        }
    }
}

#[test]
fn curl_keeps_an_added_cookie() {
    let mut client = Client::new(None);
    let mut handle = Easy::new();
    assert_eq!(client.get_cookie_storage(&mut handle), Some((vec![], vec![])));
    let c = cookie("a.b", "FALSE", "/x", "0", "n");
    assert_eq!(client.add_cookie(&c, &options(None)), None);
    make_cookie_calls(&mut client, &mut handle);
    assert_eq!(client.get_cookie_storage(&mut handle), Some((vec![c], vec![])));
}

#[test]
fn expired_cookie_is_not_listed() {
    let mut client = Client::new(None);
    let mut handle = Easy::new();
    let kept = cookie("a.b", "FALSE", "/", "0", "kept");
    client.add_cookie(&cookie("a.b", "FALSE", "/", "2", "old"), &options(None));
    client.add_cookie(&kept, &options(None));
    make_cookie_calls(&mut client, &mut handle);
    assert_eq!(client.get_cookie_storage(&mut handle), Some((vec![kept], vec![])));
}

#[test]
fn cleared_storage_is_empty() {
    for verbosity in [None, Some(Verbosity::Verbose), Some(Verbosity::VeryVerbose)] {
        let mut client = Client::new(None);
        let mut handle = Easy::new();
        client.add_cookie(&cookie("a.b", "FALSE", "/", "0", "made"), &options(None));
        make_cookie_calls(&mut client, &mut handle);
        assert_eq!(handle.cookies().unwrap().iter().count(), 1);
        client.add_cookie(&cookie("a.b", "FALSE", "/", "0", "owed"), &options(None));
        client.clear_cookie_storage(&mut handle, &options(verbosity));
        assert_eq!(client.get_cookie_storage(&mut handle), Some((vec![], vec![])));
        make_cookie_calls(&mut client, &mut handle);
        assert_eq!(client.get_cookie_storage(&mut handle), Some((vec![], vec![])));
    }
}

#[test]
fn cookie_jar_is_changed() {
    let mut client = Client::new(Some("jar.txt".to_string()));
    let mut handle = Easy::new();
    let c = cookie("a.b", "FALSE", "/", "0", "n");
    let told = client.add_cookie(&c, &options(Some(Verbosity::Verbose)));
    assert_eq!(told, Some("* add to cookie store: a.b\tFALSE\t/\tFALSE\t0\tn\tv".to_string()));
    client.set_method(&Method::Put);
    assert_eq!(client.add_cookie(&c, &options(None)), None);
    assert_eq!(
        client.handle,
        vec![
            HandleCall::CookieFile("jar.txt".to_string()),
            HandleCall::CookieList("a.b\tFALSE\t/\tFALSE\t0\tn\tv".to_string()),
            HandleCall::CustomRequest("PUT".to_string()),
            HandleCall::CookieList("a.b\tFALSE\t/\tFALSE\t0\tn\tv".to_string()),
        ]
    );
    assert_eq!(
        client.clear_cookie_storage(&mut handle, &options(Some(Verbosity::VeryVerbose))),
        Some("* clear cookie storage".to_string())
    );
    assert_eq!(client.clear_cookie_storage(&mut handle, &options(None)), None);
    assert_eq!(
        client.handle,
        vec![
            HandleCall::CookieFile("jar.txt".to_string()),
            HandleCall::CustomRequest("PUT".to_string()),
        ]
    );
}

#[test]
fn command_line_is_written() {
    let client = Client::new(None);
    let mut request = RequestSpec::get("http://a.b/".to_string());
    let args = || vec!["'http://a.b/'".to_string()];
    assert_eq!(
        client.command_line_with_storage(&request, args(), &[], vec!["--insecure".to_string()]),
        "curl 'http://a.b/' --insecure"
    );
    request.cookies = vec![pair("x", "1")];
    let storage = [cookie("a.b", "FALSE", "/", "0", "n")];
    assert_eq!(
        client.command_line_with_storage(&request, args(), &storage, vec![]),
        "curl 'http://a.b/' --cookie 'x=1; n=v'"
    );
}

#[test]
fn command_line_takes_cookies_from_the_handle() {
    let mut client = Client::new(None);
    let mut handle = Easy::new();
    let request = RequestSpec::get("http://a.b/".to_string());
    client.add_cookie(&cookie("a.b", "FALSE", "/", "0", "n"), &options(None));
    client.add_cookie(&cookie("c.d", "FALSE", "/", "0", "m"), &options(None));
    make_cookie_calls(&mut client, &mut handle);
    assert_eq!(
        client.curl_command_line(&mut handle, &request, vec![], vec!["--insecure".to_string()]),
        Some(("curl --cookie 'n=v' --insecure".to_string(), vec![]))
    );
    client.clear_cookie_storage(&mut handle, &options(None));
    assert_eq!(
        client.curl_command_line(&mut handle, &request, vec![], vec![]),
        Some(("curl".to_string(), vec![]))
    );
}

#[test]
fn reading_keeps_the_storage() {
    let mut client = Client::new(None);
    let mut handle = Easy::new();
    let request = RequestSpec::get("http://a.b/".to_string());
    for name in ["x", "y", "z"] {
        client.add_cookie(&cookie("a.b", "FALSE", "/", "0", name), &options(None));
    }
    make_cookie_calls(&mut client, &mut handle);
    let first = client.get_cookie_storage(&mut handle);
    let names = |storage: &Option<(Vec<Cookie>, Vec<String>)>| {
        let (cookies, _) = storage.as_ref().unwrap();
        cookies.iter().map(|c| c.name.clone()).collect::<Vec<String>>()
    };
    assert_eq!(names(&first), vec!["x".to_string(), "y".to_string(), "z".to_string()]);
    assert_eq!(client.get_cookie_storage(&mut handle), first);
    let line = client.curl_command_line(&mut handle, &request, vec![], vec![]);
    assert_eq!(line, Some(("curl --cookie 'x=v; y=v; z=v'".to_string(), vec![])));
    assert_eq!(client.get_cookie_storage(&mut handle), first);
}
