use hurl::header::{get_header_values, Header};
use hurl::percent::url_encode;
use hurl::text::{
    decimal, ends_with, equal_but_case, find_char, is_whitespace, join, same_text, starts_with,
    trim,
};
use hurl::wire::{decode_header, split_lines};

fn header(name: &str, value: &str) -> Header {
    Header {
        name: name.to_string(),
        value: value.to_string(),
    }
}

#[test]
fn test_parse_header() {
    assert_eq!(
        Header::parse("Foo: Bar\r\n").unwrap(),
        Header {
            name: "Foo".to_string(),
            value: "Bar".to_string(),
        }
    );
    assert_eq!(
        Header::parse("Location: http://localhost:8000/redirected\r\n").unwrap(),
        Header {
            name: "Location".to_string(),
            value: "http://localhost:8000/redirected".to_string(),
        }
    );
    assert!(Header::parse("Foo").is_none());
}

#[test]
fn test_split_lines_header() {
    let data = b"GET /hello HTTP/1.1\r\nHost: localhost:8000\r\n\r\n";
    let lines = split_lines(data);
    assert_eq!(lines.len(), 3);
    assert_eq!(lines.get(0).unwrap().as_str(), "GET /hello HTTP/1.1");
    assert_eq!(lines.get(1).unwrap().as_str(), "Host: localhost:8000");
    assert_eq!(lines.get(2).unwrap().as_str(), "");
}

#[test]
fn header_edges() {
    assert_eq!(Header::parse(":"), Some(header("", "")));
    assert_eq!(Header::parse(" a b : c:d "), Some(header("a b", "c:d")));
    assert_eq!(Header::parse("n\u{e9}: \u{3000}v\u{e9}\u{a0}"), Some(header("n\u{e9}", "v\u{e9}")));
    assert_eq!(Header::parse(""), None);
}

#[test]
fn header_line_is_read_back() {
    let h = header("X-Token", "a: b");
    let line = format!("{}: {}", h.name, h.value);
    assert_eq!(Header::parse(&line), Some(h.clone()));
    let ended = format!("{}\r\n", line);
    assert_eq!(Header::parse(&ended), Some(h));
}

#[test]
fn header_values_ignore_case() {
    let headers = vec![header("Set-Cookie", "a"), header("X", "b"), header("set-cookie", "c")];
    assert_eq!(get_header_values(&headers, "SET-COOKIE"), vec!["a".to_string(), "c".to_string()]);
    assert!(get_header_values(&headers, "Cookie").is_empty());
}

#[test]
fn split_lines_edges() {
    assert!(split_lines(b"no end").is_empty());
    assert!(split_lines(b"\n").is_empty());
    assert_eq!(split_lines(b"a\r\nrest"), vec!["a".to_string()]);
    // A line that is not UTF-8 is left out.
    assert_eq!(split_lines(b"a\r\n\xff\r\nb\r\n"), vec!["a".to_string(), "b".to_string()]);
    // A single carriage return or line feed ends nothing.
    assert_eq!(split_lines(b"a\rb\nc\r\r\n"), vec!["a\rb\nc\r".to_string()]);
}

#[test]
fn written_lines_are_split_again() {
    let lines = vec!["one".to_string(), "".to_string(), "tr\u{e9}s".to_string()];
    let mut data: Vec<u8> = vec![];
    for line in &lines {
        data.extend(line.as_bytes());
        data.extend(b"\r\n");
    }
    assert_eq!(split_lines(&data), lines);
}

#[test]
fn header_is_decoded() {
    assert_eq!(decode_header(b"HTTP/1.1 200\r\n"), Some("HTTP/1.1 200\r\n".to_string()));
    assert_eq!(decode_header("caf\u{e9}".as_bytes()), Some("caf\u{e9}".to_string()));
    assert_eq!(decode_header(&[99, 97, 102, 233]), Some("caf\u{e9}".to_string()));
    assert_eq!(decode_header(&[0x80, 0xff]), Some("\u{80}\u{ff}".to_string()));
    assert_eq!(decode_header(&[]), Some("".to_string()));
}

#[test]
fn white_space_is_that_of_unicode() {
    for code in 0..0x110000u32 {
        if let Some(c) = char::from_u32(code) {
            assert_eq!(is_whitespace(c), c.is_whitespace());
        }
    }
}

#[test]
fn trim_removes_white_space_at_both_ends() {
    for s in ["", " ", "a", " a", "a ", "\t a b \r\n", "\u{2003}x\u{85}"] {
        assert_eq!(trim(s), s.trim());
    }
}

#[test]
fn texts_are_compared() {
    assert!(same_text("", ""));
    assert!(same_text("\u{e9}t\u{e9}", "\u{e9}t\u{e9}"));
    assert!(!same_text("a", "ab"));
    assert!(!same_text("a", "b"));
    assert!(starts_with("HTTP/1.1", "HTTP/"));
    assert!(starts_with("a", ""));
    assert!(!starts_with("HTTP", "HTTP/"));
    assert!(ends_with("sub.example.com", "example.com"));
    assert!(ends_with("a", ""));
    assert!(!ends_with("com", "example.com"));
    assert_eq!(find_char("\u{e9}:a:b", ':'), Some(1));
    assert_eq!(find_char("ab", ':'), None);
    assert!(equal_but_case("Content-TYPE", "content-type"));
    assert!(!equal_but_case("Content-Type", "Content_Type"));
    assert!(!equal_but_case("a", "ab"));
    assert!(!equal_but_case("[", "{"));
}

#[test]
fn texts_are_joined() {
    assert_eq!(join(&[], ", "), "");
    assert_eq!(join(&["a".to_string()], ", "), "a");
    assert_eq!(join(&["a".to_string(), "".to_string(), "c".to_string()], ", "), "a, , c");
}

#[test]
fn numbers_are_written_in_decimal() {
    for n in [0u128, 7, 10, 99, 100, 1234567890, u128::MAX] {
        assert_eq!(decimal(n), n.to_string());
    }
}

#[test]
fn every_byte_is_encoded_as_curl_does() {
    let mut handle = curl::easy::Easy::new();
    for b in 0..=255u8 {
        assert_eq!(url_encode(&[b]), handle.url_encode(&[b]));
    }
    let all: Vec<u8> = (0..=255u8).collect();
    assert_eq!(url_encode(&all), handle.url_encode(&all));
    assert_eq!(url_encode(&[]), handle.url_encode(&[]));
    assert_eq!(url_encode("a b&\u{e9}~".as_bytes()), "a%20b%26%C3%A9~");
}

#[test]
fn encoded_values_hold_no_separator() {
    let encoded = url_encode(b"a&b=c?d#e f/%");
    assert_eq!(encoded, "a%26b%3Dc%3Fd%23e%20f%2F%25");
    assert!(!encoded.contains(['&', '=', '?', '#', ' ']));
}

#[test]
fn encoded_values_stay_apart() {
    assert_eq!(url_encode(b"%41"), "%2541");
    assert_eq!(url_encode(b"A"), "A");
    assert_ne!(url_encode(&[0xc3, 0xa9]), url_encode(b"%C3%A9"));
}
