//! The functions of other crates that the logic calls, each behind a contract
//! that is taken on trust.

use curl::easy::Easy;
use encoding::all::ISO_8859_1;
use encoding::{DecoderTrap, Encoding};
use url::Url;
use vstd::prelude::*;
use vstd::utf8::*;

verus! {

/// `String::push` appends the given character to the text.
pub assume_specification[ String::push ](s: &mut String, c: char)
    ensures
        final(s)@ == old(s)@.push(c),
;

/// `std::str::from_utf8` gives back the text that the bytes encode in UTF-8,
/// and an error exactly when they are not valid UTF-8.
#[verifier::external_body]
pub(crate) fn utf8_text(bytes: &[u8]) -> (r: Option<&str>)
    ensures
        r is Some == valid_utf8(bytes@),
        r matches Some(s) ==> s@ == decode_utf8(bytes@),
{
    std::str::from_utf8(bytes).ok()
}

/// Text in which each byte stands for the character of the same code.
pub open spec fn latin1(bytes: Seq<u8>) -> Seq<char> {
    bytes.map_values(|b: u8| b as char)
}

/// `encoding::all::ISO_8859_1.decode` never fails: the encoding gives every byte
/// the character whose code is that byte.
#[verifier::external_body]
pub(crate) fn latin1_text(bytes: &[u8]) -> (r: Option<String>)
    ensures
        r is Some,
        r->Some_0@ == latin1(bytes@),
{
    ISO_8859_1.decode(bytes, DecoderTrap::Strict).ok()
}

/// The digit that stands for a number below 64 in the standard base64 alphabet.
pub open spec fn base64_digit(n: int) -> char {
    if n < 26 {
        (0x41 + n) as char
    } else if n < 52 {
        (0x61 + (n - 26)) as char
    } else if n < 62 {
        (0x30 + (n - 52)) as char
    } else if n == 62 {
        '+'
    } else {
        '/'
    }
}

/// Bytes in base64: every three bytes, read as one number of 24 bits, become its
/// four digits in base 64. Missing bytes of the last group count as zero, and
/// a digit without any bit of a byte that is there is written `=`.
pub open spec fn in_base64(bytes: Seq<u8>) -> Seq<char> {
    let byte = |i: int| if i < bytes.len() { bytes[i] as int } else { 0 };
    Seq::new(
        (bytes.len() + 2) / 3 * 4,
        |i: int|
            {
                let first = i / 4 * 3;
                let group = byte(first) * 65536 + byte(first + 1) * 256 + byte(first + 2);
                if i % 4 > bytes.len() - first {
                    '='
                } else if i % 4 == 0 {
                    base64_digit(group / 262144)
                } else if i % 4 == 1 {
                    base64_digit(group / 4096 % 64)
                } else if i % 4 == 2 {
                    base64_digit(group / 64 % 64)
                } else {
                    base64_digit(group % 64)
                }
            },
    )
}

/// `base64::encode` writes bytes in base64, with the standard alphabet and with
/// padding.
#[verifier::external_body]
pub(crate) fn base64_text(bytes: &[u8]) -> (r: String)
    ensures
        r@ == in_base64(bytes@),
{
    base64::encode(bytes)
}

/// Whether `Url::parse` accepts a text as an absolute URL.
pub uninterp spec fn url_parses(text: Seq<char>) -> bool;

/// What `Url::domain` gives for the URL that a text parses to: its host, where it
/// is a domain name.
pub uninterp spec fn url_domain(text: Seq<char>) -> Option<Seq<char>>;

/// What `Url::path` gives for the URL that a text parses to.
pub uninterp spec fn url_path(text: Seq<char>) -> Seq<char>;

/// The parts of a URL that decide which cookies go with it.
pub struct UrlParts {
    /// The host, where it is a domain name.
    pub domain: Option<String>,
    /// The path, percent-encoded.
    pub path: String,
}

/// `Url::parse`, with `Url::domain` and `Url::path` of the URL that it gives.
/// The three results depend on the text alone. Which texts parse, and to what,
/// is left to the URL standard that the crate implements.
#[verifier::external_body]
pub(crate) fn parse_url(text: &str) -> (r: Option<UrlParts>)
    ensures
        r is Some == url_parses(text@),
        r matches Some(parts) ==> parts.domain.deep_view() == url_domain(text@) && parts.path@
            == url_path(text@),
{
    match Url::parse(text) {
        Ok(url) => Some(
            UrlParts { domain: url.domain().map(String::from), path: url.path().to_string() },
        ),
        Err(_) => None,
    }
}

/// `curl::easy::Easy`, a curl handle with its cookie engine.
#[verifier::external_type_specification]
#[verifier::external_body]
pub struct ExEasy(curl::easy::Easy);

/// The cookies that the cookie engine of a handle holds in memory, as the lines in
/// which it lists them and in the order in which it does.
pub uninterp spec fn cookie_lines(handle: Easy) -> Seq<Seq<u8>>;

/// Those of the `cookie_lines` of a handle whose cookies have no expiry, in the same order.
/// Such cookies last as long as the session.
pub uninterp spec fn session_lines(handle: Easy) -> Seq<Seq<u8>>;

/// The items of `part` stand at the given places of `whole`, and the places go up.
pub open spec fn stands_at(part: Seq<Seq<u8>>, whole: Seq<Seq<u8>>, places: Seq<int>) -> bool {
    &&& places.len() == part.len()
    &&& forall|i: int|
        #![trigger part[i]]
        #![trigger places[i]]
        0 <= i < part.len() ==> 0 <= places[i] < whole.len() && part[i] == whole[places[i]]
    &&& forall|i: int, j: int| 0 <= i < j < places.len() ==> places[i] < places[j]
}

/// Leaving out some items of `whole` gives `part`.
pub open spec fn is_part_of(part: Seq<Seq<u8>>, whole: Seq<Seq<u8>>) -> bool {
    exists|places: Seq<int>| stands_at(part, whole, places)
}

/// `Easy::cookie_list` with the command `ALL`, which erases all cookies that the engine
/// holds in memory. It succeeds whether or not there are any.
#[verifier::external_body]
pub(crate) fn command_cookies(handle: &mut Easy, command: &str)
    requires
        command@ == "ALL"@,
    ensures
        cookie_lines(*final(handle)) == Seq::<Seq<u8>>::empty(),
        session_lines(*final(handle)) == Seq::<Seq<u8>>::empty(),
{
    handle.cookie_list(command).unwrap()
}

/// `Easy::cookies` drops the cookies whose expiry has passed, and lists the others in
/// order. It adds none, and a cookie without an expiry stays. Which of the other cookies
/// stay depends on the time of the call, and is left open. That memory runs out
/// meanwhile, where libcurl gives an empty list, is not considered.
#[verifier::external_body]
pub(crate) fn listed_cookies(handle: &mut Easy) -> (r: Vec<Vec<u8>>)
    ensures
        r.deep_view() == cookie_lines(*final(handle)),
        is_part_of(cookie_lines(*final(handle)), cookie_lines(*old(handle))),
        session_lines(*final(handle)) == session_lines(*old(handle)),
        is_part_of(session_lines(*final(handle)), cookie_lines(*final(handle))),
{
    handle.cookies().unwrap().iter().map(|line| line.to_vec()).collect()
}

} // verus!
