//! Cookies of the cookie storage.

use crate::items::items;
use crate::outside::{self, parse_url, UrlParts};
use crate::places;
use crate::request_spec::{RequestCookie, RequestCookieView, RequestSpec};
use crate::text::{self, ends_with, find_char, join, same_text, starts_with};
use vstd::prelude::*;

verus! {

/// A cookie of the cookie storage, with the fields of the Netscape cookie format.
#[derive(Debug, PartialEq, Eq)]
pub struct Cookie {
    pub domain: String,
    pub include_subdomain: String,
    pub path: String,
    pub https: String,
    pub expires: String,
    pub name: String,
    pub value: String,
    pub http_only: bool,
}

/// A cookie, as its texts.
#[verifier::ext_equal]
pub struct CookieView {
    pub domain: Seq<char>,
    pub include_subdomain: Seq<char>,
    pub path: Seq<char>,
    pub https: Seq<char>,
    pub expires: Seq<char>,
    pub name: Seq<char>,
    pub value: Seq<char>,
    pub http_only: bool,
}

impl DeepView for Cookie {
    type V = CookieView;

    open spec fn deep_view(&self) -> CookieView {
        CookieView {
            domain: self.domain@,
            include_subdomain: self.include_subdomain@,
            path: self.path@,
            https: self.https@,
            expires: self.expires@,
            name: self.name@,
            value: self.value@,
            http_only: self.http_only,
        }
    }
}

/// A line can not be parsed as a cookie.
#[derive(Clone, Copy, Debug, PartialEq, Eq, Structural)]
pub struct ParseCookieError {}

/// The fields of a line, which tabs separate.
pub open spec fn fields(line: Seq<char>) -> Seq<Seq<char>>
    decreases line.len(),
{
    let tab = text::place_of(line, '\t');
    if 0 <= tab < line.len() {
        seq![line.take(tab)] + fields(line.skip(tab + 1))
    } else {
        seq![line]
    }
}

fn split_fields(line: &str) -> (r: Vec<String>)
    ensures
        r.deep_view() == fields(line@),
{
    let mut found: Vec<String> = Vec::new();
    let mut rest: &str = line;
    assert(fields(line@) =~= found.deep_view() + fields(rest@));
    loop
        invariant
            fields(line@) == found.deep_view() + fields(rest@),
        decreases rest@.len(),
    {
        let ghost before = found.deep_view();
        proof {
            text::lemma_place_of(rest@, '\t');
        }
        match find_char(rest, '\t') {
            Some(tab) => {
                let len = rest.unicode_len();
                let field = rest.substring_char(0, tab);
                let tail = rest.substring_char(tab + 1, len);
                found.push(field.to_string());
                proof {
                    assert(field@ =~= rest@.take(tab as int));
                    assert(tail@ =~= rest@.skip(tab + 1));
                    assert(found.deep_view() =~= before.push(field@));
                    assert(found.deep_view() + fields(tail@) =~= before + fields(rest@));
                }
                rest = tail;
            },
            None => {
                found.push(rest.to_string());
                assert(found.deep_view() =~= before + fields(rest@));
                return found;
            },
        }
    }
}

/// The cookie that a line holds in the Netscape cookie format. The value may be
/// missing; the other fields may not, and what follows the value is ignored.
pub open spec fn parsed_cookie(line: Seq<char>) -> Option<CookieView> {
    let parts = fields(line);
    let http_only = "#HttpOnly_"@.is_prefix_of(parts[0]);
    if parts.len() >= 6 {
        Some(
            CookieView {
                domain: if http_only {
                    parts[0].skip("#HttpOnly_"@.len() as int)
                } else {
                    parts[0]
                },
                include_subdomain: parts[1],
                path: parts[2],
                https: parts[3],
                expires: parts[4],
                name: parts[5],
                value: if parts.len() > 6 {
                    parts[6]
                } else {
                    Seq::empty()
                },
                http_only,
            },
        )
    } else {
        None
    }
}

/// The line that holds a cookie in the Netscape cookie format.
pub open spec fn cookie_line(cookie: CookieView) -> Seq<char> {
    let preamble = if cookie.http_only {
        "#HttpOnly_"@
    } else {
        Seq::empty()
    };
    text::joined(
        seq![
            preamble + cookie.domain,
            cookie.include_subdomain,
            cookie.path,
            cookie.https,
            cookie.expires,
            cookie.name,
            cookie.value,
        ],
        "\t"@,
    )
}

impl Cookie {
    /// Parses a line in the Netscape cookie format.
    pub fn from_str(line: &str) -> (r: Result<Cookie, ParseCookieError>)
        ensures
            r is Ok == parsed_cookie(line@) is Some,
            r matches Ok(cookie) ==> Some(cookie.deep_view()) == parsed_cookie(line@),
    {
        let parts = split_fields(line);
        let ghost texts = parts.deep_view();
        if parts.len() < 6 {
            return Err(ParseCookieError {  });
        }
        assert(parts@[0]@ == texts[0]);
        let first = parts[0].as_str();
        let http_only = starts_with(first, "#HttpOnly_");
        let domain = if http_only {
            first.substring_char("#HttpOnly_".unicode_len(), first.unicode_len()).to_string()
        } else {
            first.to_string()
        };
        assert(http_only ==> domain@ =~= texts[0].skip("#HttpOnly_"@.len() as int));
        let value = if parts.len() > 6 {
            parts[6].clone()
        } else {
            String::new()
        };
        let cookie = Cookie {
            domain,
            include_subdomain: parts[1].clone(),
            path: parts[2].clone(),
            https: parts[3].clone(),
            expires: parts[4].clone(),
            name: parts[5].clone(),
            value,
            http_only,
        };
        Ok(cookie)
    }

    /// Writes the cookie in the Netscape cookie format.
    pub fn to_string(&self) -> (r: String)
        ensures
            r@ == cookie_line(self.deep_view()),
    {
        let mut first = if self.http_only {
            "#HttpOnly_".to_string()
        } else {
            String::new()
        };
        first.append(self.domain.as_str());
        let parts: Vec<String> = vec![
            first,
            self.include_subdomain.clone(),
            self.path.clone(),
            self.https.clone(),
            self.expires.clone(),
            self.name.clone(),
            self.value.clone(),
        ];
        assert(parts.deep_view() =~= seq![
            first@,
            self.include_subdomain@,
            self.path@,
            self.https@,
            self.expires@,
            self.name@,
            self.value@,
        ]);
        join(items(&parts), "\t")
    }
}

proof fn lemma_fields_of_last(start: Seq<char>, last: Seq<char>)
    requires
        !last.contains('\t'),
    ensures
        fields(start + "\t"@ + last) == fields(start).push(last),
    decreases start.len(),
{
    reveal_strlit("\t");
    let line = start + "\t"@ + last;
    text::lemma_place_of(start, '\t');
    text::lemma_place_of(line, '\t');
    let tab = text::place_of(start, '\t');
    let other = text::place_of(line, '\t');
    assert(line[start.len() as int] == '\t');
    if other < start.len() {
        assert(start[other] == '\t');
    }
    if tab < start.len() {
        assert(line[tab] == '\t');
        assert(other == tab);
        let rest = start.skip(tab + 1);
        lemma_fields_of_last(rest, last);
        assert(line.take(tab) =~= start.take(tab));
        assert(line.skip(tab + 1) =~= rest + "\t"@ + last);
        assert(fields(line) =~= fields(start).push(last));
    } else {
        assert(other == start.len());
        assert(line.take(other) =~= start);
        assert(line.skip(other + 1) =~= last);
        text::lemma_place_of(last, '\t');
        assert(fields(last) =~= seq![last]);
        assert(fields(line) =~= seq![start, last]);
        assert(fields(start).push(last) =~= seq![start, last]);
    }
}

proof fn lemma_fields_of_joined(parts: Seq<Seq<char>>)
    requires
        parts.len() > 0,
        forall|i: int| 0 <= i < parts.len() ==> !(#[trigger] parts[i]).contains('\t'),
    ensures
        fields(text::joined(parts, "\t"@)) == parts,
    decreases parts.len(),
{
    if parts.len() == 1 {
        text::lemma_place_of(parts[0], '\t');
        assert(fields(parts[0]) =~= parts);
    } else {
        let before = parts.drop_last();
        lemma_fields_of_joined(before);
        lemma_fields_of_last(text::joined(before, "\t"@), parts.last());
        assert(before.push(parts.last()) =~= parts);
    }
}

/// A cookie that is written and parsed again is the same cookie, provided that no
/// field holds a tab and that its domain is not one that looks like the mark of
/// an HTTP-only cookie.
pub proof fn parse_of_cookie_line(cookie: CookieView)
    requires
        !cookie.domain.contains('\t'),
        !cookie.include_subdomain.contains('\t'),
        !cookie.path.contains('\t'),
        !cookie.https.contains('\t'),
        !cookie.expires.contains('\t'),
        !cookie.name.contains('\t'),
        !cookie.value.contains('\t'),
        cookie.http_only || !"#HttpOnly_"@.is_prefix_of(cookie.domain),
    ensures
        parsed_cookie(cookie_line(cookie)) == Some(cookie),
{
    reveal_strlit("#HttpOnly_");
    let mark = "#HttpOnly_"@;
    let first = if cookie.http_only {
        mark + cookie.domain
    } else {
        Seq::empty() + cookie.domain
    };
    assert(!cookie.http_only ==> first =~= cookie.domain);
    assert(!first.contains('\t')) by {
        if first.contains('\t') {
            let i = choose|i: int| 0 <= i < first.len() && first[i] == '\t';
            if cookie.http_only && i >= mark.len() {
                assert(cookie.domain[i - mark.len()] == '\t');
            }
        }
    }
    lemma_fields_of_joined(
        seq![
            first,
            cookie.include_subdomain,
            cookie.path,
            cookie.https,
            cookie.expires,
            cookie.name,
            cookie.value,
        ],
    );
    if cookie.http_only {
        assert(mark =~= first.subrange(0, mark.len() as int));
        assert(first.skip(mark.len() as int) =~= cookie.domain);
    }
}

/// A cookie goes with a URL of the given domain, if it has one, and path: a cookie
/// for one domain alone asks for this domain, another one for its domain at the end
/// of it, and both ask for a path that starts with theirs.
pub open spec fn goes_with(cookie: CookieView, domain: Option<Seq<char>>, path: Seq<char>) -> bool {
    &&& domain matches Some(host) ==> if cookie.include_subdomain == "FALSE"@ {
        cookie.domain == host
    } else {
        cookie.domain.is_suffix_of(host)
    }
    &&& cookie.path.is_prefix_of(path)
}

/// Matches a cookie for the parts of a URL.
pub fn match_url_parts(cookie: &Cookie, parts: &UrlParts) -> (r: bool)
    ensures
        r == goes_with(cookie.deep_view(), parts.domain.deep_view(), parts.path@),
{
    if let Some(domain) = &parts.domain {
        if same_text(cookie.include_subdomain.as_str(), "FALSE") {
            if !same_text(cookie.domain.as_str(), domain.as_str()) {
                return false;
            }
        } else if !ends_with(domain.as_str(), cookie.domain.as_str()) {
            return false;
        }
    }
    starts_with(parts.path.as_str(), cookie.path.as_str())
}

/// A cookie goes with a URL: the URL parses, and the cookie goes with its parts.
pub open spec fn cookie_matches(cookie: CookieView, url: Seq<char>) -> bool {
    outside::url_parses(url) && goes_with(
        cookie,
        outside::url_domain(url),
        outside::url_path(url),
    )
}

/// Matches cookie for a given URL.
pub fn match_cookie(cookie: &Cookie, url: &str) -> (r: bool)
    ensures
        r == cookie_matches(cookie.deep_view(), url@),
{
    match parse_url(url) {
        Some(parts) => match_url_parts(cookie, &parts),
        None => false,
    }
}

/// What a cookie of the storage adds to a request.
pub open spec fn sent_cookie(cookie: CookieView) -> RequestCookieView {
    RequestCookieView { name: cookie.name, value: cookie.value }
}

/// The cookies of the storage that a request takes along, in order: those that have
/// not expired and that go with the parts of its URL.
pub open spec fn sent_from_storage(
    storage: Seq<CookieView>,
    domain: Option<Seq<char>>,
    path: Seq<char>,
) -> Seq<RequestCookieView>
    decreases storage.len(),
{
    if storage.len() == 0 {
        Seq::empty()
    } else {
        let before = sent_from_storage(storage.drop_last(), domain, path);
        let cookie = storage.last();
        if cookie.expires != "1"@ && goes_with(cookie, domain, path) {
            before.push(sent_cookie(cookie))
        } else {
            before
        }
    }
}

/// Returns the cookies of the storage that go with the parts of a URL. An expiry
/// of 1 marks a cookie as expired.
pub fn stored_cookies(cookie_storage: &[Cookie], parts: &UrlParts) -> (r: Vec<RequestCookie>)
    ensures
        r.deep_view() == sent_from_storage(
            cookie_storage.deep_view(),
            parts.domain.deep_view(),
            parts.path@,
        ),
{
    let ghost all = cookie_storage.deep_view();
    let ghost domain = parts.domain.deep_view();
    let mut cookies: Vec<RequestCookie> = Vec::new();
    let mut i: usize = 0;
    assert(cookies.deep_view() =~= sent_from_storage(all.take(0), domain, parts.path@));
    while i < cookie_storage.len()
        invariant
            i <= cookie_storage@.len(),
            all == cookie_storage.deep_view(),
            domain == parts.domain.deep_view(),
            cookies.deep_view() == sent_from_storage(all.take(i as int), domain, parts.path@),
        decreases cookie_storage@.len() - i,
    {
        let ghost before = cookies.deep_view();
        let cookie = &cookie_storage[i];
        assert(all.take(i + 1).drop_last() =~= all.take(i as int));
        assert(all.take(i + 1).last() == cookie.deep_view());
        if !same_text(cookie.expires.as_str(), "1") && match_url_parts(cookie, parts) {
            cookies.push(RequestCookie { name: cookie.name.clone(), value: cookie.value.clone() });
            assert(cookies.deep_view() =~= before.push(sent_cookie(cookie.deep_view())));
        }
        i = i + 1;
    }
    assert(all.take(i as int) =~= all);
    cookies
}

/// The cookies of a request: its own, and behind them those of the storage that it
/// takes along. None of the storage goes with a URL that does not parse.
pub open spec fn request_cookies(
    storage: Seq<CookieView>,
    own: Seq<RequestCookieView>,
    url: Seq<char>,
) -> Seq<RequestCookieView> {
    if outside::url_parses(url) {
        own + sent_from_storage(
            storage,
            outside::url_domain(url),
            outside::url_path(url),
        )
    } else {
        own
    }
}

/// The cookies that a request takes from the storage are those that match its URL:
/// each one comes from a stored cookie that has not expired and that matches, and
/// each such stored cookie is among them.
pub proof fn stored_cookies_match_the_url(storage: Seq<CookieView>, url: Seq<char>)
    requires
        outside::url_parses(url),
    ensures
        ({
            let sent = sent_from_storage(
                storage,
                outside::url_domain(url),
                outside::url_path(url),
            );
            &&& forall|i: int|
                0 <= i < sent.len() ==> exists|k: int|
                    0 <= k < storage.len() && #[trigger] sent[i] == sent_cookie(storage[k])
                        && storage[k].expires != "1"@ && cookie_matches(
                        #[trigger] storage[k],
                        url,
                    )
            &&& forall|k: int|
                0 <= k < storage.len() && storage[k].expires != "1"@ && cookie_matches(
                    #[trigger] storage[k],
                    url,
                ) ==> sent.contains(sent_cookie(storage[k]))
        }),
    decreases storage.len(),
{
    let domain = outside::url_domain(url);
    let path = outside::url_path(url);
    let sent = sent_from_storage(storage, domain, path);
    if storage.len() > 0 {
        let rest = storage.drop_last();
        let before = sent_from_storage(rest, domain, path);
        stored_cookies_match_the_url(rest, url);
        assert forall|i: int| 0 <= i < sent.len() implies exists|k: int|
            0 <= k < storage.len() && #[trigger] sent[i] == sent_cookie(storage[k])
                && storage[k].expires != "1"@ && cookie_matches(#[trigger] storage[k], url) by {
            if i < before.len() {
                assert(sent[i] == before[i]);
                let k = choose|k: int|
                    0 <= k < rest.len() && before[i] == sent_cookie(rest[k]) && rest[k].expires
                        != "1"@ && cookie_matches(#[trigger] rest[k], url);
                assert(storage[k] == rest[k]);
            } else {
                assert(storage[storage.len() - 1] == storage.last());
            }
        }
        assert forall|k: int|
            0 <= k < storage.len() && storage[k].expires != "1"@ && cookie_matches(
                #[trigger] storage[k],
                url,
            ) implies sent.contains(sent_cookie(storage[k])) by {
            if k < rest.len() {
                assert(rest[k] == storage[k]);
                assert(before.contains(sent_cookie(rest[k])));
                let i = choose|i: int|
                    0 <= i < before.len() && before[i] == sent_cookie(rest[k]);
                assert(sent[i] == before[i]);
            } else {
                assert(sent[sent.len() - 1] == sent_cookie(storage[k]));
            }
        }
    }
}

/// A request keeps its own cookies, before any of the storage.
pub proof fn own_cookies_come_first(
    storage: Seq<CookieView>,
    own: Seq<RequestCookieView>,
    url: Seq<char>,
)
    ensures
        own.is_prefix_of(request_cookies(storage, own, url)),
{
}

/// Returns cookies from both cookies from the cookie storage and the request.
pub fn all_cookies(cookie_storage: &[Cookie], request_spec: &RequestSpec) -> (r: Vec<RequestCookie>)
    ensures
        r.deep_view() == request_cookies(
            cookie_storage.deep_view(),
            request_spec.cookies.deep_view(),
            request_spec.url@,
        ),
{
    let mut cookies = request_spec.cookies.clone();
    let ghost own = request_spec.cookies.deep_view();
    assert(cookies.deep_view() =~= own);
    if let Some(parts) = parse_url(request_spec.url.as_str()) {
        let mut stored = stored_cookies(cookie_storage, &parts);
        let ghost sent = stored.deep_view();
        cookies.append(&mut stored);
        assert(cookies.deep_view() =~= own + sent);
    }
    cookies
}

/// The fields of a line are what its tabs separate: no field holds a tab, and the fields
/// with tabs between them are the line.
pub proof fn fields_are_what_tabs_separate(line: Seq<char>)
    ensures
        fields(line).len() > 0,
        forall|i: int| 0 <= i < fields(line).len() ==> !(#[trigger] fields(line)[i]).contains('\t'),
        text::joined(fields(line), seq!['\t']) == line,
    decreases line.len(),
{
    text::lemma_place_of(line, '\t');
    let tab = text::place_of(line, '\t');
    if tab < line.len() {
        let first = line.take(tab);
        let rest = line.skip(tab + 1);
        fields_are_what_tabs_separate(rest);
        text::joined_part_by_part(seq![first], fields(rest), seq!['\t']);
        assert(first + seq!['\t'] + rest =~= line);
        assert forall|i: int| 0 <= i < fields(line).len() implies !(
        #[trigger] fields(line)[i]).contains('\t') by {
            if i > 0 {
                assert(fields(line)[i] == fields(rest)[i - 1]);
            } else {
                assert(fields(line)[i] == first);
            }
        }
    } else {
        text::joined_part_by_part(seq![line], seq![], seq!['\t']);
    }
}

/// A line holds a cookie exactly where tabs separate it into six fields or more. They are,
/// in order, the domain, whether subdomains are meant, the path, whether it is for HTTPS,
/// the expiry, the name and the value, which is empty where it is missing. A domain behind
/// the mark `#HttpOnly_` makes the cookie an HTTP-only one.
pub proof fn cookie_has_the_fields_of_its_line(parts: Seq<Seq<char>>)
    requires
        parts.len() > 0,
        forall|i: int| 0 <= i < parts.len() ==> !(#[trigger] parts[i]).contains('\t'),
    ensures
        ({
            let cookie = parsed_cookie(text::joined(parts, seq!['\t']));
            &&& cookie is Some == (parts.len() >= 6)
            &&& cookie matches Some(c) ==> {
                &&& c.http_only == "#HttpOnly_"@.is_prefix_of(parts[0])
                &&& c.http_only ==> parts[0] == "#HttpOnly_"@ + c.domain
                &&& !c.http_only ==> parts[0] == c.domain
                &&& c.include_subdomain == parts[1]
                &&& c.path == parts[2]
                &&& c.https == parts[3]
                &&& c.expires == parts[4]
                &&& c.name == parts[5]
                &&& parts.len() == 6 ==> c.value.len() == 0
                &&& parts.len() > 6 ==> c.value == parts[6]
            }
        }),
{
    reveal_strlit("\t");
    assert("\t"@ =~= seq!['\t']);
    lemma_fields_of_joined(parts);
    let mark = "#HttpOnly_"@;
    if mark.is_prefix_of(parts[0]) {
        assert(parts[0] =~= mark + parts[0].skip(mark.len() as int));
    }
}

/// A cookie is written as its fields with tabs between them, and with the mark `#HttpOnly_`
/// in front where it is an HTTP-only one.
pub proof fn line_has_the_fields_of_its_cookie(cookie: CookieView)
    ensures
        ({
            let tab = seq!['\t'];
            let plain = cookie.domain + tab + cookie.include_subdomain + tab + cookie.path + tab
                + cookie.https + tab + cookie.expires + tab + cookie.name + tab + cookie.value;
            &&& !cookie.http_only ==> cookie_line(cookie) == plain
            &&& cookie.http_only ==> cookie_line(cookie) == "#HttpOnly_"@ + plain
        }),
{
    reveal_strlit("\t");
    let tab = seq!['\t'];
    assert("\t"@ =~= tab);
    let first = (if cookie.http_only {
        "#HttpOnly_"@
    } else {
        Seq::empty()
    }) + cookie.domain;
    let rest = cookie.include_subdomain + tab + cookie.path + tab + cookie.https + tab
        + cookie.expires + tab + cookie.name + tab + cookie.value;
    let parts = seq![
        first,
        cookie.include_subdomain,
        cookie.path,
        cookie.https,
        cookie.expires,
        cookie.name,
        cookie.value,
    ];
    assert(parts.drop_last().drop_last().drop_last().drop_last().drop_last().drop_last() =~= seq![
        first,
    ]);
    reveal_with_fuel(text::joined, 8);
    assert(cookie_line(cookie) =~= first + tab + rest);
    let plain = cookie.domain + tab + cookie.include_subdomain + tab + cookie.path + tab
        + cookie.https + tab + cookie.expires + tab + cookie.name + tab + cookie.value;
    assert(!cookie.http_only ==> cookie_line(cookie) =~= plain);
    assert(cookie.http_only ==> cookie_line(cookie) =~= "#HttpOnly_"@ + plain);
}

/// A cookie of the very domain of a URL, or any cookie where the URL has no domain, matches
/// the URL exactly where its path is the start of that of the URL, whatever else it holds.
pub proof fn cookie_of_the_domain_matches_by_path(cookie: CookieView, url: Seq<char>)
    requires
        outside::url_parses(url),
        outside::url_domain(url) matches Some(host) ==> cookie.domain == host,
    ensures
        cookie_matches(cookie, url) == cookie.path.is_prefix_of(outside::url_path(url)),
{
    if let Some(host) = outside::url_domain(url) {
        assert(host.subrange(0, host.len() as int) =~= host);
    }
}

/// A cookie whose path is the start of that of a URL with a domain matches the URL by its
/// own domain: one for this domain alone has to have the very domain of the URL, and
/// another one a domain with which that of the URL ends.
pub proof fn cookie_of_the_path_matches_by_domain(
    cookie: CookieView,
    url: Seq<char>,
    host: Seq<char>,
)
    requires
        outside::url_parses(url),
        outside::url_domain(url) == Some(host),
        cookie.path.is_prefix_of(outside::url_path(url)),
    ensures
        cookie.include_subdomain == "FALSE"@ ==> cookie_matches(cookie, url) == (cookie.domain
            == host),
        cookie.include_subdomain != "FALSE"@ ==> cookie_matches(cookie, url) == (exists|sub: Seq<
            char,
        >| #[trigger] (sub + cookie.domain) == host),
{
    if cookie.include_subdomain != "FALSE"@ {
        let n = host.len() - cookie.domain.len();
        if cookie.domain.is_suffix_of(host) {
            assert(host.take(n) + cookie.domain =~= host);
        }
        if exists|sub: Seq<char>| #[trigger] (sub + cookie.domain) == host {
            let sub = choose|sub: Seq<char>| #[trigger] (sub + cookie.domain) == host;
            assert(host.subrange(n, host.len() as int) =~= cookie.domain);
        }
    }
}

/// A cookie matches no URL that does not parse, and none whose path does not start with
/// its own.
pub proof fn cookie_needs_a_url_and_its_path(cookie: CookieView, url: Seq<char>)
    ensures
        cookie_matches(cookie, url) ==> outside::url_parses(url) && cookie.path.is_prefix_of(
            outside::url_path(url),
        ),
{
}

/// The domain, the path and whether subdomains are meant decide which URLs a cookie goes
/// with. Nothing else of it does.
pub proof fn other_fields_of_a_cookie_do_not_matter(
    a: CookieView,
    b: CookieView,
    url: Seq<char>,
    domain: Option<Seq<char>>,
    path: Seq<char>,
)
    requires
        a.domain == b.domain,
        a.include_subdomain == b.include_subdomain,
        a.path == b.path,
    ensures
        cookie_matches(a, url) == cookie_matches(b, url),
        goes_with(a, domain, path) == goes_with(b, domain, path),
{
}

/// What decides is the same for the parts of a URL, whatever text they come from: a cookie
/// goes with its own domain and path, with each longer path, and, where subdomains are
/// meant, with each subdomain.
pub proof fn cookie_goes_with_its_own_parts(cookie: CookieView, more: Seq<char>, sub: Seq<char>)
    ensures
        goes_with(cookie, Some(cookie.domain), cookie.path + more),
        goes_with(cookie, None, cookie.path + more),
        cookie.include_subdomain != "FALSE"@ ==> goes_with(
            cookie,
            Some(sub + cookie.domain),
            cookie.path + more,
        ),
        cookie.include_subdomain == "FALSE"@ && sub.len() > 0 ==> !goes_with(
            cookie,
            Some(sub + cookie.domain),
            cookie.path + more,
        ),
{
    let path = cookie.path + more;
    assert(path.subrange(0, cookie.path.len() as int) =~= cookie.path);
    assert(cookie.domain.subrange(0, cookie.domain.len() as int) =~= cookie.domain);
    let host = sub + cookie.domain;
    assert(host.subrange(sub.len() as int, host.len() as int) =~= cookie.domain);
}

/// A cookie does not go with the parts of a URL whose path does not start with its own, nor
/// with those whose domain does not end with its own.
pub proof fn cookie_goes_with_no_other_parts(cookie: CookieView, host: Seq<char>, path: Seq<char>)
    ensures
        goes_with(cookie, Some(host), path) ==> cookie.path.is_prefix_of(path)
            && cookie.domain.is_suffix_of(host),
        goes_with(cookie, None, path) ==> cookie.path.is_prefix_of(path),
        goes_with(cookie, Some(host), path) && cookie.include_subdomain == "FALSE"@
            ==> cookie.domain == host,
{
    if cookie.domain == host {
        assert(host.subrange(0, host.len() as int) =~= host);
    }
}

/// The cookies that a request takes from the storage are those that have not expired and
/// that go with its URL: one for each, in the order of the storage, with the name and the
/// value that are stored.
pub proof fn storage_is_sent_cookie_by_cookie(
    storage: Seq<CookieView>,
    domain: Option<Seq<char>>,
    path: Seq<char>,
) -> (at: Seq<int>)
    ensures
        places::are_the_places(
            at,
            storage.len() as int,
            |i: int| storage[i].expires != "1"@ && goes_with(storage[i], domain, path),
        ),
        sent_from_storage(storage, domain, path).len() == at.len(),
        forall|k: int|
            0 <= k < at.len() ==> {
                let sent = #[trigger] sent_from_storage(storage, domain, path)[k];
                sent.name == storage[at[k]].name && sent.value == storage[at[k]].value
            },
    decreases storage.len(),
{
    let goes = |i: int| storage[i].expires != "1"@ && goes_with(storage[i], domain, path);
    if storage.len() == 0 {
        Seq::empty()
    } else {
        let rest = storage.drop_last();
        let n = rest.len() as int;
        let before = storage_is_sent_cookie_by_cookie(rest, domain, path);
        places::lemma_next_place(
            before,
            n,
            |i: int| rest[i].expires != "1"@ && goes_with(rest[i], domain, path),
            goes,
        );
        let at = if goes(n) {
            before.push(n)
        } else {
            before
        };
        let all = sent_from_storage(storage, domain, path);
        assert forall|k: int| 0 <= k < at.len() implies {
            let sent = #[trigger] all[k];
            sent.name == storage[at[k]].name && sent.value == storage[at[k]].value
        } by {
            if k < before.len() {
                assert(all[k] == sent_from_storage(rest, domain, path)[k]);
                assert(0 <= before[k] < n);
            }
        }
        at
    }
}

/// The cookies of a request are its own, all of them and unchanged, and behind them those
/// of the storage that go with its URL, one for each and in order. A URL that does not parse
/// takes none of the storage.
pub proof fn request_has_its_own_cookies_and_stored_ones(
    storage: Seq<CookieView>,
    own: Seq<RequestCookieView>,
    url: Seq<char>,
) -> (at: Seq<int>)
    ensures
        ({
            let all = request_cookies(storage, own, url);
            &&& places::are_the_places(
                at,
                storage.len() as int,
                |i: int| storage[i].expires != "1"@ && cookie_matches(storage[i], url),
            )
            &&& all.len() == own.len() + at.len()
            &&& all.take(own.len() as int) == own
            &&& forall|k: int|
                0 <= k < at.len() ==> {
                    let sent = #[trigger] all[own.len() + k];
                    sent.name == storage[at[k]].name && sent.value == storage[at[k]].value
                }
        }),
{
    let all = request_cookies(storage, own, url);
    if outside::url_parses(url) {
        let domain = outside::url_domain(url);
        let path = outside::url_path(url);
        let at = storage_is_sent_cookie_by_cookie(storage, domain, path);
        let sent = sent_from_storage(storage, domain, path);
        assert(all.take(own.len() as int) =~= own);
        assert forall|k: int| 0 <= k < at.len() implies {
            let one = #[trigger] all[own.len() + k];
            one.name == storage[at[k]].name && one.value == storage[at[k]].value
        } by {
            assert(all[own.len() + k] == sent[k]);
        }
        let p = |i: int| storage[i].expires != "1"@ && goes_with(storage[i], domain, path);
        let q = |i: int| storage[i].expires != "1"@ && cookie_matches(storage[i], url);
        assert forall|i: int| 0 <= i < storage.len() && #[trigger] q(i) implies at.contains(i) by {
            assert(p(i));
        }
        at
    } else {
        assert(all.take(own.len() as int) =~= own);
        Seq::empty()
    }
}

/// The view of a cookie shows its fields as they are.
pub proof fn cookie_view_shows_the_cookie(cookie: Cookie)
    ensures
        cookie.deep_view().domain == cookie.domain@,
        cookie.deep_view().include_subdomain == cookie.include_subdomain@,
        cookie.deep_view().path == cookie.path@,
        cookie.deep_view().https == cookie.https@,
        cookie.deep_view().expires == cookie.expires@,
        cookie.deep_view().name == cookie.name@,
        cookie.deep_view().value == cookie.value@,
        cookie.deep_view().http_only == cookie.http_only,
{
}

} // verus!
