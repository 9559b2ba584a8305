//! The calls that describe a request to the curl handle.

use crate::client::Client;
use crate::handle::{FormPart, FormPartView, HandleCall, HandleCallView};
use crate::header::{self, HeaderView};
use crate::items::items;
use crate::options::ClientOptions;
use crate::outside::{self, base64_text};
use crate::percent::{self, url_encode};
use crate::request_spec::{
    self, join_cookies, Method, MultipartParam, Param, ParamView, RequestCookie,
    RequestCookieView, RequestSpec,
};
use crate::text::{self, ends_with, find_char, join};
use vstd::prelude::*;
use vstd::utf8::*;

verus! {

/// A parameter as it stands in a query string or in a form. The value is URL-encoded.
pub open spec fn param_pair(param: ParamView) -> Seq<char> {
    param.name + "="@ + percent::percent_encoded(encode_utf8(param.value))
}

/// Parameters as they stand in a query string or in a form.
pub open spec fn param_pairs(params: Seq<ParamView>) -> Seq<char> {
    text::joined(Seq::new(params.len(), |i: int| param_pair(params[i])), "&"@)
}

/// A URL with parameters behind it: after the `?` that it ends with, after an `&` where
/// it has a query string, and else after a new `?`.
pub open spec fn url_with_params(url: Seq<char>, params: Seq<ParamView>) -> Seq<char> {
    if params.len() == 0 {
        url
    } else if "?"@.is_suffix_of(url) {
        url + param_pairs(params)
    } else if url.contains('?') {
        url + "&"@ + param_pairs(params)
    } else {
        url + "?"@ + param_pairs(params)
    }
}

/// The URL that is asked for starts as the given one, and ends with the parameters
/// where there are any.
pub proof fn url_is_only_extended(url: Seq<char>, params: Seq<ParamView>)
    ensures
        url.is_prefix_of(url_with_params(url, params)),
        params.len() > 0 ==> param_pairs(params).is_suffix_of(url_with_params(url, params)),
        params.len() > 0 ==> url_with_params(url, params).contains('?'),
{
    reveal_strlit("?");
    reveal_strlit("&");
    let full = url_with_params(url, params);
    if params.len() > 0 {
        if "?"@.is_suffix_of(url) {
            assert("?"@[0] == url.subrange(url.len() - 1, url.len() as int)[0]);
            assert(full[url.len() - 1] == '?');
        } else if url.contains('?') {
            let i = choose|i: int| 0 <= i < url.len() && url[i] == '?';
            assert(full[i] == '?');
        } else {
            assert(full[url.len() as int] == '?');
        }
    }
}

/// The call that sets the method.
pub open spec fn method_calls(method: Method) -> Seq<HandleCallView> {
    seq![HandleCallView::CustomRequest(request_spec::method_name(method))]
}

/// The call that sets the cookies of a request, where there are any.
pub open spec fn cookie_calls(cookies: Seq<RequestCookieView>) -> Seq<HandleCallView> {
    let pairs = request_spec::cookie_pairs(cookies);
    if pairs.len() == 0 {
        Seq::empty()
    } else {
        seq![HandleCallView::Cookie(pairs)]
    }
}

/// The call that sets a form, where there is one.
pub open spec fn form_calls(params: Seq<ParamView>) -> Seq<HandleCallView> {
    if params.len() == 0 {
        Seq::empty()
    } else {
        seq![HandleCallView::PostFieldsCopy(encode_utf8(param_pairs(params)))]
    }
}

/// A parameter of a multipart form as a part of it.
pub open spec fn form_part(param: MultipartParam) -> FormPartView {
    match param {
        MultipartParam::Param(param) => FormPartView::Contents {
            name: param.name@,
            contents: encode_utf8(param.value@),
        },
        MultipartParam::FileParam(file) => FormPartView::Buffer {
            name: file.name@,
            filename: file.filename@,
            data: file.data@,
            content_type: file.content_type@,
        },
    }
}

/// The call that sets a multipart form, where there is one.
pub open spec fn multipart_calls(params: Seq<MultipartParam>) -> Seq<HandleCallView> {
    if params.len() == 0 {
        Seq::empty()
    } else {
        seq![HandleCallView::Httppost(Seq::new(params.len(), |i: int| form_part(params[i])))]
    }
}

/// The calls that announce a body, where there is one.
pub open spec fn body_calls(data: Seq<u8>) -> Seq<HandleCallView> {
    if data.len() == 0 {
        Seq::empty()
    } else {
        seq![HandleCallView::Post(true), HandleCallView::PostFieldSize(data.len() as u64)]
    }
}

impl Client {
    /// Generates URL.
    pub fn generate_url(&self, url: &str, params: &[Param]) -> (r: String)
        ensures
            r@ == url_with_params(url@, params.deep_view()),
    {
        let mut full = url.to_string();
        if params.is_empty() {
            return full;
        }
        proof {
            text::lemma_place_of(url@, '?');
        }
        if !ends_with(url, "?") {
            if find_char(url, '?').is_some() {
                full.append("&");
            } else {
                full.append("?");
            }
        }
        let pairs = self.url_encode_params(params);
        full.append(pairs.as_str());
        full
    }

    /// URL encodes parameters.
    pub fn url_encode_params(&self, params: &[Param]) -> (r: String)
        ensures
            r@ == param_pairs(params.deep_view()),
    {
        let mut pairs: Vec<String> = Vec::new();
        let mut i: usize = 0;
        while i < params.len()
            invariant
                i <= params@.len(),
                pairs.len() == i,
                forall|k: int|
                    0 <= k < i ==> #[trigger] pairs@[k]@ == param_pair(params@[k].deep_view()),
            decreases params@.len() - i,
        {
            let value = url_encode(params[i].value.as_str().as_bytes());
            let mut pair = params[i].name.clone();
            pair.append("=");
            pair.append(value.as_str());
            pairs.push(pair);
            i = i + 1;
        }
        let ghost all = params.deep_view();
        assert(pairs.deep_view() =~= Seq::new(all.len(), |k: int| param_pair(all[k])));
        join(items(&pairs), "&")
    }

    /// Sets HTTP method.
    pub fn set_method(&mut self, method: &Method)
        ensures
            final(self).handle.deep_view() == old(self).handle.deep_view() + method_calls(*method),
            final(self).redirect_count == old(self).redirect_count,
    {
        self.call(HandleCall::CustomRequest(method.to_string()));
        assert(self.handle.deep_view() =~= old(self).handle.deep_view() + method_calls(*method));
    }

    /// Sets request cookies.
    pub fn set_cookies(&mut self, cookies: &[RequestCookie])
        ensures
            final(self).handle.deep_view() == old(self).handle.deep_view() + cookie_calls(
                cookies.deep_view(),
            ),
            final(self).redirect_count == old(self).redirect_count,
    {
        let s = join_cookies(cookies);
        if !s.as_str().is_empty() {
            self.call(HandleCall::Cookie(s));
        }
        assert(self.handle.deep_view() =~= old(self).handle.deep_view() + cookie_calls(
            cookies.deep_view(),
        ));
    }

    /// Sets form params.
    pub fn set_form(&mut self, params: &[Param])
        ensures
            final(self).handle.deep_view() == old(self).handle.deep_view() + form_calls(
                params.deep_view(),
            ),
            final(self).redirect_count == old(self).redirect_count,
    {
        if !params.is_empty() {
            let s = self.url_encode_params(params);
            self.call(
                HandleCall::PostFieldsCopy(vstd::slice::slice_to_vec(s.as_str().as_bytes())),
            );
        }
        assert(self.handle.deep_view() =~= old(self).handle.deep_view() + form_calls(
            params.deep_view(),
        ));
    }

    /// Sets multipart form datas.
    pub fn set_multipart(&mut self, params: &[MultipartParam])
        ensures
            final(self).handle.deep_view() == old(self).handle.deep_view() + multipart_calls(
                params@,
            ),
            final(self).redirect_count == old(self).redirect_count,
    {
        if !params.is_empty() {
            let mut form: Vec<FormPart> = Vec::new();
            let mut i: usize = 0;
            while i < params.len()
                invariant
                    i <= params@.len(),
                    form.len() == i,
                    forall|k: int|
                        0 <= k < i ==> #[trigger] form@[k].deep_view() == form_part(params@[k]),
                decreases params@.len() - i,
            {
                let part = match &params[i] {
                    MultipartParam::Param(param) => FormPart::Contents {
                        name: param.name.clone(),
                        contents: vstd::slice::slice_to_vec(param.value.as_str().as_bytes()),
                    },
                    MultipartParam::FileParam(file) => FormPart::Buffer {
                        name: file.name.clone(),
                        filename: file.filename.clone(),
                        data: vstd::slice::slice_to_vec(file.data.as_slice()),
                        content_type: file.content_type.clone(),
                    },
                };
                form.push(part);
                i = i + 1;
            }
            assert(form.deep_view() =~= Seq::new(params@.len(), |k: int| form_part(params@[k])));
            self.call(HandleCall::Httppost(form));
        }
        assert(self.handle.deep_view() =~= old(self).handle.deep_view() + multipart_calls(params@));
    }

    /// Sets request body.
    pub fn set_body(&mut self, data: &[u8])
        ensures
            final(self).handle.deep_view() == old(self).handle.deep_view() + body_calls(data@),
            final(self).redirect_count == old(self).redirect_count,
    {
        if !data.is_empty() {
            self.call(HandleCall::Post(true));
            self.call(HandleCall::PostFieldSize(data.len() as u64));
        }
        assert(self.handle.deep_view() =~= old(self).handle.deep_view() + body_calls(data@));
    }
}

/// The lines that carry headers.
pub open spec fn given_lines(headers: Seq<HeaderView>) -> Seq<Seq<char>> {
    Seq::new(headers.len(), |i: int| header::header_line(headers[i]))
}

/// A line, unless headers with its name are given.
pub open spec fn line_unless_given(
    headers: Seq<HeaderView>,
    name: Seq<char>,
    line: Seq<char>,
) -> Seq<Seq<char>> {
    if header::values_of(headers, name).len() == 0 {
        seq![line]
    } else {
        Seq::empty()
    }
}

/// The line for `Content-Type`. A line without a value keeps the handle from adding
/// one of its own.
pub open spec fn content_type_line(content_type: Option<Seq<char>>) -> Seq<char> {
    match content_type {
        Some(s) => "Content-Type: "@ + s,
        None => "Content-Type:"@,
    }
}

/// The line for `User-Agent`: the agent that the options give, or this program and
/// its version.
pub open spec fn user_agent_line(user_agent: Option<Seq<char>>, version: Seq<char>) -> Seq<char> {
    match user_agent {
        Some(agent) => "User-Agent: "@ + agent,
        None => "User-Agent: "@ + ("hurl/"@ + version),
    }
}

/// The line for `Authorization`: basic authentication of a user.
pub open spec fn authorization_line(user: Seq<char>) -> Seq<char> {
    "Authorization: Basic "@ + outside::in_base64(encode_utf8(user))
}

/// The header lines that are added to those of the request.
pub open spec fn added_lines(
    request: RequestSpec,
    options: ClientOptions,
    version: Seq<char>,
) -> Seq<Seq<char>> {
    let headers = request.headers.deep_view();
    line_unless_given(
        headers,
        "Content-Type"@,
        content_type_line(request.content_type.deep_view()),
    ) + line_unless_given(headers, "Expect"@, "Expect:"@) + line_unless_given(
        headers,
        "User-Agent"@,
        user_agent_line(options.user_agent.deep_view(), version),
    ) + (match options.user.deep_view() {
        Some(user) => line_unless_given(headers, "Authorization"@, authorization_line(user)),
        None => Seq::empty(),
    }) + (if options.compressed {
        line_unless_given(headers, "Accept-Encoding"@, "Accept-Encoding: gzip, deflate, br"@)
    } else {
        Seq::empty()
    })
}

/// The header lines of a request: its own, and behind them those that are added.
pub open spec fn header_lines(
    request: RequestSpec,
    options: ClientOptions,
    version: Seq<char>,
) -> Seq<Seq<char>> {
    given_lines(request.headers.deep_view()) + added_lines(request, options, version)
}

proof fn lemma_name_of_line(name: Seq<char>, rest: Seq<char>)
    requires
        !name.contains(':'),
        text::trimmed(name) == name,
    ensures
        header::parsed_header(name + seq![':'] + rest) matches Some(header) && header.name
            == name,
{
    let line = name + seq![':'] + rest;
    let at = name.len() as int;
    text::lemma_place_of(line, ':');
    assert(line[at] == ':');
    let colon = text::place_of(line, ':');
    if colon < at {
        assert(name[colon] == ':');
    }
    assert(line.take(at) =~= name);
}

/// No header that the request gives is added again: each line that is added carries a
/// header of which the request gives none, whatever the case of the name.
pub proof fn added_headers_are_not_given(
    request: RequestSpec,
    options: ClientOptions,
    version: Seq<char>,
)
    ensures
        forall|i: int|
            0 <= i < added_lines(request, options, version).len() ==> {
                &&& header::parsed_header(
                    #[trigger] added_lines(request, options, version)[i],
                ) matches Some(header)
                &&& header::values_of(request.headers.deep_view(), header.name).len() == 0
            },
{
    reveal_strlit("Content-Type");
    reveal_strlit("Content-Type:");
    reveal_strlit("Content-Type: ");
    reveal_strlit("Expect");
    reveal_strlit("Expect:");
    reveal_strlit("User-Agent");
    reveal_strlit("User-Agent: ");
    reveal_strlit("Authorization");
    reveal_strlit("Authorization: Basic ");
    reveal_strlit("Accept-Encoding");
    reveal_strlit("Accept-Encoding: gzip, deflate, br");
    let headers = request.headers.deep_view();
    let content_type = content_type_line(request.content_type.deep_view());
    assert(content_type =~= "Content-Type"@ + seq![':'] + content_type.skip(13));
    lemma_name_of_line("Content-Type"@, content_type.skip(13));
    let expect = "Expect:"@;
    assert(expect =~= "Expect"@ + seq![':'] + expect.skip(7));
    lemma_name_of_line("Expect"@, expect.skip(7));
    let agent = user_agent_line(options.user_agent.deep_view(), version);
    assert(agent =~= "User-Agent"@ + seq![':'] + agent.skip(11));
    lemma_name_of_line("User-Agent"@, agent.skip(11));
    if let Some(user) = options.user.deep_view() {
        let authorization = authorization_line(user);
        assert(authorization =~= "Authorization"@ + seq![':'] + authorization.skip(14));
        lemma_name_of_line("Authorization"@, authorization.skip(14));
    }
    let encoding = "Accept-Encoding: gzip, deflate, br"@;
    assert(encoding =~= "Accept-Encoding"@ + seq![':'] + encoding.skip(16));
    lemma_name_of_line("Accept-Encoding"@, encoding.skip(16));
}

fn add_line(lines: &mut Vec<String>, line: String)
    ensures
        final(lines).deep_view() == old(lines).deep_view().push(line@),
{
    let ghost before = lines.deep_view();
    let ghost added = line@;
    lines.push(line);
    assert(lines.deep_view() =~= before.push(added));
}

impl Client {
    /// Sets HTTP headers. `version` is the version of this program.
    pub fn set_headers(&mut self, request: &RequestSpec, options: &ClientOptions, version: &str)
        ensures
            final(self).handle.deep_view() == old(self).handle.deep_view().push(
                HandleCallView::HttpHeaders(header_lines(*request, *options, version@)),
            ),
            final(self).redirect_count == old(self).redirect_count,
    {
        let ghost headers = request.headers.deep_view();
        let mut list: Vec<String> = Vec::new();
        let mut i: usize = 0;
        while i < request.headers.len()
            invariant
                i <= request.headers.len(),
                headers == request.headers.deep_view(),
                list.len() == i,
                forall|k: int|
                    0 <= k < i ==> #[trigger] list@[k]@ == header::header_line(headers[k]),
            decreases request.headers.len() - i,
        {
            let mut line = request.headers[i].name.clone();
            line.append(": ");
            line.append(request.headers[i].value.as_str());
            list.push(line);
            i = i + 1;
        }
        assert(list.deep_view() =~= given_lines(headers));

        if request.get_header_values("Content-Type").is_empty() {
            let line = match &request.content_type {
                Some(s) => "Content-Type: ".to_string().concat(s.as_str()),
                None => "Content-Type:".to_string(),
            };
            add_line(&mut list, line);
        }
        if request.get_header_values("Expect").is_empty() {
            add_line(&mut list, "Expect:".to_string());
        }
        if request.get_header_values("User-Agent").is_empty() {
            let user_agent = match &options.user_agent {
                Some(agent) => agent.clone(),
                None => "hurl/".to_string().concat(version),
            };
            add_line(&mut list, "User-Agent: ".to_string().concat(user_agent.as_str()));
        }
        if let Some(user) = &options.user {
            let authorization = base64_text(user.as_str().as_bytes());
            if request.get_header_values("Authorization").is_empty() {
                add_line(
                    &mut list,
                    "Authorization: Basic ".to_string().concat(authorization.as_str()),
                );
            }
        }
        if options.compressed && request.get_header_values("Accept-Encoding").is_empty() {
            add_line(&mut list, "Accept-Encoding: gzip, deflate, br".to_string());
        }
        assert(list.deep_view() =~= header_lines(*request, *options, version@));
        self.call(HandleCall::HttpHeaders(list));
    }
}

/// The calls that set the options of an execution.
pub open spec fn option_calls(options: ClientOptions) -> Seq<HandleCallView> {
    seq![
        HandleCallView::Verbose(true),
        HandleCallView::SslVerifyHost(!options.insecure),
        HandleCallView::SslVerifyPeer(!options.insecure),
    ] + (match options.cacert_file.deep_view() {
        Some(file) => seq![HandleCallView::Cainfo(file), HandleCallView::SslCertType("PEM"@)],
        None => Seq::empty(),
    }) + (match options.proxy.deep_view() {
        Some(proxy) => seq![HandleCallView::Proxy(proxy)],
        None => Seq::empty(),
    }) + (match options.no_proxy.deep_view() {
        Some(hosts) => seq![HandleCallView::Noproxy(hosts)],
        None => Seq::empty(),
    }) + seq![
        HandleCallView::Timeout(options.timeout),
        HandleCallView::ConnectTimeout(options.connect_timeout),
    ]
}

impl Client {
    /// Sets the options of an execution.
    pub(crate) fn set_options(&mut self, options: &ClientOptions)
        ensures
            final(self).handle.deep_view() == old(self).handle.deep_view() + option_calls(*options),
            final(self).redirect_count == old(self).redirect_count,
    {
        let ghost start = self.handle.deep_view();
        // The handle is verbose whatever the options say: this is the only way to see
        // the headers that are sent.
        self.call(HandleCall::Verbose(true));
        self.call(HandleCall::SslVerifyHost(!options.insecure));
        self.call(HandleCall::SslVerifyPeer(!options.insecure));
        if let Some(file) = &options.cacert_file {
            self.call(HandleCall::Cainfo(file.clone()));
            self.call(HandleCall::SslCertType("PEM".to_string()));
        }
        if let Some(proxy) = &options.proxy {
            self.call(HandleCall::Proxy(proxy.clone()));
        }
        if let Some(hosts) = &options.no_proxy {
            self.call(HandleCall::Noproxy(hosts.clone()));
        }
        self.call(HandleCall::Timeout(options.timeout));
        self.call(HandleCall::ConnectTimeout(options.connect_timeout));
        assert(self.handle.deep_view() =~= start + option_calls(*options));
    }
}

/// The calls that describe a request.
pub open spec fn request_calls(
    request: RequestSpec,
    options: ClientOptions,
    version: Seq<char>,
) -> Seq<HandleCallView> {
    seq![
        HandleCallView::Url(url_with_params(request.url@, request.querystring.deep_view())),
    ] + method_calls(request.method) + cookie_calls(request.cookies.deep_view()) + form_calls(
        request.form.deep_view(),
    ) + multipart_calls(request.multipart@) + body_calls(
        request_spec::body_bytes(request.body),
    ) + seq![HandleCallView::HttpHeaders(header_lines(request, options, version))]
}

/// Parameters are written one after the other: none gives nothing, one gives its name, `=` and
/// its value in URL encoding, and two lists give what each gives, with `&` between.
pub proof fn params_are_written_one_by_one(a: Seq<ParamView>, b: Seq<ParamView>)
    ensures
        param_pairs(Seq::empty()) == Seq::<char>::empty(),
        a.len() == 1 ==> param_pairs(a) == a[0].name + seq!['='] + percent::percent_encoded(
            encode_utf8(a[0].value),
        ),
        a.len() > 0 && b.len() > 0 ==> param_pairs(a + b) == param_pairs(a) + seq!['&']
            + param_pairs(b),
{
    reveal_strlit("=");
    reveal_strlit("&");
    assert("="@ =~= seq!['=']);
    assert("&"@ =~= seq!['&']);
    let none = Seq::<ParamView>::empty();
    assert(Seq::new(none.len(), |i: int| param_pair(none[i])) =~= Seq::empty());
    let x = Seq::new(a.len(), |i: int| param_pair(a[i]));
    let y = Seq::new(b.len(), |i: int| param_pair(b[i]));
    let z = Seq::new((a + b).len(), |i: int| param_pair((a + b)[i]));
    assert(z =~= x + y);
    text::joined_part_by_part(x, y, "&"@);
}

/// Written parameters can be read back: where no name holds `&` or `=`, splitting them at `&`
/// gives one pair for each parameter, in order, and splitting a pair at `=` gives the name of
/// its parameter and an encoding that decodes to the value of it.
pub proof fn written_params_are_read_back(params: Seq<ParamView>)
    requires
        params.len() > 0,
        forall|i: int|
            0 <= i < params.len() ==> !(#[trigger] params[i]).name.contains('&')
                && !params[i].name.contains('='),
    ensures
        text::pieces(param_pairs(params), '&').len() == params.len(),
        forall|i: int|
            0 <= i < params.len() ==> {
                let pair = text::pieces(#[trigger] text::pieces(param_pairs(params), '&')[i], '=');
                &&& pair.len() == 2
                &&& pair[0] == params[i].name
                &&& percent::percent_decoded(pair[1]) == encode_utf8(params[i].value)
            },
{
    reveal_strlit("=");
    reveal_strlit("&");
    assert("="@ =~= seq!['=']);
    assert("&"@ =~= seq!['&']);
    let pairs = Seq::new(params.len(), |i: int| param_pair(params[i]));
    assert forall|i: int| 0 <= i < pairs.len() implies !(#[trigger] pairs[i]).contains('&') by {
        let value = percent::percent_encoded(encode_utf8(params[i].value));
        percent::encoding_has_no_separator(encode_utf8(params[i].value));
        if pairs[i].contains('&') {
            let name = params[i].name;
            let k = choose|k: int| 0 <= k < pairs[i].len() && pairs[i][k] == '&';
            if k < name.len() {
                assert(name[k] == '&');
            } else if k > name.len() {
                assert(value[k - name.len() - 1] == '&');
            }
        }
    }
    text::pieces_of_joined(pairs, '&');
    assert forall|i: int| 0 <= i < params.len() implies {
        let pair = text::pieces(#[trigger] text::pieces(param_pairs(params), '&')[i], '=');
        &&& pair.len() == 2
        &&& pair[0] == params[i].name
        &&& percent::percent_decoded(pair[1]) == encode_utf8(params[i].value)
    } by {
        let bytes = encode_utf8(params[i].value);
        let parts = seq![params[i].name, percent::percent_encoded(bytes)];
        percent::encoding_has_no_separator(bytes);
        percent::encoding_is_decoded(bytes);
        assert(parts.drop_last() =~= seq![params[i].name]);
        reveal_with_fuel(text::joined, 3);
        assert(text::joined(parts, seq!['=']) == pairs[i]);
        text::pieces_of_joined(parts, '=');
    }
}

/// A form is posted whole: as one call with the text of all its parameters, in UTF-8. Without
/// parameters nothing is posted.
pub proof fn form_is_posted_whole(params: Seq<ParamView>)
    ensures
        params.len() == 0 ==> form_calls(params).len() == 0,
        params.len() > 0 ==> {
            &&& form_calls(params).len() == 1
            &&& form_calls(params)[0] matches HandleCallView::PostFieldsCopy(bytes)
            &&& valid_utf8(bytes)
            &&& decode_utf8(bytes) == param_pairs(params)
        },
{
    encode_utf8_valid_utf8(param_pairs(params));
    encode_utf8_decode_utf8(param_pairs(params));
}

/// The parameters of a form can be read back from the bytes that are posted: where no name
/// holds `&` or `=`, they are one pair for each parameter, in order, of its name and of an
/// encoding that decodes to its value.
pub proof fn posted_form_is_read_back(params: Seq<ParamView>)
    requires
        params.len() > 0,
        forall|i: int|
            0 <= i < params.len() ==> !(#[trigger] params[i]).name.contains('&')
                && !params[i].name.contains('='),
    ensures
        form_calls(params).len() == 1,
        form_calls(params)[0] matches HandleCallView::PostFieldsCopy(bytes) && {
            let found = text::pieces(decode_utf8(bytes), '&');
            &&& found.len() == params.len()
            &&& forall|i: int|
                0 <= i < params.len() ==> {
                    let pair = text::pieces(#[trigger] found[i], '=');
                    &&& pair.len() == 2
                    &&& pair[0] == params[i].name
                    &&& percent::percent_decoded(pair[1]) == encode_utf8(params[i].value)
                }
        },
{
    form_is_posted_whole(params);
    written_params_are_read_back(params);
}

/// The URL that is asked for is the given one, and where there are parameters these behind
/// it. One character parts them, unless the URL ends with `?`: `&` where the URL holds a `?`,
/// and else `?`.
pub proof fn url_is_followed_by_the_params(url: Seq<char>, params: Seq<ParamView>)
    ensures
        ({
            let full = url_with_params(url, params);
            let pairs = param_pairs(params);
            let ended = url.len() > 0 && url[url.len() - 1] == '?';
            &&& params.len() == 0 ==> full == url
            &&& params.len() > 0 && ended ==> full == url + pairs
            &&& params.len() > 0 && !ended && url.contains('?') ==> full == url + seq!['&'] + pairs
            &&& params.len() > 0 && !url.contains('?') ==> full == url + seq!['?'] + pairs
        }),
{
    reveal_strlit("?");
    reveal_strlit("&");
    assert("?"@ =~= seq!['?']);
    assert("&"@ =~= seq!['&']);
    let n = url.len() as int;
    if n > 0 {
        let tail = url.subrange(n - 1, n);
        assert(tail[0] == url[n - 1]);
        if url[n - 1] == '?' {
            assert(tail =~= "?"@);
            assert(url.contains('?'));
        }
        if "?"@.is_suffix_of(url) {
            assert("?"@[0] == tail[0]);
        }
    }
}

/// The method of a request is set by one call with its name.
pub proof fn method_is_set_by_its_name(method: Method)
    ensures
        method_calls(method).len() == 1,
        method_calls(method)[0] == HandleCallView::CustomRequest(
            request_spec::method_name(method),
        ),
{
}

/// The cookies of a request are set by one call that carries all of them. Without cookies
/// none is set.
pub proof fn cookies_are_set_together(cookies: Seq<RequestCookieView>)
    ensures
        cookies.len() == 0 ==> cookie_calls(cookies).len() == 0,
        cookies.len() > 0 ==> cookie_calls(cookies).len() == 1 && cookie_calls(cookies)[0]
            == HandleCallView::Cookie(request_spec::cookie_pairs(cookies)),
{
    request_spec::cookies_are_written_one_by_one(Seq::empty(), Seq::empty());
    if cookies.len() == 0 {
        assert(cookies =~= Seq::empty());
    } else {
        let (a, b) = (cookies.take(1), cookies.skip(1));
        request_spec::cookies_are_written_one_by_one(a, b);
        assert(a + b =~= cookies);
        if b.len() == 0 {
            assert(a =~= cookies);
        }
    }
}

/// A multipart form is set by one call with a part for each parameter, in order: a value with
/// its name and its text in UTF-8, or a file with its name, its file name, its bytes and
/// its content type. Without parameters none is set.
pub proof fn multipart_form_has_a_part_for_each_param(params: Seq<MultipartParam>)
    ensures
        params.len() == 0 ==> multipart_calls(params).len() == 0,
        params.len() > 0 ==> multipart_calls(params).len() == 1 && (
        multipart_calls(params)[0] matches HandleCallView::Httppost(parts) && {
            &&& parts.len() == params.len()
            &&& forall|i: int|
                0 <= i < params.len() ==> match (params[i], #[trigger] parts[i]) {
                    (
                        MultipartParam::Param(param),
                        FormPartView::Contents { name, contents },
                    ) => name == param.name@ && contents == encode_utf8(param.value@),
                    (
                        MultipartParam::FileParam(file),
                        FormPartView::Buffer { name, filename, data, content_type },
                    ) => name == file.name@ && filename == file.filename@ && data == file.data@
                        && content_type == file.content_type@,
                    _ => false,
                }
        }),
{
}

/// A body is announced by a call for a `POST` and one with its number of bytes. Without a body
/// none is announced.
pub proof fn body_is_announced_with_its_size(data: Seq<u8>)
    requires
        data.len() <= u64::MAX,
    ensures
        data.len() == 0 ==> body_calls(data).len() == 0,
        data.len() > 0 ==> body_calls(data).len() == 2 && body_calls(data)[0]
            == HandleCallView::Post(true) && (
        body_calls(data)[1] matches HandleCallView::PostFieldSize(size) && size == data.len()),
{
}

/// One of the headers has the name, up to case.
pub open spec fn is_given(headers: Seq<HeaderView>, name: Seq<char>) -> bool {
    exists|i: int| 0 <= i < headers.len() && text::same_but_case((#[trigger] headers[i]).name, name)
}

proof fn lemma_values_of_given(headers: Seq<HeaderView>, name: Seq<char>)
    ensures
        header::values_of(headers, name).len() == 0 <==> !is_given(headers, name),
{
    let at = header::values_are_those_of_the_named_headers(headers, name);
    let p = |i: int| text::same_but_case(headers[i].name, name);
    if is_given(headers, name) {
        let i = choose|i: int|
            0 <= i < headers.len() && text::same_but_case((#[trigger] headers[i]).name, name);
        assert(p(i));
    }
    if at.len() > 0 {
        assert(p(at[0]));
    }
}

/// A sequence of one line, or of none.
pub open spec fn line_if(wanted: bool, line: Seq<char>) -> Seq<Seq<char>> {
    if wanted {
        seq![line]
    } else {
        Seq::empty()
    }
}

/// The header lines of a request are one for each header that is given, in order, with its
/// name and its value, and then those that are added. A `Content-Type`, an `Expect` and a
/// `User-Agent` are added where none is given: the first with the content type, where there
/// is one, the second without a value, and the third with the agent of the options or, where
/// there is none, this program and its version. Where the options give a user, an
/// `Authorization` with the user in base64 is added, and where they ask for compression an
/// `Accept-Encoding`, unless one is given.
pub proof fn header_lines_are_the_given_and_the_added(
    request: RequestSpec,
    options: ClientOptions,
    version: Seq<char>,
)
    ensures
        ({
            let headers = request.headers.deep_view();
            let lines = header_lines(request, options, version);
            let n = headers.len() as int;
            let content_type = match request.content_type {
                Some(s) => "Content-Type: "@ + s@,
                None => "Content-Type:"@,
            };
            let agent = match options.user_agent {
                Some(s) => "User-Agent: "@ + s@,
                None => "User-Agent: hurl/"@ + version,
            };
            let basic = match options.user {
                Some(s) => "Authorization: Basic "@ + outside::in_base64(encode_utf8(s@)),
                None => Seq::empty(),
            };
            &&& lines.len() >= n
            &&& forall|i: int|
                0 <= i < n ==> #[trigger] lines[i] == headers[i].name + seq![':', ' ']
                    + headers[i].value
            &&& lines.skip(n) == line_if(!is_given(headers, "Content-Type"@), content_type)
                + line_if(!is_given(headers, "Expect"@), "Expect:"@) + line_if(
                !is_given(headers, "User-Agent"@),
                agent,
            ) + line_if(options.user is Some && !is_given(headers, "Authorization"@), basic)
                + line_if(
                options.compressed && !is_given(headers, "Accept-Encoding"@),
                "Accept-Encoding: gzip, deflate, br"@,
            )
        }),
{
    reveal_strlit(": ");
    reveal_strlit("User-Agent: ");
    reveal_strlit("hurl/");
    reveal_strlit("User-Agent: hurl/");
    assert(": "@ =~= seq![':', ' ']);
    assert("User-Agent: "@ + ("hurl/"@ + version) =~= "User-Agent: hurl/"@ + version);
    let headers = request.headers.deep_view();
    lemma_values_of_given(headers, "Content-Type"@);
    lemma_values_of_given(headers, "Expect"@);
    lemma_values_of_given(headers, "User-Agent"@);
    lemma_values_of_given(headers, "Authorization"@);
    lemma_values_of_given(headers, "Accept-Encoding"@);
    let lines = header_lines(request, options, version);
    let n = headers.len() as int;
    assert forall|i: int| 0 <= i < n implies #[trigger] lines[i] == headers[i].name + seq![':', ' ']
        + headers[i].value by {
        assert(lines[i] == header::header_line(headers[i]));
    }
    assert(lines.skip(n) =~= added_lines(request, options, version));
}

/// Calls of one, or of none.
pub open spec fn call_if(wanted: bool, call: HandleCallView) -> Seq<HandleCallView> {
    if wanted {
        seq![call]
    } else {
        Seq::empty()
    }
}

/// The options are set one by one: the handle is verbose, it checks hosts and peers unless the
/// options are insecure, it gets the certificates, the proxy and the hosts without proxy
/// where they are given, and always the two time limits.
pub proof fn options_are_set_one_by_one(options: ClientOptions)
    ensures
        ({
            let file = match options.cacert_file {
                Some(s) => s@,
                None => Seq::empty(),
            };
            let proxy = match options.proxy {
                Some(s) => s@,
                None => Seq::empty(),
            };
            let hosts = match options.no_proxy {
                Some(s) => s@,
                None => Seq::empty(),
            };
            option_calls(options) == call_if(true, HandleCallView::Verbose(true)) + call_if(
                true,
                HandleCallView::SslVerifyHost(!options.insecure),
            ) + call_if(true, HandleCallView::SslVerifyPeer(!options.insecure)) + call_if(
                options.cacert_file is Some,
                HandleCallView::Cainfo(file),
            ) + call_if(
                options.cacert_file is Some,
                HandleCallView::SslCertType(seq!['P', 'E', 'M']),
            ) + call_if(options.proxy is Some, HandleCallView::Proxy(proxy)) + call_if(
                options.no_proxy is Some,
                HandleCallView::Noproxy(hosts),
            ) + call_if(true, HandleCallView::Timeout(options.timeout)) + call_if(
                true,
                HandleCallView::ConnectTimeout(options.connect_timeout),
            )
        }),
{
    reveal_strlit("PEM");
    assert("PEM"@ =~= seq!['P', 'E', 'M']);
}

/// A request is described by its URL, its method, its cookies, its form, its multipart form, the
/// size of its body and its header lines, each whole and in this order.
pub proof fn request_is_described_whole(
    request: RequestSpec,
    options: ClientOptions,
    version: Seq<char>,
)
    ensures
        ({
            let calls = request_calls(request, options, version);
            let inner = calls.subrange(1, calls.len() - 1);
            &&& calls.len() >= 2
            &&& calls[0] == HandleCallView::Url(
                url_with_params(request.url@, request.querystring.deep_view()),
            )
            &&& calls.last() == HandleCallView::HttpHeaders(
                header_lines(request, options, version),
            )
            &&& inner == method_calls(request.method) + cookie_calls(request.cookies.deep_view())
                + form_calls(request.form.deep_view()) + multipart_calls(request.multipart@)
                + body_calls(request_spec::body_bytes(request.body))
        }),
{
    let calls = request_calls(request, options, version);
    assert(calls.subrange(1, calls.len() - 1) =~= method_calls(request.method) + cookie_calls(
        request.cookies.deep_view(),
    ) + form_calls(request.form.deep_view()) + multipart_calls(request.multipart@) + body_calls(
        request_spec::body_bytes(request.body),
    ));
}

} // verus!
