//! The cookie storage of a client, and its command line.

use crate::client::Client;
use crate::cookie::{self, all_cookies, Cookie, CookieView};
use crate::handle::{HandleCall, HandleCallView};
use crate::items::items;
use crate::options::ClientOptions;
use crate::outside::{self, command_cookies, listed_cookies, utf8_text};
use crate::places;
use crate::request_spec::{self, join_cookies, RequestCookie, RequestCookieView, RequestSpec};
use crate::text::{self, join};
use curl::easy::Easy;
use vstd::prelude::*;
use vstd::utf8::*;

verus! {

/// The cookies that lines of the cookie engine hold, in order. Lines that hold none are
/// left out.
pub open spec fn cookies_of(lines: Seq<Seq<u8>>) -> Seq<CookieView>
    decreases lines.len(),
{
    if lines.len() == 0 {
        Seq::empty()
    } else {
        let before = cookies_of(lines.drop_last());
        match cookie::parsed_cookie(decode_utf8(lines.last())) {
            Some(cookie) => before.push(cookie),
            None => before,
        }
    }
}

/// The warnings about lines of the cookie engine that hold no cookie, in order.
pub open spec fn warnings_of(lines: Seq<Seq<u8>>) -> Seq<Seq<char>>
    decreases lines.len(),
{
    if lines.len() == 0 {
        Seq::empty()
    } else {
        let before = warnings_of(lines.drop_last());
        let line = decode_utf8(lines.last());
        match cookie::parsed_cookie(line) {
            Some(cookie) => before,
            None => before.push("warning: line <"@ + line + "> can not be parsed as cookie"@),
        }
    }
}

/// What lines of the cookie engine are read as: their cookies and the warnings about them,
/// or nothing where a line is not UTF-8.
pub open spec fn storage_of(lines: Seq<Seq<u8>>) -> Option<(Seq<CookieView>, Seq<Seq<char>>)> {
    if forall|i: int| 0 <= i < lines.len() ==> valid_utf8(#[trigger] lines[i]) {
        Some((cookies_of(lines), warnings_of(lines)))
    } else {
        None
    }
}

/// The second handle has the cookies of the first one, in the same order, but for some
/// that have an expiry.
pub open spec fn keeps_cookies(before: Easy, after: Easy) -> bool {
    &&& outside::is_part_of(outside::cookie_lines(after), outside::cookie_lines(before))
    &&& outside::session_lines(after) == outside::session_lines(before)
    &&& outside::is_part_of(outside::session_lines(before), outside::cookie_lines(after))
}

/// A call that adds a cookie to the cookie engine, or removes some, is owed.
pub open spec fn owes_cookies(calls: Seq<HandleCallView>) -> bool {
    exists|i: int| 0 <= i < calls.len() && #[trigger] calls[i] is CookieList
}

/// Calls, without those that change the cookie engine.
pub open spec fn without_cookies(calls: Seq<HandleCallView>) -> Seq<HandleCallView>
    decreases calls.len(),
{
    if calls.len() == 0 {
        Seq::empty()
    } else if calls.last() is CookieList {
        without_cookies(calls.drop_last())
    } else {
        without_cookies(calls.drop_last()).push(calls.last())
    }
}

proof fn lemma_without_cookies(calls: Seq<HandleCallView>)
    ensures
        !owes_cookies(without_cookies(calls)),
    decreases calls.len(),
{
    if calls.len() > 0 {
        let before = without_cookies(calls.drop_last());
        lemma_without_cookies(calls.drop_last());
        assert forall|i: int| 0 <= i < without_cookies(calls).len() implies !(
        #[trigger] without_cookies(calls)[i] is CookieList) by {
            if i < before.len() {
                assert(!(before[i] is CookieList));
            }
        }
    }
}

/// Right after the cookie storage is cleared, it reads as empty. Clearing leaves a handle
/// whose cookie engine holds nothing, and reading a handle finds nothing that its engine
/// does not hold.
pub proof fn cleared_storage_reads_as_empty(cleared: Easy, read: Easy)
    requires
        outside::cookie_lines(cleared).len() == 0,
        keeps_cookies(cleared, read),
    ensures
        storage_of(outside::cookie_lines(read)) == Some(
            (Seq::<CookieView>::empty(), Seq::<Seq<char>>::empty()),
        ),
{
    let lines = outside::cookie_lines(read);
    let places = choose|places: Seq<int>|
        outside::stands_at(lines, outside::cookie_lines(cleared), places);
    if lines.len() > 0 {
        assert(lines[0] == outside::cookie_lines(cleared)[places[0]]);
    }
}

proof fn lemma_cookies_of_each_line(lines: Seq<Seq<u8>>, i: int)
    requires
        0 <= i < lines.len(),
    ensures
        cookie::parsed_cookie(decode_utf8(lines[i])) matches Some(cookie) ==> cookies_of(
            lines,
        ).contains(cookie),
    decreases lines.len(),
{
    if let Some(cookie) = cookie::parsed_cookie(decode_utf8(lines[i])) {
        let all = cookies_of(lines);
        if i == lines.len() - 1 {
            assert(all[all.len() - 1] == cookie);
        } else {
            let before = cookies_of(lines.drop_last());
            lemma_cookies_of_each_line(lines.drop_last(), i);
            let k = choose|k: int| 0 <= k < before.len() && before[k] == cookie;
            assert(all[k] == cookie);
        }
    }
}

/// Reading the cookie storage loses no cookie that has no expiry: each one is among the
/// cookies that are read, and is held after as before, so that the next read finds it again.
pub proof fn reading_keeps_session_cookies(before: Easy, after: Easy, i: int)
    requires
        keeps_cookies(before, after),
        0 <= i < outside::session_lines(before).len(),
    ensures
        ({
            let line = outside::session_lines(before)[i];
            &&& outside::cookie_lines(after).contains(line)
            &&& outside::session_lines(after)[i] == line
            &&& storage_of(outside::cookie_lines(after)) matches Some((cookies, _))
                ==> cookie::parsed_cookie(decode_utf8(line)) matches Some(cookie)
                ==> cookies.contains(cookie)
        }),
{
    let session = outside::session_lines(before);
    let lines = outside::cookie_lines(after);
    let places = choose|places: Seq<int>| outside::stands_at(session, lines, places);
    assert(session[i] == lines[places[i]]);
    lemma_cookies_of_each_line(lines, places[i]);
}

proof fn lemma_part_of_part(part: Seq<Seq<u8>>, middle: Seq<Seq<u8>>, whole: Seq<Seq<u8>>)
    requires
        outside::is_part_of(part, middle),
        outside::is_part_of(middle, whole),
    ensures
        outside::is_part_of(part, whole),
{
    let a = choose|places: Seq<int>| outside::stands_at(part, middle, places);
    let b = choose|places: Seq<int>| outside::stands_at(middle, whole, places);
    let c = Seq::new(part.len(), |i: int| b[a[i]]);
    assert(outside::stands_at(part, whole, c));
}

/// Reading the cookie storage adds nothing and keeps the order: what is held after was held
/// before, each line at a place of its own, and the places go up.
pub proof fn reading_adds_nothing(before: Easy, after: Easy) -> (at: Seq<int>)
    requires
        keeps_cookies(before, after),
    ensures
        at.len() == outside::cookie_lines(after).len(),
        forall|k: int|
            0 <= k < at.len() ==> 0 <= #[trigger] at[k] < outside::cookie_lines(before).len()
                && outside::cookie_lines(after)[k] == outside::cookie_lines(before)[at[k]],
        forall|j: int, k: int| 0 <= j < k < at.len() ==> at[j] < at[k],
{
    choose|places: Seq<int>|
        outside::stands_at(
            outside::cookie_lines(after),
            outside::cookie_lines(before),
            places,
        )
}

/// Reading the cookie storage any number of times keeps what reading it once keeps.
pub proof fn reading_again_keeps_cookies(first: Easy, second: Easy, third: Easy)
    requires
        keeps_cookies(first, second),
        keeps_cookies(second, third),
    ensures
        keeps_cookies(first, third),
{
    lemma_part_of_part(
        outside::cookie_lines(third),
        outside::cookie_lines(second),
        outside::cookie_lines(first),
    );
}

/// The arguments of a curl command line.
pub open spec fn command_arguments(
    request_args: Seq<Seq<char>>,
    cookies: Seq<RequestCookieView>,
    option_args: Seq<Seq<char>>,
) -> Seq<Seq<char>> {
    seq!["curl"@] + request_args + (if cookies.len() > 0 {
        seq!["--cookie"@, "'"@ + request_spec::cookie_pairs(cookies) + "'"@]
    } else {
        Seq::empty()
    }) + option_args
}

/// The curl command line of a request, with a given cookie storage.
pub open spec fn command_text(
    request: RequestSpec,
    request_args: Seq<Seq<char>>,
    storage: Seq<CookieView>,
    option_args: Seq<Seq<char>>,
) -> Seq<char> {
    let cookies = cookie::request_cookies(storage, request.cookies.deep_view(), request.url@);
    text::joined(command_arguments(request_args, cookies, option_args), " "@)
}

fn are_utf8(list: &Vec<Vec<u8>>) -> (r: bool)
    ensures
        r == (forall|i: int| 0 <= i < list@.len() ==> valid_utf8(#[trigger] list@[i]@)),
        r == (storage_of(list.deep_view()) is Some),
{
    let ghost lines = list.deep_view();
    assert forall|i: int| 0 <= i < lines.len() implies #[trigger] lines[i] == list@[i]@ by {
        assert(lines[i] =~= list@[i]@);
    }
    let mut i: usize = 0;
    while i < list.len()
        invariant
            i <= list.len(),
            lines == list.deep_view(),
            forall|k: int| 0 <= k < lines.len() ==> #[trigger] lines[k] == list@[k]@,
            forall|k: int| 0 <= k < i ==> valid_utf8(#[trigger] list@[k]@),
        decreases list.len() - i,
    {
        if utf8_text(list[i].as_slice()).is_none() {
            assert(!valid_utf8(lines[i as int]));
            return false;
        }
        i = i + 1;
    }
    true
}

impl Client {
    /// Returns cookie storage, and a warning for each line of the cookie engine that is no
    /// cookie. Returns `None` where a line is not UTF-8.
    ///
    /// The calls that change the cookie engine have to be made before, so that none of
    /// them is owed any more.
    pub fn get_cookie_storage(&self, handle: &mut Easy) -> (r: Option<(Vec<Cookie>, Vec<String>)>)
        requires
            !owes_cookies(self.handle.deep_view()),
        ensures
            r.deep_view() == storage_of(outside::cookie_lines(*final(handle))),
            keeps_cookies(*old(handle), *final(handle)),
            outside::cookie_lines(*old(handle)).len() == 0 ==> (r matches Some(storage)
                && storage.0@.len() == 0 && storage.1@.len() == 0),
    {
        let list = listed_cookies(handle);
        proof {
            if outside::cookie_lines(*old(handle)).len() == 0 {
                cleared_storage_reads_as_empty(*old(handle), *handle);
            }
        }
        if !are_utf8(&list) {
            return None;
        }
        let storage = self.parse_cookie_lines(&list);
        assert(storage.0.deep_view().len() == storage.0@.len());
        assert(storage.1.deep_view().len() == storage.1@.len());
        Some(storage)
    }

    /// Returns the cookies that lines of the cookie engine hold, and a warning for each
    /// line that is no cookie.
    pub fn parse_cookie_lines(&self, list: &Vec<Vec<u8>>) -> (r: (Vec<Cookie>, Vec<String>))
        requires
            forall|i: int| 0 <= i < list@.len() ==> valid_utf8(#[trigger] list@[i]@),
        ensures
            r.0.deep_view() == cookies_of(list.deep_view()),
            r.1.deep_view() == warnings_of(list.deep_view()),
    {
        let ghost all = list.deep_view();
        let mut cookies: Vec<Cookie> = Vec::new();
        let mut warnings: Vec<String> = Vec::new();
        let mut i: usize = 0;
        assert(cookies.deep_view() =~= cookies_of(all.take(0)));
        assert(warnings.deep_view() =~= warnings_of(all.take(0)));
        while i < list.len()
            invariant
                i <= list.len(),
                all == list.deep_view(),
                forall|i: int| 0 <= i < list@.len() ==> valid_utf8(#[trigger] list@[i]@),
                cookies.deep_view() == cookies_of(all.take(i as int)),
                warnings.deep_view() == warnings_of(all.take(i as int)),
            decreases list.len() - i,
        {
            let ghost cookies_before = cookies.deep_view();
            let ghost warnings_before = warnings.deep_view();
            assert(all.take(i + 1).drop_last() =~= all.take(i as int));
            assert(all.take(i + 1).last() =~= list@[i as int]@);
            let line = utf8_text(list[i].as_slice()).unwrap();
            match Cookie::from_str(line) {
                Ok(cookie) => {
                    let ghost seen = cookie.deep_view();
                    cookies.push(cookie);
                    assert(cookies.deep_view() =~= cookies_before.push(seen));
                },
                Err(_) => {
                    let mut warning = "warning: line <".to_string();
                    warning.append(line);
                    warning.append("> can not be parsed as cookie");
                    let ghost text = warning@;
                    warnings.push(warning);
                    assert(warnings.deep_view() =~= warnings_before.push(text));
                },
            }
            i = i + 1;
        }
        assert(all.take(i as int) =~= all);
        (cookies, warnings)
    }

    /// Adds a cookie to the cookie jar, and returns what to tell about it.
    pub fn add_cookie(&mut self, cookie: &Cookie, options: &ClientOptions) -> (r: Option<String>)
        ensures
            final(self).handle.deep_view() == old(self).handle.deep_view().push(
                HandleCallView::CookieList(cookie::cookie_line(cookie.deep_view())),
            ),
            final(self).redirect_count == old(self).redirect_count,
            r.deep_view() == if options.verbosity is Some {
                Some("* add to cookie store: "@ + cookie::cookie_line(cookie.deep_view()))
            } else {
                None
            },
    {
        let line = cookie.to_string();
        let told = if options.is_verbose() {
            Some("* add to cookie store: ".to_string().concat(line.as_str()))
        } else {
            None
        };
        self.call(HandleCall::CookieList(line));
        told
    }

    /// Clears cookie storage at once, and returns what to tell about it. The calls owed that
    /// would have changed the storage before are owed no more.
    pub fn clear_cookie_storage(
        &mut self,
        handle: &mut Easy,
        options: &ClientOptions,
    ) -> (r: Option<String>)
        ensures
            outside::cookie_lines(*final(handle)).len() == 0,
            outside::session_lines(*final(handle)).len() == 0,
            final(self).handle.deep_view() == without_cookies(old(self).handle.deep_view()),
            !owes_cookies(final(self).handle.deep_view()),
            final(self).redirect_count == old(self).redirect_count,
            r.deep_view() == if options.verbosity is Some {
                Some("* clear cookie storage"@)
            } else {
                None
            },
    {
        let ghost calls = self.handle.deep_view();
        let ghost mut seen: int = 0;
        let mut i: usize = 0;
        assert(self.handle.deep_view() =~= without_cookies(calls.take(0)) + calls.skip(0));
        while i < self.handle.len()
            invariant
                calls == old(self).handle.deep_view(),
                0 <= seen <= calls.len(),
                i == without_cookies(calls.take(seen)).len(),
                self.handle.deep_view() == without_cookies(calls.take(seen)) + calls.skip(seen),
                self.redirect_count == old(self).redirect_count,
            decreases calls.len() - seen,
        {
            let ghost before = self.handle.deep_view();
            proof {
                assert(before[i as int] == calls[seen]);
                assert(calls.take(seen + 1).drop_last() =~= calls.take(seen));
                assert(calls.take(seen + 1).last() == calls[seen]);
            }
            if let HandleCall::CookieList(_) = &self.handle[i] {
                self.handle.remove(i);
                assert(self.handle.deep_view() =~= before.remove(i as int));
            } else {
                i = i + 1;
            }
            proof {
                seen = seen + 1;
                assert(self.handle.deep_view() =~= without_cookies(calls.take(seen)) + calls.skip(
                    seen,
                ));
            }
        }
        proof {
            assert(calls.take(seen) =~= calls);
            assert(self.handle.deep_view() =~= without_cookies(calls));
            lemma_without_cookies(calls);
        }
        command_cookies(handle, "ALL");
        if options.is_verbose() {
            Some("* clear cookie storage".to_string())
        } else {
            None
        }
    }

    /// Returns the curl command line with the given arguments and cookies.
    pub fn command_line(
        &self,
        request_args: Vec<String>,
        cookies: &Vec<RequestCookie>,
        option_args: Vec<String>,
    ) -> (r: String)
        ensures
            r@ == text::joined(
                command_arguments(
                    request_args.deep_view(),
                    cookies.deep_view(),
                    option_args.deep_view(),
                ),
                " "@,
            ),
    {
        let ghost request_texts = request_args.deep_view();
        let ghost option_texts = option_args.deep_view();
        let mut request_args = request_args;
        let mut option_args = option_args;
        let mut arguments: Vec<String> = Vec::new();
        arguments.push("curl".to_string());
        arguments.append(&mut request_args);
        assert(arguments.deep_view() =~= seq!["curl"@] + request_texts);
        if !cookies.is_empty() {
            let ghost before = arguments.deep_view();
            let mut quoted = "'".to_string();
            quoted.append(join_cookies(items(cookies)).as_str());
            quoted.append("'");
            let ghost text = quoted@;
            arguments.push("--cookie".to_string());
            arguments.push(quoted);
            assert(arguments.deep_view() =~= before + seq!["--cookie"@, text]);
        }
        let ghost before = arguments.deep_view();
        arguments.append(&mut option_args);
        assert(arguments.deep_view() =~= before + option_texts);
        assert(arguments.deep_view() =~= command_arguments(
            request_texts,
            cookies.deep_view(),
            option_texts,
        ));
        join(items(&arguments), " ")
    }

    /// Returns the curl command line for the HTTP `request_spec`, with the cookies of a
    /// cookie storage that go with it.
    pub fn command_line_with_storage(
        &self,
        request_spec: &RequestSpec,
        request_args: Vec<String>,
        cookie_storage: &[Cookie],
        option_args: Vec<String>,
    ) -> (r: String)
        ensures
            r@ == command_text(
                *request_spec,
                request_args.deep_view(),
                cookie_storage.deep_view(),
                option_args.deep_view(),
            ),
    {
        let cookies = all_cookies(cookie_storage, request_spec);
        self.command_line(request_args, &cookies, option_args)
    }

    /// Returns curl command-line for the HTTP `request_spec` run by this client, and the
    /// warnings that reading its cookie storage gives. Returns `None` where the cookie
    /// storage can not be read.
    ///
    /// # Arguments
    ///
    /// * `handle` - The handle, which is owed no call that changes its cookie engine
    /// * `request_spec` - A request specification
    /// * `request_args` - The arguments that describe the request
    /// * `option_args` - The arguments that describe the options
    pub fn curl_command_line(
        &self,
        handle: &mut Easy,
        request_spec: &RequestSpec,
        request_args: Vec<String>,
        option_args: Vec<String>,
    ) -> (r: Option<(String, Vec<String>)>)
        requires
            !owes_cookies(self.handle.deep_view()),
        ensures
            r.deep_view() == match storage_of(outside::cookie_lines(*final(handle))) {
                Some((storage, warnings)) => Some(
                    (
                        command_text(
                            *request_spec,
                            request_args.deep_view(),
                            storage,
                            option_args.deep_view(),
                        ),
                        warnings,
                    ),
                ),
                None => None,
            },
            keeps_cookies(*old(handle), *final(handle)),
    {
        match self.get_cookie_storage(handle) {
            Some((cookies, warnings)) => {
                let line = self.command_line_with_storage(
                    request_spec,
                    request_args,
                    items(&cookies),
                    option_args,
                );
                Some((line, warnings))
            },
            None => None,
        }
    }
}

/// The cookies of lines are those of the lines that hold one: one for each, in order. Each
/// other line gives a warning that quotes it, in order too.
pub proof fn each_line_gives_a_cookie_or_a_warning(lines: Seq<Seq<u8>>) -> (at: (
    Seq<int>,
    Seq<int>,
))
    ensures
        places::are_the_places(
            at.0,
            lines.len() as int,
            |i: int| cookie::parsed_cookie(decode_utf8(lines[i])) is Some,
        ),
        places::are_the_places(
            at.1,
            lines.len() as int,
            |i: int| cookie::parsed_cookie(decode_utf8(lines[i])) is None,
        ),
        cookies_of(lines).len() == at.0.len(),
        warnings_of(lines).len() == at.1.len(),
        forall|k: int|
            0 <= k < at.0.len() ==> cookie::parsed_cookie(decode_utf8(lines[at.0[k]])) == Some(
                #[trigger] cookies_of(lines)[k],
            ),
        forall|k: int|
            0 <= k < at.1.len() ==> #[trigger] warnings_of(lines)[k] == "warning: line <"@
                + decode_utf8(lines[at.1[k]]) + "> can not be parsed as cookie"@,
    decreases lines.len(),
{
    let p = |i: int| cookie::parsed_cookie(decode_utf8(lines[i])) is Some;
    let q = |i: int| cookie::parsed_cookie(decode_utf8(lines[i])) is None;
    if lines.len() == 0 {
        (Seq::empty(), Seq::empty())
    } else {
        let rest = lines.drop_last();
        let n = rest.len() as int;
        let (good, bad) = each_line_gives_a_cookie_or_a_warning(rest);
        places::lemma_next_place(
            good,
            n,
            |i: int| cookie::parsed_cookie(decode_utf8(rest[i])) is Some,
            p,
        );
        places::lemma_next_place(
            bad,
            n,
            |i: int| cookie::parsed_cookie(decode_utf8(rest[i])) is None,
            q,
        );
        let next_good = if p(n) {
            good.push(n)
        } else {
            good
        };
        let next_bad = if q(n) {
            bad.push(n)
        } else {
            bad
        };
        assert forall|k: int| 0 <= k < next_good.len() implies cookie::parsed_cookie(
            decode_utf8(lines[next_good[k]]),
        ) == Some(#[trigger] cookies_of(lines)[k]) by {
            if k < good.len() {
                assert(cookies_of(lines)[k] == cookies_of(rest)[k]);
                assert(0 <= good[k] < n);
            }
        }
        assert forall|k: int| 0 <= k < next_bad.len() implies #[trigger] warnings_of(lines)[k]
            == "warning: line <"@ + decode_utf8(lines[next_bad[k]])
            + "> can not be parsed as cookie"@ by {
            if k < bad.len() {
                assert(warnings_of(lines)[k] == warnings_of(rest)[k]);
                assert(0 <= bad[k] < n);
            }
        }
        (next_good, next_bad)
    }
}

/// The cookie storage can be read exactly where each line is UTF-8, and is then read line by
/// line.
pub proof fn storage_is_read_line_by_line(lines: Seq<Seq<u8>>)
    ensures
        storage_of(lines) is Some == (forall|i: int|
            0 <= i < lines.len() ==> valid_utf8(#[trigger] lines[i])),
        storage_of(lines) matches Some((cookies, warnings)) ==> cookies == cookies_of(lines)
            && warnings == warnings_of(lines),
{
}

/// Clearing the cookie storage drops the calls owed that would change it, and keeps all
/// others, in order.
pub proof fn other_calls_stay_owed(calls: Seq<HandleCallView>) -> (at: Seq<int>)
    ensures
        places::are_the_places(at, calls.len() as int, |i: int| !(calls[i] is CookieList)),
        without_cookies(calls).len() == at.len(),
        forall|k: int| 0 <= k < at.len() ==> #[trigger] without_cookies(calls)[k] == calls[at[k]],
    decreases calls.len(),
{
    let p = |i: int| !(calls[i] is CookieList);
    if calls.len() == 0 {
        Seq::empty()
    } else {
        let rest = calls.drop_last();
        let n = rest.len() as int;
        let before = other_calls_stay_owed(rest);
        places::lemma_next_place(before, n, |i: int| !(rest[i] is CookieList), p);
        let at = if p(n) {
            before.push(n)
        } else {
            before
        };
        assert forall|k: int| 0 <= k < at.len() implies #[trigger] without_cookies(calls)[k]
            == calls[at[k]] by {
            if k < before.len() {
                assert(without_cookies(calls)[k] == without_cookies(rest)[k]);
                assert(0 <= before[k] < n);
            }
        }
        at
    }
}

/// A call that changes the cookie storage is owed exactly where some call of this sort is among
/// those owed.
pub proof fn owed_cookie_call_is_among_the_calls(calls: Seq<HandleCallView>, line: Seq<char>)
    ensures
        owes_cookies(calls.push(HandleCallView::CookieList(line))),
        calls.contains(HandleCallView::CookieList(line)) ==> owes_cookies(calls),
        (forall|i: int| 0 <= i < calls.len() ==> !(#[trigger] calls[i] is CookieList))
            ==> !owes_cookies(calls),
{
    let more = calls.push(HandleCallView::CookieList(line));
    assert(more[calls.len() as int] is CookieList);
}

/// The arguments of a command line are the word `curl`, the arguments of the request, where there
/// are cookies `--cookie` and the quoted cookies, and the arguments of the options. Each given
/// list is whole and in its order.
pub proof fn command_has_all_arguments_in_order(
    request_args: Seq<Seq<char>>,
    cookies: Seq<RequestCookieView>,
    option_args: Seq<Seq<char>>,
)
    ensures
        ({
            let all = command_arguments(request_args, cookies, option_args);
            let n = request_args.len() as int;
            let c: int = if cookies.len() > 0 {
                2
            } else {
                0
            };
            &&& all.len() == 1 + n + c + option_args.len()
            &&& all[0] == seq!['c', 'u', 'r', 'l']
            &&& forall|i: int| 0 <= i < n ==> all[1 + i] == #[trigger] request_args[i]
            &&& forall|i: int|
                0 <= i < option_args.len() ==> all[1 + n + c + i] == #[trigger] option_args[i]
            &&& cookies.len() > 0 ==> all[1 + n] == "--cookie"@ && all[2 + n] == seq!['\'']
                + request_spec::cookie_pairs(cookies) + seq!['\'']
        }),
{
    reveal_strlit("curl");
    reveal_strlit("'");
    assert("curl"@ =~= seq!['c', 'u', 'r', 'l']);
    assert("'"@ =~= seq!['\'']);
}

/// The command line of a request is its arguments, with a space between neighbours, and with the
/// cookies that the request has of its own and from the storage. It starts with `curl`, and ends
/// with the last argument of the options where there is one.
pub proof fn command_line_is_its_arguments(
    request: RequestSpec,
    request_args: Seq<Seq<char>>,
    storage: Seq<CookieView>,
    option_args: Seq<Seq<char>>,
)
    ensures
        ({
            let cookies = cookie::request_cookies(
                storage,
                request.cookies.deep_view(),
                request.url@,
            );
            let line = command_text(request, request_args, storage, option_args);
            &&& line == text::joined(
                command_arguments(request_args, cookies, option_args),
                seq![' '],
            )
            &&& option_args.len() > 0 ==> option_args.last().is_suffix_of(line)
            &&& request_args.len() == 0 && cookies.len() == 0 && option_args.len() == 0 ==> line
                == seq!['c', 'u', 'r', 'l']
        }),
{
    reveal_strlit(" ");
    assert(" "@ =~= seq![' ']);
    let cookies = cookie::request_cookies(storage, request.cookies.deep_view(), request.url@);
    let all = command_arguments(request_args, cookies, option_args);
    let line = command_text(request, request_args, storage, option_args);
    command_has_all_arguments_in_order(request_args, cookies, option_args);
    text::joined_part_by_part(all.drop_last(), seq![all.last()], seq![' ']);
    text::joined_part_by_part(all, seq![], seq![' ']);
    text::joined_part_by_part(seq![all.last()], seq![], seq![' ']);
    if option_args.len() > 0 {
        let last = option_args[option_args.len() - 1];
        assert(all.last() == last);
        assert(all.drop_last() + seq![all.last()] =~= all);
        assert(line.subrange(line.len() - last.len(), line.len() as int) =~= last);
    }
}

} // verus!
