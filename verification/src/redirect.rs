//! Redirections.

use crate::client::{self, log_line, Client};
use crate::handle::HandleCallView;
use crate::header;
use crate::message::{HttpError, LogLine, LogLineView, Request, Response, ResponseView};
use crate::options::ClientOptions;
use crate::request_spec::{self, RequestSpec};
use crate::settings;
use crate::text;
use vstd::prelude::*;

verus! {

/// The location that a response asks to go to: the first `Location` header of a
/// response with a 3xx status, where it is not empty.
pub open spec fn location_of(response: ResponseView) -> Option<Seq<char>> {
    let locations = header::values_of(response.headers, "Location"@);
    if 300 <= response.status < 400 && locations.len() > 0 && locations[0].len() > 0 {
        Some(locations[0])
    } else {
        None
    }
}

/// What a run does after a response.
#[verifier::ext_equal]
pub enum Step {
    /// It ends, and returns its calls.
    Done,
    /// It goes on with a bare `GET` of a URL.
    Follow(Seq<char>),
    /// It fails, as it has met more redirections than the options allow.
    TooManyRedirect,
}

/// What a run does after a response, where it has met `count` redirections before.
pub open spec fn next_step(count: int, response: ResponseView, options: ClientOptions) -> Step {
    match location_of(response) {
        Some(url) => {
            if !options.follow_location {
                Step::Done
            } else if options.max_redirect matches Some(max) && count + 1 > max {
                Step::TooManyRedirect
            } else {
                Step::Follow(url)
            }
        },
        None => Step::Done,
    }
}

/// The log of a redirection.
pub open spec fn redirect_log(response: ResponseView, options: ClientOptions) -> Seq<LogLineView> {
    match location_of(response) {
        Some(url) => {
            if options.follow_location {
                seq![
                    LogLineView::Debug(Seq::empty()),
                    LogLineView::Debug("=> Redirect to "@ + url),
                    LogLineView::Debug(Seq::empty()),
                ]
            } else {
                Seq::empty()
            }
        },
        None => Seq::empty(),
    }
}

/// The number of redirections that a run has met after a response.
pub open spec fn next_count(count: int, response: ResponseView, options: ClientOptions) -> int {
    if options.follow_location && location_of(response) is Some {
        count + 1
    } else {
        count
    }
}

impl Client {
    /// Retrieves an optional location to follow
    ///
    /// You need:
    /// 1. the option follow_location set to true, which is for the caller to test
    /// 2. a 3xx response code
    /// 3. a header Location
    pub fn get_follow_location(&self, response: &Response) -> (r: Option<String>)
        ensures
            r.deep_view() == location_of(response.deep_view()),
    {
        if !(300 <= response.status && response.status < 400) {
            return None;
        }
        let mut locations = response.get_header_values("Location");
        let ghost texts = locations.deep_view();
        if locations.is_empty() {
            return None;
        }
        let location = locations.remove(0);
        assert(location@ == texts[0]);
        if location.as_str().is_empty() {
            None
        } else {
            Some(location)
        }
    }

    /// Starts a run that follows redirections.
    pub fn start_redirects(&mut self)
        ensures
            final(self).redirect_count == 0,
            final(self).handle == old(self).handle,
    {
        self.redirect_count = 0;
    }

    /// Takes the outcome of one execution of a run that optionally follows
    /// redirection, adds it to the list of pairs of [`Request`], [`Response`], and
    /// tells what to execute next. The run ends where this is nothing, and fails
    /// where the execution has failed.
    ///
    /// # Arguments
    ///
    /// * `calls` - The pairs so far
    /// * `executed` - The pair of this execution, or its error
    /// * `options`- Options for this run
    /// * `log`- Takes the log of a redirection
    pub fn execute_with_redirect(
        &mut self,
        calls: &mut Vec<(Request, Response)>,
        executed: Result<(Request, Response), HttpError>,
        options: &ClientOptions,
        log: &mut Vec<LogLine>,
    ) -> (r: Result<Option<RequestSpec>, HttpError>)
        requires
            executed matches Ok((_, response)) ==> next_count(
                old(self).redirect_count as int,
                response.deep_view(),
                *options,
            ) <= usize::MAX,
        ensures
            match executed {
                Ok((request, response)) => {
                    let seen = response.deep_view();
                    let count = old(self).redirect_count as int;
                    &&& match next_step(count, seen, *options) {
                        Step::Done => r == Ok::<Option<RequestSpec>, HttpError>(None),
                        Step::Follow(url) => r matches Ok(Some(next)) && request_spec::is_bare_get(
                            next,
                            url,
                        ),
                        Step::TooManyRedirect => r == Err::<Option<RequestSpec>, HttpError>(
                            HttpError::TooManyRedirect,
                        ),
                    }
                    &&& final(calls)@ == old(calls)@.push((request, response))
                    &&& final(self).redirect_count == next_count(count, seen, *options)
                    &&& final(log).deep_view() == old(log).deep_view() + redirect_log(
                        seen,
                        *options,
                    )
                },
                Err(error) => {
                    &&& r == Err::<Option<RequestSpec>, HttpError>(error)
                    &&& final(calls)@ == old(calls)@
                    &&& final(self).redirect_count == old(self).redirect_count
                    &&& final(log)@ == old(log)@
                },
            },
            final(self).handle == old(self).handle,
    {
        let (request, response) = match executed {
            Ok(pair) => pair,
            Err(error) => {
                return Err(error);
            },
        };
        let ghost start = log.deep_view();
        let location = self.get_follow_location(&response);
        calls.push((request, response));
        if !options.follow_location {
            return Ok(None);
        }
        if let Some(url) = location {
            log_line(log, LogLine::Debug(String::new()));
            log_line(log, LogLine::Debug("=> Redirect to ".to_string().concat(url.as_str())));
            log_line(log, LogLine::Debug(String::new()));
            assert(log.deep_view() =~= start + redirect_log(response.deep_view(), *options));
            self.redirect_count = self.redirect_count + 1;
            if let Some(max_redirect) = options.max_redirect {
                if self.redirect_count > max_redirect {
                    return Err(HttpError::TooManyRedirect);
                }
            }
            Ok(Some(RequestSpec::get(url)))
        } else {
            Ok(None)
        }
    }
}

/// A redirection takes nothing over from the request before it: all that the handle is
/// told of the next one is its URL, the method `GET` and the header lines that every
/// request without headers gets, and no body is sent.
pub proof fn redirected_request_takes_nothing_over(
    next: RequestSpec,
    url: Seq<char>,
    options: ClientOptions,
    version: Seq<char>,
)
    requires
        request_spec::is_bare_get(next, url),
    ensures
        settings::request_calls(next, options, version) == seq![
            HandleCallView::Url(url),
            HandleCallView::CustomRequest("GET"@),
            HandleCallView::HttpHeaders(settings::added_lines(next, options, version)),
        ],
        !client::new_exchange(next, options).has_body_data,
{
    let headers = next.headers.deep_view();
    assert(settings::given_lines(headers) =~= Seq::empty());
    assert(settings::header_lines(next, options, version) =~= settings::added_lines(
        next,
        options,
        version,
    ));
    assert(settings::request_calls(next, options, version) =~= seq![
        HandleCallView::Url(url),
        HandleCallView::CustomRequest("GET"@),
        HandleCallView::HttpHeaders(settings::added_lines(next, options, version)),
    ]);
}

/// The count of redirections that a run has met after the given responses.
pub open spec fn count_after(responses: Seq<ResponseView>, options: ClientOptions) -> int
    decreases responses.len(),
{
    if responses.len() == 0 {
        0
    } else {
        next_count(count_after(responses.drop_last(), options), responses.last(), options)
    }
}

/// A run goes on after each of the given responses.
pub open spec fn follows_all(responses: Seq<ResponseView>, options: ClientOptions) -> bool
    decreases responses.len(),
{
    responses.len() > 0 ==> {
        let before = responses.drop_last();
        &&& follows_all(before, options)
        &&& next_step(count_after(before, options), responses.last(), options) is Follow
    }
}

/// While a run goes on, its count of redirections is the number of its responses.
pub proof fn count_is_number_of_responses(responses: Seq<ResponseView>, options: ClientOptions)
    requires
        follows_all(responses, options),
    ensures
        count_after(responses, options) == responses.len(),
    decreases responses.len(),
{
    if responses.len() > 0 {
        count_is_number_of_responses(responses.drop_last(), options);
    }
}

/// A run follows at most as many redirections as the options allow, so that it executes
/// at most one request more than that.
pub proof fn redirections_are_limited(responses: Seq<ResponseView>, options: ClientOptions)
    requires
        follows_all(responses, options),
        options.max_redirect is Some,
    ensures
        responses.len() <= options.max_redirect->Some_0,
{
    if responses.len() > 0 {
        count_is_number_of_responses(responses.drop_last(), options);
    }
}

/// A run follows a redirection only where the options ask for it, the response has a
/// 3xx status and a `Location` header, and the limit is not reached. It then always
/// does, and goes to the first location that the response gives.
pub proof fn redirection_is_followed_on_three_conditions(
    responses: Seq<ResponseView>,
    response: ResponseView,
    options: ClientOptions,
)
    requires
        follows_all(responses, options),
    ensures
        ({
            let locations = header::values_of(response.headers, "Location"@);
            let step = next_step(count_after(responses, options), response, options);
            let asked = options.follow_location && 300 <= response.status < 400
                && locations.len() > 0 && locations[0].len() > 0;
            let allowed = options.max_redirect matches Some(max) ==> responses.len() < max;
            &&& step is Follow == (asked && allowed)
            &&& step is TooManyRedirect == (asked && !allowed)
            &&& step is Done == !asked
            &&& step matches Step::Follow(url) ==> url == locations[0]
        }),
{
    count_is_number_of_responses(responses, options);
}

/// The first header with the name `Location`, up to case, gives the location of a response
/// with a 3xx status: its value, character for character. There is no location where this
/// value is empty, where no header has the name, and with any other status. The place
/// returned is that of the header, or the number of headers where there is none.
pub proof fn location_is_the_first_one_given(response: ResponseView) -> (at: int)
    ensures
        ({
            let headers = response.headers;
            &&& 0 <= at <= headers.len()
            &&& forall|i: int|
                0 <= i < at ==> !text::same_but_case((#[trigger] headers[i]).name, "Location"@)
            &&& at < headers.len() ==> text::same_but_case(headers[at].name, "Location"@)
            &&& location_of(response) is Some == (300 <= response.status < 400 && at
                < headers.len() && headers[at].value.len() > 0)
            &&& location_of(response) matches Some(url) ==> url == headers[at].value
        }),
{
    let headers = response.headers;
    let name = "Location"@;
    let p = |i: int| text::same_but_case(headers[i].name, name);
    let places = header::values_are_those_of_the_named_headers(headers, name);
    let values = header::values_of(headers, name);
    let at = if places.len() > 0 {
        assert(0 <= places[0] < headers.len() && p(places[0]));
        assert(values[0] == headers[places[0]].value);
        places[0]
    } else {
        headers.len() as int
    };
    assert forall|i: int| 0 <= i < at implies !text::same_but_case(
        (#[trigger] headers[i]).name,
        name,
    ) by {
        if text::same_but_case(headers[i].name, name) {
            assert(p(i));
            let k = choose|k: int| 0 <= k < places.len() && places[k] == i;
            if k > 0 {
                assert(places[0] < places[k]);
            }
        }
    }
    at
}

/// A run goes on with the location of a response, as the response gives it, where the options
/// ask to follow redirections and do not limit them to those already met. It fails where
/// they do, and ends where no redirection is asked for or given.
pub proof fn run_goes_where_the_response_says(
    count: int,
    response: ResponseView,
    options: ClientOptions,
) -> (at: int)
    ensures
        ({
            let headers = response.headers;
            let asked = options.follow_location && 300 <= response.status < 400 && at
                < headers.len() && headers[at].value.len() > 0;
            let allowed = options.max_redirect matches Some(max) ==> count < max;
            let step = next_step(count, response, options);
            &&& 0 <= at <= headers.len()
            &&& forall|i: int|
                0 <= i < at ==> !text::same_but_case((#[trigger] headers[i]).name, "Location"@)
            &&& at < headers.len() ==> text::same_but_case(headers[at].name, "Location"@)
            &&& asked && allowed ==> step == Step::Follow(headers[at].value)
            &&& asked && !allowed ==> step == Step::TooManyRedirect
            &&& !asked ==> step == Step::Done
            &&& next_count(count, response, options) == if asked {
                count + 1
            } else {
                count
            }
            &&& redirect_log(response, options) == if asked {
                seq![
                    LogLineView::Debug(Seq::empty()),
                    LogLineView::Debug("=> Redirect to "@ + headers[at].value),
                    LogLineView::Debug(Seq::empty()),
                ]
            } else {
                Seq::empty()
            }
        }),
{
    location_is_the_first_one_given(response)
}

} // verus!
