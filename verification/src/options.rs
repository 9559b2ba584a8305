//! Options of an HTTP client.

use vstd::prelude::*;

verus! {

/// A length of time: the sum of its seconds and its nanoseconds.
#[derive(Clone, Copy, Debug, PartialEq, Eq, Structural)]
pub struct TimeSpan {
    pub secs: u64,
    pub nanos: u32,
}

impl DeepView for TimeSpan {
    type V = TimeSpan;

    open spec fn deep_view(&self) -> TimeSpan {
        *self
    }
}

/// The whole milliseconds of a length of time.
pub open spec fn millis(span: TimeSpan) -> nat {
    (span.secs * 1000 + span.nanos / 1000000) as nat
}

impl TimeSpan {
    /// Returns the whole milliseconds of the length of time.
    pub fn as_millis(&self) -> (r: u128)
        ensures
            r == millis(*self),
    {
        self.secs as u128 * 1000 + (self.nanos / 1000000) as u128
    }
}

/// How much a run tells about its exchanges.
#[derive(Clone, Copy, Debug, PartialEq, Eq, Structural)]
pub enum Verbosity {
    Verbose,
    VeryVerbose,
}

/// Options that hold for one execution of a request.
#[derive(Debug, PartialEq, Eq)]
pub struct ClientOptions {
    /// File with the certificates to trust.
    pub cacert_file: Option<String>,
    /// Whether redirections are followed.
    pub follow_location: bool,
    /// How many redirections may be followed, where there is a limit.
    pub max_redirect: Option<usize>,
    pub proxy: Option<String>,
    pub no_proxy: Option<String>,
    pub verbosity: Option<Verbosity>,
    /// Whether certificates go unchecked.
    pub insecure: bool,
    pub timeout: TimeSpan,
    pub connect_timeout: TimeSpan,
    /// User and password for basic authentication.
    pub user: Option<String>,
    pub user_agent: Option<String>,
    /// Whether a compressed response is asked for.
    pub compressed: bool,
}

impl ClientOptions {
    /// Tells whether exchanges are logged.
    pub fn is_verbose(&self) -> (r: bool)
        ensures
            r == (self.verbosity is Some),
    {
        self.verbosity.is_some()
    }

    /// Tells whether the bodies of exchanges are logged too.
    pub fn is_very_verbose(&self) -> (r: bool)
        ensures
            r == (self.verbosity == Some(Verbosity::VeryVerbose)),
    {
        match self.verbosity {
            Some(Verbosity::VeryVerbose) => true,
            _ => false,
        }
    }
}

/// The milliseconds of a length of time are those that are whole: they last no longer than
/// it, and one more would.
pub proof fn milliseconds_are_whole(span: TimeSpan)
    ensures
        millis(span) * 1000000 <= span.secs * 1000000000 + span.nanos,
        span.secs * 1000000000 + span.nanos < (millis(span) + 1) * 1000000,
{
}

} // verus!
