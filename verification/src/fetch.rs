//! The remote fetcher's decision core.
//!
//! One logical download has a primary path (an HTTP GET whose single redirect
//! is followed by re-issuing the same request, so custom headers survive) and
//! a fallback path (an external downloader with an equivalent header set).
//! The host process performs the network and file work and feeds the outcome
//! of each step back into [`FetchState`]; every decision — when to follow a
//! redirect, when to fail over, what to report — is taken here.

use vstd::prelude::*;
use vstd::string::{StrSliceExecFns, StringExecFns};

verus! {

pub const CACHE_USER_AGENT: &'static str =
    "Mozilla/5.0 (X11; Linux x86_64) AppleWebKit/537.36 (KHTML, like Gecko) Chrome/121.0 Safari/537.36";

pub const CACHE_ACCEPT: &'static str = "image/avif,image/webp,image/*,*/*;q=0.8";

/// Why a single fetch step failed.
#[derive(Debug, Clone, Copy, PartialEq, Eq, Structural)]
pub enum FetchError {
    /// Transport, DNS or TLS failure.
    Network,
    /// A non-success HTTP status.
    Http(u16),
    /// Directory or file creation/write failure.
    Filesystem,
    /// A malformed exchange, such as a redirect without a Location header.
    Protocol,
}

/// The error reported when both paths failed: the fallback error, with the
/// primary error attached as context.
#[derive(Debug, Clone, Copy, PartialEq, Eq, Structural)]
pub struct FetchFailure {
    pub primary: FetchError,
    pub fallback: FetchError,
}

/// HTTP 403 is the one session-fatal, non-retryable condition.
pub open spec fn is_forbidden_spec(e: FetchError) -> bool {
    e matches FetchError::Http(s) && s == 403
}

pub fn is_forbidden(e: &FetchError) -> (r: bool)
    ensures
        r == is_forbidden_spec(*e),
{
    match e {
        FetchError::Http(s) => *s == 403,
        _ => false,
    }
}

pub open spec fn is_redirect_status(status: u16) -> bool {
    300 <= status < 400
}

pub open spec fn is_success_status(status: u16) -> bool {
    200 <= status < 300
}

/// Where a fetch stands; each non-final state names the one piece of outside
/// work the host process owes next.
pub enum FetchState {
    /// Issue a GET to `url` with the item's headers plus the fixed Accept
    /// value, without automatic redirect handling.
    AwaitPrimary { url: String, redirected: bool },
    /// The primary response was a success: read the body and write the
    /// destination file in one atomic step.
    AwaitBody,
    /// The primary path failed: run the external downloader once.
    AwaitFallback { primary: FetchError },
    /// Nothing left to do.
    Finished { result: Result<(), FetchFailure> },
}

/// One outcome handed back by the host process.
pub enum FetchEvent {
    Response { status: u16, location: Option<String> },
    TransportFailed,
    BodyWritten,
    BodyFailed { filesystem: bool },
    FallbackOk,
    FallbackFailed { error: FetchError },
}

/// The complete transition table of the fetcher. Events that do not belong
/// to the current state leave it unchanged.
pub open spec fn fetch_step_spec(s: FetchState, e: FetchEvent) -> FetchState {
    match (s, e) {
        (
            FetchState::AwaitPrimary { url, redirected },
            FetchEvent::Response { status, location },
        ) => {
            if is_success_status(status) {
                FetchState::AwaitBody
            } else if is_redirect_status(status) && !redirected {
                match location {
                    Some(next_url) => FetchState::AwaitPrimary { url: next_url, redirected: true },
                    None => FetchState::AwaitFallback { primary: FetchError::Protocol },
                }
            } else {
                FetchState::AwaitFallback { primary: FetchError::Http(status) }
            }
        },
        (FetchState::AwaitPrimary { url, redirected }, FetchEvent::TransportFailed) => {
            FetchState::AwaitFallback { primary: FetchError::Network }
        },
        (FetchState::AwaitBody, FetchEvent::BodyWritten) => {
            FetchState::Finished { result: Ok(()) }
        },
        (FetchState::AwaitBody, FetchEvent::BodyFailed { filesystem }) => {
            FetchState::AwaitFallback {
                primary: if filesystem {
                    FetchError::Filesystem
                } else {
                    FetchError::Network
                },
            }
        },
        (FetchState::AwaitFallback { primary }, FetchEvent::FallbackOk) => {
            FetchState::Finished { result: Ok(()) }
        },
        (FetchState::AwaitFallback { primary }, FetchEvent::FallbackFailed { error }) => {
            FetchState::Finished { result: Err(FetchFailure { primary, fallback: error }) }
        },
        (other, _) => other,
    }
}

impl FetchState {
    /// A fresh fetch of `url`: the primary request is owed first.
    pub fn start(url: String) -> (s: FetchState)
        ensures
            s == (FetchState::AwaitPrimary { url, redirected: false }),
    {
        FetchState::AwaitPrimary { url, redirected: false }
    }

    /// The primary request came back with `status` and an optional Location
    /// header.
    pub fn on_response(self, status: u16, location: Option<String>) -> (next: FetchState)
        requires
            self is AwaitPrimary,
        ensures
            next == fetch_step_spec(self, FetchEvent::Response { status, location }),
    {
        match self {
            FetchState::AwaitPrimary { url, redirected } => {
                if 200 <= status && status < 300 {
                    FetchState::AwaitBody
                } else if 300 <= status && status < 400 && !redirected {
                    match location {
                        Some(next_url) => FetchState::AwaitPrimary {
                            url: next_url,
                            redirected: true,
                        },
                        None => FetchState::AwaitFallback { primary: FetchError::Protocol },
                    }
                } else {
                    FetchState::AwaitFallback { primary: FetchError::Http(status) }
                }
            },
            other => other,
        }
    }

    /// The primary request could not be sent or answered at all.
    pub fn on_transport_failure(self) -> (next: FetchState)
        requires
            self is AwaitPrimary,
        ensures
            next == fetch_step_spec(self, FetchEvent::TransportFailed),
    {
        match self {
            FetchState::AwaitPrimary { .. } => FetchState::AwaitFallback {
                primary: FetchError::Network,
            },
            other => other,
        }
    }

    /// The body was read and the destination file written.
    pub fn on_body_written(self) -> (next: FetchState)
        requires
            self is AwaitBody,
        ensures
            next == fetch_step_spec(self, FetchEvent::BodyWritten),
    {
        FetchState::Finished { result: Ok(()) }
    }

    /// Reading the body or writing the file failed; `filesystem` says which.
    pub fn on_body_failure(self, filesystem: bool) -> (next: FetchState)
        requires
            self is AwaitBody,
        ensures
            next == fetch_step_spec(self, FetchEvent::BodyFailed { filesystem }),
    {
        FetchState::AwaitFallback {
            primary: if filesystem {
                FetchError::Filesystem
            } else {
                FetchError::Network
            },
        }
    }

    /// The external downloader finished.
    pub fn on_fallback_result(self, outcome: Result<(), FetchError>) -> (next: FetchState)
        requires
            self is AwaitFallback,
        ensures
            outcome is Ok ==> next == fetch_step_spec(self, FetchEvent::FallbackOk),
            outcome matches Err(e) ==> next == fetch_step_spec(
                self,
                FetchEvent::FallbackFailed { error: e },
            ),
    {
        match self {
            FetchState::AwaitFallback { primary } => match outcome {
                Ok(()) => FetchState::Finished { result: Ok(()) },
                Err(error) => FetchState::Finished {
                    result: Err(FetchFailure { primary, fallback: error }),
                },
            },
            other => other,
        }
    }
}

/// True when this step is the one that hands the fetch over to the fallback
/// path.
pub open spec fn enters_fallback(s: FetchState, e: FetchEvent) -> bool {
    !(s is AwaitFallback) && fetch_step_spec(s, e) is AwaitFallback
}

/// How often a run over `evs` from `s` hands over to the fallback path.
pub open spec fn fallback_attempts(s: FetchState, evs: Seq<FetchEvent>) -> nat
    decreases evs.len(),
{
    if evs.len() == 0 {
        0
    } else {
        (if enters_fallback(s, evs[0]) {
            1nat
        } else {
            0nat
        }) + fallback_attempts(fetch_step_spec(s, evs[0]), evs.drop_first())
    }
}

/// The state after running the machine over `evs` from `s`.
pub open spec fn run_fetch(s: FetchState, evs: Seq<FetchEvent>) -> FetchState
    decreases evs.len(),
{
    if evs.len() == 0 {
        s
    } else {
        run_fetch(fetch_step_spec(s, evs[0]), evs.drop_first())
    }
}

spec fn fallback_count_invariant(s: FetchState, k: nat) -> bool {
    match s {
        FetchState::AwaitPrimary { .. } => k == 0,
        FetchState::AwaitBody => k == 0,
        FetchState::AwaitFallback { .. } => k == 1,
        FetchState::Finished { result } => k <= 1 && (result is Err ==> k == 1),
    }
}

proof fn lemma_fallback_invariant(s: FetchState, evs: Seq<FetchEvent>, k: nat)
    requires
        fallback_count_invariant(s, k),
    ensures
        fallback_count_invariant(run_fetch(s, evs), k + fallback_attempts(s, evs)),
    decreases evs.len(),
{
    if evs.len() > 0 {
        let next = fetch_step_spec(s, evs[0]);
        let step: nat = if enters_fallback(s, evs[0]) {
            1nat
        } else {
            0nat
        };
        lemma_fallback_invariant(next, evs.drop_first(), k + step);
    }
}

/// When the primary path fails, the fallback path is attempted exactly once
/// before the fetch is reported as failed; no run of the machine attempts it
/// more than once.
pub proof fn lemma_fallback_exactly_once(url: String, evs: Seq<FetchEvent>)
    ensures
        fallback_attempts(FetchState::AwaitPrimary { url, redirected: false }, evs) <= 1,
        run_fetch(FetchState::AwaitPrimary { url, redirected: false }, evs) is AwaitFallback
            ==> fallback_attempts(FetchState::AwaitPrimary { url, redirected: false }, evs) == 1,
        (run_fetch(FetchState::AwaitPrimary { url, redirected: false }, evs) matches
            FetchState::Finished { result } && result is Err) ==> fallback_attempts(
            FetchState::AwaitPrimary { url, redirected: false },
            evs,
        ) == 1,
{
    let start = FetchState::AwaitPrimary { url, redirected: false };
    lemma_fallback_invariant(start, evs, 0);
}

/// `<key>: <value>`, as both HTTP paths pass headers on.
pub open spec fn header_arg_spec(k: Seq<char>, v: Seq<char>) -> Seq<char> {
    k + ": "@ + v
}

pub fn header_arg(k: &str, v: &str) -> (r: String)
    ensures
        r@ == header_arg_spec(k@, v@),
{
    let mut s = String::from_str(k);
    s.append(": ");
    s.append(v);
    proof {
        assert(s@ =~= header_arg_spec(k@, v@));
    }
    s
}

/// The `--header` pairs for an ordered header list.
pub open spec fn curl_header_args_spec(headers: Seq<(Seq<char>, Seq<char>)>) -> Seq<Seq<char>>
    decreases headers.len(),
{
    if headers.len() == 0 {
        Seq::empty()
    } else {
        curl_header_args_spec(headers.drop_last()) + seq![
            "--header"@,
            header_arg_spec(headers.last().0, headers.last().1),
        ]
    }
}

/// The full argument list for the fallback downloader: fail loudly on
/// non-2xx, follow redirects natively, and replay the fixed user agent, the
/// fixed Accept value and every item header.
pub open spec fn curl_args_spec(
    url: Seq<char>,
    headers: Seq<(Seq<char>, Seq<char>)>,
    output: Seq<char>,
) -> Seq<Seq<char>> {
    seq![
        "--fail"@,
        "--location"@,
        "--silent"@,
        "--show-error"@,
        "--location-trusted"@,
        "--user-agent"@,
        CACHE_USER_AGENT@,
        "--header"@,
        header_arg_spec("Accept"@, CACHE_ACCEPT@),
    ] + curl_header_args_spec(headers) + seq!["--output"@, output, url]
}

/// Builds the fallback downloader's argument list.
pub fn curl_args(url: &str, headers: &Vec<(String, String)>, output: &str) -> (args: Vec<String>)
    ensures
        args.deep_view() == curl_args_spec(url@, headers.deep_view(), output@),
{
    let ghost h = headers.deep_view();
    let ghost full = curl_args_spec(url@, h, output@);
    proof {
        assert(h.len() == headers@.len());
        lemma_curl_header_args_len(h);
    }
    let mut args: Vec<String> = Vec::new();
    args.push(String::from_str("--fail"));
    args.push(String::from_str("--location"));
    args.push(String::from_str("--silent"));
    args.push(String::from_str("--show-error"));
    args.push(String::from_str("--location-trusted"));
    args.push(String::from_str("--user-agent"));
    args.push(String::from_str(CACHE_USER_AGENT));
    args.push(String::from_str("--header"));
    args.push(header_arg("Accept", CACHE_ACCEPT));
    proof {
        assert(args.deep_view() =~~= full.subrange(0, 9));
    }
    let mut i: usize = 0;
    while i < headers.len()
        invariant
            0 <= i <= headers@.len(),
            h == headers.deep_view(),
            h.len() == headers@.len(),
            full == curl_args_spec(url@, h, output@),
            full.len() == 12 + 2 * h.len(),
            args.len() == 9 + 2 * i,
            args.deep_view() == full.subrange(0, 9 + 2 * i),
        decreases headers@.len() - i,
    {
        args.push(String::from_str("--header"));
        let pair = &headers[i];
        args.push(header_arg(pair.0.as_str(), pair.1.as_str()));
        proof {
            lemma_curl_header_args_at(h, i as int);
            assert(h[i as int] == (pair.0@, pair.1@));
            assert(full[9 + 2 * i] == curl_header_args_spec(h)[2 * i]);
            assert(full[9 + 2 * i + 1] == curl_header_args_spec(h)[2 * i + 1]);
            assert(args.deep_view() =~~= full.subrange(0, 9 + 2 * (i + 1)));
        }
        i = i + 1;
    }
    let ghost pre = args.deep_view();
    args.push(String::from_str("--output"));
    args.push(String::from_str(output));
    args.push(String::from_str(url));
    proof {
        let n = h.len() as int;
        assert(full[9 + 2 * n] == "--output"@);
        assert(full[9 + 2 * n + 1] == output@);
        assert(full[9 + 2 * n + 2] == url@);
        assert forall|k: int| 0 <= k < 9 + 2 * n implies args.deep_view()[k] == full[k] by {
            assert(args.deep_view()[k] == pre[k]);
            assert(pre[k] == full.subrange(0, 9 + 2 * n)[k]);
        }
        assert(args.deep_view() =~~= full);
    }
    args
}

proof fn lemma_curl_header_args_len(headers: Seq<(Seq<char>, Seq<char>)>)
    ensures
        curl_header_args_spec(headers).len() == 2 * headers.len(),
    decreases headers.len(),
{
    if headers.len() > 0 {
        lemma_curl_header_args_len(headers.drop_last());
    }
}

/// Each header occupies two argument slots: the flag, then `key: value`.
proof fn lemma_curl_header_args_at(headers: Seq<(Seq<char>, Seq<char>)>, i: int)
    requires
        0 <= i < headers.len(),
    ensures
        curl_header_args_spec(headers).len() == 2 * headers.len(),
        curl_header_args_spec(headers)[2 * i] == "--header"@,
        curl_header_args_spec(headers)[2 * i + 1] == header_arg_spec(
            headers[i].0,
            headers[i].1,
        ),
    decreases headers.len(),
{
    lemma_curl_header_args_len(headers);
    if i == headers.len() - 1 {
        lemma_curl_header_args_len(headers.drop_last());
    } else {
        lemma_curl_header_args_at(headers.drop_last(), i);
        assert(headers.drop_last()[i] == headers[i]);
    }
}

} // verus!
