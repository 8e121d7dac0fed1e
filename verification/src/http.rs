//! The jina.ai Reader requests: their URLs, the classification of their
//! outcomes, and the retry policy that decides between one fetch and the
//! next.

use vstd::prelude::*;

use crate::config::{backoff, RetryConfig};
use crate::error::{
    detected_error, detect_target_site_error, opt_error_view, retryable, transient, FetchError,
    FetchErrorView, FetchResult, TransportError,
};
use crate::text::{has_prefix, push_str};

verus! {

/// The jina.ai Reader endpoint; the page URL is appended to it.
pub const JINA_READER_PREFIX: &'static str = "https://r.jina.ai/";

/// The reader URL for a page: the endpoint, the page URL, and the query
/// that asks to wait for rendering and to extract a selector.
pub open spec fn jina_url(url: Seq<char>, wait_render: bool, selector: Option<Seq<char>>) -> Seq<
    char,
> {
    let base = JINA_READER_PREFIX@ + url;
    match (wait_render, selector) {
        (true, Some(sel)) => base + "?wait=true&selector="@ + sel,
        (true, None) => base + "?wait=true"@,
        (false, Some(sel)) => base + "?selector="@ + sel,
        (false, None) => base,
    }
}

/// Build jina.ai reader URL.
pub fn build_jina_url(url: &str, wait_render: bool, selector: Option<&str>) -> (r: String)
    ensures
        r@ == jina_url(
            url@,
            wait_render,
            match selector {
                Some(s) => Some(s@),
                None => None,
            },
        ),
{
    let mut r = String::new();
    push_str(&mut r, JINA_READER_PREFIX);
    push_str(&mut r, url);
    match (wait_render, selector) {
        (true, Some(sel)) => {
            push_str(&mut r, "?wait=true&selector=");
            push_str(&mut r, sel);
        },
        (true, None) => push_str(&mut r, "?wait=true"),
        (false, Some(sel)) => {
            push_str(&mut r, "?selector=");
            push_str(&mut r, sel);
        },
        (false, None) => {},
    }
    r
}

/// Every reader URL starts with the endpoint followed by the page URL.
pub proof fn lemma_jina_url_prefix(url: Seq<char>, wait_render: bool, selector: Option<Seq<char>>)
    ensures
        has_prefix(jina_url(url, wait_render, selector), JINA_READER_PREFIX@ + url),
{
    let base = JINA_READER_PREFIX@ + url;
    let r = jina_url(url, wait_render, selector);
    assert(r.subrange(0, base.len() as int) =~= base);
}

// ---------------------------------------------------------------------------
// Outcome of one fetch
// ---------------------------------------------------------------------------

/// The outcome of a response with this status and body: a failure status
/// is a rate limit (429) or a service error, a success is the body unless
/// the body reveals a target site error.
pub open spec fn response_outcome(status: u16, body: Seq<char>, url: Seq<char>) -> Result<
    Seq<char>,
    FetchErrorView,
> {
    if !(200 <= status < 300) {
        if status == 429 {
            Err(FetchErrorView::RateLimited { retry_after: None })
        } else {
            Err(FetchErrorView::JinaService { status, body })
        }
    } else {
        match detected_error(body, url) {
            Some(e) => Err(e),
            None => Ok(body),
        }
    }
}

/// Every status outside 200..=299 is a failure: a rate limit for 429, a
/// service error carrying the status and the body otherwise; a success
/// status gives the body unless the body reveals a target-site error, and
/// never a service error or a rate limit.
pub proof fn lemma_failure_statuses_are_errors(status: u16, body: Seq<char>, url: Seq<char>)
    ensures
        !(200 <= status <= 299) && status != 429 ==> response_outcome(status, body, url) == Err::<
            Seq<char>,
            FetchErrorView,
        >(FetchErrorView::JinaService { status, body }),
        status == 429 ==> response_outcome(status, body, url) == Err::<Seq<char>, FetchErrorView>(
            FetchErrorView::RateLimited { retry_after: None },
        ),
        200 <= status <= 299 ==> match response_outcome(status, body, url) {
            Ok(b) => b == body && detected_error(body, url) is None,
            Err(e) => e is TargetSite && detected_error(body, url) == Some(e),
        },
{
}

/// The view of the outcome of a fetch.
pub open spec fn outcome_view(r: Result<String, FetchError>) -> Result<Seq<char>, FetchErrorView> {
    match r {
        Ok(b) => Ok(b@),
        Err(e) => Err(e@),
    }
}

/// Classify a response of jina.ai for the page `original_url`: a status
/// outside 200..=299 is a failure, a success body is checked for target
/// site errors.
pub fn classify_response(status: u16, body: String, original_url: &str) -> (r: Result<
    String,
    FetchError,
>)
    ensures
        outcome_view(r) == response_outcome(status, body@, original_url@),
{
    if !(200 <= status && status < 300) {
        if status == 429 {
            return Err(FetchError::RateLimited { retry_after: None });
        }
        return Err(FetchError::JinaService { status, body });
    }
    match detect_target_site_error(body.as_str(), original_url) {
        Some(e) => Err(e),
        None => Ok(body),
    }
}

/// The error for a request that could not be sent: a network error,
/// transient as the transport failure is.
pub fn network_error(message: String, error: &TransportError) -> (e: FetchError)
    ensures
        e@ == (FetchErrorView::Network { message: message@, is_transient: transient(*error) }),
{
    let is_transient = crate::error::is_transient_error(error);
    FetchError::Network { message, is_transient }
}

/// The error for a success response whose body could not be read: a
/// transient network error.
pub fn body_read_error(message: &str) -> (e: FetchError)
    ensures
        e@ == (FetchErrorView::Network {
            message: "Failed to read response: "@ + message@,
            is_transient: true,
        }),
{
    let mut m = String::new();
    push_str(&mut m, "Failed to read response: ");
    push_str(&mut m, message);
    FetchError::Network { message: m, is_transient: true }
}

// ---------------------------------------------------------------------------
// Retry policy
// ---------------------------------------------------------------------------

/// Whether a failed attempt (counted from 0) is followed by another one.
pub open spec fn retries_after(c: RetryConfig, attempt: nat, error: FetchErrorView) -> bool {
    retryable(error) && attempt < c.max_retries
}

/// What follows a failed attempt.
#[derive(Debug, Clone, Copy)]
pub enum RetryStep {
    /// Wait this many milliseconds, then fetch again.
    Retry { backoff_ms: u64 },
    /// Stop and report the last error.
    GiveUp,
}

/// The progress of fetching one URL with retries: the attempt under way
/// (counted from 0) and the error of the last failed attempt.
#[derive(Debug)]
pub struct RetryState {
    pub attempt: u32,
    pub last_error: Option<FetchError>,
}

impl RetryState {
    /// Before the first attempt.
    pub fn new() -> (s: RetryState)
        ensures
            s.attempt == 0,
            s.last_error is None,
    {
        RetryState { attempt: 0, last_error: None }
    }

    /// Records a failed attempt and decides what follows: another attempt,
    /// after the backoff for this one, when the error is retryable and
    /// retries are left; otherwise giving up.
    pub fn record_failure(&mut self, config: &RetryConfig, error: FetchError) -> (step: RetryStep)
        requires
            old(self).attempt <= config.max_retries,
        ensures
            opt_error_view(final(self).last_error) == Some(error@),
            (step is Retry) == retries_after(*config, old(self).attempt as nat, error@),
            match step {
                RetryStep::Retry { backoff_ms } => {
                    &&& backoff_ms == backoff(*config, old(self).attempt as nat)
                    &&& final(self).attempt == old(self).attempt + 1
                },
                RetryStep::GiveUp => final(self).attempt == old(self).attempt,
            },
            final(self).attempt <= config.max_retries,
    {
        let should_retry = error.is_retryable() && self.attempt < config.max_retries;
        self.last_error = Some(error);
        if should_retry {
            let backoff_ms = config.backoff_for_attempt(self.attempt);
            self.attempt = self.attempt + 1;
            RetryStep::Retry { backoff_ms }
        } else {
            RetryStep::GiveUp
        }
    }

    /// The result of the attempt under way, which succeeded.
    pub fn succeed(&self, markdown: String, original_url: &str, response_time_ms: u64) -> (r:
        FetchResult)
        requires
            self.attempt < u32::MAX,
        ensures
            r.markdown@ == markdown@,
            r.original_url@ == original_url@,
            r.response_time_ms == response_time_ms,
            r.attempts == self.attempt + 1,
    {
        let mut url = String::new();
        push_str(&mut url, original_url);
        FetchResult {
            markdown,
            original_url: url,
            response_time_ms,
            attempts: self.attempt + 1,
        }
    }

    /// The error reported after giving up: the last error, or an unknown
    /// network error when no attempt failed.
    pub fn into_error(self) -> (e: FetchError)
        ensures
            match self.last_error {
                Some(last) => e@ == last@,
                None => e@ == (FetchErrorView::Network {
                    message: "Unknown error"@,
                    is_transient: false,
                }),
            },
    {
        match self.last_error {
            Some(e) => e,
            None => {
                let mut message = String::new();
                push_str(&mut message, "Unknown error");
                FetchError::Network { message, is_transient: false }
            },
        }
    }
}

/// The number of fetches made from attempt `attempt` on, when each fetch
/// fails with an error whose retryability is the next of `retryable_errors`.
pub open spec fn fetches_until_giving_up(
    c: RetryConfig,
    attempt: nat,
    retryable_errors: Seq<bool>,
) -> nat
    decreases retryable_errors.len(),
{
    if retryable_errors.len() == 0 {
        0
    } else if retryable_errors[0] && attempt < c.max_retries {
        1 + fetches_until_giving_up(c, attempt + 1, retryable_errors.drop_first())
    } else {
        1
    }
}

/// However the fetches fail, at most `max_retries + 1` of them are made.
pub proof fn lemma_fetches_bounded(c: RetryConfig, attempt: nat, retryable_errors: Seq<bool>)
    requires
        attempt <= c.max_retries,
    ensures
        attempt + fetches_until_giving_up(c, attempt, retryable_errors) <= c.max_retries + 1,
    decreases retryable_errors.len(),
{
    if retryable_errors.len() > 0 && retryable_errors[0] && attempt < c.max_retries {
        lemma_fetches_bounded(c, attempt + 1, retryable_errors.drop_first());
    }
}

/// Client errors (status below 500), target site errors, validation
/// errors and lasting network errors are never retried, whatever retries
/// are left; rate limits, server errors and transient network errors are
/// retried while retries are left.
pub proof fn lemma_what_is_retried(c: RetryConfig, attempt: nat, e: FetchErrorView)
    ensures
        e matches FetchErrorView::JinaService { status, .. } && status < 500 ==> !retries_after(
            c,
            attempt,
            e,
        ),
        e is TargetSite ==> !retries_after(c, attempt, e),
        e is Validation ==> !retries_after(c, attempt, e),
        e matches FetchErrorView::Network { is_transient, .. } ==> (retries_after(c, attempt, e)
            <==> is_transient && attempt < c.max_retries),
        e is RateLimited ==> (retries_after(c, attempt, e) <==> attempt < c.max_retries),
        e matches FetchErrorView::JinaService { status, .. } && status >= 500 ==> (retries_after(
            c,
            attempt,
            e,
        ) <==> attempt < c.max_retries),
{
}

/// With retries disabled, the first failure is final.
pub proof fn lemma_no_retry(c: RetryConfig, e: FetchErrorView)
    requires
        c.max_retries == 0,
    ensures
        !retries_after(c, 0, e),
{
}

} // verus!
