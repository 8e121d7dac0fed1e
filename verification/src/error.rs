//! Categorized fetch errors: whether they are retried, the exit code each
//! one maps to, their messages, and the detection of target-site errors in
//! a response body.

use vstd::prelude::*;

use crate::text::{
    byte_len, chars_of, contains, decimal, line_ranges, lines, lowercase, push_decimal,
    push_range, push_str, range_byte_len_capped, str_contains, string_of_range, take_chars,
    to_lowercase, trim, trim_range,
};

verus! {

/// Categorized fetch errors for better handling and messaging.
#[derive(Debug, Clone)]
pub enum FetchError {
    /// Network-level failures (DNS, connection refused, timeout).
    Network { message: String, is_transient: bool },
    /// jina.ai returned an error status (`status` is the HTTP status code).
    JinaService { status: u16, body: String },
    /// Target site error (jina.ai forwards site errors in the response body).
    TargetSite { url: String, hint: String },
    /// Rate limited.
    RateLimited { retry_after: Option<u64> },
    /// Validation error.
    Validation { message: String },
}

/// The mathematical value of a [`FetchError`]: its strings as character
/// sequences.
pub enum FetchErrorView {
    Network { message: Seq<char>, is_transient: bool },
    JinaService { status: u16, body: Seq<char> },
    TargetSite { url: Seq<char>, hint: Seq<char> },
    RateLimited { retry_after: Option<u64> },
    Validation { message: Seq<char> },
}

impl View for FetchError {
    type V = FetchErrorView;

    open spec fn view(&self) -> FetchErrorView {
        match self {
            FetchError::Network { message, is_transient } => FetchErrorView::Network {
                message: message@,
                is_transient: *is_transient,
            },
            FetchError::JinaService { status, body } => FetchErrorView::JinaService {
                status: *status,
                body: body@,
            },
            FetchError::TargetSite { url, hint } => FetchErrorView::TargetSite {
                url: url@,
                hint: hint@,
            },
            FetchError::RateLimited { retry_after } => FetchErrorView::RateLimited {
                retry_after: *retry_after,
            },
            FetchError::Validation { message } => FetchErrorView::Validation { message: message@ },
        }
    }
}

/// Whether an error is worth another attempt: transient network failures,
/// server errors of jina.ai (status 500 and above) and rate limiting.
pub open spec fn retryable(e: FetchErrorView) -> bool {
    match e {
        FetchErrorView::Network { is_transient, .. } => is_transient,
        FetchErrorView::JinaService { status, .. } => status >= 500,
        FetchErrorView::RateLimited { .. } => true,
        FetchErrorView::TargetSite { .. } => false,
        FetchErrorView::Validation { .. } => false,
    }
}

/// The process exit code of an error: 1 network, 2 validation, 3 service,
/// 4 rate limit, 5 target site.
pub open spec fn exit_code_of(e: FetchErrorView) -> i32 {
    match e {
        FetchErrorView::Network { .. } => 1,
        FetchErrorView::Validation { .. } => 2,
        FetchErrorView::JinaService { .. } => 3,
        FetchErrorView::RateLimited { .. } => 4,
        FetchErrorView::TargetSite { .. } => 5,
    }
}

impl FetchError {
    /// Check if this error should be retried.
    pub fn is_retryable(&self) -> (b: bool)
        ensures
            b == retryable(self@),
    {
        match self {
            FetchError::Network { is_transient, .. } => *is_transient,
            FetchError::JinaService { status, .. } => *status >= 500,
            FetchError::RateLimited { .. } => true,
            FetchError::TargetSite { .. } => false,
            FetchError::Validation { .. } => false,
        }
    }

    /// Get exit code for this error (1=general, 2=validation, 3=service,
    /// 4=rate limit, 5=target site).
    pub fn exit_code(&self) -> (code: i32)
        ensures
            code == exit_code_of(self@),
    {
        match self {
            FetchError::Network { .. } => 1,
            FetchError::Validation { .. } => 2,
            FetchError::JinaService { .. } => 3,
            FetchError::RateLimited { .. } => 4,
            FetchError::TargetSite { .. } => 5,
        }
    }
}

/// Fetch result containing markdown and metadata.
#[derive(Debug, Clone)]
pub struct FetchResult {
    pub markdown: String,
    pub original_url: String,
    pub response_time_ms: u64,
    pub attempts: u32,
}

// ---------------------------------------------------------------------------
// Messages
// ---------------------------------------------------------------------------

/// What `reqwest::StatusCode::canonical_reason` returns for a status code,
/// `None` for a code outside 100..=999.
pub uninterp spec fn canonical_reason_phrase(code: u16) -> Option<Seq<char>>;

/// `reqwest::StatusCode::from_u16` followed by
/// `StatusCode::canonical_reason`: the standard reason phrase of a status
/// code ("Not Found" for 404), `None` for an unregistered code or one
/// outside 100..=999.  The contract claims only that the answer is a
/// function of `code`, named `canonical_reason_phrase`.
#[verifier::external_body]
fn canonical_reason(code: u16) -> (r: Option<String>)
    ensures
        match r {
            Some(p) => canonical_reason_phrase(code) == Some(p@),
            None => canonical_reason_phrase(code) is None,
        },
{
    match reqwest::StatusCode::from_u16(code) {
        Ok(status) => status.canonical_reason().map(|p| p.to_string()),
        Err(_) => None,
    }
}

/// A status code as `StatusCode` displays it: the number and the reason
/// phrase.
pub open spec fn status_line(code: u16, reason: Option<Seq<char>>) -> Seq<char> {
    decimal(code as nat) + " "@ + match reason {
        Some(r) => r,
        None => "<unknown status code>"@,
    }
}

/// The display of a status code.
pub open spec fn status_text(code: u16) -> Seq<char> {
    status_line(code, canonical_reason_phrase(code))
}

/// The message of an error.
pub open spec fn error_message(e: FetchErrorView) -> Seq<char> {
    match e {
        FetchErrorView::Network { message, is_transient } => if is_transient {
            "Network error (transient): "@ + message + " - will retry"@
        } else {
            "Network error: "@ + message
        },
        FetchErrorView::JinaService { status, body } => "jina.ai service error ("@ + status_text(
            status,
        ) + "): "@ + take_chars(body, 200),
        FetchErrorView::TargetSite { url, hint } => "Target site error for "@ + url + ": "@ + hint,
        FetchErrorView::RateLimited { retry_after } => match retry_after {
            Some(secs) => "Rate limited - retry after "@ + decimal(secs as nat) + "s"@,
            None => "Rate limited - please wait before retrying"@,
        },
        FetchErrorView::Validation { message } => "Validation error: "@ + message,
    }
}

/// Formats a status code with the reason phrase given for it, as
/// `StatusCode` displays it: `"404 Not Found"`, or the number followed by
/// `"<unknown status code>"` when there is no phrase.
pub fn format_status(code: u16, reason: Option<String>) -> (r: String)
    ensures
        r@ == status_line(
            code,
            match reason {
                Some(p) => Some(p@),
                None => None,
            },
        ),
{
    let mut r = String::new();
    push_decimal(&mut r, code as u64);
    push_str(&mut r, " ");
    match reason {
        Some(p) => push_str(&mut r, p.as_str()),
        None => push_str(&mut r, "<unknown status code>"),
    }
    r
}

/// The display of a status code: its number and its reason phrase.
pub fn status_text_of(code: u16) -> (r: String)
    ensures
        r@ == status_text(code),
{
    let reason = canonical_reason(code);
    format_status(code, reason)
}

impl FetchError {
    /// The message of this error, as it is shown to the user.
    pub fn message(&self) -> (r: String)
        ensures
            r@ == error_message(self@),
    {
        let mut r = String::new();
        match self {
            FetchError::Network { message, is_transient } => {
                if *is_transient {
                    push_str(&mut r, "Network error (transient): ");
                    push_str(&mut r, message.as_str());
                    push_str(&mut r, " - will retry");
                } else {
                    push_str(&mut r, "Network error: ");
                    push_str(&mut r, message.as_str());
                }
            },
            FetchError::JinaService { status, body } => {
                push_str(&mut r, "jina.ai service error (");
                let st = status_text_of(*status);
                push_str(&mut r, st.as_str());
                push_str(&mut r, "): ");
                let v = chars_of(body.as_str());
                let n = if v.len() <= 200 {
                    v.len()
                } else {
                    200
                };
                push_range(&mut r, &v, 0, n);
                assert(v@.subrange(0, v@.len() as int) =~= v@);
            },
            FetchError::TargetSite { url, hint } => {
                push_str(&mut r, "Target site error for ");
                push_str(&mut r, url.as_str());
                push_str(&mut r, ": ");
                push_str(&mut r, hint.as_str());
            },
            FetchError::RateLimited { retry_after } => match retry_after {
                Some(secs) => {
                    push_str(&mut r, "Rate limited - retry after ");
                    push_decimal(&mut r, *secs);
                    push_str(&mut r, "s");
                },
                None => push_str(&mut r, "Rate limited - please wait before retrying"),
            },
            FetchError::Validation { message } => {
                push_str(&mut r, "Validation error: ");
                push_str(&mut r, message.as_str());
            },
        }
        assert(r@ =~= error_message(self@));
        r
    }
}

// ---------------------------------------------------------------------------
// Transport failures
// ---------------------------------------------------------------------------

/// What a failed HTTP exchange reports about itself (the kind queries of
/// `reqwest::Error` and the status it carries).
#[derive(Debug, Clone, Copy)]
pub struct TransportError {
    pub timeout: bool,
    pub connect: bool,
    pub builder: bool,
    pub body: bool,
    pub decode: bool,
    pub redirect: bool,
    pub status: Option<u16>,
}

/// Whether a transport failure is transient: timeouts, connection failures,
/// body and decoding failures, the statuses 429, 500, 502, 503 and 504, and
/// failures of unknown kind; not builder or redirect failures.
pub open spec fn transient(e: TransportError) -> bool {
    if e.timeout {
        true
    } else if e.connect {
        true
    } else if e.builder {
        false
    } else if e.body || e.decode {
        true
    } else if e.redirect {
        false
    } else {
        match e.status {
            Some(s) => s == 429 || s == 500 || s == 502 || s == 503 || s == 504,
            None => true,
        }
    }
}

/// Check if an error from the HTTP client is transient (worth retrying).
pub fn is_transient_error(error: &TransportError) -> (b: bool)
    ensures
        b == transient(*error),
{
    if error.timeout {
        return true;
    }
    if error.connect {
        return true;
    }
    if error.builder {
        return false;
    }
    if error.body || error.decode {
        return true;
    }
    if error.redirect {
        return false;
    }
    if let Some(status) = error.status {
        return status == 429 || status == 500 || status == 502 || status == 503 || status == 504;
    }
    true
}

// ---------------------------------------------------------------------------
// Target site errors in a response body
// ---------------------------------------------------------------------------

/// Patterns that indicate target site errors in a jina.ai response body.
pub open spec fn target_error_patterns() -> Seq<Seq<char>> {
    seq![
        "Application error"@,
        "Error: Failed to fetch"@,
        "502 Bad Gateway"@,
        "503 Service Unavailable"@,
        "504 Gateway Timeout"@,
        "404 Not Found"@,
        "Access Denied"@,
        "Forbidden"@,
        "This site can't be reached"@,
        "connection refused"@,
        "ERR_CONNECTION_"@,
        "cloudflare"@,
        "CAPTCHA"@,
        "too many requests"@,
    ]
}

/// The patterns that indicate target site errors, in the order they are
/// tried.
pub fn target_error_pattern_list() -> (r: Vec<&'static str>)
    ensures
        r@.map_values(|p: &str| p@) == target_error_patterns(),
{
    let r = vec![
        "Application error",
        "Error: Failed to fetch",
        "502 Bad Gateway",
        "503 Service Unavailable",
        "504 Gateway Timeout",
        "404 Not Found",
        "Access Denied",
        "Forbidden",
        "This site can't be reached",
        "connection refused",
        "ERR_CONNECTION_",
        "cloudflare",
        "CAPTCHA",
        "too many requests",
    ];
    assert(r@.map_values(|p: &str| p@) =~= target_error_patterns());
    r
}

/// The index of the first pattern, from `i` on, whose lowercase form occurs
/// in `lower`.
pub open spec fn first_pattern_from(lower: Seq<char>, pats: Seq<Seq<char>>, i: int) -> Option<int>
    decreases pats.len() - i,
{
    if i < 0 || i >= pats.len() {
        None
    } else if contains(lower, lowercase(pats[i])) {
        Some(i)
    } else {
        first_pattern_from(lower, pats, i + 1)
    }
}

/// A trimmed line of reasonable length (more than 10 and fewer than 200
/// bytes) that is not a Markdown heading.
pub open spec fn hint_candidate(t: Seq<char>) -> bool {
    byte_len(t) > 10 && byte_len(t) < 200 && !(t.len() > 0 && t[0] == '#')
}

/// A line that mentions the matched pattern.
#[verifier::opaque]
pub open spec fn mentions_pattern(t: Seq<char>, pattern_lower: Seq<char>) -> bool {
    hint_candidate(t) && t.len() > 0 && contains(lowercase(t), pattern_lower)
}

/// A line that reads like an error.
#[verifier::opaque]
pub open spec fn reads_like_error(t: Seq<char>) -> bool {
    let lower = lowercase(t);
    hint_candidate(t) && (contains(lower, "error"@) || contains(lower, "failed"@) || contains(
        lower,
        "unavailable"@,
    ))
}

/// The first trimmed line, from line `i` on, that mentions the pattern.
pub open spec fn first_mention(ls: Seq<Seq<char>>, pattern_lower: Seq<char>, i: int) -> Option<
    Seq<char>,
>
    decreases ls.len() - i,
{
    if i < 0 || i >= ls.len() {
        None
    } else if mentions_pattern(trim(ls[i]), pattern_lower) {
        Some(trim(ls[i]))
    } else {
        first_mention(ls, pattern_lower, i + 1)
    }
}

/// The first trimmed line, from line `i` on, that reads like an error.
pub open spec fn first_error_line(ls: Seq<Seq<char>>, i: int) -> Option<Seq<char>>
    decreases ls.len() - i,
{
    if i < 0 || i >= ls.len() {
        None
    } else if reads_like_error(trim(ls[i])) {
        Some(trim(ls[i]))
    } else {
        first_error_line(ls, i + 1)
    }
}

/// The hint for an error page: the first line that mentions the matched
/// pattern, else the first line that reads like an error, else the pattern.
pub open spec fn error_hint(body: Seq<char>, pattern: Seq<char>) -> Seq<char> {
    match first_mention(lines(body), lowercase(pattern), 0) {
        Some(t) => t,
        None => match first_error_line(lines(body), 0) {
            Some(t) => t,
            None => pattern,
        },
    }
}

/// The target site error a response body reveals, if any.
pub open spec fn detected_error(body: Seq<char>, url: Seq<char>) -> Option<FetchErrorView> {
    let lower = lowercase(body);
    match first_pattern_from(lower, target_error_patterns(), 0) {
        Some(i) => Some(
            FetchErrorView::TargetSite { url, hint: error_hint(body, target_error_patterns()[i]) },
        ),
        None => if byte_len(body) < 500 && contains(lower, "error"@) {
            Some(FetchErrorView::TargetSite { url, hint: "Response looks like an error page"@ })
        } else {
            None
        },
    }
}

/// The trimmed line `v[lo..hi]` as bounds `(a, b)`, and whether it is of
/// reasonable length and not a heading.
fn trimmed_line(v: &Vec<char>, lo: usize, hi: usize) -> (r: (usize, usize, bool))
    requires
        lo <= hi <= v.len(),
    ensures
        r.0 <= r.1 <= v.len(),
        v@.subrange(r.0 as int, r.1 as int) == trim(v@.subrange(lo as int, hi as int)),
        r.2 == hint_candidate(trim(v@.subrange(lo as int, hi as int))),
{
    let (a, b) = trim_range(v, lo, hi);
    let ghost t = v@.subrange(a as int, b as int);
    let len = range_byte_len_capped(v, a, b, 1000);
    let heading = a < b && v[a] == '#';
    proof {
        if a < b {
            assert(t[0] == v@[a as int]);
        }
    }
    (a, b, len > 10 && len < 200 && !heading)
}

/// The trimmed line `v[lo..hi]` when it mentions the pattern.
fn line_mentioning(v: &Vec<char>, lo: usize, hi: usize, pattern_lower: &String) -> (r: Option<
    String,
>)
    requires
        lo <= hi <= v.len(),
    ensures
        match r {
            Some(t) => t@ == trim(v@.subrange(lo as int, hi as int)) && mentions_pattern(
                t@,
                pattern_lower@,
            ),
            None => !mentions_pattern(trim(v@.subrange(lo as int, hi as int)), pattern_lower@),
        },
{
    reveal(mentions_pattern);
    let (a, b, candidate) = trimmed_line(v, lo, hi);
    if candidate && a < b {
        let t = string_of_range(v, a, b);
        let lower = to_lowercase(t.as_str());
        if str_contains(lower.as_str(), pattern_lower.as_str()) {
            return Some(t);
        }
    }
    None
}

/// The trimmed line `v[lo..hi]` when it reads like an error.
fn line_reading_like_error(v: &Vec<char>, lo: usize, hi: usize) -> (r: Option<String>)
    requires
        lo <= hi <= v.len(),
    ensures
        match r {
            Some(t) => t@ == trim(v@.subrange(lo as int, hi as int)) && reads_like_error(t@),
            None => !reads_like_error(trim(v@.subrange(lo as int, hi as int))),
        },
{
    reveal(reads_like_error);
    let (a, b, candidate) = trimmed_line(v, lo, hi);
    if candidate {
        let t = string_of_range(v, a, b);
        let lower = to_lowercase(t.as_str());
        if str_contains(lower.as_str(), "error") || str_contains(lower.as_str(), "failed")
            || str_contains(lower.as_str(), "unavailable") {
            return Some(t);
        }
    }
    None
}

/// Extract a helpful hint from an error response.
fn extract_error_hint(body: &str, matched_pattern: &str) -> (r: String)
    ensures
        r@ == error_hint(body@, matched_pattern@),
{
    let v = chars_of(body);
    let ranges = line_ranges(&v);
    let ghost ls = lines(v@);
    let pattern_lower = to_lowercase(matched_pattern);
    let mut k: usize = 0;
    while k < ranges.len()
        invariant
            k <= ranges@.len(),
            v@ == body@,
            pattern_lower@ == lowercase(matched_pattern@),
            ls == lines(v@),
            ranges@.len() == ls.len(),
            forall|j: int|
                0 <= j < ranges@.len() ==> {
                    &&& (#[trigger] ranges@[j]).0 <= ranges@[j].1 <= v@.len()
                    &&& v@.subrange(ranges@[j].0 as int, ranges@[j].1 as int) == ls[j]
                },
            first_mention(ls, pattern_lower@, 0) == first_mention(ls, pattern_lower@, k as int),
        decreases ranges@.len() - k,
    {
        let (lo, hi) = ranges[k];
        match line_mentioning(&v, lo, hi, &pattern_lower) {
            Some(t) => return t,
            None => {},
        }
        k = k + 1;
    }
    let mut k: usize = 0;
    while k < ranges.len()
        invariant
            k <= ranges@.len(),
            v@ == body@,
            pattern_lower@ == lowercase(matched_pattern@),
            ls == lines(v@),
            ranges@.len() == ls.len(),
            forall|j: int|
                0 <= j < ranges@.len() ==> {
                    &&& (#[trigger] ranges@[j]).0 <= ranges@[j].1 <= v@.len()
                    &&& v@.subrange(ranges@[j].0 as int, ranges@[j].1 as int) == ls[j]
                },
            first_mention(ls, pattern_lower@, 0) is None,
            first_error_line(ls, 0) == first_error_line(ls, k as int),
        decreases ranges@.len() - k,
    {
        let (lo, hi) = ranges[k];
        match line_reading_like_error(&v, lo, hi) {
            Some(t) => return t,
            None => {},
        }
        k = k + 1;
    }
    let mut r = String::new();
    push_str(&mut r, matched_pattern);
    r
}

/// The view of an optional error.
pub open spec fn opt_error_view(e: Option<FetchError>) -> Option<FetchErrorView> {
    match e {
        Some(e) => Some(e@),
        None => None,
    }
}

/// Detect if a response body contains a target site error: the first of the
/// known patterns that occurs in it, case-insensitively, makes a
/// target-site error with a hint taken from the body; failing that, a short
/// body (under 500 bytes) that mentions "error" is taken for an error page.
pub fn detect_target_site_error(body: &str, original_url: &str) -> (r: Option<FetchError>)
    ensures
        opt_error_view(r) == detected_error(body@, original_url@),
{
    let body_lower = to_lowercase(body);
    let patterns = target_error_pattern_list();
    let ghost pats = target_error_patterns();
    let mut i: usize = 0;
    while i < patterns.len()
        invariant
            i <= patterns@.len(),
            body_lower@ == lowercase(body@),
            patterns@.map_values(|p: &str| p@) == pats,
            pats == target_error_patterns(),
            first_pattern_from(body_lower@, pats, 0) == first_pattern_from(
                body_lower@,
                pats,
                i as int,
            ),
        decreases patterns@.len() - i,
    {
        let pattern = patterns[i];
        assert(pats[i as int] == pattern@);
        let pattern_lower = to_lowercase(pattern);
        if str_contains(body_lower.as_str(), pattern_lower.as_str()) {
            assert(first_pattern_from(body_lower@, pats, i as int) == Some(i as int));
            let hint = extract_error_hint(body, pattern);
            let mut url = String::new();
            push_str(&mut url, original_url);
            return Some(FetchError::TargetSite { url, hint });
        }
        i = i + 1;
    }
    let v = chars_of(body);
    assert(v@.subrange(0, v@.len() as int) =~= v@);
    let len = range_byte_len_capped(&v, 0, v.len(), 500);
    if len < 500 && str_contains(body_lower.as_str(), "error") {
        let mut url = String::new();
        push_str(&mut url, original_url);
        let mut hint = String::new();
        push_str(&mut hint, "Response looks like an error page");
        return Some(FetchError::TargetSite { url, hint });
    }
    None
}

/// A detected error is always a target-site error about the URL that was
/// fetched, and it is never retried.
pub proof fn lemma_detected_error_is_final(body: Seq<char>, url: Seq<char>)
    ensures
        detected_error(body, url) matches Some(e) ==> e matches FetchErrorView::TargetSite {
            url: u,
            ..
        } && u == url && !retryable(e) && exit_code_of(e) == 5,
{
}

proof fn lemma_pattern_found(lower: Seq<char>, pats: Seq<Seq<char>>, k: int, i: int)
    requires
        0 <= k <= i < pats.len(),
        contains(lower, lowercase(pats[i])),
    ensures
        first_pattern_from(lower, pats, k) matches Some(j) && k <= j <= i,
    decreases i - k,
{
    if !contains(lower, lowercase(pats[k])) {
        lemma_pattern_found(lower, pats, k + 1, i);
    }
}

/// The body is reported as a target-site error about `url`.
pub open spec fn reported(body: Seq<char>, url: Seq<char>) -> bool {
    detected_error(body, url) matches Some(e) && e matches FetchErrorView::TargetSite {
        url: u,
        ..
    } && u == url
}

/// A body that mentions, in any case, one of the known error-page phrases
/// is reported as a target-site error about the fetched URL.
pub proof fn lemma_known_phrases_detected(body: Seq<char>, url: Seq<char>)
    ensures
        contains(lowercase(body), lowercase("Application error"@)) ==> reported(body, url),
        contains(lowercase(body), lowercase("Error: Failed to fetch"@)) ==> reported(body, url),
        contains(lowercase(body), lowercase("502 Bad Gateway"@)) ==> reported(body, url),
        contains(lowercase(body), lowercase("503 Service Unavailable"@)) ==> reported(body, url),
        contains(lowercase(body), lowercase("504 Gateway Timeout"@)) ==> reported(body, url),
        contains(lowercase(body), lowercase("404 Not Found"@)) ==> reported(body, url),
        contains(lowercase(body), lowercase("Access Denied"@)) ==> reported(body, url),
        contains(lowercase(body), lowercase("Forbidden"@)) ==> reported(body, url),
        contains(lowercase(body), lowercase("This site can't be reached"@)) ==> reported(body, url),
        contains(lowercase(body), lowercase("connection refused"@)) ==> reported(body, url),
        contains(lowercase(body), lowercase("ERR_CONNECTION_"@)) ==> reported(body, url),
        contains(lowercase(body), lowercase("cloudflare"@)) ==> reported(body, url),
        contains(lowercase(body), lowercase("CAPTCHA"@)) ==> reported(body, url),
        contains(lowercase(body), lowercase("too many requests"@)) ==> reported(body, url),
{
    if contains(lowercase(body), lowercase("Application error"@)) {
        assert(target_error_patterns()[0] == "Application error"@);
        lemma_pattern_found(lowercase(body), target_error_patterns(), 0, 0);
    }
    if contains(lowercase(body), lowercase("Error: Failed to fetch"@)) {
        assert(target_error_patterns()[1] == "Error: Failed to fetch"@);
        lemma_pattern_found(lowercase(body), target_error_patterns(), 0, 1);
    }
    if contains(lowercase(body), lowercase("502 Bad Gateway"@)) {
        assert(target_error_patterns()[2] == "502 Bad Gateway"@);
        lemma_pattern_found(lowercase(body), target_error_patterns(), 0, 2);
    }
    if contains(lowercase(body), lowercase("503 Service Unavailable"@)) {
        assert(target_error_patterns()[3] == "503 Service Unavailable"@);
        lemma_pattern_found(lowercase(body), target_error_patterns(), 0, 3);
    }
    if contains(lowercase(body), lowercase("504 Gateway Timeout"@)) {
        assert(target_error_patterns()[4] == "504 Gateway Timeout"@);
        lemma_pattern_found(lowercase(body), target_error_patterns(), 0, 4);
    }
    if contains(lowercase(body), lowercase("404 Not Found"@)) {
        assert(target_error_patterns()[5] == "404 Not Found"@);
        lemma_pattern_found(lowercase(body), target_error_patterns(), 0, 5);
    }
    if contains(lowercase(body), lowercase("Access Denied"@)) {
        assert(target_error_patterns()[6] == "Access Denied"@);
        lemma_pattern_found(lowercase(body), target_error_patterns(), 0, 6);
    }
    if contains(lowercase(body), lowercase("Forbidden"@)) {
        assert(target_error_patterns()[7] == "Forbidden"@);
        lemma_pattern_found(lowercase(body), target_error_patterns(), 0, 7);
    }
    if contains(lowercase(body), lowercase("This site can't be reached"@)) {
        assert(target_error_patterns()[8] == "This site can't be reached"@);
        lemma_pattern_found(lowercase(body), target_error_patterns(), 0, 8);
    }
    if contains(lowercase(body), lowercase("connection refused"@)) {
        assert(target_error_patterns()[9] == "connection refused"@);
        lemma_pattern_found(lowercase(body), target_error_patterns(), 0, 9);
    }
    if contains(lowercase(body), lowercase("ERR_CONNECTION_"@)) {
        assert(target_error_patterns()[10] == "ERR_CONNECTION_"@);
        lemma_pattern_found(lowercase(body), target_error_patterns(), 0, 10);
    }
    if contains(lowercase(body), lowercase("cloudflare"@)) {
        assert(target_error_patterns()[11] == "cloudflare"@);
        lemma_pattern_found(lowercase(body), target_error_patterns(), 0, 11);
    }
    if contains(lowercase(body), lowercase("CAPTCHA"@)) {
        assert(target_error_patterns()[12] == "CAPTCHA"@);
        lemma_pattern_found(lowercase(body), target_error_patterns(), 0, 12);
    }
    if contains(lowercase(body), lowercase("too many requests"@)) {
        assert(target_error_patterns()[13] == "too many requests"@);
        lemma_pattern_found(lowercase(body), target_error_patterns(), 0, 13);
    }
}

/// A short body (under 500 bytes) that mentions "error" in any case is
/// reported as a target-site error; a body that is reported either holds
/// one of the known phrases or is such a short error page.
pub proof fn lemma_short_error_pages_detected(body: Seq<char>, url: Seq<char>)
    ensures
        byte_len(body) < 500 && contains(lowercase(body), "error"@) ==> reported(body, url),
        detected_error(body, url) is Some ==> (exists|i: int|
            0 <= i < target_error_patterns().len() && contains(
                lowercase(body),
                lowercase(#[trigger] target_error_patterns()[i]),
            )) || (byte_len(body) < 500 && contains(lowercase(body), "error"@)),
{
    let lower = lowercase(body);
    let pats = target_error_patterns();
    if let Some(i) = first_pattern_from(lower, pats, 0) {
        lemma_pattern_index(lower, pats, 0);
    }
}

proof fn lemma_pattern_index(lower: Seq<char>, pats: Seq<Seq<char>>, k: int)
    requires
        0 <= k,
    ensures
        first_pattern_from(lower, pats, k) matches Some(j) ==> k <= j < pats.len() && contains(
            lower,
            lowercase(pats[j]),
        ),
    decreases pats.len() - k,
{
    if k < pats.len() && !contains(lower, lowercase(pats[k])) {
        lemma_pattern_index(lower, pats, k + 1);
    }
}

proof fn lemma_first_mention_at(ls: Seq<Seq<char>>, p: Seq<char>, k: int, i: int)
    requires
        0 <= k <= i < ls.len(),
        mentions_pattern(trim(ls[i]), p),
        forall|j: int| k <= j < i ==> !mentions_pattern(trim(#[trigger] ls[j]), p),
    ensures
        first_mention(ls, p, k) == Some(trim(ls[i])),
    decreases i - k,
{
    if k < i {
        lemma_first_mention_at(ls, p, k + 1, i);
    }
}

proof fn lemma_first_mention_none(ls: Seq<Seq<char>>, p: Seq<char>, k: int)
    requires
        0 <= k,
        forall|j: int| k <= j < ls.len() ==> !mentions_pattern(trim(#[trigger] ls[j]), p),
    ensures
        first_mention(ls, p, k) is None,
    decreases ls.len() - k,
{
    if k < ls.len() {
        lemma_first_mention_none(ls, p, k + 1);
    }
}

proof fn lemma_first_error_line_at(ls: Seq<Seq<char>>, k: int, i: int)
    requires
        0 <= k <= i < ls.len(),
        reads_like_error(trim(ls[i])),
        forall|j: int| k <= j < i ==> !reads_like_error(trim(#[trigger] ls[j])),
    ensures
        first_error_line(ls, k) == Some(trim(ls[i])),
    decreases i - k,
{
    if k < i {
        lemma_first_error_line_at(ls, k + 1, i);
    }
}

proof fn lemma_first_error_line_none(ls: Seq<Seq<char>>, k: int)
    requires
        0 <= k,
        forall|j: int| k <= j < ls.len() ==> !reads_like_error(trim(#[trigger] ls[j])),
    ensures
        first_error_line(ls, k) is None,
    decreases ls.len() - k,
{
    if k < ls.len() {
        lemma_first_error_line_none(ls, k + 1);
    }
}

/// The hint of an error page is the first line of the body that, trimmed,
/// is not empty, takes more than 10 and fewer than 200 bytes, does not
/// start with `'#'` and mentions the matched pattern in any case.
pub proof fn lemma_hint_mentions_pattern(body: Seq<char>, pattern: Seq<char>, i: int)
    requires
        0 <= i < lines(body).len(),
        trim(lines(body)[i]).len() > 0,
        10 < byte_len(trim(lines(body)[i])) < 200,
        trim(lines(body)[i])[0] != '#',
        contains(lowercase(trim(lines(body)[i])), lowercase(pattern)),
        forall|j: int|
            0 <= j < i ==> !(trim(#[trigger] lines(body)[j]).len() > 0 && 10 < byte_len(
                trim(lines(body)[j]),
            ) < 200 && trim(lines(body)[j])[0] != '#' && contains(
                lowercase(trim(lines(body)[j])),
                lowercase(pattern),
            )),
    ensures
        error_hint(body, pattern) == trim(lines(body)[i]),
{
    reveal(mentions_pattern);
    lemma_first_mention_at(lines(body), lowercase(pattern), 0, i);
}

/// When no line of the body, trimmed, is not empty, takes more than 10 and
/// fewer than 200 bytes, does not start with `'#'` and mentions the
/// pattern, the hint is the first line that, trimmed, takes more than 10 and
/// fewer than 200 bytes, does not start with `'#'` and holds "error",
/// "failed" or "unavailable" in any case; with no such line either, the
/// hint is the pattern itself.
pub proof fn lemma_hint_fallbacks(body: Seq<char>, pattern: Seq<char>)
    requires
        forall|j: int|
            0 <= j < lines(body).len() ==> !(trim(#[trigger] lines(body)[j]).len() > 0 && 10
                < byte_len(trim(lines(body)[j])) < 200 && trim(lines(body)[j])[0] != '#'
                && contains(lowercase(trim(lines(body)[j])), lowercase(pattern))),
    ensures
        forall|i: int|
            0 <= i < lines(body).len() && 10 < byte_len(trim(#[trigger] lines(body)[i])) < 200
                && !(trim(lines(body)[i]).len() > 0 && trim(lines(body)[i])[0] == '#') && (
            contains(lowercase(trim(lines(body)[i])), "error"@) || contains(
                lowercase(trim(lines(body)[i])),
                "failed"@,
            ) || contains(lowercase(trim(lines(body)[i])), "unavailable"@)) && (forall|j: int|
                0 <= j < i ==> !(10 < byte_len(trim(#[trigger] lines(body)[j])) < 200 && !(trim(
                    lines(body)[j],
                ).len() > 0 && trim(lines(body)[j])[0] == '#') && (contains(
                    lowercase(trim(lines(body)[j])),
                    "error"@,
                ) || contains(lowercase(trim(lines(body)[j])), "failed"@) || contains(
                    lowercase(trim(lines(body)[j])),
                    "unavailable"@,
                )))) ==> error_hint(body, pattern) == trim(lines(body)[i]),
        (forall|j: int|
            0 <= j < lines(body).len() ==> !(10 < byte_len(trim(#[trigger] lines(body)[j])) < 200
                && !(trim(lines(body)[j]).len() > 0 && trim(lines(body)[j])[0] == '#') && (
            contains(lowercase(trim(lines(body)[j])), "error"@) || contains(
                lowercase(trim(lines(body)[j])),
                "failed"@,
            ) || contains(lowercase(trim(lines(body)[j])), "unavailable"@)))) ==> error_hint(
            body,
            pattern,
        ) == pattern,
{
    reveal(mentions_pattern);
    reveal(reads_like_error);
    let ls = lines(body);
    lemma_first_mention_none(ls, lowercase(pattern), 0);
    assert forall|i: int|
        0 <= i < ls.len() && 10 < byte_len(trim(#[trigger] ls[i])) < 200 && !(trim(ls[i]).len()
            > 0 && trim(ls[i])[0] == '#') && (contains(lowercase(trim(ls[i])), "error"@)
            || contains(lowercase(trim(ls[i])), "failed"@) || contains(
            lowercase(trim(ls[i])),
            "unavailable"@,
        )) && (forall|j: int|
            0 <= j < i ==> !(10 < byte_len(trim(#[trigger] ls[j])) < 200 && !(trim(ls[j]).len()
                > 0 && trim(ls[j])[0] == '#') && (contains(lowercase(trim(ls[j])), "error"@)
                || contains(lowercase(trim(ls[j])), "failed"@) || contains(
                lowercase(trim(ls[j])),
                "unavailable"@,
            )))) implies error_hint(body, pattern) == trim(ls[i]) by {
        lemma_first_error_line_at(ls, 0, i);
    }
    if forall|j: int|
        0 <= j < ls.len() ==> !(10 < byte_len(trim(#[trigger] ls[j])) < 200 && !(trim(
            ls[j],
        ).len() > 0 && trim(ls[j])[0] == '#') && (contains(lowercase(trim(ls[j])), "error"@)
            || contains(lowercase(trim(ls[j])), "failed"@) || contains(
            lowercase(trim(ls[j])),
            "unavailable"@,
        ))) {
        lemma_first_error_line_none(ls, 0);
    }
}

/// The exit code of each kind of error: 1 for a network failure, 2 for a
/// validation error, 3 for a jina.ai service error, 4 for a rate limit and
/// 5 for a target-site error.
pub proof fn lemma_exit_code_table(e: FetchErrorView)
    ensures
        e is Network ==> exit_code_of(e) == 1,
        e is Validation ==> exit_code_of(e) == 2,
        e is JinaService ==> exit_code_of(e) == 3,
        e is RateLimited ==> exit_code_of(e) == 4,
        e is TargetSite ==> exit_code_of(e) == 5,
{
}

/// A transport failure is transient when it timed out, failed to connect,
/// or failed on the body or its decoding; a builder or redirect failure is
/// not; otherwise the status decides (429, 500, 502, 503 and 504 are
/// transient, other statuses are not), and a failure of unknown kind is
/// transient.
pub proof fn lemma_transient_cases(e: TransportError)
    ensures
        e.timeout || e.connect ==> transient(e),
        !e.timeout && !e.connect && e.builder ==> !transient(e),
        !e.timeout && !e.connect && !e.builder && (e.body || e.decode) ==> transient(e),
        !e.timeout && !e.connect && !e.builder && !e.body && !e.decode && e.redirect ==> !transient(
            e,
        ),
        !e.timeout && !e.connect && !e.builder && !e.body && !e.decode && !e.redirect ==> match e.status {
            Some(s) => transient(e) <==> (s == 429 || s == 500 || s == 502 || s == 503 || s == 504),
            None => transient(e),
        },
{
}

/// The message of a jina.ai service error shows the status and at most the
/// first 200 characters of the body.
pub proof fn lemma_service_message_shows_body(status: u16, body: Seq<char>)
    ensures
        error_message(FetchErrorView::JinaService { status, body }) == "jina.ai service error ("@
            + status_text(status) + "): "@ + (if body.len() <= 200 {
            body
        } else {
            body.subrange(0, 200)
        }),
{
}

/// A retried error never maps to the validation or the target-site exit
/// code: those failures are final.
pub proof fn lemma_retryable_exit_codes(e: FetchErrorView)
    ensures
        retryable(e) ==> exit_code_of(e) == 1 || exit_code_of(e) == 3 || exit_code_of(e) == 4,
        1 <= exit_code_of(e) <= 5,
{
}

/// Two errors of different kinds have different exit codes.
pub proof fn lemma_exit_code_identifies_kind(a: FetchErrorView, b: FetchErrorView)
    requires
        exit_code_of(a) == exit_code_of(b),
    ensures
        (a is Network) == (b is Network),
        (a is Validation) == (b is Validation),
        (a is JinaService) == (b is JinaService),
        (a is RateLimited) == (b is RateLimited),
        (a is TargetSite) == (b is TargetSite),
{
}

} // verus!
