//! The content provider seen from the bridge: the requests it is sent, how
//! its answers are classified, and when a failed call is tried again.

use vstd::prelude::*;
use crate::error::{Failure, FailureView, FsError};
use crate::text::owned;

verus! {

/// The root of the provider's API.
pub const GITHUB_API_URL: &'static str = "https://api.github.com";

/// A request to the provider, ready to be sent: the address and the three
/// headers every call carries.
#[derive(Debug)]
pub struct HttpRequest {
    pub url: String,
    pub accept: String,
    pub authorization: String,
    pub user_agent: String,
}

/// The address that lists the collections of the token's owner.
pub open spec fn repositories_url() -> Seq<char> {
    GITHUB_API_URL@ + "/user/repos"@
}

/// The address of `path` in `collection`: a directory's listing or a file's
/// content.
pub open spec fn contents_url(collection: Seq<char>, path: Seq<char>) -> Seq<char> {
    GITHUB_API_URL@ + "/repos/"@ + collection + "/contents/"@ + path
}

/// Whether a request goes to `url` with `token` as its credential.
pub open spec fn is_request(request: HttpRequest, url: Seq<char>, token: Seq<char>) -> bool {
    &&& request.url@ == url
    &&& request.accept@ == "application/vnd.github.v3+json"@
    &&& request.authorization@ == "Bearer "@ + token
    &&& request.user_agent@ == "GitHubFS"@
}

fn request_to(url: String, token: &str) -> (request: HttpRequest)
    ensures
        is_request(request, url@, token@),
{
    let mut authorization = owned("Bearer ");
    authorization.append(token);
    HttpRequest {
        url: url,
        accept: owned("application/vnd.github.v3+json"),
        authorization: authorization,
        user_agent: owned("GitHubFS"),
    }
}

/// The request that lists the collections.
pub fn repositories_request(token: &str) -> (request: HttpRequest)
    ensures
        is_request(request, repositories_url(), token@),
{
    let mut url = owned(GITHUB_API_URL);
    url.append("/user/repos");
    request_to(url, token)
}

/// The request for `path` in `collection`.
pub fn contents_request(token: &str, collection: &str, path: &str) -> (request: HttpRequest)
    ensures
        is_request(request, contents_url(collection@, path@), token@),
{
    let mut url = owned(GITHUB_API_URL);
    url.append("/repos/");
    url.append(collection);
    url.append("/contents/");
    url.append(path);
    request_to(url, token)
}

/// How a call to the provider ended.
#[derive(Debug)]
pub enum ProviderReply<T> {
    /// No answer arrived: the connection failed or timed out. Carries the
    /// transport's description of what went wrong.
    Unreachable(String),
    /// The provider answered with a status other than success: the status
    /// code, the status as it is written out, and the body meant for a
    /// person, if it could be read.
    Status(u16, String, Option<String>),
    /// The provider answered with success, but the body could not be
    /// understood. Carries the decoder's description of what went wrong.
    Malformed(String),
    /// The provider answered with success and this body.
    Body(T),
}

/// The error that a status other than success stands for: a rejected
/// credential, a missing path, a condition worth another attempt (timeout,
/// rate limit, server fault), or else an answer the bridge cannot make
/// sense of.
pub open spec fn status_error(status: u16) -> FsError {
    if status == 401 || status == 403 {
        FsError::AuthFailure
    } else if status == 404 {
        FsError::NotFound
    } else if status == 408 || status == 429 || (500 <= status && status <= 599) {
        FsError::TransientNetwork
    } else {
        FsError::DecodeError
    }
}

/// Classifies a status other than success.
pub fn classify_status(status: u16) -> (error: FsError)
    ensures
        error == status_error(status),
{
    if status == 401 || status == 403 {
        FsError::AuthFailure
    } else if status == 404 {
        FsError::NotFound
    } else if status == 408 || status == 429 || (500 <= status && status <= 599) {
        FsError::TransientNetwork
    } else {
        FsError::DecodeError
    }
}

/// The text of an answer's body, or the words that stand in for a body
/// that could not be read.
pub open spec fn body_text(body: Option<String>) -> Seq<char> {
    match body {
        Some(text) => text@,
        None => "No additional error message"@,
    }
}

/// The words for a call that got no answer.
pub open spec fn transport_message(detail: Seq<char>) -> Seq<char> {
    "Failed to send request to GitHub API: "@ + detail
}

/// The words for an answer with a status other than success: they carry
/// the status as written out and the text of the body.
pub open spec fn status_message(status: Seq<char>, body: Seq<char>) -> Seq<char> {
    "GitHub API request failed with status "@ + status + ": "@ + body
}

/// The words for a body that could not be understood.
pub open spec fn malformed_message(detail: Seq<char>) -> Seq<char> {
    "Failed to parse JSON response: "@ + detail
}

/// What a reply amounts to: its body, or the failure it stands for, with
/// the kind of the failure and the words that describe it.
pub open spec fn outcome_of<T>(reply: ProviderReply<T>) -> Result<T, FailureView> {
    match reply {
        ProviderReply::Unreachable(detail) => Err(
            FailureView { kind: FsError::TransientNetwork, message: transport_message(detail@) },
        ),
        ProviderReply::Status(code, status, body) => Err(
            FailureView { kind: status_error(code), message: status_message(status@, body_text(body)) },
        ),
        ProviderReply::Malformed(detail) => Err(
            FailureView { kind: FsError::DecodeError, message: malformed_message(detail@) },
        ),
        ProviderReply::Body(body) => Ok(body),
    }
}

/// The kind of failure a reply stands for, if it stands for one.
pub open spec fn error_of<T>(reply: ProviderReply<T>) -> Option<FsError> {
    match outcome_of(reply) {
        Err(failure) => Some(failure.kind),
        Ok(_) => None,
    }
}

/// The failure that an answer with a status other than success stands for.
pub fn status_failure(code: u16, status: &str, body: &Option<String>) -> (failure: Failure)
    ensures
        failure@ == (FailureView {
            kind: status_error(code),
            message: status_message(status@, body_text(*body)),
        }),
{
    let mut message = owned("GitHub API request failed with status ");
    message.append(status);
    message.append(": ");
    match body {
        Some(text) => message.append(text.as_str()),
        None => message.append("No additional error message"),
    }
    Failure { kind: classify_status(code), message: message }
}

/// Classifies a reply: transport failures, statuses and unreadable bodies
/// each keep a kind of their own, and each failure says in words what the
/// provider or the transport reported.
pub fn classify<T>(reply: ProviderReply<T>) -> (outcome: Result<T, Failure>)
    ensures
        match outcome {
            Ok(body) => outcome_of(reply) == Ok::<T, FailureView>(body),
            Err(failure) => outcome_of(reply) == Err::<T, FailureView>(failure@),
        },
{
    match reply {
        ProviderReply::Unreachable(detail) => {
            let mut message = owned("Failed to send request to GitHub API: ");
            message.append(detail.as_str());
            Err(Failure { kind: FsError::TransientNetwork, message: message })
        },
        ProviderReply::Status(code, status, body) => Err(status_failure(code, status.as_str(), &body)),
        ProviderReply::Malformed(detail) => {
            let mut message = owned("Failed to parse JSON response: ");
            message.append(detail.as_str());
            Err(Failure { kind: FsError::DecodeError, message: message })
        },
        ProviderReply::Body(body) => Ok(body),
    }
}

/// `base` doubled `times` times.
pub open spec fn doubled(base: nat, times: nat) -> nat
    decreases times,
{
    if times == 0 {
        base
    } else {
        2 * doubled(base, (times - 1) as nat)
    }
}

/// The wait before attempt `attempt + 1`: the base delay doubled once per
/// failed attempt before it, and never above the cap.
pub open spec fn backoff(base: u64, cap: u64, attempt: u32) -> nat {
    if doubled(base as nat, attempt as nat) < cap {
        doubled(base as nat, attempt as nat)
    } else {
        cap as nat
    }
}

/// Doubling never shrinks a delay.
pub proof fn lemma_doubled_grows(base: nat, a: nat, b: nat)
    requires
        a <= b,
    ensures
        doubled(base, a) <= doubled(base, b),
    decreases b,
{
    if a < b {
        lemma_doubled_grows(base, a, (b - 1) as nat);
    }
}

/// When a call that failed for a transient reason is tried again.
#[derive(Clone, Copy, Debug, PartialEq, Eq, Structural)]
pub struct RetryPolicy {
    /// The number of times a call is made at most, the first one counted.
    pub max_attempts: u32,
    /// The wait after the first failure, in milliseconds.
    pub base_delay_ms: u64,
    /// The longest wait, in milliseconds.
    pub max_delay_ms: u64,
}

impl RetryPolicy {
    /// The policy used unless configured otherwise: three attempts, waiting
    /// 200 ms after the first failure and never more than 5 s.
    pub fn standard() -> (policy: Self)
        ensures
            policy == (RetryPolicy { max_attempts: 3, base_delay_ms: 200, max_delay_ms: 5000 }),
    {
        RetryPolicy { max_attempts: 3, base_delay_ms: 200, max_delay_ms: 5000 }
    }

    /// Whether the call is made again after attempt number `attempt`,
    /// counted from zero, failed with `error`: only a transient failure is
    /// tried again, and only while attempts are left.
    pub open spec fn retries(self, error: FsError, attempt: u32) -> bool {
        error == FsError::TransientNetwork && attempt + 1 < self.max_attempts
    }

    /// What follows a reply to attempt number `attempt`: the wait before
    /// the next attempt, or `None` when the reply stands.
    pub open spec fn verdict<T>(self, reply: ProviderReply<T>, attempt: u32) -> Option<u64> {
        match error_of(reply) {
            Some(error) => if self.retries(error, attempt) {
                Some(backoff(self.base_delay_ms, self.max_delay_ms, attempt) as u64)
            } else {
                None
            },
            None => None,
        }
    }

    /// The wait after the failure numbered `attempt`, counted from zero.
    pub fn delay(&self, attempt: u32) -> (wait: u64)
        ensures
            wait == backoff(self.base_delay_ms, self.max_delay_ms, attempt),
    {
        let cap = self.max_delay_ms;
        let mut wait: u64 = if self.base_delay_ms < cap { self.base_delay_ms } else { cap };
        let mut i: u32 = 0;
        while i < attempt && wait < cap
            invariant
                i <= attempt,
                cap == self.max_delay_ms,
                wait == backoff(self.base_delay_ms, cap, i),
            decreases attempt - i,
        {
            assert(doubled(self.base_delay_ms as nat, (i + 1) as nat) == 2 * doubled(
                self.base_delay_ms as nat,
                i as nat,
            ));
            if wait > cap - wait {
                wait = cap;
            } else {
                wait = wait + wait;
            }
            i = i + 1;
        }
        proof {
            if i < attempt {
                lemma_doubled_grows(self.base_delay_ms as nat, i as nat, attempt as nat);
            }
        }
        wait
    }

    /// Decides what follows the failure of attempt number `attempt`,
    /// counted from zero: `Some` with the wait in milliseconds before the
    /// next attempt, or `None` when the error is to be surfaced.
    pub fn next_attempt(&self, error: FsError, attempt: u32) -> (wait: Option<u64>)
        ensures
            wait == (if self.retries(error, attempt) {
                Some(backoff(self.base_delay_ms, self.max_delay_ms, attempt) as u64)
            } else {
                None::<u64>
            }),
    {
        if error.is_retryable() && attempt < u32::MAX && attempt + 1 < self.max_attempts {
            Some(self.delay(attempt))
        } else {
            None
        }
    }

    /// Decides what follows a reply to attempt number `attempt`: a reply
    /// that stands for a transient failure is worth a wait and another
    /// attempt while attempts are left; any other reply stands.
    pub fn retry_after<T>(&self, reply: &ProviderReply<T>, attempt: u32) -> (wait: Option<u64>)
        ensures
            wait == self.verdict(*reply, attempt),
    {
        match reply {
            ProviderReply::Unreachable(_) => self.next_attempt(FsError::TransientNetwork, attempt),
            ProviderReply::Status(code, _, _) => self.next_attempt(classify_status(*code), attempt),
            ProviderReply::Malformed(_) => None,
            ProviderReply::Body(_) => None,
        }
    }
}

} // verus!
