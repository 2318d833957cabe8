//! The follower's HTTP client: its configuration, the requests it sends,
//! the retry schedule, and the decisions of a catch-up run.
//!
//! Connecting, writing, reading, and sleeping happen outside this module;
//! each of them is driven by a value computed here.
use vstd::prelude::*;
use crate::text::{chars_of, concat, decimal, decimal_text, same_text};
use crate::replication::{InvalidReason, ReplicationError};
use crate::replication::transport::MAX_REPLICATION_ENTRY_BATCH;
use crate::replication::log::{ApplyOutcome, ReplicationLog, last_index};
use crate::replication::transport::ReplicationEntryBatch;
use super::protocol::{
    ConfigProblem, ReplicationHttpError, ReplicationHttpStatus, ReplicationProgressResponse,
    ReplicationSyncResult, invalid, is_valid_bearer_token, valid_bearer_token,
};
use super::response::HttpReply;
use super::url::{UrlOutcome, has_char, parse_base_url, spec_parse_base_url};

verus! {

/// The timeout of a new client, in nanoseconds (ten seconds).
pub const DEFAULT_TIMEOUT_NANOS: u128 = 10_000_000_000;

/// The most attempts that a retry policy may allow for one request.
pub const MAX_RETRY_ATTEMPTS: usize = 8;

/// The longest pause that a retry policy may allow, in nanoseconds (thirty seconds).
pub const MAX_RETRY_BACKOFF_NANOS: u128 = 30_000_000_000;

/// How often, and after which pauses, a failed request is sent again.
///
/// Pauses are whole nanoseconds. The first retry waits the initial backoff;
/// each later one waits twice the previous pause, capped at the maximum.
#[derive(Debug, Clone, Copy, PartialEq, Eq, Structural)]
pub struct ReplicationRetryPolicy {
    max_attempts: usize,
    initial_backoff_nanos: u128,
    max_backoff_nanos: u128,
}

/// A retry policy as numbers.
pub struct RetryPolicyView {
    pub max_attempts: usize,
    pub initial_backoff_nanos: u128,
    pub max_backoff_nanos: u128,
}

impl View for ReplicationRetryPolicy {
    type V = RetryPolicyView;

    closed spec fn view(&self) -> RetryPolicyView {
        RetryPolicyView {
            max_attempts: self.max_attempts,
            initial_backoff_nanos: self.initial_backoff_nanos,
            max_backoff_nanos: self.max_backoff_nanos,
        }
    }
}

/// The bounds that every retry policy keeps.
pub open spec fn retry_policy_valid(p: RetryPolicyView) -> bool {
    &&& 1 <= p.max_attempts <= MAX_RETRY_ATTEMPTS
    &&& p.initial_backoff_nanos <= p.max_backoff_nanos <= MAX_RETRY_BACKOFF_NANOS
}

/// Three attempts, pausing 50 ms and then up to one second.
pub open spec fn default_retry_policy() -> RetryPolicyView {
    RetryPolicyView { max_attempts: 3, initial_backoff_nanos: 50_000_000, max_backoff_nanos: 1_000_000_000 }
}

/// Whether a failed request may be sent again: I/O failures and the
/// transient HTTP statuses 408, 429, 500, 502, 503, and 504.
pub open spec fn retryable(error: ReplicationHttpError) -> bool {
    match error {
        ReplicationHttpError::Io(_) => true,
        ReplicationHttpError::HttpStatus { status, .. } => status == 408 || status == 429 || status == 500
            || status == 502 || status == 503 || status == 504,
        _ => false,
    }
}

/// What follows a failed attempt under policy `p` at schedule `s`: the
/// pause before the next attempt and its schedule, or nothing.
pub open spec fn retry_step(p: RetryPolicyView, s: RetryStateView, transient: bool) -> Option<(u128, RetryStateView)> {
    if s.attempt < p.max_attempts && transient {
        Some((
            s.backoff_nanos,
            RetryStateView {
                attempt: (s.attempt + 1) as usize,
                backoff_nanos: if 2 * s.backoff_nanos <= p.max_backoff_nanos {
                    (2 * s.backoff_nanos) as u128
                } else {
                    p.max_backoff_nanos
                },
            },
        ))
    } else {
        None
    }
}

/// Where a request stands in its retry schedule: the attempt about to be
/// made (counting from one) and the pause before the attempt after it.
#[derive(Debug, Clone, Copy, PartialEq, Eq, Structural)]
pub struct RetryState {
    attempt: usize,
    backoff_nanos: u128,
}

/// A retry state as numbers.
pub struct RetryStateView {
    pub attempt: usize,
    pub backoff_nanos: u128,
}

impl View for RetryState {
    type V = RetryStateView;

    closed spec fn view(&self) -> RetryStateView {
        RetryStateView { attempt: self.attempt, backoff_nanos: self.backoff_nanos }
    }
}

impl RetryState {
    #[verifier::type_invariant]
    closed spec fn wf(self) -> bool {
        1 <= self.attempt <= MAX_RETRY_ATTEMPTS && self.backoff_nanos <= MAX_RETRY_BACKOFF_NANOS
    }

    /// The attempt about to be made, counted from one.
    pub fn attempt(&self) -> (r: usize)
        ensures
            r == self@.attempt,
    {
        self.attempt
    }

    /// The pause before the next attempt, in nanoseconds.
    pub fn backoff_nanos(&self) -> (r: u128)
        ensures
            r == self@.backoff_nanos,
    {
        self.backoff_nanos
    }
}

impl ReplicationRetryPolicy {
    #[verifier::type_invariant]
    closed spec fn wf(self) -> bool {
        retry_policy_valid(self@)
    }

    /// Accepts between one and eight attempts and ordered pauses of at most
    /// thirty seconds.
    pub fn new(max_attempts: usize, initial_backoff_nanos: u128, max_backoff_nanos: u128) -> (r: Result<Self, ReplicationHttpError>)
        ensures
            match r {
                Ok(p) => p@ == (RetryPolicyView { max_attempts, initial_backoff_nanos, max_backoff_nanos }),
                Err(e) => if !(1 <= max_attempts <= MAX_RETRY_ATTEMPTS) {
                    e == ReplicationHttpError::InvalidConfig(ConfigProblem::RetryAttemptsOutOfRange)
                } else {
                    e == ReplicationHttpError::InvalidConfig(ConfigProblem::RetryBackoffUnordered)
                },
            },
            r is Ok <==> retry_policy_valid(RetryPolicyView { max_attempts, initial_backoff_nanos, max_backoff_nanos }),
    {
        if !(1 <= max_attempts && max_attempts <= MAX_RETRY_ATTEMPTS) {
            return Err(ReplicationHttpError::InvalidConfig(ConfigProblem::RetryAttemptsOutOfRange));
        }
        if initial_backoff_nanos > max_backoff_nanos || max_backoff_nanos > MAX_RETRY_BACKOFF_NANOS {
            return Err(ReplicationHttpError::InvalidConfig(ConfigProblem::RetryBackoffUnordered));
        }
        Ok(ReplicationRetryPolicy { max_attempts, initial_backoff_nanos, max_backoff_nanos })
    }

    /// The most attempts that one request makes.
    pub fn max_attempts(&self) -> (r: usize)
        ensures
            r == self@.max_attempts,
    {
        self.max_attempts
    }

    /// The pause after the first failed attempt, in nanoseconds.
    pub fn initial_backoff_nanos(&self) -> (r: u128)
        ensures
            r == self@.initial_backoff_nanos,
    {
        self.initial_backoff_nanos
    }

    /// The longest pause between two attempts, in nanoseconds.
    pub fn max_backoff_nanos(&self) -> (r: u128)
        ensures
            r == self@.max_backoff_nanos,
    {
        self.max_backoff_nanos
    }

    /// The schedule of a request before its first attempt.
    pub fn first_attempt(&self) -> (r: RetryState)
        ensures
            r@ == (RetryStateView { attempt: 1, backoff_nanos: self@.initial_backoff_nanos }),
    {
        proof {
            use_type_invariant(self);
        }
        RetryState { attempt: 1, backoff_nanos: self.initial_backoff_nanos }
    }

    /// Decides what follows a failed attempt: nothing, when the attempts are
    /// spent or the failure is not transient; otherwise the pause to take and
    /// the schedule of the next attempt, whose pause doubles up to the maximum.
    pub fn after_failure(&self, state: &RetryState, error: &ReplicationHttpError) -> (r: Option<(u128, RetryState)>)
        ensures
            match retry_step(self@, state@, retryable(*error)) {
                Some((pause, next)) => r matches Some((p, n)) && p == pause && n@ == next,
                None => r is None,
            },
    {
        proof {
            use_type_invariant(self);
            use_type_invariant(state);
        }
        if state.attempt < self.max_attempts && error.is_retryable() {
            let doubled = state.backoff_nanos * 2;
            let next_backoff = if doubled <= self.max_backoff_nanos { doubled } else { self.max_backoff_nanos };
            Some((state.backoff_nanos, RetryState { attempt: state.attempt + 1, backoff_nanos: next_backoff }))
        } else {
            None
        }
    }
}

impl Default for ReplicationRetryPolicy {
    fn default() -> (r: Self)
        ensures
            r@ == default_retry_policy(),
    {
        ReplicationRetryPolicy { max_attempts: 3, initial_backoff_nanos: 50_000_000, max_backoff_nanos: 1_000_000_000 }
    }
}

impl ReplicationHttpError {
    /// Whether the request that failed this way may be sent again.
    pub fn is_retryable(&self) -> (r: bool)
        ensures
            r == retryable(*self),
    {
        match self {
            ReplicationHttpError::Io(_) => true,
            ReplicationHttpError::HttpStatus { status, .. } => *status == 408 || *status == 429 || *status == 500
                || *status == 502 || *status == 503 || *status == 504,
            _ => false,
        }
    }
}

/// What a complete response comes to: its body for a 2xx status, else the
/// status error with the code and message of the error envelope that the
/// body held (`envelope`, none where the body is no such envelope), the
/// default message standing in for a missing one.
pub fn reply_result(reply: HttpReply, envelope: Option<(Option<String>, Option<String>)>) -> (r: Result<Vec<u8>, ReplicationHttpError>)
    ensures
        200 <= reply.status < 300 ==> (r matches Ok(body) && body@ == reply.body@),
        !(200 <= reply.status < 300) ==> (r matches Err(ReplicationHttpError::HttpStatus { status, code, message })
            && status == reply.status && code == (match envelope {
            Some((c, _)) => c,
            None => None,
        }) && message@ == (match envelope {
            Some((_, Some(m))) => m@,
            _ => "replication request failed"@,
        })),
{
    if reply.is_success() {
        return Ok(reply.body);
    }
    let (code, message) = match envelope {
        Some((c, m)) => (c, m),
        None => (None, None),
    };
    Err(http_status_error(reply.status, code, message))
}

/// The authority answered that the entries asked for were compacted away.
pub open spec fn history_unavailable(error: ReplicationHttpError) -> bool {
    error matches ReplicationHttpError::HttpStatus { status, code: Some(code), .. }
        && status == 409 && code@ == "replication_history_unavailable"@
}

/// The peer has compacted the history that was asked for.
pub fn is_history_unavailable(error: &ReplicationHttpError) -> (r: bool)
    ensures
        r == history_unavailable(*error),
{
    match error {
        ReplicationHttpError::HttpStatus { status, code: Some(code), .. } => *status == 409 && same_text(
            code,
            "replication_history_unavailable",
        ),
        _ => false,
    }
}

/// The error for a non-success status, from the code and message of the
/// error document that came with it, when it had them.
pub fn http_status_error(status: u16, code: Option<String>, message: Option<String>) -> (r: ReplicationHttpError)
    ensures
        r matches ReplicationHttpError::HttpStatus { status: s, code: c, message: m } && s == status && c == code
            && m@ == match message {
            Some(m) => m@,
            None => "replication request failed"@,
        },
{
    let message = match message {
        Some(m) => m,
        None => "replication request failed".to_owned(),
    };
    ReplicationHttpError::HttpStatus { status, code, message }
}

/// A page limit between one and the largest page, or the error for another.
pub open spec fn entry_limit_error(limit: usize) -> Option<ReplicationHttpError> {
    if 1 <= limit <= MAX_REPLICATION_ENTRY_BATCH {
        None
    } else {
        Some(ReplicationHttpError::Replication(ReplicationError::Invalid(InvalidReason::BatchLimitOutOfRange)))
    }
}

/// Checks the page size asked of a peer.
pub fn check_entry_limit(limit: usize) -> (r: Result<(), ReplicationHttpError>)
    ensures
        match entry_limit_error(limit) {
            Some(e) => r == Err::<(), ReplicationHttpError>(e),
            None => r is Ok,
        },
{
    if !(1 <= limit && limit <= MAX_REPLICATION_ENTRY_BATCH) {
        return Err(ReplicationHttpError::Replication(ReplicationError::Invalid(InvalidReason::BatchLimitOutOfRange)));
    }
    Ok(())
}

/// The route path of the page of at most `limit` entries after `after_index`.
pub open spec fn entries_path(after_index: u64, limit: usize) -> Seq<char> {
    "/replication/entries?after="@ + decimal(after_index as nat) + "&limit="@ + decimal(limit as nat)
}

/// The route path for a page of entries, once the limit is checked.
pub fn entries_request_path(after_index: u64, limit: usize) -> (r: Result<String, ReplicationHttpError>)
    ensures
        match entry_limit_error(limit) {
            Some(e) => r == Err::<String, ReplicationHttpError>(e),
            None => r matches Ok(p) && p@ == entries_path(after_index, limit),
        },
{
    if let Err(e) = check_entry_limit(limit) {
        return Err(e);
    }
    let head = concat("/replication/entries?after=", &decimal_text(after_index));
    let head = concat(&head, "&limit=");
    Ok(concat(&head, &decimal_text(limit as u64)))
}


/// A client for the replication routes of one authority, reached over
/// plain HTTP at a host and port under a base path.
#[derive(Debug)]
pub struct ReplicationHttpClient {
    host: String,
    port: u16,
    host_header: String,
    base_path: String,
    timeout_nanos: u128,
    bearer_token: Option<String>,
    retry_policy: ReplicationRetryPolicy,
}

/// A client's settings as plain values.
pub struct ClientView {
    pub host: Seq<char>,
    pub port: u16,
    pub host_header: Seq<char>,
    pub base_path: Seq<char>,
    pub timeout_nanos: u128,
    pub bearer_token: Option<Seq<char>>,
    pub retry_policy: RetryPolicyView,
}

/// The text of a bearer token, where there is one.
pub open spec fn token_view(t: Option<String>) -> Option<Seq<char>> {
    match t {
        Some(s) => Some(s@),
        None => None,
    }
}

impl View for ReplicationHttpClient {
    type V = ClientView;

    closed spec fn view(&self) -> ClientView {
        ClientView {
            host: self.host@,
            port: self.port,
            host_header: self.host_header@,
            base_path: self.base_path@,
            timeout_nanos: self.timeout_nanos,
            bearer_token: token_view(self.bearer_token),
            retry_policy: self.retry_policy@,
        }
    }
}

/// An endpoint path starts with '/' and holds no space, CR, or LF.
pub open spec fn endpoint_path_valid(path: Seq<char>) -> bool {
    &&& path.len() > 0
    &&& path[0] == '/'
    &&& !has_char(path, ' ')
    &&& !has_char(path, '\r')
    &&& !has_char(path, '\n')
}

/// The request target of an endpoint path under a base path.
pub open spec fn request_target(base_path: Seq<char>, path: Seq<char>) -> Seq<char> {
    if base_path == seq!['/'] {
        path
    } else {
        base_path + path
    }
}

/// The request line and headers of a request, up to and including the blank
/// line that ends them.
pub open spec fn request_head(c: ClientView, method: Seq<char>, target: Seq<char>, body_len: Option<usize>) -> Seq<char> {
    let start = method + " "@ + target + " HTTP/1.1\r\nHost: "@ + c.host_header
        + "\r\nAccept: application/json\r\nConnection: close\r\n"@;
    let auth = match c.bearer_token {
        Some(t) => "Authorization: Bearer "@ + t + "\r\n"@,
        None => Seq::empty(),
    };
    let content = match body_len {
        Some(n) => "Content-Type: application/json\r\nContent-Length: "@ + decimal(n as nat) + "\r\n"@,
        None => Seq::empty(),
    };
    start + auth + content + "\r\n"@
}

impl ReplicationHttpClient {
    /// Creates a client for the replication routes under a plain `http://`
    /// base URL, with a ten-second timeout, no credential, and the default
    /// retry policy.
    pub fn new(base_url: &str) -> (r: Result<Self, ReplicationHttpError>)
        ensures
            match spec_parse_base_url(base_url@) {
                UrlOutcome::Parsed { host, port, host_header, base_path } => r matches Ok(c) && c@ == (ClientView {
                    host,
                    port,
                    host_header,
                    base_path,
                    timeout_nanos: DEFAULT_TIMEOUT_NANOS,
                    bearer_token: None,
                    retry_policy: default_retry_policy(),
                }),
                UrlOutcome::UnsupportedScheme(scheme) => r matches Err(ReplicationHttpError::UnsupportedScheme(x))
                    && x@ == scheme,
                UrlOutcome::Problem(problem) => r matches Err(ReplicationHttpError::InvalidUrl(x)) && x == problem,
            },
    {
        let (host, port, host_header, base_path) = match parse_base_url(base_url) {
            Ok(parts) => parts,
            Err(e) => {
                return Err(e);
            },
        };
        Ok(ReplicationHttpClient {
            host,
            port,
            host_header,
            base_path,
            timeout_nanos: DEFAULT_TIMEOUT_NANOS,
            bearer_token: None,
            retry_policy: ReplicationRetryPolicy::default(),
        })
    }

    /// Sets the connect, read, and write timeout; it must be positive.
    pub fn with_timeout(self, timeout_nanos: u128) -> (r: Result<Self, ReplicationHttpError>)
        ensures
            timeout_nanos == 0 ==> (r matches Err(e) && e == ReplicationHttpError::InvalidConfig(ConfigProblem::ZeroTimeout)),
            timeout_nanos > 0 ==> (r matches Ok(c) && c@ == (ClientView { timeout_nanos, ..self@ })),
    {
        if timeout_nanos == 0 {
            return Err(ReplicationHttpError::InvalidConfig(ConfigProblem::ZeroTimeout));
        }
        Ok(ReplicationHttpClient { timeout_nanos, ..self })
    }

    /// Sets the bearer credential sent with every request; it must be
    /// token68 text, so that it cannot break the request headers.
    pub fn with_bearer_token(self, token: String) -> (r: Result<Self, ReplicationHttpError>)
        ensures
            !valid_bearer_token(token@) ==> (r matches Err(e) && e == ReplicationHttpError::InvalidConfig(
                ConfigProblem::BearerTokenCharacters,
            )),
            valid_bearer_token(token@) ==> (r matches Ok(c) && c@ == (ClientView { bearer_token: Some(token@), ..self@ })),
    {
        if !is_valid_bearer_token(&token) {
            return Err(ReplicationHttpError::InvalidConfig(ConfigProblem::BearerTokenCharacters));
        }
        Ok(ReplicationHttpClient { bearer_token: Some(token), ..self })
    }

    /// The client with another retry policy.
    pub fn with_retry_policy(self, retry_policy: ReplicationRetryPolicy) -> (r: Self)
        ensures
            r@ == (ClientView { retry_policy: retry_policy@, ..self@ }),
    {
        ReplicationHttpClient { retry_policy, ..self }
    }

    /// The host that requests go to.
    pub fn host(&self) -> (r: &str)
        ensures
            r@ == self@.host,
    {
        self.host.as_str()
    }

    /// The port that requests go to.
    pub fn port(&self) -> (r: u16)
        ensures
            r == self@.port,
    {
        self.port
    }

    /// The time allowed for one request, in nanoseconds.
    pub fn timeout_nanos(&self) -> (r: u128)
        ensures
            r == self@.timeout_nanos,
    {
        self.timeout_nanos
    }

    /// The retry policy of this client.
    pub fn retry_policy(&self) -> (r: ReplicationRetryPolicy)
        ensures
            r@ == self@.retry_policy,
    {
        self.retry_policy
    }

    /// The request target of an endpoint path under this client's base path.
    pub fn target(&self, path: &str) -> (r: Result<String, ReplicationHttpError>)
        ensures
            endpoint_path_valid(path@) ==> (r matches Ok(t) && t@ == request_target(self@.base_path, path@)),
            !endpoint_path_valid(path@) ==> (r matches Err(e) && e == ReplicationHttpError::InvalidConfig(
                ConfigProblem::EndpointPathInvalid,
            )),
    {
        proof {
            reveal_strlit("/");
        }
        let chars = chars_of(path);
        if chars.len() == 0 || chars[0] != '/' {
            return Err(ReplicationHttpError::InvalidConfig(ConfigProblem::EndpointPathInvalid));
        }
        let mut i: usize = 0;
        while i < chars.len()
            invariant
                chars@ == path@,
                i <= chars.len(),
                forall|j: int| 0 <= j < i ==> chars@[j] != ' ' && chars@[j] != '\r' && chars@[j] != '\n',
            decreases chars.len() - i,
        {
            let c = chars[i];
            if c == ' ' || c == '\r' || c == '\n' {
                assert(path@[i as int] == c);
                assert(has_char(path@, c)) by {
                    reveal(has_char);
                }
                return Err(ReplicationHttpError::InvalidConfig(ConfigProblem::EndpointPathInvalid));
            }
            i += 1;
        }
        assert(!has_char(path@, ' ') && !has_char(path@, '\r') && !has_char(path@, '\n')) by {
            reveal(has_char);
        }
        if same_text(&self.base_path, "/") {
            assert(self@.base_path =~= seq!['/']);
            Ok(path.to_owned())
        } else {
            assert(self@.base_path != seq!['/']) by {
                reveal_strlit("/");
                assert("/"@ =~= seq!['/']);
            }
            Ok(concat(&self.base_path, path))
        }
    }

    /// The request line and headers for `method` on an endpoint path, with
    /// a JSON body of `body_len` bytes when there is one.
    pub fn request_head(&self, method: &str, path: &str, body_len: Option<usize>) -> (r: Result<String, ReplicationHttpError>)
        ensures
            endpoint_path_valid(path@) ==> (r matches Ok(h) && h@ == request_head(
                self@,
                method@,
                request_target(self@.base_path, path@),
                body_len,
            )),
            !endpoint_path_valid(path@) ==> (r matches Err(e) && e == ReplicationHttpError::InvalidConfig(
                ConfigProblem::EndpointPathInvalid,
            )),
    {
        let target = match self.target(path) {
            Ok(t) => t,
            Err(e) => {
                return Err(e);
            },
        };
        let h = concat(method, " ");
        let h = concat(&h, &target);
        let h = concat(&h, " HTTP/1.1\r\nHost: ");
        let h = concat(&h, &self.host_header);
        let mut h = concat(&h, "\r\nAccept: application/json\r\nConnection: close\r\n");
        let ghost start = h@;
        if let Some(token) = &self.bearer_token {
            h = concat(&h, "Authorization: Bearer ");
            h = concat(&h, token);
            h = concat(&h, "\r\n");
        }
        let ghost with_auth = h@;
        assert(with_auth =~= start + match self@.bearer_token {
            Some(t) => "Authorization: Bearer "@ + t + "\r\n"@,
            None => Seq::<char>::empty(),
        });
        if let Some(n) = body_len {
            h = concat(&h, "Content-Type: application/json\r\nContent-Length: ");
            h = concat(&h, &decimal_text(n as u64));
            h = concat(&h, "\r\n");
        }
        assert(h@ =~= with_auth + match body_len {
            Some(n) => "Content-Type: application/json\r\nContent-Length: "@ + decimal(n as nat) + "\r\n"@,
            None => Seq::<char>::empty(),
        });
        let r = concat(&h, "\r\n");
        assert(r@ =~= request_head(self@, method@, request_target(self@.base_path, path@), body_len));
        Ok(r)
    }
}

/// What a catch-up run does next.
#[derive(Debug, Clone, Copy, PartialEq, Eq, Structural)]
pub enum CatchUpStep {
    /// Fetch the authority's snapshot and install it locally.
    InstallSnapshot,
    /// Fetch the page of entries after the local log's last index and deliver it.
    FetchEntries { after_index: u64, limit: usize },
    /// The local log has reached the authority's position: acknowledge it.
    Acknowledge,
}

/// The state of one catch-up run of a follower against its authority.
#[derive(Debug)]
pub struct CatchUp {
    limit: usize,
    target_index: u64,
    snapshot_installed: bool,
    snapshot_attempted: bool,
    snapshot_pending: bool,
    entries_applied: usize,
}

/// A catch-up run's state as plain values.
pub struct CatchUpView {
    pub limit: usize,
    pub target_index: u64,
    pub snapshot_installed: bool,
    pub snapshot_attempted: bool,
    pub snapshot_pending: bool,
    pub entries_applied: usize,
}

impl View for CatchUp {
    type V = CatchUpView;

    closed spec fn view(&self) -> CatchUpView {
        CatchUpView {
            limit: self.limit,
            target_index: self.target_index,
            snapshot_installed: self.snapshot_installed,
            snapshot_attempted: self.snapshot_attempted,
            snapshot_pending: self.snapshot_pending,
            entries_applied: self.entries_applied,
        }
    }
}

/// How a catch-up run starts from the authority's status, or why it stops.
pub open spec fn catch_up_start(
    limit: usize,
    status: ReplicationHttpStatus,
    log: crate::replication::log::LogView,
    local_schema_tag: String,
) -> Result<CatchUpView, ReplicationHttpError> {
    if entry_limit_error(limit) is Some {
        Err(entry_limit_error(limit).unwrap())
    } else if status.role@ != "authority"@ {
        Err(invalid(InvalidReason::CatchUpRequiresAuthority))
    } else if status.term != log.term {
        Err(ReplicationHttpError::Replication(ReplicationError::TermMismatch { expected: log.term, actual: status.term }))
    } else if status.schema_tag@ != local_schema_tag@ {
        Err(ReplicationHttpError::Replication(ReplicationError::SchemaMismatch {
            expected: local_schema_tag,
            actual: status.schema_tag,
        }))
    } else if status.last_index < last_index(log) {
        Err(ReplicationHttpError::Replication(ReplicationError::EntriesUnavailable {
            requested: last_index(log) as u64,
            applied: status.last_index,
        }))
    } else {
        Ok(CatchUpView {
            limit,
            target_index: status.last_index,
            snapshot_installed: false,
            snapshot_attempted: false,
            snapshot_pending: last_index(log) < status.base_index,
            entries_applied: 0,
        })
    }
}

/// The next step of a run whose local log ends at `last`.
pub open spec fn catch_up_step(c: CatchUpView, last: int) -> CatchUpStep {
    if c.snapshot_pending {
        CatchUpStep::InstallSnapshot
    } else if last < c.target_index {
        CatchUpStep::FetchEntries { after_index: last as u64, limit: c.limit }
    } else {
        CatchUpStep::Acknowledge
    }
}

/// The run after a snapshot installation with outcome `outcome`.
pub open spec fn snapshot_recorded(c: CatchUpView, outcome: ApplyOutcome) -> CatchUpView {
    CatchUpView {
        snapshot_installed: outcome is SnapshotInstalled || outcome is SnapshotDuplicate,
        snapshot_attempted: true,
        snapshot_pending: false,
        ..c
    }
}

/// The run after a failed page request, or nothing when the failure ends
/// it: compacted history leads to one snapshot attempt per run.
pub open spec fn page_failure(c: CatchUpView, compacted: bool) -> Option<CatchUpView> {
    if compacted && !c.snapshot_attempted {
        Some(CatchUpView { snapshot_pending: true, ..c })
    } else {
        None
    }
}

/// The number of entries that a page of outcomes applied.
pub open spec fn applied_count(outcomes: Seq<ApplyOutcome>) -> nat
    decreases outcomes.len(),
{
    if outcomes.len() == 0 {
        0
    } else {
        applied_count(outcomes.drop_last()) + if outcomes.last() is Applied { 1nat } else { 0nat }
    }
}

impl CatchUp {
    /// Starts a run from the authority's validated status: the authority
    /// must lead the same term with the same schema and not be behind the
    /// local log. A snapshot comes first when the local log ends before the
    /// authority's retained history.
    pub fn begin(
        limit: usize,
        status: &ReplicationHttpStatus,
        log: &ReplicationLog,
        local_schema_tag: &String,
    ) -> (r: Result<CatchUp, ReplicationHttpError>)
        requires
            log.inv(),
        ensures
            match catch_up_start(limit, *status, log@, *local_schema_tag) {
                Ok(v) => r matches Ok(c) && c@ == v,
                Err(e) => r matches Err(x) && x == e,
            },
    {
        if let Err(e) = check_entry_limit(limit) {
            return Err(e);
        }
        if !same_text(&status.role, "authority") {
            return Err(ReplicationHttpError::Replication(ReplicationError::Invalid(InvalidReason::CatchUpRequiresAuthority)));
        }
        if status.term != log.term() {
            return Err(ReplicationHttpError::Replication(ReplicationError::TermMismatch {
                expected: log.term(),
                actual: status.term,
            }));
        }
        if !same_text(&status.schema_tag, local_schema_tag) {
            return Err(ReplicationHttpError::Replication(ReplicationError::SchemaMismatch {
                expected: local_schema_tag.clone(),
                actual: status.schema_tag.clone(),
            }));
        }
        let last = log.last_index();
        if status.last_index < last {
            return Err(ReplicationHttpError::Replication(ReplicationError::EntriesUnavailable {
                requested: last,
                applied: status.last_index,
            }));
        }
        Ok(CatchUp {
            limit,
            target_index: status.last_index,
            snapshot_installed: false,
            snapshot_attempted: false,
            snapshot_pending: last < status.base_index,
            entries_applied: 0,
        })
    }

    /// The next step for a local log at its current position: a pending
    /// snapshot first, then pages until the target, then the acknowledgement.
    pub fn next_step(&self, log: &ReplicationLog) -> (r: CatchUpStep)
        requires
            log.inv(),
        ensures
            r == catch_up_step(self@, last_index(log@)),
    {
        if self.snapshot_pending {
            return CatchUpStep::InstallSnapshot;
        }
        let last = log.last_index();
        if last < self.target_index {
            CatchUpStep::FetchEntries { after_index: last, limit: self.limit }
        } else {
            CatchUpStep::Acknowledge
        }
    }

    /// Records the outcome of a snapshot installation.
    pub fn snapshot_done(&mut self, outcome: ApplyOutcome)
        ensures
            final(self)@ == snapshot_recorded(old(self)@, outcome),
    {
        self.snapshot_installed = match outcome {
            ApplyOutcome::SnapshotInstalled { .. } | ApplyOutcome::SnapshotDuplicate { .. } => true,
            _ => false,
        };
        self.snapshot_attempted = true;
        self.snapshot_pending = false;
    }

    /// Handles a failed page request: history compacted away on the
    /// authority leads to one snapshot attempt per run; any other failure,
    /// or a second one, ends the run.
    pub fn entries_failed(&mut self, error: ReplicationHttpError) -> (r: Result<(), ReplicationHttpError>)
        ensures
            match page_failure(old(self)@, history_unavailable(error)) {
                Some(next) => r is Ok && final(self)@ == next,
                None => r == Err::<(), ReplicationHttpError>(error) && final(self)@ == old(self)@,
            },
    {
        if is_history_unavailable(&error) && !self.snapshot_attempted {
            self.snapshot_pending = true;
            return Ok(());
        }
        Err(error)
    }

    /// Checks that a fetched page starts where it was asked to and carries entries.
    pub fn check_page(&self, requested_after: u64, batch: &ReplicationEntryBatch) -> (r: Result<(), ReplicationHttpError>)
        ensures
            batch.after_index != requested_after ==> r == Err::<(), ReplicationHttpError>(invalid(
                InvalidReason::PageStartMismatch { actual: batch.after_index, expected: requested_after },
            )),
            batch.after_index == requested_after && batch.entries@.len() == 0 ==> r
                == Err::<(), ReplicationHttpError>(invalid(InvalidReason::PageMadeNoProgress)),
            batch.after_index == requested_after && batch.entries@.len() > 0 ==> r is Ok,
    {
        if batch.after_index != requested_after {
            return Err(ReplicationHttpError::Replication(ReplicationError::Invalid(
                InvalidReason::PageStartMismatch { actual: batch.after_index, expected: requested_after },
            )));
        }
        if batch.entries.len() == 0 {
            return Err(ReplicationHttpError::Replication(ReplicationError::Invalid(InvalidReason::PageMadeNoProgress)));
        }
        Ok(())
    }

    /// Records a delivered page: it counts the entries applied (the count
    /// saturating at `usize::MAX`), and the local log must have advanced past `before`, and must have reached the
    /// target when the page was the last one.
    pub fn page_applied(
        &mut self,
        before: u64,
        log: &ReplicationLog,
        outcomes: &Vec<ApplyOutcome>,
        next_after: Option<u64>,
    ) -> (r: Result<(), ReplicationHttpError>)
        requires
            log.inv(),
        ensures
            final(self)@ == (CatchUpView {
                entries_applied: crate::arith::sat_add(old(self)@.entries_applied, applied_count(outcomes@) as usize),
                ..old(self)@
            }),
            r == if last_index(log@) <= before {
                Err::<(), ReplicationHttpError>(invalid(InvalidReason::PageDidNotAdvance))
            } else if next_after is None && last_index(log@) < old(self)@.target_index {
                Err::<(), ReplicationHttpError>(invalid(InvalidReason::PageEndedEarly))
            } else {
                Ok(())
            },
    {
        let mut count: usize = 0;
        let mut i: usize = 0;
        while i < outcomes.len()
            invariant
                i <= outcomes@.len(),
                count == applied_count(outcomes@.subrange(0, i as int)),
                count <= i,
            decreases outcomes.len() - i,
        {
            assert(outcomes@.subrange(0, i + 1).drop_last() =~= outcomes@.subrange(0, i as int));
            if let ApplyOutcome::Applied { .. } = outcomes[i] {
                count += 1;
            }
            i += 1;
        }
        assert(outcomes@.subrange(0, outcomes@.len() as int) =~= outcomes@);
        self.entries_applied = self.entries_applied.saturating_add(count);
        let last = log.last_index();
        if last <= before {
            return Err(ReplicationHttpError::Replication(ReplicationError::Invalid(InvalidReason::PageDidNotAdvance)));
        }
        if next_after.is_none() && last < self.target_index {
            return Err(ReplicationHttpError::Replication(ReplicationError::Invalid(InvalidReason::PageEndedEarly)));
        }
        Ok(())
    }

    /// The result of a completed run, with the authority's answer to the
    /// follower's progress acknowledgement.
    pub fn finish(self, progress: ReplicationProgressResponse) -> (r: ReplicationSyncResult)
        ensures
            r.snapshot_installed == self@.snapshot_installed,
            r.entries_applied == self@.entries_applied,
            r.progress == progress,
    {
        ReplicationSyncResult {
            snapshot_installed: self.snapshot_installed,
            entries_applied: self.entries_applied,
            progress,
        }
    }
}

} // verus!
