//! Messages of the replication HTTP routes and their validation.
use vstd::prelude::*;
use crate::text::{chars_of, is_blank, same_text, spec_is_blank};
use crate::replication::{InvalidReason, ReplicationError, REPLICATION_TRANSPORT_VERSION};
use crate::replication::progress::{MAX_REPLICATION_FOLLOWERS, is_valid_follower_id, valid_follower_id};

verus! {

/// What is wrong with a replication base URL.
#[derive(Debug, Clone, Copy, PartialEq, Eq, Structural)]
pub enum UrlProblem {
    EmptyOrWhitespace,
    MissingScheme,
    HostWithUserInfo,
    QueryOrFragment,
    PathNotAscii,
    MissingBracket,
    EmptyHost,
    UnbracketedIpv6,
    TextAfterBracketedHost,
    InvalidPort,
    UnsupportedHostCharacter,
}

/// What is wrong with a client configuration value.
#[derive(Debug, Clone, Copy, PartialEq, Eq, Structural)]
pub enum ConfigProblem {
    RetryAttemptsOutOfRange,
    RetryBackoffUnordered,
    ZeroTimeout,
    BearerTokenCharacters,
    EndpointPathInvalid,
}

/// What is wrong with an HTTP response.
#[derive(Debug, Clone, Copy, PartialEq, Eq, Structural)]
pub enum ResponseProblem {
    TooLarge,
    HeadersIncomplete,
    HeadersTooLarge,
    HeadersNotUtf8,
    StatusLineMissing,
    StatusMissing,
    StatusInvalid,
    VersionInvalid,
    HeaderMalformed,
    ChunkedUnsupported,
    ContentLengthInvalid,
    ContentLengthRepeated,
    ContentLengthMissing,
    BodyTooLarge,
    ContentLengthMismatch { declared: usize, received: usize },
    Json,
}

/// Why a request to a replication peer failed.
#[derive(Debug)]
pub enum ReplicationHttpError {
    InvalidUrl(UrlProblem),
    UnsupportedScheme(String),
    InvalidConfig(ConfigProblem),
    Io(String),
    InvalidResponse(ResponseProblem),
    HttpStatus { status: u16, code: Option<String>, message: String },
    Replication(ReplicationError),
}

/// The error an invalid replication value yields over HTTP.
pub open spec fn invalid(reason: InvalidReason) -> ReplicationHttpError {
    ReplicationHttpError::Replication(ReplicationError::Invalid(reason))
}

/// `Err` with the error where there is one, else `Ok`.
pub open spec fn http_result(error: Option<ReplicationHttpError>) -> Result<(), ReplicationHttpError> {
    match error {
        Some(e) => Err(e),
        None => Ok(()),
    }
}

/// What a peer reports of its replication log.
#[derive(Debug)]
pub struct ReplicationHttpStatus {
    pub transport_version: u16,
    pub role: String,
    pub term: u64,
    pub base_index: u64,
    pub base_transaction_id: u64,
    pub last_index: u64,
    pub last_transaction_id: u64,
    pub follower_count: usize,
    pub safe_compaction_index: Option<u64>,
    pub schema_tag: String,
}

/// The first reason a status report is not valid, if any.
pub open spec fn status_error(s: ReplicationHttpStatus) -> Option<ReplicationHttpError> {
    let expected_last_transaction_id = s.base_transaction_id + (s.last_index - s.base_index);
    if s.transport_version != REPLICATION_TRANSPORT_VERSION {
        Some(invalid(InvalidReason::UnsupportedTransportVersion(s.transport_version)))
    } else if !(s.role@ == "authority"@ || s.role@ == "follower"@) {
        Some(invalid(InvalidReason::RoleInvalid))
    } else if s.term == 0 || s.base_index > s.last_index || s.base_transaction_id > s.last_transaction_id {
        Some(invalid(InvalidReason::StatusPositionInvalid))
    } else if expected_last_transaction_id > u64::MAX {
        Some(invalid(InvalidReason::TransactionIdExhausted))
    } else if s.last_transaction_id != expected_last_transaction_id {
        Some(ReplicationHttpError::Replication(ReplicationError::TransactionGap {
            expected: expected_last_transaction_id as u64,
            actual: s.last_transaction_id,
        }))
    } else if s.follower_count > MAX_REPLICATION_FOLLOWERS {
        Some(invalid(InvalidReason::StatusFollowerCountTooLarge))
    } else if s.safe_compaction_index matches Some(i) && i > s.last_index {
        Some(invalid(InvalidReason::SafeCompactionBeyondLast))
    } else if spec_is_blank(s.schema_tag@) {
        Some(invalid(InvalidReason::EmptySchemaTag))
    } else {
        None
    }
}

impl ReplicationHttpStatus {
    /// Checks a peer's status report.
    pub fn validate(&self) -> (r: Result<(), ReplicationHttpError>)
        ensures
            r == http_result(status_error(*self)),
    {
        if self.transport_version != REPLICATION_TRANSPORT_VERSION {
            return Err(ReplicationHttpError::Replication(
                ReplicationError::Invalid(InvalidReason::UnsupportedTransportVersion(self.transport_version)),
            ));
        }
        if !(same_text(&self.role, "authority") || same_text(&self.role, "follower")) {
            return Err(ReplicationHttpError::Replication(ReplicationError::Invalid(InvalidReason::RoleInvalid)));
        }
        if self.term == 0 || self.base_index > self.last_index || self.base_transaction_id > self.last_transaction_id {
            return Err(ReplicationHttpError::Replication(ReplicationError::Invalid(InvalidReason::StatusPositionInvalid)));
        }
        let expected_last_transaction_id = match self.base_transaction_id.checked_add(self.last_index - self.base_index) {
            Some(v) => v,
            None => {
                return Err(ReplicationHttpError::Replication(
                    ReplicationError::Invalid(InvalidReason::TransactionIdExhausted),
                ));
            },
        };
        if self.last_transaction_id != expected_last_transaction_id {
            return Err(ReplicationHttpError::Replication(ReplicationError::TransactionGap {
                expected: expected_last_transaction_id,
                actual: self.last_transaction_id,
            }));
        }
        if self.follower_count > MAX_REPLICATION_FOLLOWERS {
            return Err(ReplicationHttpError::Replication(
                ReplicationError::Invalid(InvalidReason::StatusFollowerCountTooLarge),
            ));
        }
        if let Some(index) = self.safe_compaction_index {
            if index > self.last_index {
                return Err(ReplicationHttpError::Replication(
                    ReplicationError::Invalid(InvalidReason::SafeCompactionBeyondLast),
                ));
            }
        }
        if is_blank(&self.schema_tag) {
            return Err(ReplicationHttpError::Replication(ReplicationError::Invalid(InvalidReason::EmptySchemaTag)));
        }
        Ok(())
    }
}

/// What a peer did with a delivered entry.
#[derive(Debug, Clone, Copy, PartialEq, Eq, Structural)]
pub enum ReplicationDeliveryOutcome {
    Applied,
    Duplicate,
    SnapshotInstalled,
    SnapshotDuplicate,
}

/// A peer's answer to a delivered entry.
#[derive(Debug, Clone, Copy, PartialEq, Eq, Structural)]
pub struct ReplicationDeliveryResponse {
    pub transport_version: u16,
    pub outcome: ReplicationDeliveryOutcome,
    pub index: u64,
    pub transaction_id: u64,
}

/// Why a delivery answer is refused, if it is.
pub open spec fn delivery_error(d: ReplicationDeliveryResponse) -> Option<ReplicationHttpError> {
    if d.transport_version != REPLICATION_TRANSPORT_VERSION {
        Some(invalid(InvalidReason::UnsupportedTransportVersion(d.transport_version)))
    } else if d.index == 0 || d.transaction_id == 0 {
        Some(invalid(InvalidReason::DeliveryPositionNotPositive))
    } else {
        None
    }
}

impl ReplicationDeliveryResponse {
    /// Checks a peer's answer to a delivered entry.
    pub fn validate(&self) -> (r: Result<(), ReplicationHttpError>)
        ensures
            r == http_result(delivery_error(*self)),
    {
        if self.transport_version != REPLICATION_TRANSPORT_VERSION {
            return Err(ReplicationHttpError::Replication(
                ReplicationError::Invalid(InvalidReason::UnsupportedTransportVersion(self.transport_version)),
            ));
        }
        if self.index == 0 || self.transaction_id == 0 {
            return Err(ReplicationHttpError::Replication(
                ReplicationError::Invalid(InvalidReason::DeliveryPositionNotPositive),
            ));
        }
        Ok(())
    }
}

/// What a peer did with an acknowledged position.
#[derive(Debug, Clone, Copy, PartialEq, Eq, Structural)]
pub enum ReplicationProgressResponseOutcome {
    Accepted,
    Duplicate,
}

/// A peer's answer to an acknowledged position.
#[derive(Debug)]
pub struct ReplicationProgressResponse {
    pub transport_version: u16,
    pub outcome: ReplicationProgressResponseOutcome,
    pub follower_id: String,
    pub index: u64,
    pub transaction_id: u64,
    pub safe_compaction_index: Option<u64>,
}

/// Why a progress answer is refused, if it is.
pub open spec fn progress_response_error(p: ReplicationProgressResponse) -> Option<ReplicationHttpError> {
    if p.transport_version != REPLICATION_TRANSPORT_VERSION {
        Some(invalid(InvalidReason::UnsupportedTransportVersion(p.transport_version)))
    } else if !valid_follower_id(p.follower_id@) {
        Some(invalid(InvalidReason::FollowerIdInvalid))
    } else if (p.index == 0) != (p.transaction_id == 0) {
        Some(invalid(InvalidReason::ProgressPositionMismatch))
    } else if p.safe_compaction_index matches Some(i) && i > p.index {
        Some(invalid(InvalidReason::SafeCompactionBeyondProgress))
    } else {
        None
    }
}

impl ReplicationProgressResponse {
    /// Checks a peer's answer to an acknowledged position.
    pub fn validate(&self) -> (r: Result<(), ReplicationHttpError>)
        ensures
            r == http_result(progress_response_error(*self)),
    {
        if self.transport_version != REPLICATION_TRANSPORT_VERSION {
            return Err(ReplicationHttpError::Replication(
                ReplicationError::Invalid(InvalidReason::UnsupportedTransportVersion(self.transport_version)),
            ));
        }
        if !is_valid_follower_id(&self.follower_id) {
            return Err(ReplicationHttpError::Replication(ReplicationError::Invalid(InvalidReason::FollowerIdInvalid)));
        }
        if (self.index == 0) != (self.transaction_id == 0) {
            return Err(ReplicationHttpError::Replication(
                ReplicationError::Invalid(InvalidReason::ProgressPositionMismatch),
            ));
        }
        if let Some(index) = self.safe_compaction_index {
            if index > self.index {
                return Err(ReplicationHttpError::Replication(
                    ReplicationError::Invalid(InvalidReason::SafeCompactionBeyondProgress),
                ));
            }
        }
        Ok(())
    }
}

/// What one catch-up run did.
#[derive(Debug)]
pub struct ReplicationSyncResult {
    pub snapshot_installed: bool,
    pub entries_applied: usize,
    pub progress: ReplicationProgressResponse,
}

/// A character of the token68 alphabet that a bearer credential uses.
pub open spec fn is_token_char(c: char) -> bool {
    ||| ('a' <= c && c <= 'z')
    ||| ('A' <= c && c <= 'Z')
    ||| ('0' <= c && c <= '9')
    ||| c == '-' || c == '.' || c == '_' || c == '~' || c == '+' || c == '/'
}

/// A bearer credential: one or more token68 characters followed only by '=' padding.
pub open spec fn valid_bearer_token(t: Seq<char>) -> bool {
    exists|k: int| #[trigger] token_then_padding(t, k)
}

/// `t` is `k >= 1` token68 characters followed by '=' padding.
pub open spec fn token_then_padding(t: Seq<char>, k: int) -> bool {
    &&& 1 <= k <= t.len()
    &&& forall|i: int| 0 <= i < k ==> is_token_char(#[trigger] t[i])
    &&& forall|i: int| k <= i < t.len() ==> #[trigger] t[i] == '='
}

/// A token that can stand in an `Authorization` header: token68 characters, then `=` padding.
pub fn is_valid_bearer_token(token: &str) -> (r: bool)
    ensures
        r == valid_bearer_token(token@),
{
    let chars = chars_of(token);
    let ghost t = token@;
    let mut has_token_byte = false;
    let mut padding = false;
    let mut first_pad: usize = 0;
    let mut i: usize = 0;
    while i < chars.len()
        invariant
            chars@ == t,
            t == token@,
            i <= chars.len(),
            first_pad <= i,
            !padding ==> first_pad == i,
            forall|j: int| 0 <= j < first_pad ==> is_token_char(#[trigger] t[j]),
            forall|j: int| first_pad <= j < i ==> #[trigger] t[j] == '=',
            has_token_byte == (first_pad > 0),
            padding ==> first_pad < i,
        decreases chars.len() - i,
    {
        let c = chars[i];
        if c == '=' {
            if !padding {
                first_pad = i;
            }
            padding = true;
        } else if !padding && (('a' <= c && c <= 'z') || ('A' <= c && c <= 'Z') || ('0' <= c && c <= '9')
            || c == '-' || c == '.' || c == '_' || c == '~' || c == '+' || c == '/') {
            has_token_byte = true;
            first_pad = i + 1;
        } else {
            proof {
                assert(c == t[i as int]);
                if valid_bearer_token(t) {
                    let k = choose|k: int| #[trigger] token_then_padding(t, k);
                    if i < k {
                        assert(is_token_char(t[i as int]));
                        if padding {
                            assert(t[first_pad as int] == '=');
                            assert(is_token_char(t[first_pad as int]));
                        }
                    } else {
                        assert(t[i as int] == '=');
                    }
                }
            }
            return false;
        }
        i += 1;
    }
    proof {
        if has_token_byte {
            assert(token_then_padding(t, first_pad as int));
        } else if valid_bearer_token(t) {
            let k = choose|k: int| #[trigger] token_then_padding(t, k);
            assert(is_token_char(t[0]));
            assert(t[0] == '=');
        }
    }
    has_token_byte
}

} // verus!
