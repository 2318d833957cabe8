//! Follower progress acknowledgements.
use vstd::prelude::*;
use crate::text::{chars_of, is_blank, same_text, spec_is_blank};
use super::{InvalidReason, ReplicationError, as_result};

verus! {

pub const REPLICATION_PROGRESS_VERSION: u16 = 1;
pub const MAX_REPLICATION_FOLLOWERS: usize = 1024;
pub const MAX_REPLICATION_PROGRESS_BYTES: usize = crate::MAX_JSON_INPUT_BYTES;
pub const MAX_FOLLOWER_ID_BYTES: usize = 128;

/// One follower's report of the log position it has applied.
#[derive(Debug)]
pub struct ReplicationProgress {
    pub version: u16,
    pub follower_id: String,
    pub term: u64,
    pub index: u64,
    pub transaction_id: u64,
    pub schema_tag: String,
}

/// A progress report as plain values.
pub struct ProgressView {
    pub version: u16,
    pub follower_id: Seq<char>,
    pub term: u64,
    pub index: u64,
    pub transaction_id: u64,
    pub schema_tag: Seq<char>,
}

impl View for ReplicationProgress {
    type V = ProgressView;

    open spec fn view(&self) -> ProgressView {
        ProgressView {
            version: self.version,
            follower_id: self.follower_id@,
            term: self.term,
            index: self.index,
            transaction_id: self.transaction_id,
            schema_tag: self.schema_tag@,
        }
    }
}

/// ASCII letters, digits, '.', '_', and '-'.
pub open spec fn is_follower_id_char(c: char) -> bool {
    ||| ('a' <= c && c <= 'z')
    ||| ('A' <= c && c <= 'Z')
    ||| ('0' <= c && c <= '9')
    ||| c == '.'
    ||| c == '_'
    ||| c == '-'
}

/// A follower identifier: 1 to 128 ASCII letters, digits, '.', '_', or '-'.
pub open spec fn valid_follower_id(id: Seq<char>) -> bool {
    &&& 1 <= id.len() <= MAX_FOLLOWER_ID_BYTES
    &&& forall|i: int| 0 <= i < id.len() ==> is_follower_id_char(#[trigger] id[i])
}

/// A follower id: 1 to 128 ASCII letters, digits, `-`, `_` or `.`.
pub fn is_valid_follower_id(id: &str) -> (b: bool)
    ensures
        b == valid_follower_id(id@),
{
    let chars = chars_of(id);
    if chars.len() == 0 || chars.len() > MAX_FOLLOWER_ID_BYTES {
        return false;
    }
    let mut i: usize = 0;
    while i < chars.len()
        invariant
            chars@ == id@,
            i <= chars.len(),
            forall|j: int| 0 <= j < i ==> is_follower_id_char(#[trigger] id@[j]),
        decreases chars.len() - i,
    {
        let c = chars[i];
        if !(('a' <= c && c <= 'z') || ('A' <= c && c <= 'Z') || ('0' <= c && c <= '9') || c == '.'
            || c == '_' || c == '-') {
            return false;
        }
        i += 1;
    }
    true
}

/// The first reason a progress report is not valid, if any.
pub open spec fn progress_error(p: ProgressView) -> Option<ReplicationError> {
    if p.version != REPLICATION_PROGRESS_VERSION {
        Some(ReplicationError::Invalid(InvalidReason::UnsupportedProgressVersion(p.version)))
    } else if !valid_follower_id(p.follower_id) {
        Some(ReplicationError::Invalid(InvalidReason::FollowerIdInvalid))
    } else if p.term == 0 {
        Some(ReplicationError::Invalid(InvalidReason::ProgressTermNotPositive))
    } else if (p.index == 0) != (p.transaction_id == 0) {
        Some(ReplicationError::Invalid(InvalidReason::ProgressPositionMismatch))
    } else if spec_is_blank(p.schema_tag) {
        Some(ReplicationError::Invalid(InvalidReason::EmptySchemaTag))
    } else {
        None
    }
}

/// A progress report that passes its check.
pub open spec fn progress_valid(p: ProgressView) -> bool {
    progress_error(p) is None
}

impl ReplicationProgress {
    /// A progress report of `follower_id` at the given position, checked.
    pub fn new(
        follower_id: String,
        term: u64,
        index: u64,
        transaction_id: u64,
        schema_tag: String,
    ) -> (r: Result<Self, ReplicationError>)
        ensures
            ({
                let v = ProgressView {
                    version: REPLICATION_PROGRESS_VERSION,
                    follower_id: follower_id@,
                    term,
                    index,
                    transaction_id,
                    schema_tag: schema_tag@,
                };
                match r {
                    Ok(p) => p@ == v && progress_valid(v),
                    Err(e) => progress_error(v) == Some(e),
                }
            }),
    {
        let progress = ReplicationProgress {
            version: REPLICATION_PROGRESS_VERSION,
            follower_id,
            term,
            index,
            transaction_id,
            schema_tag,
        };
        match progress.validate() {
            Ok(()) => Ok(progress),
            Err(e) => Err(e),
        }
    }

    /// Checks a progress report.
    pub fn validate(&self) -> (r: Result<(), ReplicationError>)
        ensures
            r == as_result(progress_error(self@)),
    {
        if self.version != REPLICATION_PROGRESS_VERSION {
            return Err(ReplicationError::Invalid(InvalidReason::UnsupportedProgressVersion(self.version)));
        }
        if !is_valid_follower_id(&self.follower_id) {
            return Err(ReplicationError::Invalid(InvalidReason::FollowerIdInvalid));
        }
        if self.term == 0 {
            return Err(ReplicationError::Invalid(InvalidReason::ProgressTermNotPositive));
        }
        if (self.index == 0) != (self.transaction_id == 0) {
            return Err(ReplicationError::Invalid(InvalidReason::ProgressPositionMismatch));
        }
        if is_blank(&self.schema_tag) {
            return Err(ReplicationError::Invalid(InvalidReason::EmptySchemaTag));
        }
        Ok(())
    }

    /// A copy of the progress report.
    pub fn duplicate(&self) -> (r: Self)
        ensures
            r@ == self@,
    {
        ReplicationProgress {
            version: self.version,
            follower_id: self.follower_id.clone(),
            term: self.term,
            index: self.index,
            transaction_id: self.transaction_id,
            schema_tag: self.schema_tag.clone(),
        }
    }

    /// Whether two progress reports are the same.
    pub fn same_as(&self, other: &Self) -> (r: bool)
        ensures
            r == (self@ == other@),
    {
        self.version == other.version && same_text(&self.follower_id, &other.follower_id)
            && self.term == other.term && self.index == other.index && self.transaction_id
            == other.transaction_id && same_text(&self.schema_tag, &other.schema_tag)
    }
}

/// What acknowledging a follower's position did.
#[derive(Debug, Clone, Copy, PartialEq, Eq, Structural)]
pub enum ReplicationProgressOutcome {
    Accepted,
    Duplicate,
}

} // verus!
