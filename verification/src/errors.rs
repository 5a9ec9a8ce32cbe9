//! The error taxonomy shared by the ingestion pipeline and the query side.

use vstd::prelude::*;

verus! {

/// A failure of a store operation or of the ingestion of one line.
///
/// `NotFound` is an expected miss (it drives cursor initialization and
/// 404-style responses); `MalformedRecord` and `InvalidTimestamp` mark a bad
/// input line, fatal to the current ingestion batch; `StoreUnavailable`
/// marks an unreachable cache or relational store, fatal to the current
/// operation and retried by the next triggering event; `PathInvalid` marks
/// a path that cannot be represented as text, fatal to that single path.
#[derive(Clone, Copy, Debug, PartialEq, Eq, Structural)]
pub enum RepositoryError {
    NotFound,
    MalformedRecord,
    InvalidTimestamp,
    StoreUnavailable,
    PathInvalid,
}

} // verus!
