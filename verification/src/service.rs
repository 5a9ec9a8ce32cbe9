//! The exposed query-side operations, as the transport layer calls them:
//! reads composed with blacklist suppression, and the promotion of a log
//! entry to a blacklist rule.

use vstd::prelude::*;

use crate::blacklist::{derive_pattern, pattern_of, suppressed_by_any, suppresses};
use crate::entities::{filter_matches, BlacklistEntry, LogEntry, LogEntryFilter};
use crate::errors::RepositoryError;
use crate::repository::{
    clone_log_entry, lemma_filter_take_step, BlacklistRepository, LogRepository,
};

verus! {

/// Drops the suppressed entries from a fetched result set.
fn retain_unsuppressed(logs: Vec<LogEntry>, blacklisted: &Vec<BlacklistEntry>) -> (r: Vec<
    LogEntry,
>)
    ensures
        r@ == logs@.filter(|e: LogEntry| !suppressed_by_any(blacklisted@, e)),
{
    let ghost pred = |e: LogEntry| !suppressed_by_any(blacklisted@, e);
    let mut out: Vec<LogEntry> = Vec::new();
    proof {
        reveal(Seq::filter);
        assert(logs@.take(0) =~= Seq::<LogEntry>::empty());
    }
    let mut i: usize = 0;
    while i < logs.len()
        invariant
            0 <= i <= logs@.len(),
            pred == (|e: LogEntry| !suppressed_by_any(blacklisted@, e)),
            out@ == logs@.take(i as int).filter(pred),
        decreases logs@.len() - i,
    {
        proof {
            lemma_filter_take_step(logs@, i as int, pred);
        }
        if !suppresses(blacklisted, &logs[i]) {
            out.push(clone_log_entry(&logs[i]));
        }
        i = i + 1;
    }
    proof {
        assert(logs@.take(logs@.len() as int) =~= logs@);
    }
    out
}

/// Every stored log entry that no blacklist entry suppresses, in store
/// order.
pub fn get_all_logs<L: LogRepository, B: BlacklistRepository>(log_repo: &L, blklst_repo: &B) -> (r:
    Result<Vec<LogEntry>, RepositoryError>)
    ensures
        match r {
            Ok(v) => v@ == log_repo.logs().filter(
                |e: LogEntry| !suppressed_by_any(blklst_repo.entries(), e),
            ),
            Err(e) => e == RepositoryError::StoreUnavailable,
        },
{
    let logs = match log_repo.get_all_logs() {
        Ok(v) => v,
        Err(e) => {
            return Err(e);
        },
    };
    let blacklisted = match blklst_repo.get_all_entries() {
        Ok(v) => v,
        Err(e) => {
            return Err(e);
        },
    };
    Ok(retain_unsuppressed(logs, &blacklisted))
}

/// The stored log entries that satisfy the filter and that no blacklist
/// entry suppresses, in store order.
pub fn get_logs_by_filter<L: LogRepository, B: BlacklistRepository>(
    filter: &LogEntryFilter,
    log_repo: &L,
    blklst_repo: &B,
) -> (r: Result<Vec<LogEntry>, RepositoryError>)
    ensures
        match r {
            Ok(v) => v@ == log_repo.logs().filter(
                |e: LogEntry| filter_matches(*filter, e),
            ).filter(|e: LogEntry| !suppressed_by_any(blklst_repo.entries(), e)),
            Err(e) => e == RepositoryError::StoreUnavailable,
        },
{
    let logs = match log_repo.get_logs_by_filter(filter) {
        Ok(v) => v,
        Err(e) => {
            return Err(e);
        },
    };
    let blacklisted = match blklst_repo.get_all_entries() {
        Ok(v) => v,
        Err(e) => {
            return Err(e);
        },
    };
    Ok(retain_unsuppressed(logs, &blacklisted))
}

/// The log entry stored under `id`; `NotFound` tells a missing entry
/// from every other failure.
pub fn get_log_by_id<L: LogRepository>(log_id: u128, log_repo: &L) -> (r: Result<
    LogEntry,
    RepositoryError,
>)
    ensures
        match r {
            Ok(e) => log_repo.logs().contains(e) && e.id == log_id,
            Err(RepositoryError::NotFound) => forall|i: int|
                0 <= i < log_repo.logs().len() ==> log_repo.logs()[i].id != log_id,
            Err(RepositoryError::StoreUnavailable) => true,
            Err(_) => false,
        },
{
    log_repo.get_log_by_id(log_id)
}

/// Loads the log entry under `log_id`, derives a suppression pattern
/// from its message, and stores the new blacklist rule under the log's
/// identity.
pub fn add_to_blacklist<L: LogRepository, B: BlacklistRepository>(
    log_id: u128,
    log_repo: &L,
    blklst_repo: &mut B,
) -> (r: Result<u128, RepositoryError>)
    ensures
        match r {
            Ok(eid) => eid == log_id && exists|e: LogEntry|
                #![trigger log_repo.logs().contains(e)]
                {
                    &&& log_repo.logs().contains(e)
                    &&& e.id == log_id
                    &&& final(blklst_repo).entries().len() == old(blklst_repo).entries().len() + 1
                    &&& final(blklst_repo).entries().take(
                        old(blklst_repo).entries().len() as int,
                    ) == old(blklst_repo).entries()
                    &&& final(blklst_repo).entries().last().id == log_id
                    &&& final(blklst_repo).entries().last().facility@ == e.facility@
                    &&& final(blklst_repo).entries().last().source@ == e.source@
                    &&& final(blklst_repo).entries().last().message@ == pattern_of(e.message@)
                },
            Err(RepositoryError::NotFound) => final(blklst_repo).entries() == old(
                blklst_repo,
            ).entries() && forall|i: int|
                0 <= i < log_repo.logs().len() ==> log_repo.logs()[i].id != log_id,
            Err(RepositoryError::StoreUnavailable) => final(blklst_repo).entries() == old(
                blklst_repo,
            ).entries(),
            Err(_) => false,
        },
{
    let log = match log_repo.get_log_by_id(log_id) {
        Ok(log) => log,
        Err(e) => {
            return Err(e);
        },
    };
    let (facility, source, pattern) = derive_pattern(&log);
    match blklst_repo.create_entry(log.id, source.as_str(), facility.as_str(), pattern.as_str()) {
        Ok(eid) => {
            proof {
                assert(log_repo.logs().contains(log));
            }
            Ok(eid)
        },
        Err(e) => Err(e),
    }
}

/// Every stored blacklist entry, in store order.
pub fn get_blacklist<B: BlacklistRepository>(blklst_repo: &B) -> (r: Result<
    Vec<BlacklistEntry>,
    RepositoryError,
>)
    ensures
        match r {
            Ok(v) => v@ == blklst_repo.entries(),
            Err(e) => e == RepositoryError::StoreUnavailable,
        },
{
    blklst_repo.get_all_entries()
}

/// The blacklist entry stored under `id`; `NotFound` tells a missing
/// entry from every other failure.
pub fn get_blacklist_entry_by_id<B: BlacklistRepository>(entry_id: u128, blklst_repo: &B) -> (r:
    Result<BlacklistEntry, RepositoryError>)
    ensures
        match r {
            Ok(e) => blklst_repo.entries().contains(e) && e.id == entry_id,
            Err(RepositoryError::NotFound) => forall|i: int|
                0 <= i < blklst_repo.entries().len() ==> blklst_repo.entries()[i].id != entry_id,
            Err(RepositoryError::StoreUnavailable) => true,
            Err(_) => false,
        },
{
    blklst_repo.get_entry_by_id(entry_id)
}

/// Removes the blacklist entry stored under `id`.
pub fn delete_entry_from_blacklist<B: BlacklistRepository>(entry_id: u128, blklst_repo: &mut B) -> (r:
    Result<(), RepositoryError>)
    ensures
        match r {
            Ok(()) => final(blklst_repo).entries() == old(blklst_repo).entries().filter(
                |e: BlacklistEntry| e.id != entry_id,
            ),
            Err(e) => e == RepositoryError::StoreUnavailable && final(blklst_repo).entries()
                == old(blklst_repo).entries(),
        },
{
    blklst_repo.delete_entry(entry_id)
}

} // verus!
