//! The persistence interfaces for log entries and blacklist entries, and
//! their verified in-memory implementations.
//!
//! The two traits are the narrow surface the library sees of the
//! relational store; the production adapter lives outside the library,
//! while `MemLogRepo` and `MemBlacklistRepo` are proved against the same
//! contracts and serve the tests.

use vstd::prelude::*;

use crate::entities::{filter_matches, BlacklistEntry, LogEntry, LogEntryFilter};
use crate::entities::entry_matches_filter;
use crate::errors::RepositoryError;
use vstd::string::StringExecFns;

verus! {

/// One step of filtering: extending the prefix by one element either
/// appends it to the filtered image or leaves the image as it was.
pub proof fn lemma_filter_take_step<A>(s: Seq<A>, i: int, pred: spec_fn(A) -> bool)
    requires
        0 <= i < s.len(),
    ensures
        s.take(i + 1).filter(pred) == (if pred(s[i]) {
            s.take(i).filter(pred).push(s[i])
        } else {
            s.take(i).filter(pred)
        }),
{
    reveal(Seq::filter);
    assert(s.take(i + 1).drop_last() =~= s.take(i));
    assert(s.take(i + 1).last() == s[i]);
}

/// The store of canonical log entries.
pub trait LogRepository: Sized {
    /// The entries the store holds, in insertion order.  An
    /// implementation outside the library leaves this at its default;
    /// nothing is proved about such an implementation.
    open spec fn logs(&self) -> Seq<LogEntry> {
        Seq::empty()
    }

    /// Persists one entry; returns its identity.
    fn create_log(&mut self, entry: LogEntry) -> (r: Result<u128, RepositoryError>)
        ensures
            match r {
                Ok(id) => id == entry.id && final(self).logs() == old(self).logs().push(entry),
                Err(RepositoryError::StoreUnavailable) => final(self).logs() == old(self).logs(),
                Err(_) => false,
            },
    ;

    /// The entry stored under `id`, or `NotFound`.
    fn get_log_by_id(&self, id: u128) -> (r: Result<LogEntry, RepositoryError>)
        ensures
            match r {
                Ok(e) => self.logs().contains(e) && e.id == id,
                Err(RepositoryError::NotFound) => forall|i: int|
                    0 <= i < self.logs().len() ==> self.logs()[i].id != id,
                Err(RepositoryError::StoreUnavailable) => true,
                Err(_) => false,
            },
    ;

    /// Every stored entry, in order.
    fn get_all_logs(&self) -> (r: Result<Vec<LogEntry>, RepositoryError>)
        ensures
            match r {
                Ok(v) => v@ == self.logs(),
                Err(RepositoryError::StoreUnavailable) => true,
                Err(_) => false,
            },
    ;

    /// The stored entries that satisfy every field the filter sets, in
    /// order.
    fn get_logs_by_filter(&self, filter: &LogEntryFilter) -> (r: Result<
        Vec<LogEntry>,
        RepositoryError,
    >)
        ensures
            match r {
                Ok(v) => v@ == self.logs().filter(|e: LogEntry| filter_matches(*filter, e)),
                Err(RepositoryError::StoreUnavailable) => true,
                Err(_) => false,
            },
    ;

    /// Removes the entries stored under `id`.
    fn delete_log(&mut self, id: u128) -> (r: Result<(), RepositoryError>)
        ensures
            match r {
                Ok(()) => final(self).logs() == old(self).logs().filter(
                    |e: LogEntry| e.id != id,
                ),
                Err(RepositoryError::StoreUnavailable) => final(self).logs() == old(self).logs(),
                Err(_) => false,
            },
    ;
}

/// The store of blacklist entries.
pub trait BlacklistRepository: Sized {
    /// The entries the store holds, in insertion order.  An
    /// implementation outside the library leaves this at its default;
    /// nothing is proved about such an implementation.
    open spec fn entries(&self) -> Seq<BlacklistEntry> {
        Seq::empty()
    }

    /// The entry stored under `id`, or `NotFound`.
    fn get_entry_by_id(&self, id: u128) -> (r: Result<BlacklistEntry, RepositoryError>)
        ensures
            match r {
                Ok(e) => self.entries().contains(e) && e.id == id,
                Err(RepositoryError::NotFound) => forall|i: int|
                    0 <= i < self.entries().len() ==> self.entries()[i].id != id,
                Err(RepositoryError::StoreUnavailable) => true,
                Err(_) => false,
            },
    ;

    /// An entry carrying exactly these three texts, or `NotFound`.
    fn get_entry_by_props(&self, source: String, facility: String, message: String) -> (r: Result<
        BlacklistEntry,
        RepositoryError,
    >)
        ensures
            match r {
                Ok(e) => self.entries().contains(e) && e.source@ == source@ && e.facility@
                    == facility@ && e.message@ == message@,
                Err(RepositoryError::NotFound) => forall|i: int|
                    0 <= i < self.entries().len() ==> !(self.entries()[i].source@ == source@
                        && self.entries()[i].facility@ == facility@
                        && self.entries()[i].message@ == message@),
                Err(RepositoryError::StoreUnavailable) => true,
                Err(_) => false,
            },
    ;

    /// Every stored entry, in order.
    fn get_all_entries(&self) -> (r: Result<Vec<BlacklistEntry>, RepositoryError>)
        ensures
            match r {
                Ok(v) => v@ == self.entries(),
                Err(RepositoryError::StoreUnavailable) => true,
                Err(_) => false,
            },
    ;

    /// Persists one entry built from the given identity and texts.
    fn create_entry(&mut self, id: u128, source: &str, facility: &str, message: &str) -> (r:
        Result<u128, RepositoryError>)
        ensures
            match r {
                Ok(rid) => {
                    &&& rid == id
                    &&& final(self).entries().len() == old(self).entries().len() + 1
                    &&& final(self).entries().take(old(self).entries().len() as int) == old(
                        self,
                    ).entries()
                    &&& final(self).entries().last().id == id
                    &&& final(self).entries().last().source@ == source@
                    &&& final(self).entries().last().facility@ == facility@
                    &&& final(self).entries().last().message@ == message@
                },
                Err(RepositoryError::StoreUnavailable) => final(self).entries() == old(
                    self,
                ).entries(),
                Err(_) => false,
            },
    ;

    /// Removes the entries stored under `id`.
    fn delete_entry(&mut self, id: u128) -> (r: Result<(), RepositoryError>)
        ensures
            match r {
                Ok(()) => final(self).entries() == old(self).entries().filter(
                    |e: BlacklistEntry| e.id != id,
                ),
                Err(RepositoryError::StoreUnavailable) => final(self).entries() == old(
                    self,
                ).entries(),
                Err(_) => false,
            },
    ;
}

/// A field-for-field copy of a log entry.
pub fn clone_log_entry(e: &LogEntry) -> (r: LogEntry)
    ensures
        r == *e,
{
    LogEntry {
        id: e.id,
        timestamp: e.timestamp,
        host: e.host.clone(),
        severity: e.severity.clone(),
        facility: e.facility.clone(),
        syslog_tag: e.syslog_tag.clone(),
        source: e.source.clone(),
        message: e.message.clone(),
    }
}

/// A field-for-field copy of a blacklist entry.
pub fn clone_blacklist_entry(e: &BlacklistEntry) -> (r: BlacklistEntry)
    ensures
        r == *e,
{
    BlacklistEntry {
        id: e.id,
        facility: e.facility.clone(),
        source: e.source.clone(),
        message: e.message.clone(),
    }
}

/// The verified in-memory log store.
pub struct MemLogRepo {
    rows: Vec<LogEntry>,
}

impl MemLogRepo {
    /// An empty log store.
    pub fn new() -> (r: MemLogRepo)
        ensures
            r.logs() == Seq::<LogEntry>::empty(),
    {
        MemLogRepo { rows: Vec::new() }
    }
}

impl LogRepository for MemLogRepo {
    closed spec fn logs(&self) -> Seq<LogEntry> {
        self.rows@
    }

    fn create_log(&mut self, entry: LogEntry) -> (r: Result<u128, RepositoryError>)
        ensures
            r is Ok,
    {
        let id = entry.id;
        self.rows.push(entry);
        Ok(id)
    }

    fn get_log_by_id(&self, id: u128) -> (r: Result<LogEntry, RepositoryError>)
        ensures
            r matches Err(e) ==> e == RepositoryError::NotFound,
    {
        let mut i: usize = 0;
        while i < self.rows.len()
            invariant
                0 <= i <= self.rows@.len(),
                forall|j: int| 0 <= j < i ==> self.rows@[j].id != id,
            decreases self.rows@.len() - i,
        {
            if self.rows[i].id == id {
                return Ok(clone_log_entry(&self.rows[i]));
            }
            i = i + 1;
        }
        Err(RepositoryError::NotFound)
    }

    fn get_all_logs(&self) -> (r: Result<Vec<LogEntry>, RepositoryError>)
        ensures
            r is Ok,
    {
        let mut out: Vec<LogEntry> = Vec::new();
        let mut i: usize = 0;
        while i < self.rows.len()
            invariant
                0 <= i <= self.rows@.len(),
                out@ == self.rows@.take(i as int),
            decreases self.rows@.len() - i,
        {
            out.push(clone_log_entry(&self.rows[i]));
            proof {
                assert(self.rows@.take(i + 1) =~= self.rows@.take(i as int).push(
                    self.rows@[i as int],
                ));
            }
            i = i + 1;
        }
        proof {
            assert(self.rows@.take(self.rows@.len() as int) =~= self.rows@);
        }
        Ok(out)
    }

    fn get_logs_by_filter(&self, filter: &LogEntryFilter) -> (r: Result<
        Vec<LogEntry>,
        RepositoryError,
    >)
        ensures
            r is Ok,
    {
        let ghost pred = |e: LogEntry| filter_matches(*filter, e);
        let mut out: Vec<LogEntry> = Vec::new();
        proof {
            reveal(Seq::filter);
            assert(self.rows@.take(0) =~= Seq::<LogEntry>::empty());
        }
        let mut i: usize = 0;
        while i < self.rows.len()
            invariant
                0 <= i <= self.rows@.len(),
                pred == (|e: LogEntry| filter_matches(*filter, e)),
                out@ == self.rows@.take(i as int).filter(pred),
            decreases self.rows@.len() - i,
        {
            proof {
                lemma_filter_take_step(self.rows@, i as int, pred);
            }
            if entry_matches_filter(filter, &self.rows[i]) {
                out.push(clone_log_entry(&self.rows[i]));
            }
            i = i + 1;
        }
        proof {
            assert(self.rows@.take(self.rows@.len() as int) =~= self.rows@);
        }
        Ok(out)
    }

    fn delete_log(&mut self, id: u128) -> (r: Result<(), RepositoryError>)
        ensures
            r is Ok,
    {
        let ghost pred = |e: LogEntry| e.id != id;
        let ghost s0 = self.rows@;
        let mut kept: Vec<LogEntry> = Vec::new();
        proof {
            reveal(Seq::filter);
            assert(s0.take(0) =~= Seq::<LogEntry>::empty());
        }
        let mut i: usize = 0;
        while i < self.rows.len()
            invariant
                0 <= i <= self.rows@.len(),
                s0 == self.rows@,
                pred == (|e: LogEntry| e.id != id),
                kept@ == s0.take(i as int).filter(pred),
            decreases self.rows@.len() - i,
        {
            proof {
                lemma_filter_take_step(s0, i as int, pred);
            }
            if !(self.rows[i].id == id) {
                kept.push(clone_log_entry(&self.rows[i]));
            }
            i = i + 1;
        }
        proof {
            assert(s0.take(s0.len() as int) =~= s0);
        }
        self.rows = kept;
        Ok(())
    }
}

/// The verified in-memory blacklist store.
pub struct MemBlacklistRepo {
    rows: Vec<BlacklistEntry>,
}

impl MemBlacklistRepo {
    /// An empty blacklist store.
    pub fn new() -> (r: MemBlacklistRepo)
        ensures
            r.entries() == Seq::<BlacklistEntry>::empty(),
    {
        MemBlacklistRepo { rows: Vec::new() }
    }
}

impl BlacklistRepository for MemBlacklistRepo {
    closed spec fn entries(&self) -> Seq<BlacklistEntry> {
        self.rows@
    }

    fn get_entry_by_id(&self, id: u128) -> (r: Result<BlacklistEntry, RepositoryError>)
        ensures
            r matches Err(e) ==> e == RepositoryError::NotFound,
    {
        let mut i: usize = 0;
        while i < self.rows.len()
            invariant
                0 <= i <= self.rows@.len(),
                forall|j: int| 0 <= j < i ==> self.rows@[j].id != id,
            decreases self.rows@.len() - i,
        {
            if self.rows[i].id == id {
                return Ok(clone_blacklist_entry(&self.rows[i]));
            }
            i = i + 1;
        }
        Err(RepositoryError::NotFound)
    }

    fn get_entry_by_props(&self, source: String, facility: String, message: String) -> (r: Result<
        BlacklistEntry,
        RepositoryError,
    >)
        ensures
            r matches Err(e) ==> e == RepositoryError::NotFound,
    {
        let mut i: usize = 0;
        while i < self.rows.len()
            invariant
                0 <= i <= self.rows@.len(),
                forall|j: int|
                    0 <= j < i ==> !(self.rows@[j].source@ == source@ && self.rows@[j].facility@
                        == facility@ && self.rows@[j].message@ == message@),
            decreases self.rows@.len() - i,
        {
            let e = &self.rows[i];
            if e.source == source && e.facility == facility && e.message == message {
                return Ok(clone_blacklist_entry(e));
            }
            i = i + 1;
        }
        Err(RepositoryError::NotFound)
    }

    fn get_all_entries(&self) -> (r: Result<Vec<BlacklistEntry>, RepositoryError>)
        ensures
            r is Ok,
    {
        let mut out: Vec<BlacklistEntry> = Vec::new();
        let mut i: usize = 0;
        while i < self.rows.len()
            invariant
                0 <= i <= self.rows@.len(),
                out@ == self.rows@.take(i as int),
            decreases self.rows@.len() - i,
        {
            out.push(clone_blacklist_entry(&self.rows[i]));
            proof {
                assert(self.rows@.take(i + 1) =~= self.rows@.take(i as int).push(
                    self.rows@[i as int],
                ));
            }
            i = i + 1;
        }
        proof {
            assert(self.rows@.take(self.rows@.len() as int) =~= self.rows@);
        }
        Ok(out)
    }

    fn create_entry(&mut self, id: u128, source: &str, facility: &str, message: &str) -> (r:
        Result<u128, RepositoryError>)
        ensures
            r is Ok,
    {
        let entry = BlacklistEntry {
            id,
            facility: String::from_str(facility),
            source: String::from_str(source),
            message: String::from_str(message),
        };
        self.rows.push(entry);
        proof {
            assert(self.rows@.take(self.rows@.len() - 1) =~= old(self).rows@);
        }
        Ok(id)
    }

    fn delete_entry(&mut self, id: u128) -> (r: Result<(), RepositoryError>)
        ensures
            r is Ok,
    {
        let ghost pred = |e: BlacklistEntry| e.id != id;
        let ghost s0 = self.rows@;
        let mut kept: Vec<BlacklistEntry> = Vec::new();
        proof {
            reveal(Seq::filter);
            assert(s0.take(0) =~= Seq::<BlacklistEntry>::empty());
        }
        let mut i: usize = 0;
        while i < self.rows.len()
            invariant
                0 <= i <= self.rows@.len(),
                s0 == self.rows@,
                pred == (|e: BlacklistEntry| e.id != id),
                kept@ == s0.take(i as int).filter(pred),
            decreases self.rows@.len() - i,
        {
            proof {
                lemma_filter_take_step(s0, i as int, pred);
            }
            if !(self.rows[i].id == id) {
                kept.push(clone_blacklist_entry(&self.rows[i]));
            }
            i = i + 1;
        }
        proof {
            assert(s0.take(s0.len() as int) =~= s0);
        }
        self.rows = kept;
        Ok(())
    }
}

} // verus!
