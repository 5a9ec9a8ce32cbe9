//! The persisted data model: log entries, blacklist entries, and the
//! optional-field filter used by the query side.

use vstd::prelude::*;

use crate::text::contains_seq;

verus! {

/// A canonical, persisted log entry.
///
/// The identity is assigned exactly once, at ingestion, and never reused.
/// The timestamp is a UTC instant counted in microseconds since the Unix
/// epoch.  The remaining fields are the text taken verbatim from the disk
/// record.
#[derive(Debug, Clone)]
pub struct LogEntry {
    pub id: u128,
    pub timestamp: i64,
    pub host: String,
    pub severity: String,
    pub facility: String,
    pub syslog_tag: String,
    pub source: String,
    pub message: String,
}

/// A suppression rule: `facility` and `source` must match a log entry
/// exactly, and `message` is a pattern that must occur in the entry's
/// message as a substring.
#[derive(Debug, Clone)]
pub struct BlacklistEntry {
    pub id: u128,
    pub facility: String,
    pub source: String,
    pub message: String,
}

/// The suppression relation: `b` suppresses `l` iff the facilities are
/// equal, the sources are equal, and `l`'s message contains `b`'s message
/// as a substring.  The relation is asymmetric: `b` is always the pattern
/// side.
pub open spec fn entry_suppresses(b: BlacklistEntry, l: LogEntry) -> bool {
    &&& b.facility@ == l.facility@
    &&& b.source@ == l.source@
    &&& contains_seq(l.message@, b.message@)
}

impl BlacklistEntry {
    /// Whether this rule suppresses the given log entry.
    pub fn matches(&self, log: &LogEntry) -> (r: bool)
        ensures
            r == entry_suppresses(*self, *log),
    {
        self.facility == log.facility && self.source == log.source
            && crate::text::contains_substr(log.message.as_str(), self.message.as_str())
    }
}

/// A query-time filter: absent fields impose no constraint; present fields
/// are compared by exact equality (the time field by equality of instants).
#[derive(Debug, Clone)]
pub struct LogEntryFilter {
    pub time: Option<i64>,
    pub host: Option<String>,
    pub severity: Option<String>,
    pub facility: Option<String>,
    pub syslog_tag: Option<String>,
    pub source: Option<String>,
}

/// Whether a log entry satisfies every field the filter sets.
pub open spec fn filter_matches(f: LogEntryFilter, e: LogEntry) -> bool {
    &&& (f.time matches Some(t) ==> e.timestamp == t)
    &&& (f.host matches Some(h) ==> e.host@ == h@)
    &&& (f.severity matches Some(s) ==> e.severity@ == s@)
    &&& (f.facility matches Some(x) ==> e.facility@ == x@)
    &&& (f.syslog_tag matches Some(x) ==> e.syslog_tag@ == x@)
    &&& (f.source matches Some(x) ==> e.source@ == x@)
}

/// Whether a log entry satisfies every field the filter sets.
pub fn entry_matches_filter(f: &LogEntryFilter, e: &LogEntry) -> (r: bool)
    ensures
        r == filter_matches(*f, *e),
{
    let time_ok = match &f.time {
        Some(t) => e.timestamp == *t,
        None => true,
    };
    let host_ok = match &f.host {
        Some(h) => e.host == *h,
        None => true,
    };
    let severity_ok = match &f.severity {
        Some(s) => e.severity == *s,
        None => true,
    };
    let facility_ok = match &f.facility {
        Some(x) => e.facility == *x,
        None => true,
    };
    let tag_ok = match &f.syslog_tag {
        Some(x) => e.syslog_tag == *x,
        None => true,
    };
    let source_ok = match &f.source {
        Some(x) => e.source == *x,
        None => true,
    };
    time_ok && host_ok && severity_ok && facility_ok && tag_ok && source_ok
}

} // verus!
