//! The blacklist matcher: deciding whether a stored log entry is suppressed
//! by any blacklist entry, and deriving a suppression pattern when a log
//! entry is promoted to a blacklist rule.

use vstd::prelude::*;

use crate::entities::{entry_suppresses, BlacklistEntry, LogEntry};
use crate::text::{find_char, trim_start_spec, trim_start_str, trim_str, trimmed};
use vstd::string::StrSliceExecFns;
use vstd::string::StringExecFns;

verus! {

/// Some entry of the blacklist suppresses the candidate.
pub open spec fn suppressed_by_any(entries: Seq<BlacklistEntry>, log: LogEntry) -> bool {
    exists|i: int| 0 <= i < entries.len() && entry_suppresses(entries[i], log)
}

/// Whether any blacklist entry suppresses `candidate`: facility equality,
/// source equality, and message substring containment, with the blacklist
/// message as the needle.
pub fn suppresses(entries: &Vec<BlacklistEntry>, candidate: &LogEntry) -> (r: bool)
    ensures
        r == suppressed_by_any(entries@, *candidate),
{
    let mut i: usize = 0;
    while i < entries.len()
        invariant
            0 <= i <= entries@.len(),
            forall|j: int| 0 <= j < i ==> !entry_suppresses(entries@[j], *candidate),
        decreases entries@.len() - i,
    {
        if entries[i].matches(candidate) {
            return true;
        }
        i = i + 1;
    }
    false
}

/// The suppression pattern derived from a message being promoted to a
/// blacklist rule: the message is trimmed; if it then starts with `[`, the
/// pattern is the part from the first `]` onward with leading whitespace
/// removed; otherwise the pattern is the whole trimmed message (also when
/// no `]` follows the opening bracket).
pub open spec fn pattern_of(m: Seq<char>) -> Seq<char> {
    let t = trimmed(m);
    if t.len() > 0 && t[0] == '[' {
        match t.index_of_first(']') {
            Some(i) => trim_start_spec(t.skip(i)),
            None => t,
        }
    } else {
        t
    }
}

/// The facility, source, and message pattern for a blacklist rule derived
/// from an existing log entry.
pub fn derive_pattern(entry: &LogEntry) -> (r: (String, String, String))
    ensures
        r.0@ == entry.facility@,
        r.1@ == entry.source@,
        r.2@ == pattern_of(entry.message@),
{
    let t = trim_str(entry.message.as_str());
    let tl = t.unicode_len();
    let pattern: &str = if tl > 0 && t.get_char(0) == '[' {
        match find_char(t, ']') {
            Some(idx) => {
                proof {
                    t@.index_of_first_ensures(']');
                    assert(t@.contains(t@[idx as int]));
                    match t@.index_of_first(']') {
                        Some(w) => {
                            assert(!(w < idx) && !(idx < w));
                        },
                        None => {
                            assert(false);
                        },
                    }
                    assert(t@.subrange(idx as int, t@.len() as int) =~= t@.skip(idx as int));
                }
                trim_start_str(t.substring_char(idx, tl))
            },
            None => {
                proof {
                    t@.index_of_first_ensures(']');
                    match t@.index_of_first(']') {
                        Some(w) => {
                            assert(t@[w] == ']');
                            assert(false);
                        },
                        None => {},
                    }
                }
                t
            },
        }
    } else {
        t
    };
    (
        String::from_str(entry.facility.as_str()),
        String::from_str(entry.source.as_str()),
        String::from_str(pattern),
    )
}

} // verus!
