//! The on-disk record format and its parser.
//!
//! One appended line holds one record: a JSON-style object whose members
//! are string-valued, written `{"key":"value",...}` with the escapes
//! `\"  \\  \/  \b  \f  \n  \r  \t` and `\uXXXX` for a non-surrogate code
//! point.  A record must carry the seven fields `timestamp`, `host`,
//! `severity`, `facility`, `syslog_tag`, `source` and `message`; members
//! under other keys are ignored; a duplicated key makes the line
//! malformed.  The grammar below is the reference: `parse_record_line`
//! is proved to return exactly what it assigns to a line.

use vstd::prelude::*;

use crate::entities::LogEntry;
use crate::errors::RepositoryError;
use crate::ident::fresh_id;
use crate::text::{char_from_u32, chars_to_string};
use crate::timestamp::{parse_rfc3339_micros, rfc3339_micros};
use vstd::string::StrSliceExecFns;
use vstd::string::StringExecFns;

verus! {

/// A whitespace character between the tokens of a record line.
pub open spec fn is_record_ws(c: char) -> bool {
    c == ' ' || c == '\t' || c == '\n' || c == '\r'
}

/// The first position at or after `i` holding a character that is not
/// whitespace, or the end of the text.
pub open spec fn skip_ws(s: Seq<char>, i: int) -> int
    decreases s.len() - i,
{
    if 0 <= i < s.len() && is_record_ws(s[i]) {
        skip_ws(s, i + 1)
    } else {
        i
    }
}

pub proof fn lemma_skip_ws_bounds(s: Seq<char>, i: int)
    requires
        0 <= i <= s.len(),
    ensures
        i <= skip_ws(s, i) <= s.len(),
    decreases s.len() - i,
{
    if i < s.len() && is_record_ws(s[i]) {
        lemma_skip_ws_bounds(s, i + 1);
    }
}

/// The value of a hexadecimal digit, or -1.
pub open spec fn hex_digit_val(c: char) -> int {
    let v = c as u32;
    if '0' as u32 <= v && v <= '9' as u32 {
        v - '0' as u32
    } else if 'a' as u32 <= v && v <= 'f' as u32 {
        10 + v - 'a' as u32
    } else if 'A' as u32 <= v && v <= 'F' as u32 {
        10 + v - 'A' as u32
    } else {
        -1
    }
}

/// The character written by a short escape `\e`, if `e` is one.
pub open spec fn escape_char(e: char) -> Option<char> {
    if e == '"' {
        Some('"')
    } else if e == '\\' {
        Some('\\')
    } else if e == '/' {
        Some('/')
    } else if e == 'b' {
        Some('\u{0008}')
    } else if e == 'f' {
        Some('\u{000C}')
    } else if e == 'n' {
        Some('\n')
    } else if e == 'r' {
        Some('\r')
    } else if e == 't' {
        Some('\t')
    } else {
        None
    }
}

/// The value of the four hexadecimal digits at `i`, or -1 when they are
/// not there.
pub open spec fn uescape_val(s: Seq<char>, i: int) -> int {
    if 0 <= i && i + 4 <= s.len() && hex_digit_val(s[i]) >= 0 && hex_digit_val(s[i + 1]) >= 0
        && hex_digit_val(s[i + 2]) >= 0 && hex_digit_val(s[i + 3]) >= 0 {
        hex_digit_val(s[i]) * 4096 + hex_digit_val(s[i + 1]) * 256 + hex_digit_val(s[i + 2]) * 16
            + hex_digit_val(s[i + 3])
    } else {
        -1
    }
}

/// The meaning of the body of a quoted string starting at `i`, just after
/// the opening quote: the characters it denotes and the position after the
/// closing quote, or `None` when the text from `i` on is not a valid
/// string body.
pub open spec fn parse_string_body(s: Seq<char>, i: int) -> Option<(Seq<char>, int)>
    decreases s.len() - i,
{
    if i < 0 || i >= s.len() {
        None
    } else if s[i] == '"' {
        Some((Seq::empty(), i + 1))
    } else if s[i] == '\\' {
        if i + 2 <= s.len() {
            let e = s[i + 1];
            if e == 'u' {
                let v = uescape_val(s, i + 2);
                if v >= 0 && (v < 0xD800 || v > 0xDFFF) {
                    match parse_string_body(s, i + 6) {
                        Some((t, j)) => Some((seq![v as char] + t, j)),
                        None => None,
                    }
                } else {
                    None
                }
            } else {
                match escape_char(e) {
                    Some(u) => match parse_string_body(s, i + 2) {
                        Some((t, j)) => Some((seq![u] + t, j)),
                        None => None,
                    },
                    None => None,
                }
            }
        } else {
            None
        }
    } else if (s[i] as u32) < 0x20 {
        None
    } else {
        match parse_string_body(s, i + 1) {
            Some((t, j)) => Some((seq![s[i]] + t, j)),
            None => None,
        }
    }
}

pub proof fn lemma_parse_string_body_bounds(s: Seq<char>, i: int)
    ensures
        parse_string_body(s, i) matches Some((t, j)) ==> i < j <= s.len(),
    decreases s.len() - i,
{
    if 0 <= i < s.len() {
        lemma_parse_string_body_bounds(s, i + 1);
        if i + 2 <= s.len() {
            lemma_parse_string_body_bounds(s, i + 2);
        }
        if i + 6 <= s.len() {
            lemma_parse_string_body_bounds(s, i + 6);
        }
    }
}

/// The meaning of one `"key" : "value"` member starting at `i`: the key,
/// the value, and the position just after the value's closing quote.
pub open spec fn parse_member(s: Seq<char>, i: int) -> Option<((Seq<char>, Seq<char>), int)> {
    if 0 <= i < s.len() && s[i] == '"' {
        match parse_string_body(s, i + 1) {
            Some((k, j)) => {
                let j2 = skip_ws(s, j);
                if j2 < s.len() && s[j2] == ':' {
                    let j3 = skip_ws(s, j2 + 1);
                    if j3 < s.len() && s[j3] == '"' {
                        match parse_string_body(s, j3 + 1) {
                            Some((v, j4)) => Some(((k, v), j4)),
                            None => None,
                        }
                    } else {
                        None
                    }
                } else {
                    None
                }
            },
            None => None,
        }
    } else {
        None
    }
}

pub proof fn lemma_parse_member_bounds(s: Seq<char>, i: int)
    requires
        0 <= i <= s.len(),
    ensures
        parse_member(s, i) matches Some((kv, j)) ==> i < j <= s.len(),
{
    if 0 <= i < s.len() && s[i] == '"' {
        lemma_parse_string_body_bounds(s, i + 1);
        match parse_string_body(s, i + 1) {
            Some((k, j)) => {
                lemma_skip_ws_bounds(s, j);
                let j2 = skip_ws(s, j);
                if j2 < s.len() && s[j2] == ':' {
                    lemma_skip_ws_bounds(s, j2 + 1);
                    let j3 = skip_ws(s, j2 + 1);
                    if j3 < s.len() && s[j3] == '"' {
                        lemma_parse_string_body_bounds(s, j3 + 1);
                    }
                }
            },
            None => {},
        }
    }
}

/// The meaning of a comma-separated run of members starting at `i`: the
/// members in order and the position just after the last one.
pub open spec fn parse_members(s: Seq<char>, i: int) -> Option<
    (Seq<(Seq<char>, Seq<char>)>, int),
>
    decreases s.len() - i,
    when 0 <= i <= s.len()
    via parse_members_dec
{
    match parse_member(s, i) {
        Some((kv, j)) => {
            let j2 = skip_ws(s, j);
            if j2 < s.len() && s[j2] == ',' {
                let j3 = skip_ws(s, j2 + 1);
                match parse_members(s, j3) {
                    Some((rest, k)) => Some((seq![kv] + rest, k)),
                    None => None,
                }
            } else {
                Some((seq![kv], j))
            }
        },
        None => None,
    }
}

#[via_fn]
proof fn parse_members_dec(s: Seq<char>, i: int) {
    lemma_parse_member_bounds(s, i);
    match parse_member(s, i) {
        Some((kv, j)) => {
            lemma_skip_ws_bounds(s, j);
            let j2 = skip_ws(s, j);
            if j2 < s.len() && s[j2] == ',' {
                lemma_skip_ws_bounds(s, j2 + 1);
            }
        },
        None => {},
    }
}

pub proof fn lemma_parse_members_bounds(s: Seq<char>, i: int)
    requires
        0 <= i <= s.len(),
    ensures
        parse_members(s, i) matches Some((kvs, j)) ==> i < j <= s.len(),
    decreases s.len() - i,
{
    lemma_parse_member_bounds(s, i);
    match parse_member(s, i) {
        Some((kv, j)) => {
            lemma_skip_ws_bounds(s, j);
            let j2 = skip_ws(s, j);
            if j2 < s.len() && s[j2] == ',' {
                lemma_skip_ws_bounds(s, j2 + 1);
                lemma_parse_members_bounds(s, skip_ws(s, j2 + 1));
            }
        },
        None => {},
    }
}

/// The members of a record line: the whole line must be one object
/// `{ ... }` with nothing but whitespace around it.
pub open spec fn parse_object(s: Seq<char>) -> Option<Seq<(Seq<char>, Seq<char>)>> {
    let i0 = skip_ws(s, 0);
    if i0 < s.len() && s[i0] == '{' {
        let i1 = skip_ws(s, i0 + 1);
        if i1 < s.len() && s[i1] == '}' {
            if skip_ws(s, i1 + 1) == s.len() {
                Some(Seq::empty())
            } else {
                None
            }
        } else {
            match parse_members(s, i1) {
                Some((kvs, j)) => {
                    let j2 = skip_ws(s, j);
                    if j2 < s.len() && s[j2] == '}' && skip_ws(s, j2 + 1) == s.len() {
                        Some(kvs)
                    } else {
                        None
                    }
                },
                None => None,
            }
        }
    } else {
        None
    }
}

/// The value of a hexadecimal digit character, if it is one.
fn hex_digit(c: char) -> (r: Option<u32>)
    ensures
        match r {
            Some(v) => hex_digit_val(c) == v && v < 16,
            None => hex_digit_val(c) < 0,
        },
{
    let v = c as u32;
    if '0' as u32 <= v && v <= '9' as u32 {
        Some(v - '0' as u32)
    } else if 'a' as u32 <= v && v <= 'f' as u32 {
        Some(10 + v - 'a' as u32)
    } else if 'A' as u32 <= v && v <= 'F' as u32 {
        Some(10 + v - 'A' as u32)
    } else {
        None
    }
}

/// The character written by a short escape, if the letter is one.
fn unescape(e: char) -> (r: Option<char>)
    ensures
        r == escape_char(e),
{
    if e == '"' {
        Some('"')
    } else if e == '\\' {
        Some('\\')
    } else if e == '/' {
        Some('/')
    } else if e == 'b' {
        Some('\u{0008}')
    } else if e == 'f' {
        Some('\u{000C}')
    } else if e == 'n' {
        Some('\n')
    } else if e == 'r' {
        Some('\r')
    } else if e == 't' {
        Some('\t')
    } else {
        None
    }
}

/// Composition of an already-read prefix with the meaning of the rest of
/// a string body.
pub open spec fn body_with_prefix(prefix: Seq<char>, rest: Option<(Seq<char>, int)>) -> Option<
    (Seq<char>, int),
> {
    match rest {
        Some((t, j)) => Some((prefix + t, j)),
        None => None,
    }
}

/// Reads a string body beginning at `start` (just after the opening
/// quote); returns the denoted characters and the position after the
/// closing quote.
fn parse_string_body_str(s: &str, start: usize) -> (r: Option<(String, usize)>)
    requires
        start <= s@.len(),
    ensures
        match r {
            Some((v, j)) => parse_string_body(s@, start as int) == Some((v@, j as int)) && start
                < j <= s@.len(),
            None => parse_string_body(s@, start as int) is None,
        },
{
    proof {
        lemma_parse_string_body_bounds(s@, start as int);
    }
    let len = s.unicode_len();
    let mut acc: Vec<char> = Vec::new();
    let mut cur: usize = start;
    loop
        invariant
            start <= cur <= len,
            len == s@.len(),
            parse_string_body(s@, start as int) == body_with_prefix(
                acc@,
                parse_string_body(s@, cur as int),
            ),
        decreases len - cur,
    {
        proof {
            lemma_parse_string_body_bounds(s@, cur as int);
        }
        if cur >= len {
            return None;
        }
        let c = s.get_char(cur);
        if c == '"' {
            assert(acc@ + Seq::<char>::empty() =~= acc@);
            let out = chars_to_string(&acc);
            return Some((out, cur + 1));
        }
        if c == '\\' {
            if cur + 1 >= len {
                return None;
            }
            let e = s.get_char(cur + 1);
            if e == 'u' {
                if len - cur < 6 {
                    assert(uescape_val(s@, cur + 2) == -1);
                    return None;
                }
                let d0 = hex_digit(s.get_char(cur + 2));
                let d1 = hex_digit(s.get_char(cur + 3));
                let d2 = hex_digit(s.get_char(cur + 4));
                let d3 = hex_digit(s.get_char(cur + 5));
                match (d0, d1, d2, d3) {
                    (Some(v0), Some(v1), Some(v2), Some(v3)) => {
                        let v: u32 = v0 * 4096 + v1 * 256 + v2 * 16 + v3;
                        assert(v == uescape_val(s@, cur + 2));
                        if 0xD800 <= v && v <= 0xDFFF {
                            return None;
                        }
                        match char_from_u32(v) {
                            Some(u) => {
                                proof {
                                    lemma_parse_string_body_bounds(s@, cur + 6);
                                    match parse_string_body(s@, cur + 6) {
                                        Some((t, j)) => {
                                            assert(acc@ + (seq![u] + t) =~= acc@.push(u) + t);
                                        },
                                        None => {},
                                    }
                                }
                                acc.push(u);
                                cur = cur + 6;
                            },
                            None => {
                                assert(false);
                                return None;
                            },
                        }
                    },
                    _ => {
                        assert(uescape_val(s@, cur + 2) == -1);
                        return None;
                    },
                }
            } else {
                match unescape(e) {
                    Some(u) => {
                        proof {
                            lemma_parse_string_body_bounds(s@, cur + 2);
                            match parse_string_body(s@, cur + 2) {
                                Some((t, j)) => {
                                    assert(acc@ + (seq![u] + t) =~= acc@.push(u) + t);
                                },
                                None => {},
                            }
                        }
                        acc.push(u);
                        cur = cur + 2;
                    },
                    None => {
                        return None;
                    },
                }
            }
        } else if (c as u32) < 0x20 {
            return None;
        } else {
            proof {
                lemma_parse_string_body_bounds(s@, cur + 1);
                match parse_string_body(s@, cur + 1) {
                    Some((t, j)) => {
                        assert(acc@ + (seq![c] + t) =~= acc@.push(c) + t);
                    },
                    None => {},
                }
            }
            acc.push(c);
            cur = cur + 1;
        }
    }
}

/// Whether the character is whitespace between the tokens of a record.
fn is_record_ws_char(c: char) -> (r: bool)
    ensures
        r == is_record_ws(c),
{
    c == ' ' || c == '\t' || c == '\n' || c == '\r'
}

/// Advances past whitespace.
fn skip_ws_str(s: &str, i: usize) -> (r: usize)
    requires
        i <= s@.len(),
    ensures
        r == skip_ws(s@, i as int),
        i <= r <= s@.len(),
{
    let len = s.unicode_len();
    let mut cur: usize = i;
    while cur < len && is_record_ws_char(s.get_char(cur))
        invariant
            i <= cur <= len,
            len == s@.len(),
            skip_ws(s@, i as int) == skip_ws(s@, cur as int),
        decreases len - cur,
    {
        cur = cur + 1;
    }
    cur
}

/// Reads one `"key" : "value"` member beginning at `start`.
fn parse_member_str(s: &str, start: usize) -> (r: Option<(String, String, usize)>)
    requires
        start <= s@.len(),
    ensures
        match r {
            Some((k, v, j)) => parse_member(s@, start as int) == Some(
                ((k@, v@), j as int),
            ) && start < j <= s@.len(),
            None => parse_member(s@, start as int) is None,
        },
{
    let len = s.unicode_len();
    if start >= len || s.get_char(start) != '"' {
        return None;
    }
    let (k, j) = match parse_string_body_str(s, start + 1) {
        Some(p) => p,
        None => {
            return None;
        },
    };
    let j2 = skip_ws_str(s, j);
    if j2 >= len || s.get_char(j2) != ':' {
        return None;
    }
    let j3 = skip_ws_str(s, j2 + 1);
    if j3 >= len || s.get_char(j3) != '"' {
        return None;
    }
    match parse_string_body_str(s, j3 + 1) {
        Some((v, j4)) => Some((k, v, j4)),
        None => None,
    }
}

/// The member pairs of an exec parse, seen as their character sequences.
pub open spec fn members_view(kvs: Seq<(String, String)>) -> Seq<(Seq<char>, Seq<char>)> {
    kvs.map_values(|kv: (String, String)| (kv.0@, kv.1@))
}

/// Composition of already-read members with the meaning of the rest of a
/// member run.
pub open spec fn members_with_prefix(
    prefix: Seq<(Seq<char>, Seq<char>)>,
    rest: Option<(Seq<(Seq<char>, Seq<char>)>, int)>,
) -> Option<(Seq<(Seq<char>, Seq<char>)>, int)> {
    match rest {
        Some((t, j)) => Some((prefix + t, j)),
        None => None,
    }
}

/// Reads a comma-separated run of members beginning at `start`.
fn parse_members_str(s: &str, start: usize) -> (r: Option<(Vec<(String, String)>, usize)>)
    requires
        start <= s@.len(),
    ensures
        match r {
            Some((kvs, j)) => parse_members(s@, start as int) == Some(
                (members_view(kvs@), j as int),
            ) && start < j <= s@.len(),
            None => parse_members(s@, start as int) is None,
        },
{
    let len = s.unicode_len();
    let mut acc: Vec<(String, String)> = Vec::new();
    let mut cur: usize = start;
    loop
        invariant
            start <= cur <= len,
            len == s@.len(),
            parse_members(s@, start as int) == members_with_prefix(
                members_view(acc@),
                parse_members(s@, cur as int),
            ),
        decreases len - cur,
    {
        let (k, v, j) = match parse_member_str(s, cur) {
            Some(p) => p,
            None => {
                return None;
            },
        };
        let j2 = skip_ws_str(s, j);
        let ghost kv = (k@, v@);
        if j2 < len && s.get_char(j2) == ',' {
            let j3 = skip_ws_str(s, j2 + 1);
            proof {
                lemma_parse_members_bounds(s@, j3 as int);
                match parse_members(s@, j3 as int) {
                    Some((t, e)) => {
                        assert(members_view(acc@) + (seq![kv] + t) =~= members_view(
                            acc@.push((k, v)),
                        ) + t);
                    },
                    None => {},
                }
            }
            acc.push((k, v));
            if j3 <= cur {
                proof {
                    assert(false);
                }
            }
            cur = j3;
        } else {
            proof {
                assert(parse_members(s@, cur as int) == Some((seq![kv], j as int)));
                assert(members_view(acc@) + seq![kv] =~= members_view(acc@.push((k, v))));
            }
            acc.push((k, v));
            return Some((acc, j));
        }
    }
}

/// Reads a whole record line as an object of string members; the line
/// must hold nothing else.
fn parse_object_str(s: &str) -> (r: Option<Vec<(String, String)>>)
    ensures
        match r {
            Some(kvs) => parse_object(s@) == Some(members_view(kvs@)),
            None => parse_object(s@) is None,
        },
{
    let len = s.unicode_len();
    let i0 = skip_ws_str(s, 0);
    if i0 >= len || s.get_char(i0) != '{' {
        return None;
    }
    let i1 = skip_ws_str(s, i0 + 1);
    if i1 < len && s.get_char(i1) == '}' {
        if skip_ws_str(s, i1 + 1) == len {
            let out: Vec<(String, String)> = Vec::new();
            assert(members_view(out@) =~= Seq::<(Seq<char>, Seq<char>)>::empty());
            return Some(out);
        } else {
            return None;
        }
    }
    match parse_members_str(s, i1) {
        Some((kvs, j)) => {
            let j2 = skip_ws_str(s, j);
            if j2 < len && s.get_char(j2) == '}' && skip_ws_str(s, j2 + 1) == len {
                Some(kvs)
            } else {
                None
            }
        },
        None => None,
    }
}

/// The seven texts of a well-formed record line.
pub struct RecordText {
    pub timestamp: Seq<char>,
    pub host: Seq<char>,
    pub severity: Seq<char>,
    pub facility: Seq<char>,
    pub syslog_tag: Seq<char>,
    pub source: Seq<char>,
    pub message: Seq<char>,
}

/// The keys of a member run, in order.
pub open spec fn keys_of(kvs: Seq<(Seq<char>, Seq<char>)>) -> Seq<Seq<char>> {
    kvs.map_values(|kv: (Seq<char>, Seq<char>)| kv.0)
}

/// The value stored under `key`, taking the first member that carries it.
pub open spec fn lookup(kvs: Seq<(Seq<char>, Seq<char>)>, key: Seq<char>) -> Option<Seq<char>>
    decreases kvs.len(),
{
    if kvs.len() == 0 {
        None
    } else if kvs[0].0 == key {
        Some(kvs[0].1)
    } else {
        lookup(kvs.skip(1), key)
    }
}

/// The record a line denotes: the line must parse as an object, carry no
/// duplicate key, and hold all seven required fields.
pub open spec fn record_of_line(s: Seq<char>) -> Option<RecordText> {
    match parse_object(s) {
        Some(kvs) => {
            if keys_of(kvs).no_duplicates() {
                match (
                    lookup(kvs, "timestamp"@),
                    lookup(kvs, "host"@),
                    lookup(kvs, "severity"@),
                    lookup(kvs, "facility"@),
                    lookup(kvs, "syslog_tag"@),
                    lookup(kvs, "source"@),
                    lookup(kvs, "message"@),
                ) {
                    (
                        Some(ts),
                        Some(h),
                        Some(sv),
                        Some(fc),
                        Some(tg),
                        Some(sr),
                        Some(ms),
                    ) => Some(
                        RecordText {
                            timestamp: ts,
                            host: h,
                            severity: sv,
                            facility: fc,
                            syslog_tag: tg,
                            source: sr,
                            message: ms,
                        },
                    ),
                    _ => None,
                }
            } else {
                None
            }
        },
        None => None,
    }
}

/// A transient, untrusted disk record: the seven texts of one parsed
/// line, consumed immediately by mapping into a `LogEntry`.
#[derive(Debug, Clone)]
pub struct DiskLogEntryDto {
    pub timestamp: String,
    pub host: String,
    pub severity: String,
    pub facility: String,
    pub syslog_tag: String,
    pub source: String,
    pub message: String,
}

/// The texts a DTO holds.
pub open spec fn dto_text(d: DiskLogEntryDto) -> RecordText {
    RecordText {
        timestamp: d.timestamp@,
        host: d.host@,
        severity: d.severity@,
        facility: d.facility@,
        syslog_tag: d.syslog_tag@,
        source: d.source@,
        message: d.message@,
    }
}

/// Whether the member keys are pairwise distinct.
fn keys_unique(kvs: &Vec<(String, String)>) -> (r: bool)
    ensures
        r == keys_of(members_view(kvs@)).no_duplicates(),
{
    let ghost keys = keys_of(members_view(kvs@));
    assert(keys.len() == kvs@.len());
    let mut i: usize = 0;
    while i < kvs.len()
        invariant
            0 <= i <= kvs@.len(),
            keys == keys_of(members_view(kvs@)),
            keys.len() == kvs@.len(),
            forall|p: int, q: int| 0 <= p < q < i ==> keys[p] != keys[q],
        decreases kvs@.len() - i,
    {
        let mut j: usize = 0;
        while j < i
            invariant
                0 <= j <= i < kvs@.len(),
                keys == keys_of(members_view(kvs@)),
                keys.len() == kvs@.len(),
                forall|q: int| 0 <= q < j ==> keys[q] != keys[i as int],
            decreases i - j,
        {
            if kvs[j].0 == kvs[i].0 {
                assert(keys[j as int] == keys[i as int]);
                return false;
            }
            assert(keys[j as int] != keys[i as int]);
            j = j + 1;
        }
        i = i + 1;
    }
    true
}

/// The value stored under `key`, if any member carries it.
fn lookup_value(kvs: &Vec<(String, String)>, key: &str) -> (r: Option<String>)
    ensures
        match r {
            Some(v) => lookup(members_view(kvs@), key@) == Some(v@),
            None => lookup(members_view(kvs@), key@) is None,
        },
{
    let key_owned = String::from_str(key);
    assert(members_view(kvs@).skip(0) =~= members_view(kvs@));
    let mut i: usize = 0;
    while i < kvs.len()
        invariant
            0 <= i <= kvs@.len(),
            key_owned@ == key@,
            lookup(members_view(kvs@), key@) == lookup(
                members_view(kvs@).skip(i as int),
                key@,
            ),
        decreases kvs@.len() - i,
    {
        let p = &kvs[i];
        let ghost m = members_view(kvs@);
        assert(m.skip(i as int)[0] == m[i as int]);
        if p.0 == key_owned {
            return Some(p.1.clone());
        }
        assert(m.skip(i as int).skip(1) =~= m.skip(i as int + 1));
        i = i + 1;
    }
    assert(members_view(kvs@).skip(i as int) =~= Seq::<(Seq<char>, Seq<char>)>::empty());
    None
}

/// Reads one line as a disk record.  The result is `Ok` exactly when the
/// grammar above assigns the line a record, and then holds that record's
/// seven texts; otherwise the line is malformed.
pub fn parse_record_line(line: &str) -> (r: Result<DiskLogEntryDto, RepositoryError>)
    ensures
        match r {
            Ok(d) => record_of_line(line@) == Some(dto_text(d)),
            Err(e) => e == RepositoryError::MalformedRecord && record_of_line(line@) is None,
        },
{
    let kvs = match parse_object_str(line) {
        Some(kvs) => kvs,
        None => {
            return Err(RepositoryError::MalformedRecord);
        },
    };
    if !keys_unique(&kvs) {
        return Err(RepositoryError::MalformedRecord);
    }
    let timestamp = lookup_value(&kvs, "timestamp");
    let host = lookup_value(&kvs, "host");
    let severity = lookup_value(&kvs, "severity");
    let facility = lookup_value(&kvs, "facility");
    let syslog_tag = lookup_value(&kvs, "syslog_tag");
    let source = lookup_value(&kvs, "source");
    let message = lookup_value(&kvs, "message");
    match (timestamp, host, severity, facility, syslog_tag, source, message) {
        (Some(ts), Some(h), Some(sv), Some(fc), Some(tg), Some(sr), Some(ms)) => Ok(
            DiskLogEntryDto {
                timestamp: ts,
                host: h,
                severity: sv,
                facility: fc,
                syslog_tag: tg,
                source: sr,
                message: ms,
            },
        ),
        _ => Err(RepositoryError::MalformedRecord),
    }
}

/// What one ingested line contributes to the store: the parsed instant
/// and the six texts taken verbatim.
pub struct EntryModel {
    pub timestamp: i64,
    pub host: Seq<char>,
    pub severity: Seq<char>,
    pub facility: Seq<char>,
    pub syslog_tag: Seq<char>,
    pub source: Seq<char>,
    pub message: Seq<char>,
}

/// The contribution of a record whose timestamp text denotes an instant.
pub open spec fn model_of_record(t: RecordText) -> Option<EntryModel> {
    match rfc3339_micros(t.timestamp) {
        Some(m) => Some(
            EntryModel {
                timestamp: m,
                host: t.host,
                severity: t.severity,
                facility: t.facility,
                syslog_tag: t.syslog_tag,
                source: t.source,
                message: t.message,
            },
        ),
        None => None,
    }
}

/// The contribution of one line, or `None` when the line is malformed or
/// its timestamp is not RFC 3339.
pub open spec fn model_of_line(l: Seq<char>) -> Option<EntryModel> {
    match record_of_line(l) {
        Some(t) => model_of_record(t),
        None => None,
    }
}

/// A log entry realises a model when every field but the identity equals
/// the model's; the identity is fresh and not determined.
pub open spec fn entry_matches_model(e: LogEntry, m: EntryModel) -> bool {
    &&& e.timestamp == m.timestamp
    &&& e.host@ == m.host
    &&& e.severity@ == m.severity
    &&& e.facility@ == m.facility
    &&& e.syslog_tag@ == m.syslog_tag
    &&& e.source@ == m.source
    &&& e.message@ == m.message
}

/// Maps a parsed disk record to a canonical log entry: assigns a fresh
/// identity, reads the textual timestamp as an RFC 3339 instant, and
/// copies the six remaining texts verbatim.
pub fn map_record(dto: &DiskLogEntryDto) -> (r: Result<LogEntry, RepositoryError>)
    ensures
        match r {
            Ok(e) => model_of_record(dto_text(*dto)) matches Some(m) && entry_matches_model(e, m),
            Err(err) => err == RepositoryError::InvalidTimestamp && model_of_record(
                dto_text(*dto),
            ) is None,
        },
{
    match parse_rfc3339_micros(dto.timestamp.as_str()) {
        Some(micros) => Ok(
            LogEntry {
                id: fresh_id(),
                timestamp: micros,
                host: dto.host.clone(),
                severity: dto.severity.clone(),
                facility: dto.facility.clone(),
                syslog_tag: dto.syslog_tag.clone(),
                source: dto.source.clone(),
                message: dto.message.clone(),
            },
        ),
        None => Err(RepositoryError::InvalidTimestamp),
    }
}

/// Reads one line and maps it to a log entry ready to persist.  `Ok`
/// exactly when the line contributes a model; the errors tell a malformed
/// line from a bad timestamp.
pub fn ingest_line(line: &str) -> (r: Result<LogEntry, RepositoryError>)
    ensures
        match r {
            Ok(e) => model_of_line(line@) matches Some(m) && entry_matches_model(e, m),
            Err(err) => model_of_line(line@) is None && (err
                == RepositoryError::MalformedRecord && record_of_line(line@) is None || err
                == RepositoryError::InvalidTimestamp && record_of_line(line@) is Some),
        },
{
    let dto = match parse_record_line(line) {
        Ok(d) => d,
        Err(e) => {
            return Err(e);
        },
    };
    match map_record(&dto) {
        Ok(entry) => Ok(entry),
        Err(e) => Err(e),
    }
}

} // verus!
