use ferri_log::blacklist::{derive_pattern, suppresses};
use ferri_log::entities::{BlacklistEntry, LogEntry};
use ferri_log::repository::{BlacklistRepository, LogRepository, MemBlacklistRepo, MemLogRepo};
use ferri_log::service::{add_to_blacklist, delete_entry_from_blacklist, get_all_logs, get_blacklist};

fn entry_with_message(id: u128, facility: &str, source: &str, message: &str) -> LogEntry {
    LogEntry {
        id,
        timestamp: 0,
        host: "web1".into(),
        severity: "err".into(),
        facility: facility.into(),
        syslog_tag: "tag".into(),
        source: source.into(),
        message: message.into(),
    }
}

fn rule(facility: &str, source: &str, message: &str) -> BlacklistEntry {
    BlacklistEntry {
        id: 1,
        facility: facility.into(),
        source: source.into(),
        message: message.into(),
    }
}

#[test]
fn suppresses_on_substring_match() {
    let rules = vec![rule("cron", "sshd", "Failed password")];
    let candidate = entry_with_message(2, "cron", "sshd", "[12345] Failed password for root");
    assert!(suppresses(&rules, &candidate));
}

#[test]
fn does_not_suppress_when_facility_differs() {
    let rules = vec![rule("cron", "sshd", "Failed password")];
    let candidate = entry_with_message(2, "auth", "sshd", "[12345] Failed password for root");
    assert!(!suppresses(&rules, &candidate));
}

#[test]
fn does_not_suppress_when_source_differs_or_list_is_empty() {
    let rules = vec![rule("cron", "sshd", "Failed password")];
    let candidate = entry_with_message(2, "cron", "nginx", "[12345] Failed password for root");
    assert!(!suppresses(&rules, &candidate));
    assert!(!suppresses(&Vec::new(), &candidate));
}

#[test]
fn derives_the_pattern_after_the_bracketed_prefix() {
    let log = entry_with_message(3, "cron", "sshd", "[pid:99] disk full on /var");
    let (facility, source, pattern) = derive_pattern(&log);
    assert_eq!(facility, "cron");
    assert_eq!(source, "sshd");
    assert_eq!(pattern, "] disk full on /var");
}

#[test]
fn derives_the_whole_message_without_a_bracket() {
    let log = entry_with_message(3, "cron", "sshd", "disk full");
    let (_, _, pattern) = derive_pattern(&log);
    assert_eq!(pattern, "disk full");
}

#[test]
fn derive_pattern_trims_and_tolerates_missing_close() {
    let log = entry_with_message(3, "f", "s", "  spaced out  ");
    let (_, _, pattern) = derive_pattern(&log);
    assert_eq!(pattern, "spaced out");

    let log = entry_with_message(3, "f", "s", "[no close bracket");
    let (_, _, pattern) = derive_pattern(&log);
    assert_eq!(pattern, "[no close bracket");
}

#[test]
fn query_side_hides_suppressed_logs() {
    let mut logs = MemLogRepo::new();
    let mut blk = MemBlacklistRepo::new();

    logs.create_log(entry_with_message(1, "cron", "sshd", "[77] Failed password for root"))
        .unwrap();
    logs.create_log(entry_with_message(2, "mail", "postfix", "queue empty")).unwrap();
    blk.create_entry(9, "sshd", "cron", "Failed password").unwrap();

    let visible = get_all_logs(&logs, &blk).unwrap();
    assert_eq!(visible.len(), 1);
    assert_eq!(visible[0].id, 2);
}

#[test]
fn promotes_a_log_entry_to_a_blacklist_rule() {
    let mut logs = MemLogRepo::new();
    let mut blk = MemBlacklistRepo::new();

    logs.create_log(entry_with_message(5, "cron", "sshd", "[pid:99] disk full on /var"))
        .unwrap();

    let eid = add_to_blacklist(5, &logs, &mut blk).unwrap();
    assert_eq!(eid, 5);

    let rules = get_blacklist(&blk).unwrap();
    assert_eq!(rules.len(), 1);
    assert_eq!(rules[0].facility, "cron");
    assert_eq!(rules[0].source, "sshd");
    assert_eq!(rules[0].message, "] disk full on /var");

    let now_hidden = get_all_logs(&logs, &blk).unwrap();
    assert_eq!(now_hidden.len(), 0);

    delete_entry_from_blacklist(5, &mut blk).unwrap();
    assert_eq!(get_blacklist(&blk).unwrap().len(), 0);
    assert_eq!(get_all_logs(&logs, &blk).unwrap().len(), 1);
}
