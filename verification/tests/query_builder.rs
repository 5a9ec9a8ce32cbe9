use ferri_log::entities::LogEntryFilter;
use ferri_log::query::{LogEntryFilterQueryBuilder, QueryParam};

fn empty_filter() -> LogEntryFilter {
    LogEntryFilter {
        time: None,
        host: None,
        severity: None,
        facility: None,
        syslog_tag: None,
        source: None,
    }
}

#[test]
fn zero_fields_mean_no_predicate() {
    let q = LogEntryFilterQueryBuilder::new(empty_filter()).to_sql_query();
    assert_eq!(q.text, "SELECT * FROM logs");
    assert!(q.params.is_empty());
}

#[test]
fn all_six_fields_in_fixed_order() {
    let filter = LogEntryFilter {
        time: Some(1_672_531_200_000_000),
        host: Some("web1".into()),
        severity: Some("err".into()),
        facility: Some("cron".into()),
        syslog_tag: Some("tag".into()),
        source: Some("sshd".into()),
    };
    let q = LogEntryFilterQueryBuilder::new(filter).to_sql_query();
    assert_eq!(
        q.text,
        "SELECT * FROM logs WHERE time = ? AND host = ? AND severity = ? AND facility = ? AND syslog_tag = ? AND source = ?"
    );
    assert_eq!(q.params.len(), 6);
    assert!(matches!(q.params[0], QueryParam::Instant(1_672_531_200_000_000)));
    assert!(matches!(q.params[1], QueryParam::Text(ref s) if s == "web1"));
    assert!(matches!(q.params[2], QueryParam::Text(ref s) if s == "err"));
    assert!(matches!(q.params[3], QueryParam::Text(ref s) if s == "cron"));
    assert!(matches!(q.params[4], QueryParam::Text(ref s) if s == "tag"));
    assert!(matches!(q.params[5], QueryParam::Text(ref s) if s == "sshd"));
}

#[test]
fn a_subset_keeps_the_fixed_order() {
    let mut filter = empty_filter();
    filter.host = Some("web1".into());
    filter.source = Some("sshd".into());
    let q = LogEntryFilterQueryBuilder::new(filter).to_sql_query();
    assert_eq!(q.text, "SELECT * FROM logs WHERE host = ? AND source = ?");
    assert_eq!(q.params.len(), 2);
}

#[test]
fn values_never_reach_the_text() {
    let hostile = "x' OR '1'='1";
    let mut filter = empty_filter();
    filter.host = Some(hostile.into());
    let q = LogEntryFilterQueryBuilder::new(filter).to_sql_query();
    assert_eq!(q.text, "SELECT * FROM logs WHERE host = ?");
    assert!(!q.text.contains(hostile));
    assert!(!q.text.contains('\''));
    assert!(matches!(q.params[0], QueryParam::Text(ref s) if s == hostile));
}
